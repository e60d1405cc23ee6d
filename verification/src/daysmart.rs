//! Schedule correlation over a fetched team document: name lookup tables,
//! locker-room assignment, upcoming-game selection and message formatting.
//!
//! The document arrives already shaped (see [`crate::model`]); one pass
//! below derives every lookup table. Start times written as RFC 3339 are
//! read by an outside date library behind a named result; the fixed
//! fallback pattern and everything downstream is verified here.

use vstd::prelude::*;

use crate::model::{EventAttributes, EventType, GameCore, GameInfo, Included, Team, TeamDocument};
use crate::text::{parse_i64, parse_i64_spec, str_to_chars};
use crate::time::{epoch_seconds_exec, epoch_seconds_of, parse_iso_basic, parse_iso_basic_spec};
use std::collections::HashMap;

verus! {

broadcast use vstd::std_specs::hash::group_hash_axioms;

/// One locker-room record kept for the nearest-time fallback search: the
/// sides it names, its resource and its start instant, when readable.
#[derive(Debug, Clone, Copy, PartialEq, Eq, Structural)]
pub struct LockerCandidate {
    pub h_id: Option<i64>,
    pub v_id: Option<i64>,
    pub res_id: Option<i64>,
    pub start_epoch: Option<i64>,
}

/// Everything one pass over the document derives. A specification-level
/// value: the executable tables are compared against it field by field.
pub struct ScheduleMaps {
    pub team_names: Map<i64, Seq<char>>,
    pub resource_names: Map<i64, Seq<char>>,
    pub locker_map: Map<i64, (Option<i64>, Option<i64>)>,
    pub games: Seq<(i64, GameCore)>,
    pub lockers: Seq<LockerCandidate>,
}

/// The event-kind discriminator is a single letter compared without regard
/// to ASCII case: `g` marks a game.
pub open spec fn is_game_tag(s: Seq<char>) -> bool {
    s.len() == 1 && (s[0] == 'g' || s[0] == 'G')
}

/// `L` marks a locker-room assignment.
pub open spec fn is_locker_tag(s: Seq<char>) -> bool {
    s.len() == 1 && (s[0] == 'l' || s[0] == 'L')
}

/// Logical kind of an event record, read from its discriminator.
pub open spec fn event_type_of_spec(tag: Option<String>) -> EventType {
    match tag {
        Some(s) => if is_game_tag(s@) {
            EventType::Game
        } else if is_locker_tag(s@) {
            EventType::LockerRoom
        } else {
            EventType::Unknown
        },
        None => EventType::Unknown,
    }
}

/// The side flag is the single letter `h`, compared without regard to
/// ASCII case; any other value, or none, means the away side.
pub open spec fn is_home_flag(flag: Option<String>) -> bool {
    match flag {
        Some(s) => s@.len() == 1 && (s@[0] == 'h' || s@[0] == 'H'),
        None => false,
    }
}

/// The instant lies well inside the range the calendar library converts:
/// every four-digit-year reading lands here, and every instant here has a
/// civil reading in any zone.
pub open spec fn convertible_epoch(t: int) -> bool {
    -62167305600 <= t <= 290000000000
}

/// The instant an RFC 3339 text denotes, in epoch seconds; nothing when
/// the text is not a well-formed RFC 3339 timestamp.
pub uninterp spec fn rfc3339_epoch(s: Seq<char>) -> Option<i64>;

/// Relies on `chrono::DateTime::parse_from_rfc3339`: whether a text parses,
/// and which instant it denotes, depend on the text alone; `timestamp`
/// returns that instant's epoch seconds. The RFC 3339 grammar keeps the
/// year to four digits and the offset under a day, so a parsed instant
/// stays between the years 0000 and 9999.
#[verifier::external_body]
fn parse_rfc3339_epoch(s: &str) -> (r: Option<i64>)
    ensures
        r == rfc3339_epoch(s@),
        r matches Some(t) ==> convertible_epoch(t as int),
{
    chrono::DateTime::parse_from_rfc3339(s).ok().map(|dt| dt.timestamp())
}

/// Reading of a start field on the fixed fallback pattern, as an instant
/// taken to be already UTC.
pub open spec fn fixed_epoch_of(s: Seq<char>) -> Option<i64> {
    match parse_iso_basic_spec(s) {
        Some(c) => Some(epoch_seconds_of(c) as i64),
        None => None,
    }
}

fn fixed_epoch(s: &str) -> (r: Option<i64>)
    ensures
        r == fixed_epoch_of(s@),
        r matches Some(t) ==> convertible_epoch(t as int),
{
    let v: Vec<char> = str_to_chars(s);
    match parse_iso_basic(&v) {
        Some(c) => {
            let t: i64 = epoch_seconds_exec(&c);
            Some(t)
        },
        None => None,
    }
}

/// RFC 3339 reading of an optional field.
pub open spec fn attempt_rfc(f: Option<String>) -> Option<i64> {
    match f {
        Some(s) => rfc3339_epoch(s@),
        None => None,
    }
}

/// Fallback-pattern reading of an optional field.
pub open spec fn attempt_fixed(f: Option<String>) -> Option<i64> {
    match f {
        Some(s) => fixed_epoch_of(s@),
        None => None,
    }
}

/// Start instant of an event: the first reading that succeeds of, in
/// order, the GMT field as RFC 3339, the local field as RFC 3339, then
/// each on the fixed fallback pattern read as UTC.
pub open spec fn start_epoch_of(a: EventAttributes) -> Option<i64> {
    if attempt_rfc(a.start_gmt) is Some {
        attempt_rfc(a.start_gmt)
    } else if attempt_rfc(a.start) is Some {
        attempt_rfc(a.start)
    } else if attempt_fixed(a.start_gmt) is Some {
        attempt_fixed(a.start_gmt)
    } else {
        attempt_fixed(a.start)
    }
}

fn start_epoch_exec(a: &EventAttributes) -> (r: Option<i64>)
    ensures
        r == start_epoch_of(*a),
        r matches Some(t) ==> convertible_epoch(t as int),
{
    let r1: Option<i64> = match &a.start_gmt {
        Some(s) => parse_rfc3339_epoch(s.as_str()),
        None => None,
    };
    if r1.is_some() {
        return r1;
    }
    let r2: Option<i64> = match &a.start {
        Some(s) => parse_rfc3339_epoch(s.as_str()),
        None => None,
    };
    if r2.is_some() {
        return r2;
    }
    let r3: Option<i64> = match &a.start_gmt {
        Some(s) => fixed_epoch(s.as_str()),
        None => None,
    };
    if r3.is_some() {
        return r3;
    }
    match &a.start {
        Some(s) => fixed_epoch(s.as_str()),
        None => None,
    }
}

/// Every stored game's start instant has a civil reading in the
/// notification zone. Tables built from a document always satisfy this:
/// both start readings land inside `convertible_epoch`.
pub open spec fn games_convertible(games: Seq<(i64, GameCore)>) -> bool {
    forall|j: int| 0 <= j < games.len() ==> convertible_epoch((#[trigger] games[j]).1.start_epoch as int)
}

/// No two entries of the game list carry the same event id.
pub open spec fn game_ids_unique(games: Seq<(i64, GameCore)>) -> bool {
    forall|j: int, k: int| 0 <= j < k < games.len() ==> (#[trigger] games[j]).0 != (
    #[trigger] games[k]).0
}

/// Store a game under its id: a repeated id replaces the stored record in
/// place, a new id goes to the end.
pub open spec fn upsert_game(games: Seq<(i64, GameCore)>, gid: i64, core: GameCore) -> Seq<
    (i64, GameCore),
> {
    if exists|j: int| 0 <= j < games.len() && (#[trigger] games[j]).0 == gid {
        let j = choose|j: int| 0 <= j < games.len() && (#[trigger] games[j]).0 == gid;
        games.update(j, (gid, core))
    } else {
        games.push((gid, core))
    }
}

/// The state before any included record: the lookup tables are empty but
/// for the root team's own name, seeded so that the team resolves even
/// when absent from the included list.
pub open spec fn initial_state(root: Team) -> ScheduleMaps {
    ScheduleMaps {
        team_names: match parse_i64_spec(root.id@) {
            Some(tid) => Map::<i64, Seq<char>>::empty().insert(tid, root.attributes.name@),
            None => Map::<i64, Seq<char>>::empty(),
        },
        resource_names: Map::<i64, Seq<char>>::empty(),
        locker_map: Map::<i64, (Option<i64>, Option<i64>)>::empty(),
        games: Seq::<(i64, GameCore)>::empty(),
        lockers: Seq::<LockerCandidate>::empty(),
    }
}

/// Effect of one locker-room record: with both a parent id and a resource
/// it assigns that resource to its side of the parent game; every
/// locker-room record also joins the fallback candidate list.
pub open spec fn apply_locker(st: ScheduleMaps, a: EventAttributes) -> ScheduleMaps {
    let st1 = match (a.parent_event_id, a.resource_id) {
        (Some(gid), Some(rid)) => {
            let entry = if st.locker_map.contains_key(gid) {
                st.locker_map[gid]
            } else {
                (None, None)
            };
            let entry2 = if is_home_flag(a.locker_room_type) {
                (Some(rid), entry.1)
            } else {
                (entry.0, Some(rid))
            };
            ScheduleMaps { locker_map: st.locker_map.insert(gid, entry2), ..st }
        },
        _ => st,
    };
    ScheduleMaps {
        lockers: st1.lockers.push(
            LockerCandidate {
                h_id: a.hteam_id,
                v_id: a.vteam_id,
                res_id: a.resource_id,
                start_epoch: start_epoch_of(a),
            },
        ),
        ..st1
    }
}

/// Effect of one game record: with a readable start and a numeric id its
/// core joins the game list; otherwise the record is dropped silently.
pub open spec fn apply_game(st: ScheduleMaps, id: String, a: EventAttributes) -> ScheduleMaps {
    match (start_epoch_of(a), parse_i64_spec(id@)) {
        (Some(t), Some(gid)) => ScheduleMaps {
            games: upsert_game(
                st.games,
                gid,
                GameCore { start_epoch: t, h_id: a.hteam_id, v_id: a.vteam_id, res_id: a.resource_id },
            ),
            ..st
        },
        _ => st,
    }
}

/// Effect of one included record on the derived state. A record whose id
/// does not read as a number, or whose required fields are missing, is
/// skipped without failing the document.
pub open spec fn apply_item(st: ScheduleMaps, item: Included) -> ScheduleMaps {
    match item {
        Included::TeamIncluded { id, attributes } => match parse_i64_spec(id@) {
            Some(tid) => ScheduleMaps {
                team_names: st.team_names.insert(tid, attributes.name@),
                ..st
            },
            None => st,
        },
        Included::Resource { id, attributes } => match (parse_i64_spec(id@), attributes.name) {
            (Some(rid), Some(name)) => ScheduleMaps {
                resource_names: st.resource_names.insert(rid, name@),
                ..st
            },
            _ => st,
        },
        Included::Event { id, attributes } => match event_type_of_spec(attributes.event_type_id) {
            EventType::LockerRoom => apply_locker(st, attributes),
            EventType::Game => apply_game(st, id, attributes),
            EventType::Unknown => st,
        },
        Included::Other => st,
    }
}

/// The derived state after one pass over the included records, in order.
pub open spec fn build_state(root: Team, items: Seq<Included>) -> ScheduleMaps
    decreases items.len(),
{
    if items.len() == 0 {
        initial_state(root)
    } else {
        apply_item(build_state(root, items.drop_last()), items.last())
    }
}

/// A name table seen through the views of its strings.
pub open spec fn names_view(m: Map<i64, String>) -> Map<i64, Seq<char>> {
    m.map_values(|s: String| s@)
}

proof fn lemma_names_view_insert(m: Map<i64, String>, k: i64, v: String)
    ensures
        names_view(m.insert(k, v)) =~= names_view(m).insert(k, v@),
{
}

/// The derived schedule of one team: lookup tables and normalized game
/// records, all built in one pass over a fetched document.
#[derive(Debug)]
pub struct DaySmart {
    pub our_team_id: Option<i64>,
    pub team_names: HashMap<i64, String>,
    pub resource_names: HashMap<i64, String>,
    pub locker_map: HashMap<i64, (Option<i64>, Option<i64>)>,
    pub games: Vec<(i64, GameCore)>,
    pub lockers: Vec<LockerCandidate>,
}

/// The executable tables agree with a derived state, field by field.
pub open spec fn matches_state(d: DaySmart, st: ScheduleMaps) -> bool {
    &&& names_view(d.team_names@) == st.team_names
    &&& names_view(d.resource_names@) == st.resource_names
    &&& d.locker_map@ == st.locker_map
    &&& d.games@ == st.games
    &&& d.lockers@ == st.lockers
}

fn event_type_exec(tag: &Option<String>) -> (r: EventType)
    ensures
        r == event_type_of_spec(*tag),
{
    match tag {
        Some(s) => {
            let v: Vec<char> = str_to_chars(s.as_str());
            if v.len() == 1 && (v[0] == 'g' || v[0] == 'G') {
                EventType::Game
            } else if v.len() == 1 && (v[0] == 'l' || v[0] == 'L') {
                EventType::LockerRoom
            } else {
                EventType::Unknown
            }
        },
        None => EventType::Unknown,
    }
}

fn is_home_flag_exec(flag: &Option<String>) -> (r: bool)
    ensures
        r == is_home_flag(*flag),
{
    match flag {
        Some(s) => {
            let v: Vec<char> = str_to_chars(s.as_str());
            v.len() == 1 && (v[0] == 'h' || v[0] == 'H')
        },
        None => false,
    }
}

fn parse_id(id: &String) -> (r: Option<i64>)
    ensures
        r == parse_i64_spec(id@),
{
    let v: Vec<char> = str_to_chars(id.as_str());
    parse_i64(&v)
}

impl DaySmart {
    /// Derive every lookup table from a fetched document in one pass:
    /// team and resource names (last write wins on a repeated id), the
    /// locker-room assignment per game, the normalized game list in
    /// document order, and the locker-room fallback candidates.
    pub fn from_document(doc: TeamDocument) -> (r: DaySmart)
        ensures
            r.our_team_id == parse_i64_spec(doc.data.id@),
            matches_state(r, build_state(doc.data, doc.included@)),
            game_ids_unique(r.games@),
            games_convertible(r.games@),
    {
        let TeamDocument { data, included } = doc;
        let ghost gdata: Team = data;
        let ghost gitems: Seq<Included> = included@;

        let our_team_id: Option<i64> = parse_id(&data.id);
        let mut team_names: HashMap<i64, String> = HashMap::new();
        let mut resource_names: HashMap<i64, String> = HashMap::new();
        let mut locker_map: HashMap<i64, (Option<i64>, Option<i64>)> = HashMap::new();
        let mut games: Vec<(i64, GameCore)> = Vec::new();
        let mut lockers: Vec<LockerCandidate> = Vec::new();

        match our_team_id {
            Some(tid) => {
                team_names.insert(tid, data.attributes.name);
                proof {
                    lemma_names_view_insert(Map::empty(), tid, gdata.attributes.name);
                    assert(names_view(Map::empty()) =~= Map::<i64, Seq<char>>::empty());
                }
            },
            None => {
                proof {
                    assert(names_view(Map::empty()) =~= Map::<i64, Seq<char>>::empty());
                }
            },
        }
        proof {
            assert(gitems.subrange(0, 0) =~= Seq::<Included>::empty());
        }

        let n: usize = included.len();
        let mut i: usize = 0;
        while i < n
            invariant
                n == included@.len(),
                i <= n,
                included@ == gitems,
                names_view(team_names@) == build_state(gdata, gitems.subrange(0, i as int)).team_names,
                names_view(resource_names@) == build_state(
                    gdata,
                    gitems.subrange(0, i as int),
                ).resource_names,
                locker_map@ == build_state(gdata, gitems.subrange(0, i as int)).locker_map,
                games@ == build_state(gdata, gitems.subrange(0, i as int)).games,
                lockers@ == build_state(gdata, gitems.subrange(0, i as int)).lockers,
                game_ids_unique(games@),
                games_convertible(games@),
            decreases n - i,
        {
            let ghost prefix: Seq<Included> = gitems.subrange(0, i as int);
            let ghost prefix1: Seq<Included> = gitems.subrange(0, i + 1 as int);
            proof {
                assert(prefix1.drop_last() =~= prefix);
                assert(prefix1.last() == gitems[i as int]);
            }
            let item: &Included = &included[i];
            match item {
                Included::TeamIncluded { id, attributes } => {
                    match parse_id(id) {
                        Some(tid) => {
                            let ghost old_map: Map<i64, String> = team_names@;
                            team_names.insert(tid, attributes.name.clone());
                            proof {
                                lemma_names_view_insert(old_map, tid, attributes.name);
                            }
                        },
                        None => {},
                    }
                },
                Included::Resource { id, attributes } => {
                    match (parse_id(id), &attributes.name) {
                        (Some(rid), Some(name)) => {
                            let ghost old_map: Map<i64, String> = resource_names@;
                            resource_names.insert(rid, name.clone());
                            proof {
                                lemma_names_view_insert(old_map, rid, *name);
                            }
                        },
                        _ => {},
                    }
                },
                Included::Event { id, attributes } => {
                    match event_type_exec(&attributes.event_type_id) {
                        EventType::LockerRoom => {
                            match (attributes.parent_event_id, attributes.resource_id) {
                                (Some(gid), Some(rid)) => {
                                    let entry: (Option<i64>, Option<i64>) = match locker_map.get(
                                        &gid,
                                    ) {
                                        Some(e) => *e,
                                        None => (None, None),
                                    };
                                    let entry2: (Option<i64>, Option<i64>) = if is_home_flag_exec(
                                        &attributes.locker_room_type,
                                    ) {
                                        (Some(rid), entry.1)
                                    } else {
                                        (entry.0, Some(rid))
                                    };
                                    locker_map.insert(gid, entry2);
                                },
                                _ => {},
                            }
                            let se: Option<i64> = start_epoch_exec(attributes);
                            lockers.push(
                                LockerCandidate {
                                    h_id: attributes.hteam_id,
                                    v_id: attributes.vteam_id,
                                    res_id: attributes.resource_id,
                                    start_epoch: se,
                                },
                            );
                        },
                        EventType::Game => {
                            let se: Option<i64> = start_epoch_exec(attributes);
                            match (se, parse_id(id)) {
                                (Some(t), Some(gid)) => {
                                    let core = GameCore {
                                        start_epoch: t,
                                        h_id: attributes.hteam_id,
                                        v_id: attributes.vteam_id,
                                        res_id: attributes.resource_id,
                                    };
                                    let ghost before: Seq<(i64, GameCore)> = games@;
                                    upsert_game_exec(&mut games, gid, core);
                                    proof {
                                        assert forall|k: int|
                                            0 <= k < games@.len() implies convertible_epoch(
                                            (#[trigger] games@[k]).1.start_epoch as int,
                                        ) by {
                                            if games@[k] != (gid, core) {
                                                assert(before.contains(games@[k]));
                                                let w = choose|w: int|
                                                    0 <= w < before.len() && before[w] == games@[k];
                                                assert(convertible_epoch(
                                                    before[w].1.start_epoch as int,
                                                ));
                                            }
                                        }
                                    }
                                },
                                _ => {},
                            }
                        },
                        EventType::Unknown => {},
                    }
                },
                Included::Other => {},
            }
            i += 1;
        }
        proof {
            assert(gitems.subrange(0, n as int) =~= gitems);
        }
        DaySmart { our_team_id, team_names, resource_names, locker_map, games, lockers }
    }
}

/// Eight hours, the widest distance at which a locker-room record can
/// still belong to a game.
pub const LOCKER_WINDOW_SECS: i64 = 28800;

/// The locker-room resources recorded for a game id, either side possibly
/// missing.
pub open spec fn locker_entry(lm: Map<i64, (Option<i64>, Option<i64>)>, gid: i64) -> (
    Option<i64>,
    Option<i64>,
) {
    if lm.contains_key(gid) {
        lm[gid]
    } else {
        (None, None)
    }
}

/// A stored game joined with its locker-room assignment.
pub open spec fn to_info(p: (i64, GameCore), lm: Map<i64, (Option<i64>, Option<i64>)>) -> GameInfo {
    GameInfo {
        start_epoch: p.1.start_epoch,
        h_id: p.1.h_id,
        v_id: p.1.v_id,
        res_id: p.1.res_id,
        home_locker_res_id: locker_entry(lm, p.0).0,
        away_locker_res_id: locker_entry(lm, p.0).1,
    }
}

/// The games whose start lies in `[now, wend]`, both bounds included, in
/// stored order, each joined with its locker-room assignment.
pub open spec fn window_games(
    games: Seq<(i64, GameCore)>,
    lm: Map<i64, (Option<i64>, Option<i64>)>,
    now: int,
    wend: int,
) -> Seq<GameInfo>
    decreases games.len(),
{
    if games.len() == 0 {
        Seq::<GameInfo>::empty()
    } else {
        let rest = window_games(games.drop_last(), lm, now, wend);
        let p = games.last();
        if now <= p.1.start_epoch && p.1.start_epoch <= wend {
            rest.push(to_info(p, lm))
        } else {
            rest
        }
    }
}

/// Place `g` after every element that starts no later than it: a stable
/// insertion.
pub open spec fn insert_by_start(s: Seq<GameInfo>, g: GameInfo) -> Seq<GameInfo>
    decreases s.len(),
{
    if s.len() == 0 {
        seq![g]
    } else if s.last().start_epoch <= g.start_epoch {
        s.push(g)
    } else {
        insert_by_start(s.drop_last(), g).push(s.last())
    }
}

/// Stable sort by start instant: ties keep their input order.
pub open spec fn sort_by_start(s: Seq<GameInfo>) -> Seq<GameInfo>
    decreases s.len(),
{
    if s.len() == 0 {
        Seq::<GameInfo>::empty()
    } else {
        insert_by_start(sort_by_start(s.drop_last()), s.last())
    }
}

/// What `find_upcoming_games` returns: the window's games, stably sorted
/// by start.
pub open spec fn upcoming_of(d: DaySmart, now: int, wend: int) -> Seq<GameInfo> {
    sort_by_start(window_games(d.games@, d.locker_map@, now, wend))
}

proof fn lemma_insert_by_start_at(s: Seq<GameInfo>, g: GameInfo, j: int)
    requires
        0 <= j <= s.len(),
        forall|k: int| j <= k < s.len() ==> (#[trigger] s[k]).start_epoch > g.start_epoch,
        j == 0 || s[j - 1].start_epoch <= g.start_epoch,
    ensures
        insert_by_start(s, g) == s.insert(j, g),
    decreases s.len(),
{
    if j == s.len() {
        if s.len() == 0 {
            assert(insert_by_start(s, g) =~= s.insert(j, g));
        } else {
            assert(s.last().start_epoch <= g.start_epoch);
            assert(s.push(g) =~= s.insert(j, g));
        }
    } else {
        assert(s[s.len() - 1].start_epoch > g.start_epoch);
        lemma_insert_by_start_at(s.drop_last(), g, j);
        assert(s.drop_last().insert(j, g).push(s.last()) =~= s.insert(j, g));
    }
}

fn insert_sorted(out: &mut Vec<GameInfo>, g: GameInfo)
    ensures
        final(out)@ == insert_by_start(old(out)@, g),
{
    let n: usize = out.len();
    let mut j: usize = n;
    while j > 0 && out[j - 1].start_epoch > g.start_epoch
        invariant
            j <= n,
            n == out@.len(),
            out@ == old(out)@,
            forall|k: int| j <= k < n ==> (#[trigger] out@[k]).start_epoch > g.start_epoch,
        decreases j,
    {
        j -= 1;
    }
    proof {
        lemma_insert_by_start_at(out@, g, j as int);
    }
    out.insert(j, g);
}

/// The side a locker-room candidate names for this team, if any.
pub open spec fn locker_matches(c: LockerCandidate, team: i64) -> bool {
    c.h_id == Some(team) || c.v_id == Some(team)
}

/// Distance between two instants on the second scale.
pub open spec fn time_diff(t: int, target: int) -> int {
    if t >= target {
        t - target
    } else {
        target - t
    }
}

/// Start instant of a candidate whose time was readable.
pub open spec fn cand_start(c: LockerCandidate) -> int {
    match c.start_epoch {
        Some(t) => t as int,
        None => 0,
    }
}

/// Distance of a candidate from the target instant.
pub open spec fn cand_diff(c: LockerCandidate, target: int) -> int {
    time_diff(cand_start(c), target)
}

/// A candidate can be selected for this team and target: it names the team
/// on either side, carries a resource, its time was readable, and it lies
/// within eight hours of the target.
pub open spec fn qualifies(c: LockerCandidate, team: i64, target: int) -> bool {
    &&& locker_matches(c, team)
    &&& c.res_id is Some
    &&& c.start_epoch is Some
    &&& cand_diff(c, target) <= LOCKER_WINDOW_SECS
}

/// Index of the selected candidate: the first one seen whose distance no
/// later qualifying candidate strictly beats.
pub open spec fn best_locker_idx(cands: Seq<LockerCandidate>, team: i64, target: int) -> Option<int>
    decreases cands.len(),
{
    if cands.len() == 0 {
        None
    } else {
        let prev = best_locker_idx(cands.drop_last(), team, target);
        if qualifies(cands.last(), team, target) {
            match prev {
                None => Some(cands.len() - 1),
                Some(p) => if cand_diff(cands.last(), target) < cand_diff(cands[p], target) {
                    Some(cands.len() - 1)
                } else {
                    Some(p)
                },
            }
        } else {
            prev
        }
    }
}

proof fn lemma_best_locker_in_range(cands: Seq<LockerCandidate>, team: i64, target: int)
    ensures
        best_locker_idx(cands, team, target) matches Some(i) ==> 0 <= i < cands.len() && qualifies(
            cands[i],
            team,
            target,
        ),
    decreases cands.len(),
{
    if cands.len() > 0 {
        lemma_best_locker_in_range(cands.drop_last(), team, target);
    }
}

impl DaySmart {
    /// Nearest-time fallback search for a locker room: among the
    /// locker-room records naming this team on either side, with a
    /// resource and a readable time within eight hours of the target, the
    /// closest one's resource; on equal distance the first seen stays.
    pub fn find_locker(&self, team_id: i64, target_epoch: i64) -> (r: Option<i64>)
        ensures
            match best_locker_idx(self.lockers@, team_id, target_epoch as int) {
                Some(i) => r == self.lockers@[i].res_id && r is Some,
                None => r is None,
            },
    {
        let n: usize = self.lockers.len();
        let mut best_res: Option<i64> = None;
        let mut best_diff: i64 = 0;
        let mut k: usize = 0;
        while k < n
            invariant
                n == self.lockers@.len(),
                k <= n,
                match best_locker_idx(self.lockers@.subrange(0, k as int), team_id, target_epoch as int) {
                    Some(p) => 0 <= p < k && best_res == self.lockers@[p].res_id && best_res
                        is Some && best_diff as int == cand_diff(
                        self.lockers@[p],
                        target_epoch as int,
                    ),
                    None => best_res is None,
                },
            decreases n - k,
        {
            let ghost prefix: Seq<LockerCandidate> = self.lockers@.subrange(0, k as int);
            let ghost prefix1: Seq<LockerCandidate> = self.lockers@.subrange(0, k + 1 as int);
            proof {
                assert(prefix1.drop_last() =~= prefix);
                assert(prefix1.last() == self.lockers@[k as int]);
            }
            let c: LockerCandidate = self.lockers[k];
            let named: bool = (match c.h_id {
                Some(t) => t == team_id,
                None => false,
            }) || (match c.v_id {
                Some(t) => t == team_id,
                None => false,
            });
            if named && c.res_id.is_some() {
                match c.start_epoch {
                    Some(t) => {
                        let d128: i128 = (t as i128) - (target_epoch as i128);
                        let ad: i128 = if d128 < 0 {
                            -d128
                        } else {
                            d128
                        };
                        if ad <= LOCKER_WINDOW_SECS as i128 {
                            let d: i64 = ad as i64;
                            assert(d as int == cand_diff(c, target_epoch as int));
                            assert(qualifies(c, team_id, target_epoch as int));
                            match best_res {
                                None => {
                                    best_res = c.res_id;
                                    best_diff = d;
                                },
                                Some(_) => {
                                    if d < best_diff {
                                        best_res = c.res_id;
                                        best_diff = d;
                                    }
                                },
                            }
                        } else {
                            assert(!qualifies(c, team_id, target_epoch as int));
                        }
                    },
                    None => {},
                }
            }
            k += 1;
        }
        proof {
            assert(self.lockers@.subrange(0, n as int) =~= self.lockers@);
        }
        best_res
    }

    /// The games that start inside `[now, now + days_ahead days]`, both
    /// ends included, each joined with its locker-room assignment,
    /// ascending by start with ties in stored order.
    pub fn find_upcoming_games(&self, days_ahead: i64, now_epoch: i64) -> (r: Vec<GameInfo>)
        requires
            i64::MIN <= now_epoch + days_ahead * 86400 <= i64::MAX,
        ensures
            r@ == upcoming_of(*self, now_epoch as int, now_epoch + days_ahead * 86400),
    {
        let wend: i64 = ((now_epoch as i128) + (days_ahead as i128) * 86400) as i64;
        let n: usize = self.games.len();
        let mut picked: Vec<GameInfo> = Vec::new();
        let mut i: usize = 0;
        proof {
            assert(self.games@.subrange(0, 0) =~= Seq::<(i64, GameCore)>::empty());
        }
        while i < n
            invariant
                n == self.games@.len(),
                i <= n,
                wend as int == now_epoch + days_ahead * 86400,
                picked@ == window_games(
                    self.games@.subrange(0, i as int),
                    self.locker_map@,
                    now_epoch as int,
                    wend as int,
                ),
            decreases n - i,
        {
            let ghost prefix: Seq<(i64, GameCore)> = self.games@.subrange(0, i as int);
            let ghost prefix1: Seq<(i64, GameCore)> = self.games@.subrange(0, i + 1 as int);
            proof {
                assert(prefix1.drop_last() =~= prefix);
                assert(prefix1.last() == self.games@[i as int]);
            }
            let (gid, core): (i64, GameCore) = self.games[i];
            if now_epoch <= core.start_epoch && core.start_epoch <= wend {
                let entry: (Option<i64>, Option<i64>) = match self.locker_map.get(&gid) {
                    Some(e) => *e,
                    None => (None, None),
                };
                let info = GameInfo {
                    start_epoch: core.start_epoch,
                    h_id: core.h_id,
                    v_id: core.v_id,
                    res_id: core.res_id,
                    home_locker_res_id: entry.0,
                    away_locker_res_id: entry.1,
                };
                assert(info == to_info(self.games@[i as int], self.locker_map@));
                picked.push(info);
            }
            i += 1;
        }
        proof {
            assert(self.games@.subrange(0, n as int) =~= self.games@);
        }
        let m: usize = picked.len();
        let mut out: Vec<GameInfo> = Vec::new();
        let mut j: usize = 0;
        proof {
            assert(picked@.subrange(0, 0) =~= Seq::<GameInfo>::empty());
        }
        while j < m
            invariant
                m == picked@.len(),
                j <= m,
                out@ == sort_by_start(picked@.subrange(0, j as int)),
            decreases m - j,
        {
            let ghost prefix: Seq<GameInfo> = picked@.subrange(0, j as int);
            let ghost prefix1: Seq<GameInfo> = picked@.subrange(0, j + 1 as int);
            proof {
                assert(prefix1.drop_last() =~= prefix);
                assert(prefix1.last() == picked@[j as int]);
            }
            let g: GameInfo = picked[j];
            insert_sorted(&mut out, g);
            j += 1;
        }
        proof {
            assert(picked@.subrange(0, m as int) =~= picked@);
        }
        out
    }
}

/// Civil time of an instant in the notification's time zone: year, month,
/// day, hour, minute, and the weekday counted from Sunday.
pub uninterp spec fn pacific_civil_of(epoch: i64) -> Option<(i64, u8, u8, u8, u8, u8)>;

/// Relies on `chrono::DateTime::from_timestamp` and chrono-tz's
/// `America::Los_Angeles`: the civil reading of an instant in a fixed zone
/// depends on the instant alone; `from_timestamp` returns nothing only far
/// out of range — every instant of `convertible_epoch` has a reading — the
/// zone's offset lookup is total, and the field accessors keep their
/// documented calendar ranges.
#[verifier::external_body]
fn pacific_civil(epoch: i64) -> (r: Option<(i64, u8, u8, u8, u8, u8)>)
    ensures
        r == pacific_civil_of(epoch),
        r matches Some(c) ==> 1 <= c.1 <= 12 && 1 <= c.2 <= 31 && c.3 < 24 && c.4 < 60 && c.5 < 7,
        convertible_epoch(epoch as int) ==> r is Some,
{
    let dt = chrono::DateTime::<chrono::Utc>::from_timestamp(epoch, 0)?;
    let loc = dt.with_timezone(&chrono_tz::America::Los_Angeles);
    Some((
        chrono::Datelike::year(&loc) as i64,
        chrono::Datelike::month(&loc) as u8,
        chrono::Datelike::day(&loc) as u8,
        chrono::Timelike::hour(&loc) as u8,
        chrono::Timelike::minute(&loc) as u8,
        chrono::Datelike::weekday(&loc).num_days_from_sunday() as u8,
    ))
}

/// Three-letter English weekday name, counted from Sunday.
pub open spec fn weekday_abbrev(w: int) -> Seq<char> {
    if w == 0 {
        "Sun"@
    } else if w == 1 {
        "Mon"@
    } else if w == 2 {
        "Tue"@
    } else if w == 3 {
        "Wed"@
    } else if w == 4 {
        "Thu"@
    } else if w == 5 {
        "Fri"@
    } else if w == 6 {
        "Sat"@
    } else {
        "???"@
    }
}

/// Three-letter English month name, 1-based.
pub open spec fn month_abbrev(m: int) -> Seq<char> {
    if m < 1 || m > 12 {
        "???"@
    } else if m == 1 {
        "Jan"@
    } else if m == 2 {
        "Feb"@
    } else if m == 3 {
        "Mar"@
    } else if m == 4 {
        "Apr"@
    } else if m == 5 {
        "May"@
    } else if m == 6 {
        "Jun"@
    } else if m == 7 {
        "Jul"@
    } else if m == 8 {
        "Aug"@
    } else if m == 9 {
        "Sep"@
    } else if m == 10 {
        "Oct"@
    } else if m == 11 {
        "Nov"@
    } else {
        "Dec"@
    }
}

fn weekday_abbrev_exec(w: u8) -> (r: &'static str)
    ensures
        r@ == weekday_abbrev(w as int),
{
    match w {
        0 => "Sun",
        1 => "Mon",
        2 => "Tue",
        3 => "Wed",
        4 => "Thu",
        5 => "Fri",
        6 => "Sat",
        _ => "???",
    }
}

fn month_abbrev_exec(m: u8) -> (r: &'static str)
    ensures
        r@ == month_abbrev(m as int),
{
    match m {
        1 => "Jan",
        2 => "Feb",
        3 => "Mar",
        4 => "Apr",
        5 => "May",
        6 => "Jun",
        7 => "Jul",
        8 => "Aug",
        9 => "Sep",
        10 => "Oct",
        11 => "Nov",
        12 => "Dec",
        _ => "???",
    }
}

/// Day of month on the space-padded two-place form.
pub open spec fn day_padded(d: nat) -> Seq<char> {
    if d < 10 {
        seq![' '] + crate::text::dec_digits(d)
    } else {
        crate::text::dec_digits(d)
    }
}

/// Date line of the message: weekday, month, space-padded day, a comma,
/// the zero-padded four-place year.
pub open spec fn date_line(c: (i64, u8, u8, u8, u8, u8)) -> Seq<char> {
    weekday_abbrev(c.5 as int) + " "@ + month_abbrev(c.1 as int) + " "@ + day_padded(c.2 as nat)
        + ", "@ + (if c.0 >= 0 {
        crate::text::pad4_chars(c.0 as nat)
    } else {
        seq!['-'] + crate::text::pad4_chars((-c.0) as nat)
    })
}

/// Clock time of the message: twelve-hour clock without a leading zero,
/// zero-padded minutes, `AM` or `PM`.
pub open spec fn time_line(c: (i64, u8, u8, u8, u8, u8)) -> Seq<char> {
    crate::text::dec_digits(crate::ical::hour12_of(c.3 as int) as nat) + ":"@
        + crate::text::pad2_chars(c.4 as nat) + (if c.3 < 12 {
        " AM"@
    } else {
        " PM"@
    })
}

/// A name resolved through a table, with the fixed fallback literal when
/// the id is missing or unknown.
pub open spec fn resolve_name(names: Map<i64, Seq<char>>, id: Option<i64>, fallback: Seq<char>) -> Seq<char> {
    match id {
        Some(i) => if names.contains_key(i) {
            names[i]
        } else {
            fallback
        },
        None => fallback,
    }
}

/// The caller's team plays at home: its id is known and equals the game's
/// home id; anything else styles the game as away.
pub open spec fn is_home_game(our: Option<i64>, h_id: Option<i64>) -> bool {
    match (our, h_id) {
        (Some(o), Some(h)) => o == h,
        _ => false,
    }
}

/// The locker-room line: present only when the caller's own side has a
/// resource that resolves to a name, else nothing at all.
pub open spec fn locker_line(
    resource_names: Map<i64, Seq<char>>,
    g: GameInfo,
    home: bool,
) -> Seq<char> {
    let rid_opt = if home {
        g.home_locker_res_id
    } else {
        g.away_locker_res_id
    };
    match rid_opt {
        Some(rid) => if resource_names.contains_key(rid) {
            "\nLocker Room: "@ + resource_names[rid]
        } else {
            Seq::<char>::empty()
        },
        None => Seq::<char>::empty(),
    }
}

/// Everything of the message up to the jersey color.
pub open spec fn message_prefix(
    g: GameInfo,
    c: (i64, u8, u8, u8, u8, u8),
    team_names: Map<i64, Seq<char>>,
    resource_names: Map<i64, Seq<char>>,
    our: Option<i64>,
) -> Seq<char> {
    let home = is_home_game(our, g.h_id);
    ":hockey: Kraken Hockey League Game :goal:\n"@ + date_line(c) + "\n"@ + time_line(c) + " at "@
        + resolve_name(resource_names, g.res_id, "Unknown Arena"@) + "\n"@ + resolve_name(
        team_names,
        g.h_id,
        "Home"@,
    ) + " vs "@ + resolve_name(team_names, g.v_id, "Visitor"@) + locker_line(
        resource_names,
        g,
        home,
    ) + "\n:shirt: "@
}

/// Jersey color word: light at home, dark away.
pub open spec fn jersey_word(home: bool) -> Seq<char> {
    if home {
        "Light"@
    } else {
        "Dark"@
    }
}

/// The whole notification text for a game at a civil display time.
pub open spec fn message_chars(
    g: GameInfo,
    c: (i64, u8, u8, u8, u8, u8),
    team_names: Map<i64, Seq<char>>,
    resource_names: Map<i64, Seq<char>>,
    our: Option<i64>,
) -> Seq<char> {
    message_prefix(g, c, team_names, resource_names, our) + jersey_word(
        is_home_game(our, g.h_id),
    ) + " Jerseys"@
}

/// What `get_next_game_message` returns: nothing without a game in the
/// window; else the earliest game's message, at its civil display time.
pub open spec fn next_message_of(d: DaySmart, now: int, wend: int) -> Option<Seq<char>> {
    let ups = upcoming_of(d, now, wend);
    if ups.len() == 0 {
        None
    } else {
        match pacific_civil_of(ups[0].start_epoch) {
            Some(c) => Some(
                message_chars(
                    ups[0],
                    c,
                    names_view(d.team_names@),
                    names_view(d.resource_names@),
                    d.our_team_id,
                ),
            ),
            None => None,
        }
    }
}

fn lookup_name(names: &HashMap<i64, String>, id: Option<i64>, fallback: &str) -> (r: Vec<char>)
    ensures
        r@ == resolve_name(names_view(names@), id, fallback@),
{
    match id {
        Some(i) => match names.get(&i) {
            Some(name) => str_to_chars(name.as_str()),
            None => str_to_chars(fallback),
        },
        None => str_to_chars(fallback),
    }
}

impl DaySmart {
    /// Render the notification for a game shown at the given civil time:
    /// the fixed template with resolved names, the fallback literals for
    /// unresolved ids, the locker-room line only when the caller's side
    /// has a named resource, and the jersey color by home or away.
    pub fn format_game_message_at(&self, g: &GameInfo, c: (i64, u8, u8, u8, u8, u8)) -> (r: String)
        ensures
            r@ == message_chars(
                *g,
                c,
                names_view(self.team_names@),
                names_view(self.resource_names@),
                self.our_team_id,
            ),
    {
        let home: bool = match (self.our_team_id, g.h_id) {
            (Some(o), Some(h)) => o == h,
            _ => false,
        };

        let mut out: Vec<char> = Vec::new();
        crate::text::push_str_chars(&mut out, ":hockey: Kraken Hockey League Game :goal:\n");

        crate::text::push_str_chars(&mut out, weekday_abbrev_exec(c.5));
        crate::text::push_str_chars(&mut out, " ");
        crate::text::push_str_chars(&mut out, month_abbrev_exec(c.1));
        crate::text::push_str_chars(&mut out, " ");
        if c.2 < 10 {
            out.push(' ');
        }
        let day_digits: Vec<char> = crate::text::u64_to_chars(c.2 as u64);
        crate::text::push_chars(&mut out, &day_digits);
        crate::text::push_str_chars(&mut out, ", ");
        if c.0 >= 0 {
            let year_digits: Vec<char> = crate::text::u64_pad4(c.0 as u64);
            crate::text::push_chars(&mut out, &year_digits);
        } else {
            out.push('-');
            let mag: u64 = (-(c.0 as i128)) as u64;
            assert(mag as nat == (-(c.0 as int)) as nat);
            let year_digits: Vec<char> = crate::text::u64_pad4(mag);
            crate::text::push_chars(&mut out, &year_digits);
        }
        assert(out@ =~= ":hockey: Kraken Hockey League Game :goal:\n"@ + date_line(c));

        crate::text::push_str_chars(&mut out, "\n");
        let h12: u32 = (c.3 as u32 + 11) % 12 + 1;
        let hour_digits: Vec<char> = crate::text::u64_to_chars(h12 as u64);
        crate::text::push_chars(&mut out, &hour_digits);
        crate::text::push_str_chars(&mut out, ":");
        let minute_digits: Vec<char> = crate::text::u64_pad2(c.4 as u64);
        crate::text::push_chars(&mut out, &minute_digits);
        if c.3 < 12 {
            crate::text::push_str_chars(&mut out, " AM");
        } else {
            crate::text::push_str_chars(&mut out, " PM");
        }
        assert(out@ =~= ":hockey: Kraken Hockey League Game :goal:\n"@ + date_line(c) + "\n"@
            + time_line(c));

        crate::text::push_str_chars(&mut out, " at ");
        let arena: Vec<char> = lookup_name(&self.resource_names, g.res_id, "Unknown Arena");
        crate::text::push_chars(&mut out, &arena);
        crate::text::push_str_chars(&mut out, "\n");
        let h_name: Vec<char> = lookup_name(&self.team_names, g.h_id, "Home");
        crate::text::push_chars(&mut out, &h_name);
        crate::text::push_str_chars(&mut out, " vs ");
        let v_name: Vec<char> = lookup_name(&self.team_names, g.v_id, "Visitor");
        crate::text::push_chars(&mut out, &v_name);

        let rid_opt: Option<i64> = if home {
            g.home_locker_res_id
        } else {
            g.away_locker_res_id
        };
        match rid_opt {
            Some(rid) => match self.resource_names.get(&rid) {
                Some(name) => {
                    crate::text::push_str_chars(&mut out, "\nLocker Room: ");
                    crate::text::push_str_chars(&mut out, name.as_str());
                },
                None => {},
            },
            None => {},
        }

        crate::text::push_str_chars(&mut out, "\n:shirt: ");
        assert(out@ =~= message_prefix(
            *g,
            c,
            names_view(self.team_names@),
            names_view(self.resource_names@),
            self.our_team_id,
        ));
        if home {
            crate::text::push_str_chars(&mut out, "Light");
        } else {
            crate::text::push_str_chars(&mut out, "Dark");
        }
        crate::text::push_str_chars(&mut out, " Jerseys");
        assert(out@ =~= message_chars(
            *g,
            c,
            names_view(self.team_names@),
            names_view(self.resource_names@),
            self.our_team_id,
        ));
        crate::text::chars_to_string(&out)
    }

    /// Render the notification for a game, displayed in the notification
    /// time zone; nothing only when the instant lies outside the range the
    /// calendar library can convert, which no convertible instant does.
    fn format_game_message(&self, g: &GameInfo) -> (r: Option<String>)
        ensures
            match pacific_civil_of(g.start_epoch) {
                Some(c) => r matches Some(s) && s@ == message_chars(
                    *g,
                    c,
                    names_view(self.team_names@),
                    names_view(self.resource_names@),
                    self.our_team_id,
                ),
                None => r is None,
            },
            convertible_epoch(g.start_epoch as int) ==> r is Some,
    {
        match pacific_civil(g.start_epoch) {
            Some(c) => Some(self.format_game_message_at(g, c)),
            None => None,
        }
    }

    /// The message for the earliest game within the lookahead window, or
    /// nothing when no game lies in it: on tables whose start instants are
    /// convertible — every table built from a document is — the result is
    /// present exactly when the window holds a game.
    pub fn get_next_game_message(&self, days_ahead: i64, now_epoch: i64) -> (r: Option<String>)
        requires
            i64::MIN <= now_epoch + days_ahead * 86400 <= i64::MAX,
        ensures
            match r {
                Some(s) => next_message_of(*self, now_epoch as int, now_epoch + days_ahead * 86400)
                    == Some(s@),
                None => next_message_of(*self, now_epoch as int, now_epoch + days_ahead * 86400)
                    is None,
            },
            games_convertible(self.games@) ==> (r is Some <==> upcoming_of(
                *self,
                now_epoch as int,
                now_epoch + days_ahead * 86400,
            ).len() > 0),
    {
        let games: Vec<GameInfo> = self.find_upcoming_games(days_ahead, now_epoch);
        if games.len() == 0 {
            return None;
        }
        let first: &GameInfo = &games[0];
        proof {
            if games_convertible(self.games@) {
                broadcast use vstd::seq_lib::group_to_multiset_ensures;

                let now = now_epoch as int;
                let wend = now_epoch + days_ahead * 86400;
                let w = window_games(self.games@, self.locker_map@, now, wend);
                lemma_sort_by_start_multiset(w);
                lemma_window_starts_convertible(self.games@, self.locker_map@, now, wend);
                assert(games@.to_multiset().count(games@[0]) > 0);
                assert(w.contains(games@[0]));
                let k = choose|k: int| 0 <= k < w.len() && w[k] == games@[0];
                assert(convertible_epoch(games@[0].start_epoch as int));
            }
        }
        self.format_game_message(first)
    }
}

/// Law: a locker-room candidate farther than eight hours from the target
/// instant is never selected.
pub proof fn lemma_locker_never_outside_window(
    cands: Seq<LockerCandidate>,
    team: i64,
    target: int,
    i: int,
)
    requires
        best_locker_idx(cands, team, target) == Some(i),
    ensures
        0 <= i < cands.len(),
        qualifies(cands[i], team, target),
        cand_diff(cands[i], target) <= LOCKER_WINDOW_SECS,
{
    lemma_best_locker_in_range(cands, team, target);
}

proof fn lemma_best_locker_none(cands: Seq<LockerCandidate>, team: i64, target: int)
    requires
        best_locker_idx(cands, team, target) is None,
    ensures
        forall|j: int| 0 <= j < cands.len() ==> !qualifies(#[trigger] cands[j], team, target),
    decreases cands.len(),
{
    if cands.len() > 0 {
        lemma_best_locker_none(cands.drop_last(), team, target);
        assert(forall|j: int|
            0 <= j < cands.len() - 1 ==> #[trigger] cands[j] == cands.drop_last()[j]);
    }
}

/// Law: of two candidates at equal least distance the first seen wins:
/// every earlier qualifying candidate lies strictly farther than the
/// selected one, and no later qualifying candidate lies strictly nearer.
pub proof fn lemma_locker_stability(cands: Seq<LockerCandidate>, team: i64, target: int, i: int)
    requires
        best_locker_idx(cands, team, target) == Some(i),
    ensures
        0 <= i < cands.len(),
        forall|j: int|
            0 <= j < i && qualifies(#[trigger] cands[j], team, target) ==> cand_diff(
                cands[j],
                target,
            ) > cand_diff(cands[i], target),
        forall|j: int|
            i < j < cands.len() && qualifies(#[trigger] cands[j], team, target) ==> cand_diff(
                cands[j],
                target,
            ) >= cand_diff(cands[i], target),
    decreases cands.len(),
{
    lemma_best_locker_in_range(cands, team, target);
    let prev = best_locker_idx(cands.drop_last(), team, target);
    let last = cands.len() - 1;
    assert(forall|j: int| 0 <= j < last ==> #[trigger] cands[j] == cands.drop_last()[j]);
    if qualifies(cands[last], team, target) {
        match prev {
            None => {
                lemma_best_locker_none(cands.drop_last(), team, target);
            },
            Some(p) => {
                lemma_locker_stability(cands.drop_last(), team, target, p);
                lemma_best_locker_in_range(cands.drop_last(), team, target);
            },
        }
    } else {
        match prev {
            None => {},
            Some(p) => {
                lemma_locker_stability(cands.drop_last(), team, target, p);
            },
        }
    }
}

proof fn lemma_window_starts_convertible(
    games: Seq<(i64, GameCore)>,
    lm: Map<i64, (Option<i64>, Option<i64>)>,
    now: int,
    wend: int,
)
    requires
        games_convertible(games),
    ensures
        forall|i: int|
            0 <= i < window_games(games, lm, now, wend).len() ==> convertible_epoch(
                (#[trigger] window_games(games, lm, now, wend)[i]).start_epoch as int,
            ),
    decreases games.len(),
{
    if games.len() > 0 {
        assert(forall|j: int|
            0 <= j < games.drop_last().len() ==> convertible_epoch(
                (#[trigger] games.drop_last()[j]).1.start_epoch as int,
            ));
        lemma_window_starts_convertible(games.drop_last(), lm, now, wend);
    }
}

proof fn lemma_window_games_bounds(
    games: Seq<(i64, GameCore)>,
    lm: Map<i64, (Option<i64>, Option<i64>)>,
    now: int,
    wend: int,
)
    ensures
        forall|i: int|
            0 <= i < window_games(games, lm, now, wend).len() ==> now <= (#[trigger] window_games(
                games,
                lm,
                now,
                wend,
            )[i]).start_epoch <= wend,
    decreases games.len(),
{
    if games.len() > 0 {
        lemma_window_games_bounds(games.drop_last(), lm, now, wend);
    }
}

proof fn lemma_insert_by_start_multiset(s: Seq<GameInfo>, g: GameInfo)
    ensures
        insert_by_start(s, g).to_multiset() == s.to_multiset().insert(g),
    decreases s.len(),
{
    broadcast use vstd::seq_lib::group_to_multiset_ensures;

    if s.len() == 0 {
        assert(seq![g] =~= Seq::<GameInfo>::empty().push(g));
        assert(Seq::<GameInfo>::empty().push(g).to_multiset() =~= Seq::<
            GameInfo,
        >::empty().to_multiset().insert(g));
    } else if s.last().start_epoch <= g.start_epoch {
        assert(s.push(g).to_multiset() =~= s.to_multiset().insert(g));
    } else {
        lemma_insert_by_start_multiset(s.drop_last(), g);
        assert(s.drop_last().push(s.last()) =~= s);
        assert(insert_by_start(s.drop_last(), g).push(s.last()).to_multiset() =~= insert_by_start(
            s.drop_last(),
            g,
        ).to_multiset().insert(s.last()));
        assert(s.drop_last().push(s.last()).to_multiset() =~= s.drop_last().to_multiset().insert(
            s.last(),
        ));
        assert(s.drop_last().to_multiset().insert(g).insert(s.last()) =~= s.drop_last().to_multiset().insert(
            s.last(),
        ).insert(g));
    }
}

proof fn lemma_sort_by_start_multiset(s: Seq<GameInfo>)
    ensures
        sort_by_start(s).to_multiset() == s.to_multiset(),
    decreases s.len(),
{
    broadcast use vstd::seq_lib::group_to_multiset_ensures;

    if s.len() > 0 {
        lemma_sort_by_start_multiset(s.drop_last());
        lemma_insert_by_start_multiset(sort_by_start(s.drop_last()), s.last());
        assert(s.drop_last().push(s.last()) =~= s);
        assert(s.drop_last().push(s.last()).to_multiset() =~= s.drop_last().to_multiset().insert(
            s.last(),
        ));
    }
}

proof fn lemma_insert_by_start_keeps_sorted(s: Seq<GameInfo>, g: GameInfo)
    requires
        forall|a: int, b: int|
            0 <= a <= b < s.len() ==> (#[trigger] s[a]).start_epoch <= (#[trigger] s[b]).start_epoch,
    ensures
        forall|a: int, b: int|
            0 <= a <= b < insert_by_start(s, g).len() ==> (#[trigger] insert_by_start(s, g)[a]).start_epoch
                <= (#[trigger] insert_by_start(s, g)[b]).start_epoch,
    decreases s.len(),
{
    if s.len() == 0 {
    } else if s.last().start_epoch <= g.start_epoch {
        let t = s.push(g);
        assert forall|a: int, b: int|
            0 <= a <= b < t.len() implies (#[trigger] t[a]).start_epoch <= (
        #[trigger] t[b]).start_epoch by {
            if b < s.len() {
            } else {
                if a < s.len() {
                    assert(s[a].start_epoch <= s[s.len() - 1].start_epoch);
                }
            }
        }
    } else {
        assert(forall|a: int, b: int|
            0 <= a <= b < s.drop_last().len() ==> (#[trigger] s.drop_last()[a]).start_epoch <= (
            #[trigger] s.drop_last()[b]).start_epoch);
        lemma_insert_by_start_keeps_sorted(s.drop_last(), g);
        let u = insert_by_start(s.drop_last(), g);
        let t = u.push(s.last());
        lemma_insert_by_start_multiset(s.drop_last(), g);
        broadcast use vstd::seq_lib::group_to_multiset_ensures;

        assert forall|a: int, b: int|
            0 <= a <= b < t.len() implies (#[trigger] t[a]).start_epoch <= (
        #[trigger] t[b]).start_epoch by {
            if b < u.len() {
            } else {
                if a < u.len() {
                    // every element of `u` is `g` or an element of `s`,
                    // each at most the last element of `s`
                    assert(u.to_multiset().count(u[a]) > 0);
                    if u[a] == g {
                    } else {
                        assert(s.drop_last().to_multiset().insert(g).count(u[a]) > 0);
                        assert(s.drop_last().to_multiset().count(u[a]) > 0);
                        assert(s.drop_last().contains(u[a]));
                        let w = choose|w: int|
                            0 <= w < s.drop_last().len() && s.drop_last()[w] == u[a];
                        assert(s[w].start_epoch <= s[s.len() - 1].start_epoch);
                    }
                }
            }
        }
    }
}

proof fn lemma_sort_by_start_sorted(s: Seq<GameInfo>)
    ensures
        forall|a: int, b: int|
            0 <= a <= b < sort_by_start(s).len() ==> (#[trigger] sort_by_start(s)[a]).start_epoch
                <= (#[trigger] sort_by_start(s)[b]).start_epoch,
    decreases s.len(),
{
    if s.len() > 0 {
        lemma_sort_by_start_sorted(s.drop_last());
        lemma_insert_by_start_keeps_sorted(sort_by_start(s.drop_last()), s.last());
    }
}

/// Law: the lookahead selection is bounded by the window, both ends
/// included: every selected game starts no earlier than now and no later
/// than the window's end.
pub proof fn lemma_upcoming_within_window(d: DaySmart, now: int, wend: int, i: int)
    requires
        0 <= i < upcoming_of(d, now, wend).len(),
    ensures
        now <= upcoming_of(d, now, wend)[i].start_epoch <= wend,
{
    broadcast use vstd::seq_lib::group_to_multiset_ensures;

    let w = window_games(d.games@, d.locker_map@, now, wend);
    let ups = upcoming_of(d, now, wend);
    lemma_sort_by_start_multiset(w);
    lemma_window_games_bounds(d.games@, d.locker_map@, now, wend);
    assert(ups.to_multiset().count(ups[i]) > 0);
    assert(w.contains(ups[i]));
}

/// Law: the lookahead selection misses nothing in the window: every stored
/// game whose start lies in `[now, wend]`, the bounds included, appears in
/// the selection.
pub proof fn lemma_upcoming_includes_window(d: DaySmart, now: int, wend: int, j: int)
    requires
        0 <= j < d.games@.len(),
        now <= d.games@[j].1.start_epoch <= wend,
    ensures
        upcoming_of(d, now, wend).contains(to_info(d.games@[j], d.locker_map@)),
{
    broadcast use vstd::seq_lib::group_to_multiset_ensures;

    let w = window_games(d.games@, d.locker_map@, now, wend);
    lemma_window_contains(d.games@, d.locker_map@, now, wend, j);
    lemma_sort_by_start_multiset(w);
    let info = to_info(d.games@[j], d.locker_map@);
    assert(w.to_multiset().count(info) > 0);
    assert(upcoming_of(d, now, wend).to_multiset().count(info) > 0);
}

proof fn lemma_window_contains(
    games: Seq<(i64, GameCore)>,
    lm: Map<i64, (Option<i64>, Option<i64>)>,
    now: int,
    wend: int,
    j: int,
)
    requires
        0 <= j < games.len(),
        now <= games[j].1.start_epoch <= wend,
    ensures
        window_games(games, lm, now, wend).contains(to_info(games[j], lm)),
    decreases games.len(),
{
    let w = window_games(games, lm, now, wend);
    if j == games.len() - 1 {
        assert(w[w.len() - 1] == to_info(games[j], lm));
    } else {
        lemma_window_contains(games.drop_last(), lm, now, wend, j);
        let rest = window_games(games.drop_last(), lm, now, wend);
        let k = choose|k: int| 0 <= k < rest.len() && rest[k] == to_info(games.drop_last()[j], lm);
        assert(games.drop_last()[j] == games[j]);
        assert(w[k] == to_info(games[j], lm));
    }
}

/// Law: the lookahead selection comes out ascending by start instant.
pub proof fn lemma_upcoming_sorted(d: DaySmart, now: int, wend: int)
    ensures
        forall|a: int, b: int|
            0 <= a <= b < upcoming_of(d, now, wend).len() ==> (#[trigger] upcoming_of(
                d,
                now,
                wend,
            )[a]).start_epoch <= (#[trigger] upcoming_of(d, now, wend)[b]).start_epoch,
{
    lemma_sort_by_start_sorted(window_games(d.games@, d.locker_map@, now, wend));
}

/// A result permitted by the contract of `get_next_game_message`, with the
/// returned text abstracted to its characters.
pub open spec fn message_result_matches(
    d: DaySmart,
    now: int,
    wend: int,
    r: Option<Seq<char>>,
) -> bool {
    match r {
        Some(s) => next_message_of(d, now, wend) == Some(s),
        None => next_message_of(d, now, wend) is None,
    }
}

/// Law: the selector and formatter read nothing but the stored tables and
/// the query: on one unmodified snapshot, two runs of the same query
/// return texts equal character for character.
pub proof fn lemma_next_message_idempotent(
    d: DaySmart,
    now: int,
    wend: int,
    r1: Option<Seq<char>>,
    r2: Option<Seq<char>>,
)
    requires
        message_result_matches(d, now, wend, r1),
        message_result_matches(d, now, wend, r2),
    ensures
        r1 == r2,
{
}

/// Law: the message closes with the jersey color: light exactly when the
/// caller's team is the game's home team; an away game, or an own id that
/// is unknown, closes dark.
pub proof fn lemma_jersey_colors(
    g: GameInfo,
    c: (i64, u8, u8, u8, u8, u8),
    team_names: Map<i64, Seq<char>>,
    resource_names: Map<i64, Seq<char>>,
    our: Option<i64>,
)
    ensures
        message_chars(g, c, team_names, resource_names, our) == message_prefix(
            g,
            c,
            team_names,
            resource_names,
            our,
        ) + jersey_word(is_home_game(our, g.h_id)) + " Jerseys"@,
        is_home_game(our, g.h_id) ==> jersey_word(is_home_game(our, g.h_id)) == "Light"@,
        !is_home_game(our, g.h_id) ==> jersey_word(is_home_game(our, g.h_id)) == "Dark"@,
        our is None ==> !is_home_game(our, g.h_id),
{
}

/// Law: name resolution is total and falls back to the fixed literal: an
/// id that is missing or not in the table resolves to the fallback, and a
/// known id resolves to its stored name.
pub proof fn lemma_name_fallbacks(names: Map<i64, Seq<char>>, id: Option<i64>, fallback: Seq<char>)
    ensures
        (match id {
            Some(i) => !names.contains_key(i),
            None => true,
        }) ==> resolve_name(names, id, fallback) == fallback,
        forall|i: i64|
            id == Some(i) && names.contains_key(i) ==> resolve_name(names, id, fallback)
                == names[i],
{
}

/// Law: the discriminators and the side flag are read without regard to
/// ASCII case: `g` and `G` classify a game, `l` and `L` a locker-room
/// assignment, `h` and `H` pick the home side, identically.
pub proof fn lemma_tags_ignore_ascii_case(s: String)
    ensures
        s@ =~= seq!['g'] || s@ =~= seq!['G'] ==> event_type_of_spec(Some(s)) == EventType::Game,
        s@ =~= seq!['l'] || s@ =~= seq!['L'] ==> event_type_of_spec(Some(s))
            == EventType::LockerRoom,
        s@ =~= seq!['h'] || s@ =~= seq!['H'] ==> is_home_flag(Some(s)),
{
}

fn upsert_game_exec(games: &mut Vec<(i64, GameCore)>, gid: i64, core: GameCore)
    requires
        game_ids_unique(old(games)@),
    ensures
        final(games)@ == upsert_game(old(games)@, gid, core),
        game_ids_unique(final(games)@),
        forall|k: int|
            0 <= k < final(games)@.len() ==> (#[trigger] final(games)@[k]) == (gid, core) || old(
                games,
            )@.contains(final(games)@[k]),
{
    let n: usize = games.len();
    let mut j: usize = 0;
    while j < n
        invariant
            n == games@.len(),
            j <= n,
            game_ids_unique(games@),
            games@ == old(games)@,
            forall|k: int| 0 <= k < j ==> (#[trigger] games@[k]).0 != gid,
        decreases n - j,
    {
        if games[j].0 == gid {
            games[j] = (gid, core);
            proof {
                assert(games@ =~= old(games)@.update(j as int, (gid, core)));
                let w = choose|w: int|
                    0 <= w < old(games)@.len() && (#[trigger] old(games)@[w]).0 == gid;
                assert(old(games)@[j as int].0 == gid);
                assert(w == j);
                assert(forall|k: int|
                    0 <= k < games@.len() && k != j ==> old(games)@.contains(
                        #[trigger] games@[k],
                    ));
            }
            return ;
        }
        j += 1;
    }
    games.push((gid, core));
    proof {
        assert(forall|k: int|
            0 <= k < old(games)@.len() ==> (#[trigger] old(games)@[k]).0 != gid);
        assert(forall|k: int|
            0 <= k < games@.len() - 1 ==> old(games)@.contains(#[trigger] games@[k]));
    }
}

} // verus!
