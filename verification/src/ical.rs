//! Calendar-feed export: turns a parsed calendar's events into import rows
//! and a short status message.
//!
//! The feed itself is read by an outside parser; every event reaches this
//! module as a handful of optional property strings, and everything from
//! there on — timestamp parsing, title and location splitting, cutoff
//! filtering, row rendering — is verified here.

use vstd::prelude::*;

use crate::text::{
    all_digits, chars_to_string, contains_pat, dec_digits, digits_val, find_pat_from, has_pat,
    occurs_at, pad2_chars, pad4_chars, parse_num, push_chars, push_str_chars, rfind_pat,
    str_to_chars, subvec, trim, trim_spec, u64_pad2, u64_pad4, u64_to_chars,
};
use crate::time::{
    civil_valid, civil_valid_exec, total_seconds, total_seconds_exec, CivilDateTime,
};

verus! {

/// One event of the calendar feed, reduced to the property values the
/// export logic reads.
#[derive(Debug, Clone)]
pub struct CalEvent {
    pub summary: Option<String>,
    pub dtstart: Option<String>,
    pub dtend: Option<String>,
    pub location: Option<String>,
    pub description: Option<String>,
}

/// View of an optional property: its characters, or empty when absent.
pub open spec fn opt_chars(o: Option<String>) -> Seq<char> {
    match o {
        Some(s) => s@,
        None => Seq::empty(),
    }
}

/// `s` with one trailing `'Z'` removed, if present.
pub open spec fn strip_z(s: Seq<char>) -> Seq<char> {
    if s.len() > 0 && s.last() == 'Z' {
        s.drop_last()
    } else {
        s
    }
}

/// Civil reading of a 15-character compact timestamp `YYYYMMDDTHHMMSS`.
pub open spec fn civil_of_compact15(t: Seq<char>) -> CivilDateTime {
    CivilDateTime {
        year: digits_val(t.subrange(0, 4)) as i64,
        month: digits_val(t.subrange(4, 6)) as u8,
        day: digits_val(t.subrange(6, 8)) as u8,
        hour: digits_val(t.subrange(9, 11)) as u8,
        minute: digits_val(t.subrange(11, 13)) as u8,
        second: digits_val(t.subrange(13, 15)) as u8,
    }
}

/// Civil reading of a 13-character compact timestamp `YYYYMMDDTHHMM`.
pub open spec fn civil_of_compact13(t: Seq<char>) -> CivilDateTime {
    CivilDateTime {
        year: digits_val(t.subrange(0, 4)) as i64,
        month: digits_val(t.subrange(4, 6)) as u8,
        day: digits_val(t.subrange(6, 8)) as u8,
        hour: digits_val(t.subrange(9, 11)) as u8,
        minute: digits_val(t.subrange(11, 13)) as u8,
        second: 0,
    }
}

/// Civil reading of an 8-character date `YYYYMMDD`, at midnight.
pub open spec fn civil_of_date8(t: Seq<char>) -> CivilDateTime {
    CivilDateTime {
        year: digits_val(t.subrange(0, 4)) as i64,
        month: digits_val(t.subrange(4, 6)) as u8,
        day: digits_val(t.subrange(6, 8)) as u8,
        hour: 0,
        minute: 0,
        second: 0,
    }
}

/// Shape check for the seconds-precision compact form.
pub open spec fn compact15_ok(t: Seq<char>) -> bool {
    &&& t.len() == 15
    &&& t[8] == 'T'
    &&& all_digits(t.subrange(0, 4))
    &&& all_digits(t.subrange(4, 6))
    &&& all_digits(t.subrange(6, 8))
    &&& all_digits(t.subrange(9, 11))
    &&& all_digits(t.subrange(11, 13))
    &&& all_digits(t.subrange(13, 15))
    &&& civil_valid(civil_of_compact15(t))
}

/// Shape check for the minutes-precision compact form.
pub open spec fn compact13_ok(t: Seq<char>) -> bool {
    &&& t.len() == 13
    &&& t[8] == 'T'
    &&& all_digits(t.subrange(0, 4))
    &&& all_digits(t.subrange(4, 6))
    &&& all_digits(t.subrange(6, 8))
    &&& all_digits(t.subrange(9, 11))
    &&& all_digits(t.subrange(11, 13))
    &&& civil_valid(civil_of_compact13(t))
}

/// Shape check for the date-only form.
pub open spec fn date8_ok(t: Seq<char>) -> bool {
    &&& t.len() == 8
    &&& all_digits(t.subrange(0, 4))
    &&& all_digits(t.subrange(4, 6))
    &&& all_digits(t.subrange(6, 8))
    &&& civil_valid(civil_of_date8(t))
}

/// Timestamp reading used by the export: an optional trailing UTC marker is
/// dropped, then the text must be one of the compact timestamp forms or a
/// pure date (read as midnight); anything else has no reading.
pub open spec fn parse_dt_spec(s: Seq<char>) -> Option<CivilDateTime> {
    if s.len() == 0 {
        None
    } else {
        let t = strip_z(s);
        if compact15_ok(t) {
            Some(civil_of_compact15(t))
        } else if compact13_ok(t) {
            Some(civil_of_compact13(t))
        } else if date8_ok(t) {
            Some(civil_of_date8(t))
        } else {
            None
        }
    }
}

/// Parse a compact calendar timestamp.
pub fn parse_dt(s: &Vec<char>) -> (r: Option<CivilDateTime>)
    ensures
        r == parse_dt_spec(s@),
{
    if s.len() == 0 {
        return None;
    }
    let last: char = s[s.len() - 1];
    let e: usize = if last == 'Z' {
        s.len() - 1
    } else {
        s.len()
    };
    let ghost t: Seq<char> = strip_z(s@);
    proof {
        assert(t =~= s@.subrange(0, e as int));
    }
    if e == 15 {
        if s[8] != 'T' {
            assert(!compact15_ok(t));
            return None;
        }
        let y = parse_num(s, 0, 4);
        let mo = parse_num(s, 4, 6);
        let d = parse_num(s, 6, 8);
        let h = parse_num(s, 9, 11);
        let mi = parse_num(s, 11, 13);
        let sec = parse_num(s, 13, 15);
        proof {
            assert(t.subrange(0, 4) =~= s@.subrange(0, 4));
            assert(t.subrange(4, 6) =~= s@.subrange(4, 6));
            assert(t.subrange(6, 8) =~= s@.subrange(6, 8));
            assert(t.subrange(9, 11) =~= s@.subrange(9, 11));
            assert(t.subrange(11, 13) =~= s@.subrange(11, 13));
            assert(t.subrange(13, 15) =~= s@.subrange(13, 15));
        }
        match (y, mo, d, h, mi, sec) {
            (Some(y), Some(mo), Some(d), Some(h), Some(mi), Some(sec)) => {
                let c = CivilDateTime {
                    year: y as i64,
                    month: mo as u8,
                    day: d as u8,
                    hour: h as u8,
                    minute: mi as u8,
                    second: sec as u8,
                };
                assert(c == civil_of_compact15(t));
                if civil_valid_exec(&c) {
                    Some(c)
                } else {
                    None
                }
            },
            _ => {
                assert(!compact15_ok(t));
                None
            },
        }
    } else if e == 13 {
        if s[8] != 'T' {
            assert(!compact13_ok(t));
            return None;
        }
        let y = parse_num(s, 0, 4);
        let mo = parse_num(s, 4, 6);
        let d = parse_num(s, 6, 8);
        let h = parse_num(s, 9, 11);
        let mi = parse_num(s, 11, 13);
        proof {
            assert(t.subrange(0, 4) =~= s@.subrange(0, 4));
            assert(t.subrange(4, 6) =~= s@.subrange(4, 6));
            assert(t.subrange(6, 8) =~= s@.subrange(6, 8));
            assert(t.subrange(9, 11) =~= s@.subrange(9, 11));
            assert(t.subrange(11, 13) =~= s@.subrange(11, 13));
        }
        match (y, mo, d, h, mi) {
            (Some(y), Some(mo), Some(d), Some(h), Some(mi)) => {
                let c = CivilDateTime {
                    year: y as i64,
                    month: mo as u8,
                    day: d as u8,
                    hour: h as u8,
                    minute: mi as u8,
                    second: 0,
                };
                assert(c == civil_of_compact13(t));
                if civil_valid_exec(&c) {
                    Some(c)
                } else {
                    None
                }
            },
            _ => {
                assert(!compact13_ok(t));
                None
            },
        }
    } else if e == 8 {
        let y = parse_num(s, 0, 4);
        let mo = parse_num(s, 4, 6);
        let d = parse_num(s, 6, 8);
        proof {
            assert(t.subrange(0, 4) =~= s@.subrange(0, 4));
            assert(t.subrange(4, 6) =~= s@.subrange(4, 6));
            assert(t.subrange(6, 8) =~= s@.subrange(6, 8));
        }
        match (y, mo, d) {
            (Some(y), Some(mo), Some(d)) => {
                let c = CivilDateTime {
                    year: y as i64,
                    month: mo as u8,
                    day: d as u8,
                    hour: 0,
                    minute: 0,
                    second: 0,
                };
                assert(c == civil_of_date8(t));
                if civil_valid_exec(&c) {
                    Some(c)
                } else {
                    None
                }
            },
            _ => {
                assert(!date8_ok(t));
                None
            },
        }
    } else {
        None
    }
}

/// `i` is the first occurrence of `pat` in `s`.
pub open spec fn has_min_occ(s: Seq<char>, pat: Seq<char>, i: int) -> bool {
    occurs_at(s, pat, i) && (forall|k: int| 0 <= k < i ==> !occurs_at(s, pat, k))
}

/// `i` is the last occurrence of `pat` in `s`.
pub open spec fn has_max_occ(s: Seq<char>, pat: Seq<char>, i: int) -> bool {
    occurs_at(s, pat, i) && (forall|k: int| k > i ==> !occurs_at(s, pat, k))
}

/// Position of the first occurrence of `pat` in `s`.
pub open spec fn min_occ(s: Seq<char>, pat: Seq<char>) -> int {
    choose|i: int| has_min_occ(s, pat, i)
}

/// Position of the last occurrence of `pat` in `s`.
pub open spec fn max_occ(s: Seq<char>, pat: Seq<char>) -> int {
    choose|i: int| has_max_occ(s, pat, i)
}

proof fn lemma_min_occ_is(s: Seq<char>, pat: Seq<char>, j: int)
    requires
        has_min_occ(s, pat, j),
    ensures
        min_occ(s, pat) == j,
{
    let m = choose|i: int| has_min_occ(s, pat, i);
    assert(has_min_occ(s, pat, m));
    if m < j {
        assert(occurs_at(s, pat, m));
    }
    if j < m {
        assert(occurs_at(s, pat, j));
    }
}

proof fn lemma_max_occ_is(s: Seq<char>, pat: Seq<char>, j: int)
    requires
        has_max_occ(s, pat, j),
    ensures
        max_occ(s, pat) == j,
{
    let m = choose|i: int| has_max_occ(s, pat, i);
    assert(has_max_occ(s, pat, m));
    if m < j {
        assert(occurs_at(s, pat, j));
    }
    if j < m {
        assert(occurs_at(s, pat, m));
    }
}

/// The part of a title that carries the matchup: the text after the last
/// `" - "`, when that text itself contains a matchup token, else the whole
/// title.
pub open spec fn matchup_part(s: Seq<char>) -> Seq<char> {
    if contains_pat(s, " - "@) {
        let i = max_occ(s, " - "@);
        let cand = s.subrange(i + 3, s.len() as int);
        if contains_pat(cand, " @ "@) || contains_pat(cand, " vs "@) {
            cand
        } else {
            s
        }
    } else {
        s
    }
}

/// Home and away names read from a title: `"H vs A"` puts the left name at
/// home; `"A @ H"` puts the right name at home; titles without either token
/// give two empty names.
pub open spec fn split_home_away_spec(s: Seq<char>) -> (Seq<char>, Seq<char>) {
    let t = matchup_part(s);
    if contains_pat(t, " vs "@) {
        let i = min_occ(t, " vs "@);
        (trim_spec(t.subrange(0, i)), trim_spec(t.subrange(i + 4, t.len() as int)))
    } else if contains_pat(t, " @ "@) {
        let i = min_occ(t, " @ "@);
        (trim_spec(t.subrange(i + 3, t.len() as int)), trim_spec(t.subrange(0, i)))
    } else {
        (Seq::<char>::empty(), Seq::<char>::empty())
    }
}

fn matchup_part_exec(s: &Vec<char>) -> (r: Vec<char>)
    ensures
        r@ == matchup_part(s@),
{
    proof {
        reveal_strlit(" - ");
        reveal_strlit(" vs ");
        reveal_strlit(" @ ");
    }
    let dash: Vec<char> = str_to_chars(" - ");
    let vs: Vec<char> = str_to_chars(" vs ");
    let at: Vec<char> = str_to_chars(" @ ");
    let n: usize = s.len();
    match rfind_pat(s, &dash) {
        Some(j) => {
            proof {
                lemma_max_occ_is(s@, " - "@, j as int);
            }
            let cand: Vec<char> = subvec(s, j + 3, n);
            if has_pat(&cand, &at) || has_pat(&cand, &vs) {
                cand
            } else {
                let whole: Vec<char> = subvec(s, 0, s.len());
                assert(whole@ =~= s@);
                whole
            }
        },
        None => {
            let whole: Vec<char> = subvec(s, 0, s.len());
            assert(whole@ =~= s@);
            whole
        },
    }
}

fn split_home_away_chars(s: &Vec<char>) -> (r: (Vec<char>, Vec<char>))
    ensures
        r.0@ == split_home_away_spec(s@).0,
        r.1@ == split_home_away_spec(s@).1,
{
    proof {
        reveal_strlit(" vs ");
        reveal_strlit(" @ ");
    }
    let t: Vec<char> = matchup_part_exec(s);
    let vs: Vec<char> = str_to_chars(" vs ");
    let at: Vec<char> = str_to_chars(" @ ");
    let m: usize = t.len();
    match find_pat_from(&t, &vs, 0) {
        Some(i) => {
            proof {
                lemma_min_occ_is(t@, " vs "@, i as int);
            }
            let left: Vec<char> = subvec(&t, 0, i);
            let right: Vec<char> = subvec(&t, i + 4, m);
            (trim(&left), trim(&right))
        },
        None => {
            match find_pat_from(&t, &at, 0) {
                Some(i) => {
                    proof {
                        lemma_min_occ_is(t@, " @ "@, i as int);
                    }
                    let left: Vec<char> = subvec(&t, 0, i);
                    let right: Vec<char> = subvec(&t, i + 3, m);
                    (trim(&right), trim(&left))
                },
                None => (Vec::new(), Vec::new()),
            }
        },
    }
}

/// Split a title into the home and the away team name.
pub fn split_home_away(summary: &str) -> (r: (String, String))
    ensures
        r.0@ == split_home_away_spec(summary@).0,
        r.1@ == split_home_away_spec(summary@).1,
{
    let sv: Vec<char> = str_to_chars(summary);
    let (h, a) = split_home_away_chars(&sv);
    (chars_to_string(&h), chars_to_string(&a))
}

/// Venue name and street address read from a location field: the text
/// before the first line break (plain or escaped) names the venue, the rest
/// is the address; without a break the whole field is the venue.
pub open spec fn split_location_spec(s: Seq<char>) -> (Seq<char>, Seq<char>) {
    if contains_pat(s, "\n"@) {
        let i = min_occ(s, "\n"@);
        (trim_spec(s.subrange(0, i)), trim_spec(s.subrange(i + 1, s.len() as int)))
    } else if contains_pat(s, "\\n"@) {
        let i = min_occ(s, "\\n"@);
        (trim_spec(s.subrange(0, i)), trim_spec(s.subrange(i + 2, s.len() as int)))
    } else {
        (trim_spec(s), Seq::<char>::empty())
    }
}

fn split_location_chars(s: &Vec<char>) -> (r: (Vec<char>, Vec<char>))
    ensures
        r.0@ == split_location_spec(s@).0,
        r.1@ == split_location_spec(s@).1,
{
    proof {
        reveal_strlit("\n");
        reveal_strlit("\\n");
    }
    let nl: Vec<char> = str_to_chars("\n");
    let bsn: Vec<char> = str_to_chars("\\n");
    let n: usize = s.len();
    match find_pat_from(s, &nl, 0) {
        Some(i) => {
            proof {
                lemma_min_occ_is(s@, "\n"@, i as int);
            }
            let left: Vec<char> = subvec(s, 0, i);
            let right: Vec<char> = subvec(s, i + 1, n);
            (trim(&left), trim(&right))
        },
        None => {
            match find_pat_from(s, &bsn, 0) {
                Some(i) => {
                    proof {
                        lemma_min_occ_is(s@, "\\n"@, i as int);
                    }
                    let left: Vec<char> = subvec(s, 0, i);
                    let right: Vec<char> = subvec(s, i + 2, n);
                    (trim(&left), trim(&right))
                },
                None => (trim(s), Vec::new()),
            }
        },
    }
}

/// Split a location field into venue name and address.
pub fn split_location_address(location: &str) -> (r: (String, String))
    ensures
        r.0@ == split_location_spec(location@).0,
        r.1@ == split_location_spec(location@).1,
{
    let lv: Vec<char> = str_to_chars(location);
    let (name, addr) = split_location_chars(&lv);
    (chars_to_string(&name), chars_to_string(&addr))
}

/// Quote-escaping step of the export. Embedded quote characters are passed
/// through unchanged — doubling is deliberately not applied, so this is the
/// identity on the text; the rows carry the cell exactly as it came.
pub fn escape_quotes(s: &str) -> (r: String)
    ensures
        r@ == s@,
{
    let v: Vec<char> = str_to_chars(s);
    chars_to_string(&v)
}

/// A cell wrapped in double quotes.
pub open spec fn quoted(cell: Seq<char>) -> Seq<char> {
    seq!['"'] + cell + seq!['"']
}

/// Date cell of a row: `day/month/year`, no padding.
pub open spec fn date_cell(c: CivilDateTime) -> Seq<char> {
    dec_digits(c.day as nat) + "/"@ + dec_digits(c.month as nat) + "/"@ + dec_digits(c.year as nat)
}

/// Clock hour on the twelve-hour dial.
pub open spec fn hour12_of(h: int) -> int {
    (h + 11) % 12 + 1
}

/// Time cell of a row: zero-padded twelve-hour clock with `AM`/`PM`.
pub open spec fn time_cell(c: CivilDateTime) -> Seq<char> {
    pad2_chars(hour12_of(c.hour as int) as nat) + ":"@ + pad2_chars(c.minute as nat) + (if c.hour
        < 12 {
        " AM"@
    } else {
        " PM"@
    })
}

/// Length of an event in whole minutes: read from its end timestamp when
/// one parses (clamped at zero), else the sixty-minute default.
pub open spec fn duration_minutes(e: CalEvent, start: CivilDateTime) -> int {
    let endp = match e.dtend {
        Some(s) => parse_dt_spec(s@),
        None => None,
    };
    match endp {
        Some(endc) => {
            let sd = total_seconds(endc) - total_seconds(start);
            if sd <= 0 {
                0
            } else {
                sd / 60
            }
        },
        None => 60,
    }
}

/// Duration cell of a row: hours, a colon, zero-padded minutes.
pub open spec fn duration_cell(mins: int) -> Seq<char> {
    dec_digits((mins / 60) as nat) + ":"@ + pad2_chars((mins % 60) as nat)
}

/// One data row of the export, for an event whose start parsed to `start`.
pub open spec fn row_chars(e: CalEvent, start: CivilDateTime) -> Seq<char> {
    "\"GAME\",\"REGULAR\",\"\","@ + quoted(split_home_away_spec(opt_chars(e.summary)).1) + ","@
        + quoted(split_home_away_spec(opt_chars(e.summary)).0) + ","@ + quoted(date_cell(start))
        + ","@ + quoted(time_cell(start)) + ","@ + quoted(
        duration_cell(duration_minutes(e, start)),
    ) + ","@ + quoted(split_location_spec(opt_chars(e.location)).0) + ","@ + quoted(
        split_location_spec(opt_chars(e.location)).1,
    ) + ","@ + quoted(opt_chars(e.description)) + "\n"@
}

/// What one event contributes to the export: its row when its start has a
/// reading after the cutoff; nothing otherwise. An unreadable start is a
/// record-level skip, as on the schedule path — one malformed event never
/// fails the whole export.
pub open spec fn event_outcome(e: CalEvent, cutoff: CivilDateTime) -> Option<Seq<char>> {
    match parse_dt_spec(opt_chars(e.dtstart)) {
        None => None,
        Some(start) => if total_seconds(start) > total_seconds(cutoff) {
            Some(row_chars(e, start))
        } else {
            None
        },
    }
}

/// The data rows of the export: one per contributing event, in feed order.
pub open spec fn csv_rows(events: Seq<CalEvent>, cutoff: CivilDateTime) -> Seq<char>
    decreases events.len(),
{
    if events.len() == 0 {
        Seq::<char>::empty()
    } else {
        match event_outcome(events.last(), cutoff) {
            None => csv_rows(events.drop_last(), cutoff),
            Some(row) => csv_rows(events.drop_last(), cutoff) + row,
        }
    }
}

/// Header line of the export.
pub open spec fn csv_header() -> Seq<char> {
    "Type,Game Type,Title (Optional),Away,Home,Date,Time,Duration,Location (Optional),Address (Optional),Notes (Optional)\n"@
}

/// A start with a reading is a valid civil instant.
pub proof fn lemma_parse_dt_valid(s: Seq<char>)
    ensures
        parse_dt_spec(s) matches Some(c) ==> civil_valid(c),
{
}

fn opt_field_chars(o: &Option<String>) -> (r: Vec<char>)
    ensures
        r@ == opt_chars(*o),
{
    match o {
        Some(s) => str_to_chars(s.as_str()),
        None => Vec::new(),
    }
}

fn push_quoted(out: &mut Vec<char>, cell: &Vec<char>)
    ensures
        final(out)@ == old(out)@ + quoted(cell@),
{
    out.push('"');
    push_chars(out, cell);
    out.push('"');
    assert(out@ =~= old(out)@ + quoted(cell@));
}

fn row_for_event(e: &CalEvent, cutoff: &CivilDateTime) -> (r: Option<Vec<char>>)
    requires
        civil_valid(*cutoff),
    ensures
        match r {
            Some(row) => event_outcome(*e, *cutoff) matches Some(rr) && row@ == rr,
            None => event_outcome(*e, *cutoff) is None,
        },
{
    let dtstart: Vec<char> = opt_field_chars(&e.dtstart);
    let parsed: Option<CivilDateTime> = parse_dt(&dtstart);
    match parsed {
        None => None,
        Some(start) => {
            proof {
                lemma_parse_dt_valid(dtstart@);
            }
            let ss: i64 = total_seconds_exec(&start);
            let cs: i64 = total_seconds_exec(cutoff);
            if !(ss > cs) {
                return None;
            }
            let summary: Vec<char> = opt_field_chars(&e.summary);
            let (home, away) = split_home_away_chars(&summary);
            let location: Vec<char> = opt_field_chars(&e.location);
            let (loc_name, loc_addr) = split_location_chars(&location);
            let notes: Vec<char> = opt_field_chars(&e.description);

            let mut date_s: Vec<char> = u64_to_chars(start.day as u64);
            push_str_chars(&mut date_s, "/");
            let mon: Vec<char> = u64_to_chars(start.month as u64);
            push_chars(&mut date_s, &mon);
            push_str_chars(&mut date_s, "/");
            let yr: Vec<char> = u64_to_chars(start.year as u64);
            push_chars(&mut date_s, &yr);
            assert(date_s@ =~= date_cell(start));

            let h12: u8 = (start.hour + 11) % 12 + 1;
            let mut time_s: Vec<char> = u64_pad2(h12 as u64);
            push_str_chars(&mut time_s, ":");
            let mins_part: Vec<char> = u64_pad2(start.minute as u64);
            push_chars(&mut time_s, &mins_part);
            if start.hour < 12 {
                push_str_chars(&mut time_s, " AM");
            } else {
                push_str_chars(&mut time_s, " PM");
            }
            assert(time_s@ =~= time_cell(start));

            let dtend: Vec<char> = opt_field_chars(&e.dtend);
            let end_parsed: Option<CivilDateTime> = match &e.dtend {
                Some(_) => parse_dt(&dtend),
                None => None,
            };
            let mins: u64 = match end_parsed {
                Some(endc) => {
                    proof {
                        lemma_parse_dt_valid(dtend@);
                    }
                    let es: i64 = total_seconds_exec(&endc);
                    if es <= ss {
                        0
                    } else {
                        ((es - ss) as u64) / 60
                    }
                },
                None => 60,
            };
            assert(mins as int == duration_minutes(*e, start));
            let mut dur_s: Vec<char> = u64_to_chars(mins / 60);
            push_str_chars(&mut dur_s, ":");
            let dur_min: Vec<char> = u64_pad2(mins % 60);
            push_chars(&mut dur_s, &dur_min);
            assert(dur_s@ =~= duration_cell(mins as int));

            let mut row: Vec<char> = Vec::new();
            push_str_chars(&mut row, "\"GAME\",\"REGULAR\",\"\",");
            push_quoted(&mut row, &away);
            push_str_chars(&mut row, ",");
            push_quoted(&mut row, &home);
            push_str_chars(&mut row, ",");
            push_quoted(&mut row, &date_s);
            push_str_chars(&mut row, ",");
            push_quoted(&mut row, &time_s);
            push_str_chars(&mut row, ",");
            push_quoted(&mut row, &dur_s);
            push_str_chars(&mut row, ",");
            push_quoted(&mut row, &loc_name);
            push_str_chars(&mut row, ",");
            push_quoted(&mut row, &loc_addr);
            push_str_chars(&mut row, ",");
            push_quoted(&mut row, &notes);
            push_str_chars(&mut row, "\n");
            assert(row@ =~= row_chars(*e, start));
            Some(row)
        },
    }
}

/// The events that the outside calendar parser reads out of a feed text:
/// one entry per event component, each holding the property values this
/// module uses; nothing when the text is not a calendar.
pub uninterp spec fn ics_events_of(s: Seq<char>) -> Option<Seq<CalEvent>>;

/// Relies on `icalendar::parser::read_calendar` and
/// `icalendar::Component::property_value`: the parse of a feed text depends
/// on that text alone, and each event component carries its property
/// values.
#[verifier::external_body]
fn parse_ics(text: &str) -> (r: Option<Vec<CalEvent>>)
    ensures
        match r {
            Some(v) => ics_events_of(text@) == Some(v@),
            None => ics_events_of(text@) is None,
        },
{
    let cal: icalendar::Calendar = icalendar::parser::read_calendar(text).ok()?.into();
    let get = |e, k| icalendar::Component::property_value(e, k).map(|s: &str| s.to_string());
    Some(cal.components.iter().filter_map(|c| c.as_event().map(|e| CalEvent {
        summary: get(e, "SUMMARY"),
        dtstart: get(e, "DTSTART"),
        dtend: get(e, "DTEND"),
        location: get(e, "LOCATION"),
        description: get(e, "DESCRIPTION"),
    })).collect())
}

/// A calendar feed reduced to its event property values; `events` is
/// nothing when the feed text could not be parsed.
pub struct Ical {
    pub events: Option<Vec<CalEvent>>,
}

/// Latest start among events lying after the cutoff, if any.
pub open spec fn latest_after(events: Seq<CalEvent>, cutoff: CivilDateTime) -> Option<CivilDateTime>
    decreases events.len(),
{
    if events.len() == 0 {
        None
    } else {
        let prev = latest_after(events.drop_last(), cutoff);
        match parse_dt_spec(opt_chars(events.last().dtstart)) {
            Some(start) => if total_seconds(start) > total_seconds(cutoff) {
                match prev {
                    None => Some(start),
                    Some(cur) => if total_seconds(start) > total_seconds(cur) {
                        Some(start)
                    } else {
                        Some(cur)
                    },
                }
            } else {
                prev
            },
            None => prev,
        }
    }
}

/// Date on the dash-separated zero-padded form.
pub open spec fn date_iso(c: CivilDateTime) -> Seq<char> {
    pad4_chars(c.year as nat) + "-"@ + pad2_chars(c.month as nat) + "-"@ + pad2_chars(c.day as nat)
}

/// The status message for a feed: the latest scheduled date after the
/// cutoff, or a fixed line when nothing lies after it.
pub open spec fn summary_message(events: Seq<CalEvent>, cutoff: CivilDateTime) -> Seq<char> {
    match latest_after(events, cutoff) {
        Some(c) => "BenchApp import schedule attached. Games scheduled until "@ + date_iso(c)
            + "."@,
        None => "BenchApp import schedule attached. No upcoming games found."@,
    }
}

impl Ical {
    /// Build from a raw feed text, through the outside calendar parser.
    pub fn from_ics(ics: &str) -> (r: Ical)
        ensures
            match r.events {
                Some(v) => ics_events_of(ics@) == Some(v@),
                None => ics_events_of(ics@) is None,
            },
    {
        Ical { events: parse_ics(ics) }
    }

    /// Render the import rows for every event after the cutoff: the fixed
    /// header line, then one row per qualifying event in feed order. An
    /// event whose start has no reading is skipped like any other malformed
    /// record; the export fails only when the feed never parsed.
    pub fn to_bench_app_csv(&self, cutoff: &CivilDateTime) -> (r: Result<String, String>)
        requires
            civil_valid(*cutoff),
        ensures
            match self.events {
                None => r matches Err(m) && m@ == "No ICS available"@,
                Some(evs) => r matches Ok(s) && s@ == csv_header() + csv_rows(evs@, *cutoff),
            },
    {
        let evs: &Vec<CalEvent> = match &self.events {
            None => {
                return Err(chars_to_string(&str_to_chars("No ICS available")));
            },
            Some(evs) => evs,
        };
        let mut out: Vec<char> = Vec::new();
        push_str_chars(
            &mut out,
            "Type,Game Type,Title (Optional),Away,Home,Date,Time,Duration,Location (Optional),Address (Optional),Notes (Optional)\n",
        );
        let n: usize = evs.len();
        let mut i: usize = 0;
        let ghost mut body: Seq<char> = Seq::<char>::empty();
        proof {
            assert(evs@.subrange(0, 0) =~= Seq::<CalEvent>::empty());
        }
        while i < n
            invariant
                civil_valid(*cutoff),
                n == evs@.len(),
                i <= n,
                self.events matches Some(v) && v@ == evs@,
                body == csv_rows(evs@.subrange(0, i as int), *cutoff),
                out@ == csv_header() + body,
            decreases n - i,
        {
            let e: &CalEvent = &evs[i];
            let ghost prefix: Seq<CalEvent> = evs@.subrange(0, i as int);
            let ghost prefix1: Seq<CalEvent> = evs@.subrange(0, i + 1 as int);
            proof {
                assert(prefix1.drop_last() =~= prefix);
                assert(prefix1.last() == evs@[i as int]);
            }
            match row_for_event(e, cutoff) {
                Some(row) => {
                    push_chars(&mut out, &row);
                    proof {
                        body = body + row@;
                    }
                },
                None => {},
            }
            i += 1;
        }
        proof {
            assert(evs@.subrange(0, n as int) =~= evs@);
        }
        Ok(chars_to_string(&out))
    }

    /// Render the status message for everything after the cutoff; fails
    /// only when the feed never parsed.
    pub fn discord_message(&self, cutoff: &CivilDateTime) -> (r: Result<String, String>)
        requires
            civil_valid(*cutoff),
        ensures
            match self.events {
                None => r matches Err(m) && m@ == "No ICS available"@,
                Some(evs) => r matches Ok(s) && s@ == summary_message(evs@, *cutoff),
            },
    {
        let evs: &Vec<CalEvent> = match &self.events {
            None => {
                return Err(chars_to_string(&str_to_chars("No ICS available")));
            },
            Some(evs) => evs,
        };
        let n: usize = evs.len();
        let mut i: usize = 0;
        let mut latest: Option<CivilDateTime> = None;
        proof {
            assert(evs@.subrange(0, 0) =~= Seq::<CalEvent>::empty());
        }
        while i < n
            invariant
                civil_valid(*cutoff),
                n == evs@.len(),
                i <= n,
                latest == latest_after(evs@.subrange(0, i as int), *cutoff),
                latest matches Some(c) ==> civil_valid(c),
            decreases n - i,
        {
            let e: &CalEvent = &evs[i];
            let ghost prefix: Seq<CalEvent> = evs@.subrange(0, i as int);
            let ghost prefix1: Seq<CalEvent> = evs@.subrange(0, i + 1 as int);
            proof {
                assert(prefix1.drop_last() =~= prefix);
                assert(prefix1.last() == evs@[i as int]);
            }
            let dtstart: Vec<char> = opt_field_chars(&e.dtstart);
            match parse_dt(&dtstart) {
                Some(start) => {
                    proof {
                        lemma_parse_dt_valid(dtstart@);
                    }
                    let ss: i64 = total_seconds_exec(&start);
                    let cs: i64 = total_seconds_exec(cutoff);
                    if ss > cs {
                        match &latest {
                            None => {
                                latest = Some(start);
                            },
                            Some(cur) => {
                                let ls: i64 = total_seconds_exec(cur);
                                if ss > ls {
                                    latest = Some(start);
                                }
                            },
                        }
                    }
                },
                None => {},
            }
            i += 1;
        }
        proof {
            assert(evs@.subrange(0, n as int) =~= evs@);
        }
        match latest {
            Some(c) => {
                let mut m: Vec<char> = Vec::new();
                push_str_chars(&mut m, "BenchApp import schedule attached. Games scheduled until ");
                let y: Vec<char> = u64_pad4(c.year as u64);
                push_chars(&mut m, &y);
                push_str_chars(&mut m, "-");
                let mo: Vec<char> = u64_pad2(c.month as u64);
                push_chars(&mut m, &mo);
                push_str_chars(&mut m, "-");
                let d: Vec<char> = u64_pad2(c.day as u64);
                push_chars(&mut m, &d);
                push_str_chars(&mut m, ".");
                assert(m@ =~= summary_message(self.events->Some_0@, *cutoff));
                Ok(chars_to_string(&m))
            },
            None => Ok(chars_to_string(&str_to_chars(
                "BenchApp import schedule attached. No upcoming games found.",
            ))),
        }
    }
}

} // verus!
