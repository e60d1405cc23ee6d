use hockey_reminder::daysmart::DaySmart;
use hockey_reminder::model::{EventAttributes, Included, Team, TeamAttributes, TeamBasicAttributes, ResourceAttributes, TeamDocument};
use hockey_reminder::time::{epoch_seconds_exec, CivilDateTime};

fn team(id: &str, name: &str) -> Team {
    Team {
        id: id.to_string(),
        type_field: "teams".to_string(),
        attributes: TeamAttributes {
            name: name.to_string(),
            season_id: None,
            league_id: None,
            start_date: None,
            has_upcoming_events: None,
        },
    }
}

fn blank_event() -> EventAttributes {
    EventAttributes {
        event_type_id: None,
        start: None,
        end: None,
        start_date: None,
        event_start_time: None,
        start_gmt: None,
        hteam_id: None,
        vteam_id: None,
        resource_id: None,
        sub_type: None,
        parent_event_id: None,
        locker_room_type: None,
    }
}

fn game_event(id: &str, tag: &str, start_gmt: &str, h: i64, v: i64, res: i64) -> Included {
    Included::Event {
        id: id.to_string(),
        attributes: EventAttributes {
            event_type_id: Some(tag.to_string()),
            start_gmt: Some(start_gmt.to_string()),
            hteam_id: Some(h),
            vteam_id: Some(v),
            resource_id: Some(res),
            ..blank_event()
        },
    }
}

fn locker_event(id: &str, tag: &str, parent: i64, res: i64, side: Option<&str>) -> Included {
    Included::Event {
        id: id.to_string(),
        attributes: EventAttributes {
            event_type_id: Some(tag.to_string()),
            parent_event_id: Some(parent),
            resource_id: Some(res),
            locker_room_type: side.map(|s| s.to_string()),
            ..blank_event()
        },
    }
}

fn team_ref(id: &str, name: &str) -> Included {
    Included::TeamIncluded {
        id: id.to_string(),
        attributes: TeamBasicAttributes { name: name.to_string() },
    }
}

fn resource(id: &str, name: Option<&str>) -> Included {
    Included::Resource {
        id: id.to_string(),
        attributes: ResourceAttributes { name: name.map(|s| s.to_string()) },
    }
}

fn epoch(year: i64, month: u8, day: u8, hour: u8, minute: u8, second: u8) -> i64 {
    epoch_seconds_exec(&CivilDateTime { year, month, day, hour, minute, second })
}

#[test]
fn gets_next_upcoming_game_message() {
    // Our team 100 plays away against the Blackbirds on 2025-09-28.
    let doc = TeamDocument {
        data: team("100", "Yacht Flippers"),
        included: vec![
            team_ref("200", "Blackbirds"),
            resource("50", Some("Olympic View Arena")),
            game_event("9001", "g", "2025-09-28T18:00:00Z", 200, 100, 50),
        ],
    };
    let ds = DaySmart::from_document(doc);
    let now = epoch(2025, 9, 27, 0, 0, 0);
    let msg = ds.get_next_game_message(7, now).expect("expected an upcoming game within 7 days");

    assert!(msg.contains("Olympic View Arena"), "message was: {}", msg);
    assert!(msg.contains("Blackbirds"), "message was: {}", msg);
    assert!(msg.contains("Yacht Flippers"), "message was: {}", msg);
    assert!(msg.contains(":shirt: Dark Jerseys"), "message was: {}", msg);
    assert!(!msg.contains("Locker Room:"), "message was: {}", msg);
    // 18:00 UTC is 11:00 AM Pacific daylight time; 2025-09-28 is a Sunday.
    assert!(msg.contains("Sun Sep 28, 2025"), "message was: {}", msg);
    assert!(msg.contains("11:00 AM"), "message was: {}", msg);
}

#[test]
fn formats_specific_game_with_locker_room() {
    // Our team 100 plays at home; its side's locker room resolves to LR11.
    let doc = TeamDocument {
        data: team("100", "Yacht Flippers"),
        included: vec![
            team_ref("300", "Seal Team Sticks"),
            resource("51", Some("Starbucks Rink 1")),
            resource("77", Some("LR11")),
            game_event("312149", "g", "2025-09-21T19:00:00Z", 100, 300, 51),
            locker_event("312150", "L", 312149, 77, Some("h")),
        ],
    };
    let ds = DaySmart::from_document(doc);
    let now = epoch(2025, 9, 20, 0, 0, 0);
    let msg = ds.get_next_game_message(3, now).expect("expected a game within window");

    assert!(msg.contains("Kraken Hockey League Game"), "message was: {}", msg);
    assert!(msg.contains("Starbucks Rink 1"), "message was: {}", msg);
    assert!(msg.contains("Yacht Flippers"), "message was: {}", msg);
    assert!(msg.contains("Seal Team Sticks"), "message was: {}", msg);
    assert!(msg.contains("Locker Room: LR11"), "message was: {}", msg);
    assert!(msg.contains(":shirt: Light Jerseys"), "message was: {}", msg);
}

#[test]
fn window_includes_boundaries_and_excludes_outside() {
    let start = "2025-09-28T18:00:00Z";
    let start_epoch = epoch(2025, 9, 28, 18, 0, 0);
    let doc = TeamDocument {
        data: team("100", "Us"),
        included: vec![game_event("1", "g", start, 100, 200, 50)],
    };
    let ds = DaySmart::from_document(doc);

    // start == now: included
    assert_eq!(ds.find_upcoming_games(1, start_epoch).len(), 1);
    // start == now + days: included
    assert_eq!(ds.find_upcoming_games(1, start_epoch - 86400).len(), 1);
    // start < now: excluded
    assert_eq!(ds.find_upcoming_games(1, start_epoch + 1).len(), 0);
    // start > now + days: excluded
    assert_eq!(ds.find_upcoming_games(1, start_epoch - 86401).len(), 0);
}

#[test]
fn upcoming_sorts_ascending_with_stable_ties() {
    let doc = TeamDocument {
        data: team("100", "Us"),
        included: vec![
            game_event("3", "g", "2025-09-28T20:00:00Z", 100, 200, 50),
            game_event("1", "g", "2025-09-28T18:00:00Z", 100, 201, 50),
            game_event("2", "g", "2025-09-28T18:00:00Z", 100, 202, 50),
        ],
    };
    let ds = DaySmart::from_document(doc);
    let now = epoch(2025, 9, 28, 0, 0, 0);
    let games = ds.find_upcoming_games(1, now);
    assert_eq!(games.len(), 3);
    assert_eq!(games[0].v_id, Some(201), "earliest first; ties keep input order");
    assert_eq!(games[1].v_id, Some(202));
    assert_eq!(games[2].v_id, Some(200));
}

#[test]
fn case_of_discriminators_and_flags_does_not_matter() {
    let build = |game_tag: &str, locker_tag: &str, side: &str| {
        let doc = TeamDocument {
            data: team("100", "Us"),
            included: vec![
                resource("77", Some("LR4")),
                game_event("10", game_tag, "2025-09-21T19:00:00Z", 100, 300, 51),
                locker_event("11", locker_tag, 10, 77, Some(side)),
            ],
        };
        let ds = DaySmart::from_document(doc);
        ds.get_next_game_message(3, epoch(2025, 9, 20, 0, 0, 0))
    };
    let lower = build("g", "l", "h").expect("lower-case tags");
    let upper = build("G", "L", "H").expect("upper-case tags");
    assert_eq!(lower, upper);
    assert!(lower.contains("Locker Room: LR4"), "message was: {}", lower);
}

#[test]
fn jersey_color_follows_home_and_away() {
    let message_for = |root_id: &str| {
        let doc = TeamDocument {
            data: team(root_id, "Us"),
            included: vec![game_event("1", "g", "2025-09-21T19:00:00Z", 100, 300, 51)],
        };
        DaySmart::from_document(doc)
            .get_next_game_message(3, epoch(2025, 9, 20, 0, 0, 0))
            .expect("game in window")
    };
    assert!(message_for("100").contains(":shirt: Light Jerseys"), "home team wears light");
    assert!(message_for("300").contains(":shirt: Dark Jerseys"), "away team wears dark");
    assert!(message_for("not-a-number").contains(":shirt: Dark Jerseys"), "unknown id styles away");
}

#[test]
fn unresolved_names_fall_back_to_literals() {
    let doc = TeamDocument {
        data: team("999", "Us"),
        included: vec![game_event("1", "g", "2025-09-21T19:00:00Z", 100, 300, 51)],
    };
    let ds = DaySmart::from_document(doc);
    let msg = ds.get_next_game_message(3, epoch(2025, 9, 20, 0, 0, 0)).expect("game in window");
    assert!(msg.contains("Home vs Visitor"), "message was: {}", msg);
    assert!(msg.contains("at Unknown Arena"), "message was: {}", msg);
}

#[test]
fn locker_search_ignores_candidates_beyond_eight_hours() {
    // One candidate 9 hours away, one 2 hours away, one 1 hour away but
    // for another team.
    let target = epoch(2025, 9, 21, 12, 0, 0);
    let doc = TeamDocument {
        data: team("100", "Us"),
        included: vec![
            locker_event_with_time("1", 100, 71, "2025-09-21T03:00:00Z"),
            locker_event_with_time("2", 100, 72, "2025-09-21T10:00:00Z"),
            locker_event_with_time("3", 555, 73, "2025-09-21T11:00:00Z"),
        ],
    };
    let ds = DaySmart::from_document(doc);
    assert_eq!(ds.find_locker(100, target), Some(72));
    // With only the far candidate, nothing is reported.
    let doc2 = TeamDocument {
        data: team("100", "Us"),
        included: vec![locker_event_with_time("1", 100, 71, "2025-09-21T03:00:00Z")],
    };
    assert_eq!(DaySmart::from_document(doc2).find_locker(100, target), None);
}

#[test]
fn locker_search_keeps_first_seen_on_ties() {
    // Two candidates at the same distance from the target: one hour before
    // and one hour after. The first seen wins.
    let target = epoch(2025, 9, 21, 12, 0, 0);
    let doc = TeamDocument {
        data: team("100", "Us"),
        included: vec![
            locker_event_with_time("1", 100, 81, "2025-09-21T11:00:00Z"),
            locker_event_with_time("2", 100, 82, "2025-09-21T13:00:00Z"),
        ],
    };
    let ds = DaySmart::from_document(doc);
    assert_eq!(ds.find_locker(100, target), Some(81));
}

fn locker_event_with_time(id: &str, team_id: i64, res: i64, start_gmt: &str) -> Included {
    Included::Event {
        id: id.to_string(),
        attributes: EventAttributes {
            event_type_id: Some("L".to_string()),
            start_gmt: Some(start_gmt.to_string()),
            hteam_id: Some(team_id),
            resource_id: Some(res),
            ..blank_event()
        },
    }
}

#[test]
fn selector_and_formatter_are_idempotent() {
    let doc = TeamDocument {
        data: team("100", "Yacht Flippers"),
        included: vec![
            team_ref("200", "Blackbirds"),
            resource("50", Some("Olympic View Arena")),
            game_event("9001", "g", "2025-09-28T18:00:00Z", 200, 100, 50),
        ],
    };
    let ds = DaySmart::from_document(doc);
    let now = epoch(2025, 9, 27, 0, 0, 0);
    let first = ds.get_next_game_message(7, now);
    let second = ds.get_next_game_message(7, now);
    assert_eq!(first, second, "one snapshot, one message");
}

#[test]
fn malformed_records_are_skipped_not_fatal() {
    let doc = TeamDocument {
        data: team("100", "Us"),
        included: vec![
            // unparsable start: dropped
            game_event("1", "g", "not a time", 100, 300, 51),
            // non-numeric id: dropped
            game_event("x", "g", "2025-09-21T19:00:00Z", 100, 300, 51),
            // unknown kind: kept as Other, ignored
            Included::Other,
            // the one good game
            game_event("2", "g", "2025-09-21T20:00:00Z", 100, 300, 51),
        ],
    };
    let ds = DaySmart::from_document(doc);
    let games = ds.find_upcoming_games(3, epoch(2025, 9, 20, 0, 0, 0));
    assert_eq!(games.len(), 1);
}

#[test]
fn fallback_pattern_reads_local_start() {
    // No GMT field; the local field is not RFC 3339 but matches the fixed
    // fallback pattern, read as UTC.
    let doc = TeamDocument {
        data: team("100", "Us"),
        included: vec![Included::Event {
            id: "5".to_string(),
            attributes: EventAttributes {
                event_type_id: Some("g".to_string()),
                start: Some("2025-09-21T19:00:00".to_string()),
                hteam_id: Some(100),
                vteam_id: Some(300),
                resource_id: Some(51),
                ..blank_event()
            },
        }],
    };
    let ds = DaySmart::from_document(doc);
    let games = ds.find_upcoming_games(3, epoch(2025, 9, 20, 0, 0, 0));
    assert_eq!(games.len(), 1);
    assert_eq!(games[0].start_epoch, epoch(2025, 9, 21, 19, 0, 0));
}
