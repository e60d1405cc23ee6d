//! Data model of the fetched team schedule document.
//!
//! The document arrives as a root team record plus an ordered list of
//! heterogeneous included records; unrecognized record kinds are kept as
//! an opaque `Other` entry so that a new kind never breaks a fetch.

use vstd::prelude::*;

verus! {

/// Attributes of the root team record.
#[derive(Debug)]
pub struct TeamAttributes {
    pub name: String,
    pub season_id: Option<i64>,
    pub league_id: Option<i64>,
    pub start_date: Option<String>,
    pub has_upcoming_events: Option<bool>,
}

/// Attributes of a team named inside the included list.
#[derive(Debug)]
pub struct TeamBasicAttributes {
    pub name: String,
}

/// Attributes of a resource (a rink, a locker room) record.
#[derive(Debug)]
pub struct ResourceAttributes {
    pub name: Option<String>,
}

/// Attributes of a locker room record.
#[derive(Debug)]
pub struct LockerRoomAttributes {
    pub name: Option<String>,
    pub description: Option<String>,
}

/// Attributes of an event record. One physical shape serves two logical
/// kinds, told apart by `event_type_id`; the last two fields matter only
/// for locker-room assignments.
#[derive(Debug)]
pub struct EventAttributes {
    pub event_type_id: Option<String>,
    pub start: Option<String>,
    pub end: Option<String>,
    pub start_date: Option<String>,
    pub event_start_time: Option<String>,
    pub start_gmt: Option<String>,
    pub hteam_id: Option<i64>,
    pub vteam_id: Option<i64>,
    pub resource_id: Option<i64>,
    pub sub_type: Option<String>,
    pub parent_event_id: Option<i64>,
    pub locker_room_type: Option<String>,
}

/// Logical kind of an event record.
#[derive(Debug, PartialEq, Eq, Structural, Clone, Copy)]
pub enum EventType {
    Game,
    LockerRoom,
    Unknown,
}

/// The root team record.
#[derive(Debug)]
pub struct Team {
    pub id: String,
    pub type_field: String,
    pub attributes: TeamAttributes,
}

/// One record of the included list, tagged by kind; anything the model
/// does not know is preserved as `Other` rather than failing the parse.
#[derive(Debug)]
pub enum Included {
    Event { id: String, attributes: EventAttributes },
    TeamIncluded { id: String, attributes: TeamBasicAttributes },
    Resource { id: String, attributes: ResourceAttributes },
    Other,
}

/// The whole fetched document.
#[derive(Debug)]
pub struct TeamDocument {
    pub data: Team,
    pub included: Vec<Included>,
}

/// Normalized view of one game event: an absolute start instant in epoch
/// seconds and the ids the formatter resolves later.
#[derive(Debug, Clone, Copy, PartialEq, Eq, Structural)]
pub struct GameCore {
    pub start_epoch: i64,
    pub h_id: Option<i64>,
    pub v_id: Option<i64>,
    pub res_id: Option<i64>,
}

/// A selected game together with the locker-room resource resolved for
/// each side; built per query, never stored.
#[derive(Debug, Clone, Copy, PartialEq, Eq, Structural)]
pub struct GameInfo {
    pub start_epoch: i64,
    pub h_id: Option<i64>,
    pub v_id: Option<i64>,
    pub res_id: Option<i64>,
    pub home_locker_res_id: Option<i64>,
    pub away_locker_res_id: Option<i64>,
}

} // verus!
