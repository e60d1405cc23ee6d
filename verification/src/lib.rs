//! Schedule correlation and notification formatting for a hockey team.
//!
//! Two independent pipelines share nothing but this crate's helpers. The
//! first reads a fetched team document ([`model`], [`daysmart`]): it builds
//! name lookup tables, assigns locker rooms to games, selects the next game
//! inside a lookahead window and renders the notification text. The second
//! reads a calendar feed ([`ical`]): it filters events by a cutoff and
//! renders import rows and a status line. [`discord`] assembles what the
//! delivery side sends; [`handler`] holds the request shape and the two
//! decisions taken before any work runs. Fetching and posting are left to
//! the surrounding program.

pub mod text;
pub mod time;
pub mod model;
pub mod daysmart;
pub mod discord;
pub mod handler;
pub mod ical;
