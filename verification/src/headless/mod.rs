//! Server side of control streams: raw terminal attaches, their sharing,
//! and tab geometry ownership for clients that render panes themselves.
//!
//! The server's methods decide; they do not act. What has to happen outside
//! (a pane's raw tap, a tab's layout, a line on a stream) is appended, in
//! order, to the server's list of effects.

pub mod answering;
pub mod app;
pub mod arrivals;
pub mod attach;
pub mod authority;
pub mod boundaries;
pub mod currency;
pub mod departures;
pub mod dispatch;
pub mod facts;
pub mod geometry;
pub mod inheritance;
pub mod laws;
pub mod layout;
pub mod lifecycle;
pub mod listing;
pub mod mirrors;
pub mod offers;
pub mod openings;
pub mod ownership;
pub mod preservation;
pub mod refusals;
pub mod release;
pub mod reports;
pub mod requests;
pub mod sharing;
pub mod soundness;
pub mod state;
pub mod succession;
pub mod upkeep;

