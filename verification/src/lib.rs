//! Client-side mirror of an IRC session: who is in which channel, and who we are.
//!
//! The crate keeps an in-memory store of users and channels, keyed by opaque
//! sequential ids and indexed by canonical (case-folded) names, and applies
//! typed protocol events to it. Every operation is proved to keep the store
//! consistent.
//!
//! - `irc_identifier`: canonical names.
//! - `name_index`: the index from canonical names to ids.
//! - `entity`, `event`: users and channels; events, notices and errors.
//! - `model`, `transition`: the session as a mathematical value, and what each
//!   store operation and each event makes of it.
//! - `state`, `handlers`, `roster`: the executable session, proved to follow
//!   the model.
//! - `validate`, `compare`, `frozen`: the consistency scan, comparison by
//!   value, and snapshots.
//! - `laws`: what holds of every session.

pub mod irc_identifier;
pub mod name_index;
pub mod model;
pub mod transition;
pub mod event;
pub mod entity;
pub mod state;
pub mod handlers;
pub mod roster;
pub mod frozen;
pub mod compare;
pub mod validate;
pub mod laws;

pub use entity::{Channel, ChannelId, ChannelInfo, MessageEndpoint, User, UserId};
pub use entity::MessageEndpoint::{AnonymousUser, KnownChannel, KnownUser};
pub use event::{
    BundleFailure, IncomingMsg, IrcEvent, Join, JoinSuccess, Kick, Nick, Notice, Part, Quit,
    RosterReport, SyncError, Topic, Welcome, WhoRecord, WhoSuccess,
};
pub use frozen::FrozenState;
pub use irc_identifier::IrcIdentifier;
pub use state::State;
pub use validate::Violation;
