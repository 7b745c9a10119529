//! The typed events that a session consumes, and what handling one reports.
//!
//! Events arrive already parsed and correlated: a single protocol message, or
//! the bundle that closes a join or a roster query.

use vstd::prelude::*;

verus! {

/// Somebody entered a channel.
#[derive(Debug)]
pub struct Join {
    pub nick: String,
    pub user: String,
    pub host: String,
    pub channel: String,
}

/// Somebody left a channel.
#[derive(Debug)]
pub struct Part {
    pub nick: String,
    pub channel: String,
}

/// Somebody left the network.
#[derive(Debug)]
pub struct Quit {
    pub nick: String,
}

/// Somebody was removed from a channel.
#[derive(Debug)]
pub struct Kick {
    pub channel: String,
    pub kicked_nick: String,
}

/// Somebody took another nick.
#[derive(Debug)]
pub struct Nick {
    pub nick: String,
    pub new_nick: String,
}

/// A channel got another topic.
#[derive(Debug)]
pub struct Topic {
    pub channel: String,
    pub body: String,
}

/// The server's welcome, which tells the session its own nick.
#[derive(Debug)]
pub struct Welcome {
    pub nick: String,
}

/// One protocol message, by kind.
#[derive(Debug)]
pub enum IncomingMsg {
    Join(Join),
    Part(Part),
    Quit(Quit),
    Kick(Kick),
    Nick(Nick),
    Topic(Topic),
    Welcome(Welcome),
    /// Any other message; it changes nothing.
    Other,
}

/// The bundle of a join that succeeded.
#[derive(Debug)]
pub struct JoinSuccess {
    pub channel: String,
    pub topic: Option<String>,
    pub nicks: Vec<String>,
}

/// One occupant in a roster response.
#[derive(Debug)]
pub struct WhoRecord {
    pub nick: String,
    pub user: String,
    pub host: String,
}

/// The bundle of a roster query that succeeded.
#[derive(Debug)]
pub struct WhoSuccess {
    pub channel: String,
    pub who_records: Vec<WhoRecord>,
}

/// A join or a roster query that the server refused.
#[derive(Debug)]
pub struct BundleFailure {}

/// One event, as the session takes it.
#[derive(Debug)]
pub enum IrcEvent {
    IrcMsg(IncomingMsg),
    JoinBundle(Result<JoinSuccess, BundleFailure>),
    WhoBundle(Result<WhoSuccess, BundleFailure>),
    /// An event kind that this session does not support.
    Extension,
}

/// Why an operation was refused. The state is then as it was.
#[derive(Clone, Copy, Debug, PartialEq, Eq, Structural)]
pub enum SyncError {
    /// The event names a channel that was never announced to the session.
    UnknownChannel,
    /// The event names a user that the session does not know.
    UnknownUser,
    /// The session's own user would be removed.
    RemoveSelf,
    /// The nick to take is filed under another user.
    NickInUse,
    /// A counter has no id left to give.
    IdsExhausted,
    /// The event is of a kind that the session does not support.
    Unsupported,
}

/// What a roster response says against what the session believes.
#[derive(Debug)]
pub struct RosterReport {
    /// Reported by the server, not believed to be in the channel.
    pub unknown: Vec<String>,
    /// Believed to be in the channel, not reported by the server.
    pub unreported: Vec<String>,
}

/// What handling an event came to, for the caller to log or act on.
#[derive(Debug)]
pub enum Notice {
    /// The event was applied.
    Applied,
    /// The event is of a kind that changes nothing.
    Ignored,
    /// A join of a channel that is already tracked; nothing changed.
    AlreadyJoined,
    /// The channel is not tracked; nothing changed.
    UnknownChannel,
    /// The user is not tracked; nothing changed.
    UnknownUser,
    /// Neither the channel nor the user is tracked; nothing changed.
    UnknownChannelAndUser,
    /// A roster response for a channel that already has members: the two
    /// lists of differences. Nothing changed.
    Roster(RosterReport),
}

/// The names in a list, as a set.
pub open spec fn names_of(v: Seq<String>) -> Set<Seq<char>> {
    Set::new(|n: Seq<char>| exists|i: int| 0 <= i < v.len() && (#[trigger] v[i])@ == n)
}

/// No name occurs twice in the list.
pub open spec fn names_distinct(v: Seq<String>) -> bool {
    forall|i: int, j: int| 0 <= i < j < v.len() ==> (#[trigger] v[i])@ != (#[trigger] v[j])@
}

/// A notice, as a value: the lists of a roster report count as sets.
pub enum NoticeView {
    Applied,
    Ignored,
    AlreadyJoined,
    UnknownChannel,
    UnknownUser,
    UnknownChannelAndUser,
    Roster { unknown: Set<Seq<char>>, unreported: Set<Seq<char>> },
}

impl View for Notice {
    type V = NoticeView;

    open spec fn view(&self) -> NoticeView {
        match *self {
            Notice::Applied => NoticeView::Applied,
            Notice::Ignored => NoticeView::Ignored,
            Notice::AlreadyJoined => NoticeView::AlreadyJoined,
            Notice::UnknownChannel => NoticeView::UnknownChannel,
            Notice::UnknownUser => NoticeView::UnknownUser,
            Notice::UnknownChannelAndUser => NoticeView::UnknownChannelAndUser,
            Notice::Roster(report) => NoticeView::Roster {
                unknown: names_of(report.unknown@),
                unreported: names_of(report.unreported@),
            },
        }
    }
}

impl Notice {
    /// Whether the notice tells of a mirror that disagrees with the server.
    pub fn is_desync(&self) -> (r: bool)
        ensures
            r == match *self {
                Notice::Roster(report) => report.unknown@.len() > 0 || report.unreported@.len()
                    > 0,
                _ => false,
            },
    {
        match self {
            Notice::Roster(report) => report.unknown.len() > 0 || report.unreported.len() > 0,
            _ => false,
        }
    }
}

/// The result of an operation, as a value.
pub open spec fn outcome_of(r: Result<Notice, SyncError>) -> Result<NoticeView, SyncError> {
    match r {
        Ok(n) => Ok(n@),
        Err(e) => Err(e),
    }
}

} // verus!
