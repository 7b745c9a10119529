//! What each event makes of a session, as mathematics: the state after it and
//! the outcome reported, with the proofs that every event keeps the session
//! consistent.

use vstd::prelude::*;
use crate::entity::topic_of;
use crate::event::{IncomingMsg, IrcEvent, NoticeView, SyncError, WhoRecord};
use crate::irc_identifier::normalize;
use crate::model::{
    lemma_link_store_wf, lemma_remove_channel_wf, lemma_remove_user_wf, lemma_rename_user_wf,
    lemma_set_topic_wf, lemma_unlink_wf, lemma_with_channel_wf, lemma_with_user_store_wf,
    ChannelView, StateView, UserView,
};

verus! {

/// The user part that the session's own user gets when only its nick is known.
pub open spec fn placeholder_user() -> Seq<char> {
    "someone"@
}

/// The host part that the session's own user gets when only its nick is known.
pub open spec fn placeholder_host() -> Seq<char> {
    "somewhere"@
}

/// The nicks that a roster response reports.
pub open spec fn reported_nicks(recs: Seq<WhoRecord>) -> Set<Seq<char>> {
    Set::new(|n: Seq<char>| exists|i: int| 0 <= i < recs.len() && (#[trigger] recs[i]).nick@ == n)
}

impl StateView {
    // ---------------------------------------------------------------------
    // Entities made on first mention
    // ---------------------------------------------------------------------
    /// The store with a new user under the next user id.
    pub open spec fn with_new_user(
        self,
        nick: Seq<char>,
        user: Seq<char>,
        host: Seq<char>,
    ) -> StateView {
        StateView {
            user_seq: (self.user_seq + 1) as u64,
            ..self.with_user(
                UserView { id: self.user_seq, nick, user, host, channels: Set::empty() },
            )
        }
    }

    /// The store with a new channel under the next channel id.
    pub open spec fn with_new_channel(self, name: Seq<char>, topic: Seq<char>) -> StateView {
        StateView {
            channel_seq: (self.channel_seq + 1) as u64,
            ..self.with_channel(
                ChannelView { id: self.channel_seq, name, topic, users: Set::empty() },
            )
        }
    }

    /// Whether the user that `nick` names can be found or made: it is known,
    /// or the user counter has an id left.
    pub open spec fn can_enroll(self, nick: Seq<char>) -> bool {
        self.user_map.contains_key(normalize(nick)) || self.user_seq < u64::MAX
    }

    /// The user that `nick` names (made, if it was not known) put into
    /// channel `c`.
    pub open spec fn enroll(
        self,
        nick: Seq<char>,
        user: Seq<char>,
        host: Seq<char>,
        c: u64,
    ) -> StateView {
        let s1 = if self.user_map.contains_key(normalize(nick)) {
            self
        } else {
            self.with_new_user(nick, user, host)
        };
        s1.link(s1.user_map[normalize(nick)], c)
    }

    /// Every occupant of a roster put into channel `c`, in the roster's order.
    pub open spec fn populate(self, c: u64, recs: Seq<WhoRecord>) -> StateView
        decreases recs.len(),
    {
        if recs.len() == 0 {
            self
        } else {
            self.populate(c, recs.drop_last()).enroll(
                recs.last().nick@,
                recs.last().user@,
                recs.last().host@,
                c,
            )
        }
    }

    /// The nicks of the users that the session believes to be in channel `c`.
    pub open spec fn believed_nicks(self, c: u64) -> Set<Seq<char>> {
        Set::new(
            |n: Seq<char>|
                exists|u: u64| #[trigger]
                    self.channels[c].users.contains(u) && self.users.contains_key(u)
                        && self.users[u].nick == n,
        )
    }

    // ---------------------------------------------------------------------
    // One handler each: the outcome, and the state after
    // ---------------------------------------------------------------------
    /// The session's own join has succeeded.
    pub open spec fn self_join_outcome(self, channel: Seq<char>) -> Result<NoticeView, SyncError> {
        if self.channel_map.contains_key(normalize(channel)) {
            Ok(NoticeView::AlreadyJoined)
        } else if self.channel_seq == u64::MAX {
            Err(SyncError::IdsExhausted)
        } else {
            Ok(NoticeView::Applied)
        }
    }

    pub open spec fn self_join(self, channel: Seq<char>, topic: Seq<char>) -> StateView {
        if self.self_join_outcome(channel) == Ok::<NoticeView, SyncError>(NoticeView::Applied) {
            self.with_new_channel(channel, topic)
        } else {
            self
        }
    }

    /// Somebody else has joined a channel.
    pub open spec fn other_join_outcome(
        self,
        nick: Seq<char>,
        channel: Seq<char>,
    ) -> Result<NoticeView, SyncError> {
        if !self.channel_map.contains_key(normalize(channel)) {
            Err(SyncError::UnknownChannel)
        } else if !self.can_enroll(nick) {
            Err(SyncError::IdsExhausted)
        } else {
            Ok(NoticeView::Applied)
        }
    }

    pub open spec fn other_join(
        self,
        nick: Seq<char>,
        user: Seq<char>,
        host: Seq<char>,
        channel: Seq<char>,
    ) -> StateView {
        if self.other_join_outcome(nick, channel) is Ok {
            self.enroll(nick, user, host, self.channel_map[normalize(channel)])
        } else {
            self
        }
    }

    /// The session itself has left a channel.
    pub open spec fn self_part_outcome(self, channel: Seq<char>) -> Result<NoticeView, SyncError> {
        if self.channel_map.contains_key(normalize(channel)) {
            Ok(NoticeView::Applied)
        } else {
            Err(SyncError::UnknownChannel)
        }
    }

    pub open spec fn self_part(self, channel: Seq<char>) -> StateView {
        if self.channel_map.contains_key(normalize(channel)) {
            self.remove_channel(self.channel_map[normalize(channel)])
        } else {
            self
        }
    }

    /// Somebody else has left a channel, or somebody was removed from one.
    pub open spec fn leave_outcome(
        self,
        nick: Seq<char>,
        channel: Seq<char>,
    ) -> Result<NoticeView, SyncError> {
        match (self.identify_channel(channel), self.identify_nick(nick)) {
            (Some(_), Some(_)) => Ok(NoticeView::Applied),
            (None, Some(_)) => Ok(NoticeView::UnknownChannel),
            (Some(_), None) => Ok(NoticeView::UnknownUser),
            (None, None) => Ok(NoticeView::UnknownChannelAndUser),
        }
    }

    pub open spec fn leave(self, nick: Seq<char>, channel: Seq<char>) -> StateView {
        match (self.identify_channel(channel), self.identify_nick(nick)) {
            (Some(c), Some(u)) => self.unlink(u, c),
            _ => self,
        }
    }

    /// Somebody else has left the network.
    pub open spec fn other_quit_outcome(self, nick: Seq<char>) -> Result<NoticeView, SyncError> {
        match self.identify_nick(nick) {
            None => Err(SyncError::UnknownUser),
            Some(u) => if u == self.self_id {
                Err(SyncError::RemoveSelf)
            } else {
                Ok(NoticeView::Applied)
            },
        }
    }

    pub open spec fn other_quit(self, nick: Seq<char>) -> StateView {
        if self.other_quit_outcome(nick) is Ok {
            self.remove_user(self.user_map[normalize(nick)])
        } else {
            self
        }
    }

    /// Somebody has taken another nick.
    pub open spec fn nick_change_outcome(
        self,
        nick: Seq<char>,
        new_nick: Seq<char>,
    ) -> Result<NoticeView, SyncError> {
        match self.identify_nick(nick) {
            None => Err(SyncError::UnknownUser),
            Some(u) => if self.nick_free_for(u, new_nick) {
                Ok(NoticeView::Applied)
            } else {
                Err(SyncError::NickInUse)
            },
        }
    }

    pub open spec fn nick_change(self, nick: Seq<char>, new_nick: Seq<char>) -> StateView {
        if self.nick_change_outcome(nick, new_nick) is Ok {
            self.rename_user(self.user_map[normalize(nick)], new_nick)
        } else {
            self
        }
    }

    /// A channel has got another topic.
    pub open spec fn topic_change_outcome(
        self,
        channel: Seq<char>,
    ) -> Result<NoticeView, SyncError> {
        if self.channel_map.contains_key(normalize(channel)) {
            Ok(NoticeView::Applied)
        } else {
            Err(SyncError::UnknownChannel)
        }
    }

    pub open spec fn topic_change(self, channel: Seq<char>, topic: Seq<char>) -> StateView {
        if self.channel_map.contains_key(normalize(channel)) {
            self.set_topic(self.channel_map[normalize(channel)], topic)
        } else {
            self
        }
    }

    /// The session's own nick is set from outside.
    pub open spec fn set_self_nick_outcome(self, nick: Seq<char>) -> Result<NoticeView, SyncError> {
        if self.established() && !self.nick_free_for(self.self_id, nick) {
            Err(SyncError::NickInUse)
        } else {
            Ok(NoticeView::Applied)
        }
    }

    pub open spec fn set_self_nick(self, nick: Seq<char>) -> StateView {
        if self.set_self_nick_outcome(nick) is Err {
            self
        } else if self.established() {
            StateView { self_nick: nick, ..self.rename_user(self.self_id, nick) }
        } else {
            StateView { self_nick: nick, ..self }
        }
    }

    /// The server has welcomed the session under `nick`.
    pub open spec fn welcome_outcome(self, nick: Seq<char>) -> Result<NoticeView, SyncError> {
        if self.established() {
            self.set_self_nick_outcome(nick)
        } else if self.user_map.contains_key(normalize(nick)) {
            Err(SyncError::NickInUse)
        } else {
            Ok(NoticeView::Applied)
        }
    }

    pub open spec fn welcome(self, nick: Seq<char>) -> StateView {
        if self.welcome_outcome(nick) is Err {
            self
        } else if self.established() {
            self.set_self_nick(nick)
        } else {
            StateView {
                self_nick: nick,
                ..self.with_user(
                    UserView {
                        id: self.self_id,
                        nick,
                        user: placeholder_user(),
                        host: placeholder_host(),
                        channels: Set::empty(),
                    },
                )
            }
        }
    }

    /// Whether a roster response for `channel` fills the channel: the channel
    /// is tracked and has no member yet.
    pub open spec fn roster_fills(self, channel: Seq<char>) -> bool {
        &&& self.channel_map.contains_key(normalize(channel))
        &&& self.channels[self.channel_map[normalize(channel)]].users.is_empty()
    }

    /// A roster response has come.
    pub open spec fn who_outcome(
        self,
        channel: Seq<char>,
        recs: Seq<WhoRecord>,
    ) -> Result<NoticeView, SyncError> {
        if !self.channel_map.contains_key(normalize(channel)) {
            Ok(NoticeView::UnknownChannel)
        } else if !self.roster_fills(channel) {
            let believed = self.believed_nicks(self.channel_map[normalize(channel)]);
            let reported = reported_nicks(recs);
            Ok(
                NoticeView::Roster {
                    unknown: reported.difference(believed),
                    unreported: believed.difference(reported),
                },
            )
        } else if self.user_seq + recs.len() > u64::MAX {
            Err(SyncError::IdsExhausted)
        } else {
            Ok(NoticeView::Applied)
        }
    }

    pub open spec fn who(self, channel: Seq<char>, recs: Seq<WhoRecord>) -> StateView {
        if self.roster_fills(channel) && self.user_seq + recs.len() <= u64::MAX {
            self.populate(self.channel_map[normalize(channel)], recs)
        } else {
            self
        }
    }

    // ---------------------------------------------------------------------
    // Dispatch
    // ---------------------------------------------------------------------
    /// The outcome of one protocol message.
    pub open spec fn message_outcome(self, msg: IncomingMsg) -> Result<NoticeView, SyncError> {
        match msg {
            IncomingMsg::Part(part) => if self.is_self(part.nick@) {
                self.self_part_outcome(part.channel@)
            } else {
                self.leave_outcome(part.nick@, part.channel@)
            },
            IncomingMsg::Quit(quit) => if self.is_self(quit.nick@) {
                Ok(NoticeView::Ignored)
            } else {
                self.other_quit_outcome(quit.nick@)
            },
            IncomingMsg::Join(join) => if self.is_self(join.nick@) {
                Ok(NoticeView::Ignored)
            } else {
                self.other_join_outcome(join.nick@, join.channel@)
            },
            IncomingMsg::Topic(topic) => self.topic_change_outcome(topic.channel@),
            IncomingMsg::Nick(nick) => self.nick_change_outcome(nick.nick@, nick.new_nick@),
            IncomingMsg::Kick(kick) => self.leave_outcome(kick.kicked_nick@, kick.channel@),
            IncomingMsg::Welcome(welcome) => self.welcome_outcome(welcome.nick@),
            IncomingMsg::Other => Ok(NoticeView::Ignored),
        }
    }

    /// The state after one protocol message.
    pub open spec fn after_message(self, msg: IncomingMsg) -> StateView {
        match msg {
            IncomingMsg::Part(part) => if self.is_self(part.nick@) {
                self.self_part(part.channel@)
            } else {
                self.leave(part.nick@, part.channel@)
            },
            IncomingMsg::Quit(quit) => if self.is_self(quit.nick@) {
                self
            } else {
                self.other_quit(quit.nick@)
            },
            IncomingMsg::Join(join) => if self.is_self(join.nick@) {
                self
            } else {
                self.other_join(join.nick@, join.user@, join.host@, join.channel@)
            },
            IncomingMsg::Topic(topic) => self.topic_change(topic.channel@, topic.body@),
            IncomingMsg::Nick(nick) => self.nick_change(nick.nick@, nick.new_nick@),
            IncomingMsg::Kick(kick) => self.leave(kick.kicked_nick@, kick.channel@),
            IncomingMsg::Welcome(welcome) => self.welcome(welcome.nick@),
            IncomingMsg::Other => self,
        }
    }

    /// The outcome of one event.
    pub open spec fn event_outcome(self, event: IrcEvent) -> Result<NoticeView, SyncError> {
        match event {
            IrcEvent::IrcMsg(msg) => self.message_outcome(msg),
            IrcEvent::JoinBundle(Ok(join)) => self.self_join_outcome(join.channel@),
            IrcEvent::JoinBundle(Err(_)) => Ok(NoticeView::Ignored),
            IrcEvent::WhoBundle(Ok(who)) => self.who_outcome(who.channel@, who.who_records@),
            IrcEvent::WhoBundle(Err(_)) => Ok(NoticeView::Ignored),
            IrcEvent::Extension => Err(SyncError::Unsupported),
        }
    }

    /// The state after one event.
    pub open spec fn after_event(self, event: IrcEvent) -> StateView {
        match event {
            IrcEvent::IrcMsg(msg) => self.after_message(msg),
            IrcEvent::JoinBundle(Ok(join)) => self.self_join(join.channel@, topic_of(&join)),
            IrcEvent::JoinBundle(Err(_)) => self,
            IrcEvent::WhoBundle(Ok(who)) => self.who(who.channel@, who.who_records@),
            IrcEvent::WhoBundle(Err(_)) => self,
            IrcEvent::Extension => self,
        }
    }

    /// Whether `later` gave no id a second time since `self`: the counters
    /// did not go down, and each entity that `later` has and `self` had not
    /// is under an id from the counter of `self` on, or is the session's own
    /// user, whose id is set aside from the start.
    pub open spec fn ids_fresh_in(self, later: StateView) -> bool {
        &&& later.user_seq >= self.user_seq
        &&& later.channel_seq >= self.channel_seq
        &&& forall|u: u64| #[trigger]
            later.users.contains_key(u) ==> self.users.contains_key(u) || u >= self.user_seq || u
                == self.self_id
        &&& forall|c: u64| #[trigger]
            later.channels.contains_key(c) ==> self.channels.contains_key(c) || c
                >= self.channel_seq
    }

    /// The session that a run of events leaves, from the start.
    pub open spec fn after_all(events: Seq<IrcEvent>) -> StateView
        decreases events.len(),
    {
        if events.len() == 0 {
            StateView::initial()
        } else {
            StateView::after_all(events.drop_last()).after_event(events.last())
        }
    }
}

// -------------------------------------------------------------------------
// Every handler keeps the session consistent
// -------------------------------------------------------------------------
/// Making a user on first mention and putting it into a channel keeps the
/// session consistent; the user is then in the channel.
pub proof fn lemma_enroll_wf(s: StateView, nick: Seq<char>, user: Seq<char>, host: Seq<char>, c: u64)
    requires
        s.wf(),
        s.channels.contains_key(c),
        s.can_enroll(nick),
    ensures
        s.enroll(nick, user, host, c).wf(),
        s.enroll(nick, user, host, c).channels.dom() == s.channels.dom(),
        s.enroll(nick, user, host, c).channel_map == s.channel_map,
        s.enroll(nick, user, host, c).channel_seq == s.channel_seq,
        s.enroll(nick, user, host, c).self_id == s.self_id,
        s.enroll(nick, user, host, c).user_seq <= s.user_seq + 1,
        s.enroll(nick, user, host, c).user_seq >= s.user_seq,
        s.enroll(nick, user, host, c).user_map.contains_key(normalize(nick)),
        s.enroll(nick, user, host, c).has_edge(
            s.enroll(nick, user, host, c).user_map[normalize(nick)],
            c,
        ),
        s.established() ==> s.enroll(nick, user, host, c).established(),
        forall|v: u64| #[trigger]
            s.enroll(nick, user, host, c).users.contains_key(v) ==> s.users.contains_key(v) || v
                == s.user_seq,
{
    let key = normalize(nick);
    if s.user_map.contains_key(key) {
        lemma_link_store_wf(s, s.user_map[key], c);
        assert(s.enroll(nick, user, host, c).channels.dom() =~= s.channels.dom());
    } else {
        let bumped = StateView { user_seq: (s.user_seq + 1) as u64, ..s };
        let fresh = UserView { id: s.user_seq, nick, user, host, channels: Set::empty() };
        assert(bumped.store_wf());
        lemma_with_user_store_wf(bumped, fresh);
        let s1 = s.with_new_user(nick, user, host);
        assert(s1 == bumped.with_user(fresh));
        assert forall|v: u64| #[trigger]
            s1.users.contains_key(v) && v != s1.self_id && v != fresh.id implies 
            !s1.users[v].channels.is_empty() by {
            assert(s.users.contains_key(v));
        }
        lemma_link_store_wf(s1, fresh.id, c);
        assert(s.enroll(nick, user, host, c).channels.dom() =~= s.channels.dom());
    }
}

/// Putting every occupant of a roster into a channel keeps the session
/// consistent.
pub proof fn lemma_populate_wf(s: StateView, c: u64, recs: Seq<WhoRecord>)
    requires
        s.wf(),
        s.channels.contains_key(c),
        s.user_seq + recs.len() <= u64::MAX,
    ensures
        s.populate(c, recs).wf(),
        s.populate(c, recs).channels.dom() == s.channels.dom(),
        s.populate(c, recs).channel_map == s.channel_map,
        s.populate(c, recs).channel_seq == s.channel_seq,
        s.populate(c, recs).self_id == s.self_id,
        s.user_seq <= s.populate(c, recs).user_seq <= s.user_seq + recs.len(),
        s.established() ==> s.populate(c, recs).established(),
        forall|v: u64| #[trigger]
            s.populate(c, recs).users.contains_key(v) ==> s.users.contains_key(v) || v
                >= s.user_seq,
    decreases recs.len(),
{
    if recs.len() > 0 {
        lemma_populate_wf(s, c, recs.drop_last());
        let mid = s.populate(c, recs.drop_last());
        lemma_enroll_wf(mid, recs.last().nick@, recs.last().user@, recs.last().host@, c);
        assert forall|v: u64| #[trigger] s.populate(c, recs).users.contains_key(v) implies 
            s.users.contains_key(v) || v >= s.user_seq by {
            if !mid.users.contains_key(v) {
                assert(v == mid.user_seq);
            }
        }
    }
}

/// Every event keeps the session consistent, keeps the session's own user
/// once it exists, and gives no id a second time. An event that is refused
/// leaves the session as it was.
pub proof fn lemma_event_wf(s: StateView, event: IrcEvent)
    requires
        s.wf(),
    ensures
        s.after_event(event).wf(),
        s.established() ==> s.after_event(event).established(),
        s.ids_fresh_in(s.after_event(event)),
        s.after_event(event).self_id == s.self_id,
        s.event_outcome(event) is Err ==> s.after_event(event) == s,
{
    match event {
        IrcEvent::IrcMsg(msg) => {
            lemma_message_wf(s, msg);
        },
        IrcEvent::JoinBundle(Ok(join)) => {
            lemma_self_join_wf(s, join.channel@, topic_of(&join));
        },
        IrcEvent::WhoBundle(Ok(who)) => {
            if s.roster_fills(who.channel@) && s.user_seq + who.who_records@.len() <= u64::MAX {
                lemma_populate_wf(s, s.channel_map[normalize(who.channel@)], who.who_records@);
            }
        },
        _ => {},
    }
}

/// A join of the session itself keeps the session consistent.
pub proof fn lemma_self_join_wf(s: StateView, channel: Seq<char>, topic: Seq<char>)
    requires
        s.wf(),
    ensures
        s.self_join(channel, topic).wf(),
        s.established() ==> s.self_join(channel, topic).established(),
        s.self_join(channel, topic).channel_seq >= s.channel_seq,
        s.self_join(channel, topic).user_seq == s.user_seq,
        s.self_join_outcome(channel) is Err ==> s.self_join(channel, topic) == s,
{
    if s.self_join_outcome(channel) == Ok::<NoticeView, SyncError>(NoticeView::Applied) {
        let bumped = StateView { channel_seq: (s.channel_seq + 1) as u64, ..s };
        let fresh = ChannelView { id: s.channel_seq, name: channel, topic, users: Set::empty() };
        assert(bumped.wf());
        lemma_with_channel_wf(bumped, fresh);
        assert(s.with_new_channel(channel, topic) == bumped.with_channel(fresh));
    }
}

/// Setting the session's own nick keeps the session consistent.
pub proof fn lemma_set_self_nick_wf(s: StateView, nick: Seq<char>)
    requires
        s.wf(),
    ensures
        s.set_self_nick(nick).wf(),
        s.established() ==> s.set_self_nick(nick).established(),
        s.set_self_nick(nick).user_seq == s.user_seq,
        s.set_self_nick(nick).channel_seq == s.channel_seq,
{
    if s.set_self_nick_outcome(nick) is Ok && s.established() {
        lemma_rename_user_wf(s, s.self_id, nick);
        let t = s.rename_user(s.self_id, nick);
        let r = StateView { self_nick: nick, ..t };
        assert(r.wf());
    }
}

/// The server's welcome keeps the session consistent.
pub proof fn lemma_welcome_wf(s: StateView, nick: Seq<char>)
    requires
        s.wf(),
    ensures
        s.welcome(nick).wf(),
        s.established() ==> s.welcome(nick).established(),
        s.welcome(nick).user_seq == s.user_seq,
        s.welcome(nick).channel_seq == s.channel_seq,
{
    if s.established() {
        lemma_set_self_nick_wf(s, nick);
    } else if s.welcome_outcome(nick) is Ok {
        let me = UserView {
            id: s.self_id,
            nick,
            user: placeholder_user(),
            host: placeholder_host(),
            channels: Set::empty(),
        };
        lemma_with_user_store_wf(s, me);
        let t = s.with_user(me);
        let r = StateView { self_nick: nick, ..t };
        assert(r.store_wf());
        assert forall|v: u64| #[trigger] r.users.contains_key(v) && v != r.self_id implies 
            !r.users[v].channels.is_empty() by {
            assert(s.users.contains_key(v));
        }
    }
}

/// Every protocol message keeps the session consistent.
pub proof fn lemma_message_wf(s: StateView, msg: IncomingMsg)
    requires
        s.wf(),
    ensures
        s.after_message(msg).wf(),
        s.established() ==> s.after_message(msg).established(),
        s.ids_fresh_in(s.after_message(msg)),
        s.after_message(msg).self_id == s.self_id,
        s.message_outcome(msg) is Err ==> s.after_message(msg) == s,
{
    match msg {
        IncomingMsg::Part(part) => {
            if s.is_self(part.nick@) {
                if s.channel_map.contains_key(normalize(part.channel@)) {
                    lemma_remove_channel_wf(s, s.channel_map[normalize(part.channel@)]);
                }
            } else {
                lemma_leave_wf(s, part.nick@, part.channel@);
            }
        },
        IncomingMsg::Quit(quit) => {
            if !s.is_self(quit.nick@) && s.other_quit_outcome(quit.nick@) is Ok {
                lemma_remove_user_wf(s, s.user_map[normalize(quit.nick@)]);
            }
        },
        IncomingMsg::Join(join) => {
            if !s.is_self(join.nick@) && s.other_join_outcome(join.nick@, join.channel@) is Ok {
                lemma_enroll_wf(
                    s,
                    join.nick@,
                    join.user@,
                    join.host@,
                    s.channel_map[normalize(join.channel@)],
                );
            }
        },
        IncomingMsg::Topic(topic) => {
            if s.channel_map.contains_key(normalize(topic.channel@)) {
                lemma_set_topic_wf(s, s.channel_map[normalize(topic.channel@)], topic.body@);
            }
        },
        IncomingMsg::Nick(nick) => {
            if s.nick_change_outcome(nick.nick@, nick.new_nick@) is Ok {
                lemma_rename_user_wf(s, s.user_map[normalize(nick.nick@)], nick.new_nick@);
            }
        },
        IncomingMsg::Kick(kick) => {
            lemma_leave_wf(s, kick.kicked_nick@, kick.channel@);
        },
        IncomingMsg::Welcome(welcome) => {
            lemma_welcome_wf(s, welcome.nick@);
        },
        IncomingMsg::Other => {},
    }
}

/// A part or a kick keeps the session consistent.
pub proof fn lemma_leave_wf(s: StateView, nick: Seq<char>, channel: Seq<char>)
    requires
        s.wf(),
    ensures
        s.leave(nick, channel).wf(),
        s.established() ==> s.leave(nick, channel).established(),
        s.leave(nick, channel).user_seq == s.user_seq,
        s.leave(nick, channel).channel_seq == s.channel_seq,
{
    match (s.identify_channel(channel), s.identify_nick(nick)) {
        (Some(c), Some(u)) => {
            lemma_unlink_wf(s, u, c);
        },
        _ => {},
    }
}

/// Every session that a run of events leaves is consistent.
pub proof fn lemma_after_all_wf(events: Seq<IrcEvent>)
    ensures
        StateView::after_all(events).wf(),
    decreases events.len(),
{
    if events.len() > 0 {
        lemma_after_all_wf(events.drop_last());
        lemma_event_wf(StateView::after_all(events.drop_last()), events.last());
    }
}

} // verus!
