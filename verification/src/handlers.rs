//! The event handlers: one per kind of event, and the dispatch over them.
//!
//! A handler returns `Ok` with a notice when the event was dealt with, also
//! when that meant leaving the state alone, and `Err` when the event cannot be
//! true of the session as it stands. After an `Err` the state is as it was.

use vstd::prelude::*;
use crate::entity::{topic_of, Channel, ChannelId, ChannelInfo, User, UserId};
use crate::event::{
    names_distinct, outcome_of, IncomingMsg, IrcEvent, Join, JoinSuccess, Kick, Nick, Notice,
    Part, Quit, SyncError, Topic,
};
use crate::irc_identifier::IrcIdentifier;
use crate::model::StateView;
use crate::state::State;
use crate::transition::{
    lemma_enroll_wf, lemma_event_wf, lemma_self_join_wf, lemma_set_self_nick_wf,
    lemma_welcome_wf,
};

verus! {

impl State {
    /// Whether `nick` is the session's own nick, up to case folding.
    pub fn is_self(&self, nick: &str) -> (r: bool)
        ensures
            r == self@.is_self(nick@),
    {
        IrcIdentifier::from_str(nick) == IrcIdentifier::from_str(self.self_nick.as_str())
    }

    /// Takes the next user id.
    pub(crate) fn next_user_id(&mut self) -> (id: UserId)
        requires
            old(self)@.user_seq < u64::MAX,
        ensures
            id.0 == old(self)@.user_seq,
            final(self)@ == (StateView {
                user_seq: (old(self)@.user_seq + 1) as u64,
                ..old(self)@
            }),
    {
        let id = UserId(self.user_seq);
        self.user_seq = self.user_seq + 1;
        id
    }

    /// Takes the next channel id.
    fn next_channel_id(&mut self) -> (id: ChannelId)
        requires
            old(self)@.channel_seq < u64::MAX,
        ensures
            id.0 == old(self)@.channel_seq,
            final(self)@ == (StateView {
                channel_seq: (old(self)@.channel_seq + 1) as u64,
                ..old(self)@
            }),
    {
        let id = ChannelId(self.channel_seq);
        self.channel_seq = self.channel_seq + 1;
        id
    }

    /// The session's own join has succeeded: the channel is made, without
    /// users, unless a channel of that name is tracked already.
    pub fn on_self_join(&mut self, join: &JoinSuccess) -> (r: Result<Notice, SyncError>)
        requires
            old(self).wf(),
        ensures
            final(self).wf(),
            final(self)@ == old(self)@.self_join(join.channel@, topic_of(join)),
            outcome_of(r) == old(self)@.self_join_outcome(join.channel@),
    {
        proof {
            lemma_self_join_wf(self@, join.channel@, topic_of(join));
        }
        if self.identify_channel(join.channel.as_str()).is_some() {
            return Ok(Notice::AlreadyJoined);
        }
        if self.channel_seq == u64::MAX {
            return Err(SyncError::IdsExhausted);
        }
        let id = self.next_channel_id();
        let channel = Channel::from_info(&ChannelInfo::from_join(id, join));
        self.insert_channel(channel);
        Ok(Notice::Applied)
    }

    /// Somebody else has joined a channel: the user is found or made, and put
    /// into the channel. The channel is one that the session tracks.
    pub fn on_other_join(&mut self, join: &Join) -> (r: Result<Notice, SyncError>)
        requires
            old(self).wf(),
        ensures
            final(self).wf(),
            final(self)@ == old(self)@.other_join(join.nick@, join.user@, join.host@, join.channel@),
            outcome_of(r) == old(self)@.other_join_outcome(join.nick@, join.channel@),
    {
        let chid = match self.identify_channel(join.channel.as_str()) {
            Some(chid) => chid,
            None => { return Err(SyncError::UnknownChannel); },
        };
        let uid = match self.identify_nick(join.nick.as_str()) {
            Some(uid) => {
                proof {
                    lemma_enroll_wf(self@, join.nick@, join.user@, join.host@, chid.0);
                }
                uid
            },
            None => {
                if self.user_seq == u64::MAX {
                    return Err(SyncError::IdsExhausted);
                }
                proof {
                    lemma_enroll_wf(self@, join.nick@, join.user@, join.host@, chid.0);
                }
                let uid = self.next_user_id();
                let user = User::new(
                    uid,
                    join.nick.as_str(),
                    join.user.as_str(),
                    join.host.as_str(),
                );
                self.insert_user(user);
                uid
            },
        };
        self.link_user_channel(uid, chid);
        Ok(Notice::Applied)
    }

    /// The session itself has left a channel: the channel goes, with the
    /// users that this leaves without a channel.
    pub fn on_self_part(&mut self, part: &Part) -> (r: Result<Notice, SyncError>)
        requires
            old(self).wf(),
        ensures
            final(self).wf(),
            final(self)@ == old(self)@.self_part(part.channel@),
            outcome_of(r) == old(self)@.self_part_outcome(part.channel@),
    {
        match self.remove_channel_by_name(part.channel.as_str()) {
            Some(_) => Ok(Notice::Applied),
            None => Err(SyncError::UnknownChannel),
        }
    }

    /// The edge between the user that `nick` names and the channel that
    /// `channel` names goes, with what that strands. Where either is not
    /// tracked, nothing changes.
    fn leave(&mut self, nick: &str, channel: &str) -> (r: Result<Notice, SyncError>)
        requires
            old(self).wf(),
        ensures
            final(self).wf(),
            final(self)@ == old(self)@.leave(nick@, channel@),
            outcome_of(r) == old(self)@.leave_outcome(nick@, channel@),
    {
        match (self.identify_channel(channel), self.identify_nick(nick)) {
            (Some(chid), Some(uid)) => {
                self.unlink_user_channel(uid, chid);
                Ok(Notice::Applied)
            },
            (None, Some(_)) => Ok(Notice::UnknownChannel),
            (Some(_), None) => Ok(Notice::UnknownUser),
            (None, None) => Ok(Notice::UnknownChannelAndUser),
        }
    }

    /// Somebody else has left a channel.
    pub fn on_other_part(&mut self, part: &Part) -> (r: Result<Notice, SyncError>)
        requires
            old(self).wf(),
        ensures
            final(self).wf(),
            final(self)@ == old(self)@.leave(part.nick@, part.channel@),
            outcome_of(r) == old(self)@.leave_outcome(part.nick@, part.channel@),
    {
        self.leave(part.nick.as_str(), part.channel.as_str())
    }

    /// Somebody was removed from a channel.
    pub fn on_kick(&mut self, kick: &Kick) -> (r: Result<Notice, SyncError>)
        requires
            old(self).wf(),
        ensures
            final(self).wf(),
            final(self)@ == old(self)@.leave(kick.kicked_nick@, kick.channel@),
            outcome_of(r) == old(self)@.leave_outcome(kick.kicked_nick@, kick.channel@),
    {
        self.leave(kick.kicked_nick.as_str(), kick.channel.as_str())
    }

    /// Somebody else has left the network: the user goes. It is a user that
    /// the session knows, and not the session's own.
    pub fn on_other_quit(&mut self, quit: &Quit) -> (r: Result<Notice, SyncError>)
        requires
            old(self).wf(),
        ensures
            final(self).wf(),
            final(self)@ == old(self)@.other_quit(quit.nick@),
            outcome_of(r) == old(self)@.other_quit_outcome(quit.nick@),
    {
        match self.remove_user_by_nick(quit.nick.as_str()) {
            Ok(Some(_)) => Ok(Notice::Applied),
            Ok(None) => Err(SyncError::UnknownUser),
            Err(e) => Err(e),
        }
    }

    /// Somebody has taken another nick: the user keeps its id and channels,
    /// and is filed under the new name.
    pub fn on_nick(&mut self, nick: &Nick) -> (r: Result<Notice, SyncError>)
        requires
            old(self).wf(),
        ensures
            final(self).wf(),
            final(self)@ == old(self)@.nick_change(nick.nick@, nick.new_nick@),
            outcome_of(r) == old(self)@.nick_change_outcome(nick.nick@, nick.new_nick@),
    {
        match self.update_user_by_nick(nick.nick.as_str(), nick.new_nick.as_str()) {
            Ok(true) => Ok(Notice::Applied),
            Ok(false) => Err(SyncError::UnknownUser),
            Err(e) => Err(e),
        }
    }

    /// A channel has got another topic.
    pub fn on_topic(&mut self, topic: &Topic) -> (r: Result<Notice, SyncError>)
        requires
            old(self).wf(),
        ensures
            final(self).wf(),
            final(self)@ == old(self)@.topic_change(topic.channel@, topic.body@),
            outcome_of(r) == old(self)@.topic_change_outcome(topic.channel@),
    {
        if self.update_channel_by_name(topic.channel.as_str(), topic.body.as_str()) {
            Ok(Notice::Applied)
        } else {
            Err(SyncError::UnknownChannel)
        }
    }

    /// Sets the session's own nick. Once the session's own user exists, it is
    /// renamed and filed under the new name, as in any change of nick.
    pub fn set_self_nick(&mut self, new_nick_str: &str) -> (r: Result<(), SyncError>)
        requires
            old(self).wf(),
        ensures
            final(self).wf(),
            final(self)@ == old(self)@.set_self_nick(new_nick_str@),
            match r {
                Ok(_) => old(self)@.set_self_nick_outcome(new_nick_str@) is Ok,
                Err(e) => e == SyncError::NickInUse && old(self)@.set_self_nick_outcome(
                    new_nick_str@,
                ) is Err,
            },
    {
        proof {
            lemma_set_self_nick_wf(self@, new_nick_str@);
        }
        match self.update_user(self.self_id, new_nick_str) {
            Ok(_) => {
                self.self_nick = new_nick_str.to_owned();
                Ok(())
            },
            Err(e) => Err(e),
        }
    }

    /// The server has welcomed the session under `new_nick_str`: the first
    /// time, the session's own user is made, with a placeholder for the user
    /// and host parts; later, the session's own nick is set.
    pub fn initialize_self_nick(&mut self, new_nick_str: &str) -> (r: Result<Notice, SyncError>)
        requires
            old(self).wf(),
        ensures
            final(self).wf(),
            final(self)@ == old(self)@.welcome(new_nick_str@),
            outcome_of(r) == old(self)@.welcome_outcome(new_nick_str@),
    {
        proof {
            lemma_welcome_wf(self@, new_nick_str@);
        }
        if self.resolve_user(self.self_id).is_some() {
            return match self.set_self_nick(new_nick_str) {
                Ok(_) => Ok(Notice::Applied),
                Err(e) => Err(e),
            };
        }
        if self.identify_nick(new_nick_str).is_some() {
            return Err(SyncError::NickInUse);
        }
        let user = User::new(self.self_id, new_nick_str, "someone", "somewhere");
        self.insert_user(user);
        self.self_nick = new_nick_str.to_owned();
        Ok(Notice::Applied)
    }

    /// The join in `msg`, if `msg` is a join of the session itself.
    pub fn is_self_join<'a>(&self, msg: &'a IncomingMsg) -> (r: Option<&'a Join>)
        ensures
            r == match *msg {
                IncomingMsg::Join(join) => if self@.is_self(join.nick@) {
                    Some(&join)
                } else {
                    None
                },
                _ => None,
            },
    {
        match msg {
            IncomingMsg::Join(join) => if self.is_self(join.nick.as_str()) {
                Some(join)
            } else {
                None
            },
            _ => None,
        }
    }

    /// Applies one protocol message. Where a kind of message has a handler of
    /// its own for the session's own messages, that one is taken; a join or a
    /// quit of the session itself, and any message of another kind, changes
    /// nothing.
    pub fn on_message(&mut self, msg: &IncomingMsg) -> (r: Result<Notice, SyncError>)
        requires
            old(self).wf(),
        ensures
            final(self).wf(),
            final(self)@ == old(self)@.after_message(*msg),
            outcome_of(r) == old(self)@.message_outcome(*msg),
    {
        match msg {
            IncomingMsg::Part(part) => {
                if self.is_self(part.nick.as_str()) {
                    self.on_self_part(part)
                } else {
                    self.on_other_part(part)
                }
            },
            IncomingMsg::Quit(quit) => {
                if self.is_self(quit.nick.as_str()) {
                    Ok(Notice::Ignored)
                } else {
                    self.on_other_quit(quit)
                }
            },
            IncomingMsg::Join(join) => {
                if self.is_self(join.nick.as_str()) {
                    Ok(Notice::Ignored)
                } else {
                    self.on_other_join(join)
                }
            },
            IncomingMsg::Topic(topic) => self.on_topic(topic),
            IncomingMsg::Nick(nick) => self.on_nick(nick),
            IncomingMsg::Kick(kick) => self.on_kick(kick),
            IncomingMsg::Welcome(welcome) => self.initialize_self_nick(welcome.nick.as_str()),
            IncomingMsg::Other => Ok(Notice::Ignored),
        }
    }

    /// Applies one event: the one way in which events change the session.
    /// A bundle that reports a failure changes nothing; an event of a kind
    /// that the session does not support is refused.
    pub fn on_event(&mut self, event: &IrcEvent) -> (r: Result<Notice, SyncError>)
        requires
            old(self).wf(),
        ensures
            final(self).wf(),
            final(self)@ == old(self)@.after_event(*event),
            outcome_of(r) == old(self)@.event_outcome(*event),
            r is Err ==> final(self)@ == old(self)@,
            r matches Ok(Notice::Roster(report)) ==> names_distinct(report.unknown@)
                && names_distinct(report.unreported@),
    {
        proof {
            lemma_event_wf(self@, *event);
        }
        match event {
            IrcEvent::IrcMsg(message) => self.on_message(message),
            IrcEvent::JoinBundle(Ok(join_bun)) => self.on_self_join(join_bun),
            IrcEvent::JoinBundle(Err(_)) => Ok(Notice::Ignored),
            IrcEvent::WhoBundle(Ok(who_bun)) => self.on_who(who_bun),
            IrcEvent::WhoBundle(Err(_)) => Ok(Notice::Ignored),
            IrcEvent::Extension => Err(SyncError::Unsupported),
        }
    }
}

} // verus!
