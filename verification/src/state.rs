//! The session state: the store of users and channels, its two name indexes,
//! and the session's own identity.

use vstd::prelude::*;
use std::collections::HashMap;
use vstd::std_specs::iter::IteratorSpec;
use crate::entity::{Channel, ChannelId, User, UserId};
use crate::event::SyncError;
use crate::irc_identifier::{normalize, IrcIdentifier};
use crate::model::{
    lemma_initial_wf, lemma_link_store_wf, lemma_remove_channel_wf, lemma_remove_user_wf,
    lemma_rename_user_wf, lemma_set_topic_wf, lemma_unlink_wf, lemma_with_channel_wf,
    lemma_with_user_store_wf, StateView,
};
use crate::name_index::NameIndex;

verus! {

/// The mirror of one IRC session.
#[derive(Debug)]
pub struct State {
    pub(crate) user_seq: u64,
    pub(crate) channel_seq: u64,
    pub(crate) self_nick: String,
    pub(crate) self_id: UserId,
    pub(crate) user_map: NameIndex,
    pub(crate) users: HashMap<u64, User>,
    pub(crate) channel_map: NameIndex,
    pub(crate) channels: HashMap<u64, Channel>,
    pub(crate) generation: u64,
}

/// The keys of a table, each once, in no particular order.
pub(crate) fn list_keys<V>(table: &HashMap<u64, V>) -> (r: Vec<u64>)
    ensures
        r@.to_set() == table@.dom(),
        r@.no_duplicates(),
{
    let ghost keys = table.keys().remaining();
    let mut out: Vec<u64> = Vec::new();
    for k in it: table.keys()
        invariant
            it.seq() == keys,
            keys.unref().to_set() == table@.dom(),
            keys.no_duplicates(),
            out@ == keys.unref().take(it.index()),
    {
        proof {
            assert(keys.unref().take(it.index() + 1) =~= keys.unref().take(it.index()).push(*k));
        }
        out.push(*k);
    }
    proof {
        assert(keys.unref().take(keys.len() as int) =~= keys.unref());
        assert(keys.unref().no_duplicates()) by {
            assert forall|i: int, j: int|
                0 <= i < keys.len() && 0 <= j < keys.len() && i != j implies keys.unref()[i]
                != keys.unref()[j] by {
                assert(keys[i] != keys[j]);
            }
        }
    }
    out
}

impl View for State {
    type V = StateView;

    open(crate) spec fn view(&self) -> StateView {
        StateView {
            user_seq: self.user_seq,
            channel_seq: self.channel_seq,
            self_nick: self.self_nick@,
            self_id: self.self_id.0,
            user_map: self.user_map@,
            users: self.users@.map_values(|u: User| u@),
            channel_map: self.channel_map@,
            channels: self.channels@.map_values(|c: Channel| c@),
            generation: self.generation,
        }
    }
}

impl State {
    /// The invariant of the session. `new` gives a state that has it, and
    /// every operation keeps it.
    pub open spec fn wf(&self) -> bool {
        self@.wf()
    }

    /// A session before any event: no user, no channel, no identity.
    pub fn new() -> (s: State)
        ensures
            s@ == StateView::initial(),
            s.wf(),
    {
        let s = State {
            user_seq: 1,
            channel_seq: 0,
            self_nick: String::new(),
            self_id: UserId(0),
            user_map: NameIndex::new(),
            users: HashMap::new(),
            channel_map: NameIndex::new(),
            channels: HashMap::new(),
            generation: 0,
        };
        proof {
            lemma_initial_wf();
            assert(s@.users =~= StateView::initial().users);
            assert(s@.channels =~= StateView::initial().channels);
        }
        s
    }

    /// A session before any event whose counters start at the given values,
    /// for a caller that wants its ids to go on from where an earlier session
    /// ended. Id 0 is the session's own, so the user counter starts above it.
    pub fn with_counters(user_seq: u64, channel_seq: u64) -> (r: Option<State>)
        ensures
            match r {
                Some(s) => user_seq >= 1 && s.wf() && s@ == (StateView {
                    user_seq,
                    channel_seq,
                    ..StateView::initial()
                }),
                None => user_seq == 0,
            },
    {
        if user_seq == 0 {
            return None;
        }
        let mut s = State::new();
        s.user_seq = user_seq;
        s.channel_seq = channel_seq;
        Some(s)
    }

    /// The id of the channel that `chan` names, if the session tracks it.
    pub fn identify_channel(&self, chan: &str) -> (r: Option<ChannelId>)
        ensures
            r == match self@.identify_channel(chan@) {
                Some(c) => Some(ChannelId(c)),
                None => None,
            },
    {
        match self.channel_map.get(&IrcIdentifier::from_str(chan)) {
            Some(c) => Some(ChannelId(c)),
            None => None,
        }
    }

    /// The channel under `chid`, if there is one.
    pub fn resolve_channel(&self, chid: ChannelId) -> (r: Option<&Channel>)
        ensures
            match r {
                Some(ch) => self@.channels.contains_key(chid.0) && ch@ == self@.channels[chid.0],
                None => !self@.channels.contains_key(chid.0),
            },
    {
        self.channels.get(&chid.0)
    }

    /// The id of the user that `nick` names, if the session tracks it.
    pub fn identify_nick(&self, nick: &str) -> (r: Option<UserId>)
        ensures
            r == match self@.identify_nick(nick@) {
                Some(u) => Some(UserId(u)),
                None => None,
            },
    {
        match self.user_map.get(&IrcIdentifier::from_str(nick)) {
            Some(u) => Some(UserId(u)),
            None => None,
        }
    }

    /// The user under `uid`, if there is one.
    pub fn resolve_user(&self, uid: UserId) -> (r: Option<&User>)
        ensures
            match r {
                Some(u) => self@.users.contains_key(uid.0) && u@ == self@.users[uid.0],
                None => !self@.users.contains_key(uid.0),
            },
    {
        self.users.get(&uid.0)
    }

    /// The session's own nick; empty before it was set.
    pub fn get_self_nick(&self) -> (r: &str)
        ensures
            r@ == self@.self_nick,
    {
        self.self_nick.as_str()
    }

    /// The channel that `name` names, with its id.
    pub fn get_channel_by_name(&self, name: &str) -> (r: Option<(ChannelId, &Channel)>)
        requires
            self.wf(),
        ensures
            match r {
                Some((id, ch)) => self@.identify_channel(name@) == Some(id.0)
                    && self@.channels.contains_key(id.0) && ch@ == self@.channels[id.0],
                None => self@.identify_channel(name@) is None,
            },
    {
        let id = match self.channel_map.get(&IrcIdentifier::from_str(name)) {
            Some(id) => id,
            None => { return None; },
        };
        match self.channels.get(&id) {
            Some(ch) => Some((ChannelId(id), ch)),
            None => None,
        }
    }

    /// Adds the edge between a user and a channel, on both sides.
    pub(crate) fn link_user_channel(&mut self, uid: UserId, chid: ChannelId)
        requires
            old(self)@.store_wf(),
            old(self)@.users.contains_key(uid.0),
            old(self)@.channels.contains_key(chid.0),
        ensures
            final(self)@ == old(self)@.link(uid.0, chid.0),
            final(self)@.store_wf(),
            old(self).wf() ==> final(self).wf(),
    {
        if let Some(user) = self.users.remove(&uid.0) {
            let mut user = user;
            user.add_channel(chid.0);
            self.users.insert(uid.0, user);
        }
        if let Some(chan) = self.channels.remove(&chid.0) {
            let mut chan = chan;
            chan.add_user(uid.0);
            self.channels.insert(chid.0, chan);
        }
        proof {
            let t = old(self)@.link(uid.0, chid.0);
            assert(self@.users =~= t.users);
            assert(self@.channels =~= t.channels);
            lemma_link_store_wf(old(self)@, uid.0, chid.0);
        }
    }

    /// Removes the edge between a user and a channel. A user left without a
    /// channel is removed, unless it is the session's own; a channel left
    /// without a user is removed. Returns whether there was such an edge;
    /// without one, nothing changes.
    pub fn unlink_user_channel(&mut self, uid: UserId, chid: ChannelId) -> (r: bool)
        requires
            old(self).wf(),
        ensures
            r == old(self)@.has_edge(uid.0, chid.0),
            final(self)@ == old(self)@.unlink(uid.0, chid.0),
            final(self).wf(),
    {
        let has_edge = match self.users.get(&uid.0) {
            Some(user) => user.in_channel(chid),
            None => false,
        };
        if !has_edge {
            return false;
        }
        let ghost s0 = self@;
        if let Some(user) = self.users.remove(&uid.0) {
            let mut user = user;
            user.remove_channel(chid.0);
            if user.is_idle() && uid.0 != self.self_id.0 {
                let key = IrcIdentifier::from_str(user.get_nick());
                self.user_map.remove(&key);
            } else {
                self.users.insert(uid.0, user);
            }
        }
        if let Some(chan) = self.channels.remove(&chid.0) {
            let mut chan = chan;
            chan.remove_user(uid.0);
            if chan.is_empty() {
                let key = IrcIdentifier::from_str(chan.get_name());
                self.channel_map.remove(&key);
            } else {
                self.channels.insert(chid.0, chan);
            }
        }
        proof {
            let t = s0.unlink(uid.0, chid.0);
            assert(self@.users =~= t.users);
            assert(self@.channels =~= t.channels);
            assert(self@.user_map =~= t.user_map);
            assert(self@.channel_map =~= t.channel_map);
            lemma_unlink_wf(s0, uid.0, chid.0);
        }
        true
    }

    /// Removes a user: it leaves every channel, then the user and its index
    /// entry go. Channels stay, also those left without users. Refuses to
    /// remove the session's own user. Returns whether there was such a user.
    pub fn remove_user_by_id(&mut self, id: UserId) -> (r: Result<bool, SyncError>)
        requires
            old(self).wf(),
        ensures
            final(self).wf(),
            match r {
                Ok(found) => id.0 != old(self)@.self_id && found == old(self)@.users.contains_key(
                    id.0,
                ) && final(self)@ == (if found {
                    old(self)@.remove_user(id.0)
                } else {
                    old(self)@
                }),
                Err(e) => e == SyncError::RemoveSelf && id.0 == old(self)@.self_id && final(self)@
                    == old(self)@,
            },
    {
        if id.0 == self.self_id.0 {
            return Err(SyncError::RemoveSelf);
        }
        let ghost s0 = self@;
        let user = match self.users.remove(&id.0) {
            Some(user) => user,
            None => {
                assert(self@.users =~= s0.users);
                return Ok(false);
            },
        };
        let key = IrcIdentifier::from_str(user.get_nick());
        self.user_map.remove(&key);
        let chans = user.channel_ids();
        let mut i: usize = 0;
        while i < chans.len()
            invariant
                i <= chans@.len(),
                s0.wf(),
                s0.users.contains_key(id.0),
                chans@.to_set() == s0.users[id.0].channels,
                self@.users == s0.users.remove(id.0),
                self@.user_map == s0.user_map.remove(normalize(s0.users[id.0].nick)),
                self@.channel_map == s0.channel_map,
                self@.user_seq == s0.user_seq,
                self@.channel_seq == s0.channel_seq,
                self@.self_nick == s0.self_nick,
                self@.self_id == s0.self_id,
                self@.generation == s0.generation,
                self@.channels.dom() == s0.channels.dom(),
                forall|c: u64| #[trigger]
                    s0.channels.contains_key(c) ==> self@.channels[c] == (if chans@.take(
                        i as int,
                    ).contains(c) {
                        s0.channels[c].without(id.0)
                    } else {
                        s0.channels[c]
                    }),
            decreases chans@.len() - i,
        {
            let c = chans[i];
            let ghost before = self@;
            proof {
                assert(chans@.to_set().contains(c));
                assert(s0.channels.contains_key(c));
                assert(before.channels.dom().contains(c));
            }
            if let Some(chan) = self.channels.remove(&c) {
                let mut chan = chan;
                chan.remove_user(id.0);
                self.channels.insert(c, chan);
            }
            proof {
                assert(chans@.take(i + 1) =~= chans@.take(i as int).push(c));
                assert(self@.users =~= before.users);
                assert(self@.channels.dom() =~= before.channels.dom());
                assert forall|c2: u64| #[trigger] s0.channels.contains_key(c2) implies 
                    self@.channels[c2] == (if chans@.take(i + 1).contains(c2) {
                    s0.channels[c2].without(id.0)
                } else {
                    s0.channels[c2]
                }) by {
                    if c2 == c {
                        assert(chans@.take(i + 1)[i as int] == c);
                        assert(s0.channels[c].without(id.0).without(id.0) == s0.channels[c].without(
                            id.0,
                        )) by {
                            assert(s0.channels[c].users.remove(id.0).remove(id.0)
                                =~= s0.channels[c].users.remove(id.0));
                        }
                    } else {
                        assert(self@.channels[c2] == before.channels[c2]);
                        let p0 = chans@.take(i as int);
                        let p1 = chans@.take(i + 1);
                        if p1.contains(c2) {
                            let j = choose|j: int| 0 <= j < p1.len() && p1[j] == c2;
                            assert(p0[j] == c2);
                        }
                        if p0.contains(c2) {
                            let j = choose|j: int| 0 <= j < p0.len() && p0[j] == c2;
                            assert(p1[j] == c2);
                        }
                    }
                }
            }
            i = i + 1;
        }
        proof {
            let t = s0.remove_user(id.0);
            assert(chans@.take(chans@.len() as int) =~= chans@);
            assert(self@.channels =~= t.channels) by {
                assert forall|c: u64| #[trigger] s0.channels.contains_key(c) implies 
                    self@.channels[c] == s0.channels[c].without(id.0) by {
                    if !chans@.contains(c) {
                        assert(!chans@.to_set().contains(c));
                        assert(!s0.channels[c].users.contains(id.0));
                        assert(s0.channels[c].users.remove(id.0) =~= s0.channels[c].users);
                    }
                }
            }
            lemma_remove_user_wf(s0, id.0);
        }
        Ok(true)
    }

    /// Removes the user that `name` names. Returns its id, if there was one.
    pub fn remove_user_by_nick(&mut self, name: &str) -> (r: Result<Option<UserId>, SyncError>)
        requires
            old(self).wf(),
        ensures
            final(self).wf(),
            match r {
                Ok(Some(id)) => old(self)@.identify_nick(name@) == Some(id.0) && id.0 != old(
                    self,
                )@.self_id && final(self)@ == old(self)@.remove_user(id.0),
                Ok(None) => old(self)@.identify_nick(name@) is None && final(self)@ == old(self)@,
                Err(e) => e == SyncError::RemoveSelf && old(self)@.identify_nick(name@) == Some(
                    old(self)@.self_id,
                ) && final(self)@ == old(self)@,
            },
    {
        let id = match self.user_map.get(&IrcIdentifier::from_str(name)) {
            Some(id) => UserId(id),
            None => { return Ok(None); },
        };
        match self.remove_user_by_id(id) {
            Ok(_) => Ok(Some(id)),
            Err(e) => Err(e),
        }
    }

    /// Removes a channel: it leaves every user's set, the users that this
    /// leaves without a channel are removed (never the session's own), then
    /// the channel and its index entry go. Returns whether there was such a
    /// channel.
    pub fn remove_channel_by_id(&mut self, id: ChannelId) -> (r: bool)
        requires
            old(self).wf(),
        ensures
            final(self).wf(),
            r == old(self)@.channels.contains_key(id.0),
            final(self)@ == (if r {
                old(self)@.remove_channel(id.0)
            } else {
                old(self)@
            }),
    {
        let ghost s0 = self@;
        let chan = match self.channels.remove(&id.0) {
            Some(chan) => chan,
            None => {
                assert(self@.channels =~= s0.channels);
                return false;
            },
        };
        let key = IrcIdentifier::from_str(chan.get_name());
        self.channel_map.remove(&key);
        let members = chan.user_ids();
        let mut i: usize = 0;
        while i < members.len()
            invariant
                i <= members@.len(),
                s0.wf(),
                s0.channels.contains_key(id.0),
                members@.to_set() == s0.channels[id.0].users,
                members@.no_duplicates(),
                self@.channels == s0.channels.remove(id.0),
                self@.channel_map == s0.channel_map.remove(normalize(s0.channels[id.0].name)),
                self@.user_seq == s0.user_seq,
                self@.channel_seq == s0.channel_seq,
                self@.self_nick == s0.self_nick,
                self@.self_id == s0.self_id,
                self@.generation == s0.generation,
                forall|u: u64| #[trigger]
                    self@.users.contains_key(u) <==> s0.users.contains_key(u) && !(members@.take(
                        i as int,
                    ).contains(u) && s0.stranded_by(u, id.0)),
                forall|u: u64| #[trigger]
                    self@.users.contains_key(u) ==> self@.users[u] == (if members@.take(
                        i as int,
                    ).contains(u) {
                        s0.users[u].parted(id.0)
                    } else {
                        s0.users[u]
                    }),
                forall|k: Seq<char>| #[trigger]
                    self@.user_map.contains_key(k) <==> s0.user_map.contains_key(k) && !(
                    members@.take(i as int).contains(s0.user_map[k]) && s0.stranded_by(
                        s0.user_map[k],
                        id.0,
                    )),
                forall|k: Seq<char>| #[trigger]
                    self@.user_map.contains_key(k) ==> self@.user_map[k] == s0.user_map[k],
            decreases members@.len() - i,
        {
            let u = members[i];
            let ghost before = self@;
            let ghost p0 = members@.take(i as int);
            let ghost p1 = members@.take(i + 1);
            proof {
                assert(members@.to_set().contains(u));
                assert(s0.channels[id.0].users.contains(u));
                assert(s0.users.contains_key(u));
                assert(s0.users[u].channels.contains(id.0));
                assert(!p0.contains(u)) by {
                    if p0.contains(u) {
                        let j = choose|j: int| 0 <= j < p0.len() && p0[j] == u;
                        assert(members@[j] == members@[i as int]);
                    }
                }
                assert(before.users.contains_key(u));
                assert(p1 =~= p0.push(u));
                assert(p1[i as int] == u);
                assert forall|v: u64| p1.contains(v) <==> (v == u || p0.contains(v)) by {
                    if p1.contains(v) {
                        let j = choose|j: int| 0 <= j < p1.len() && p1[j] == v;
                        if j < i {
                            assert(p0[j] == v);
                        }
                    }
                    if p0.contains(v) {
                        let j = choose|j: int| 0 <= j < p0.len() && p0[j] == v;
                        assert(p1[j] == v);
                    }
                }
            }
            if let Some(user) = self.users.remove(&u) {
                let mut user = user;
                user.remove_channel(id.0);
                if user.is_idle() && u != self.self_id.0 {
                    let key = IrcIdentifier::from_str(user.get_nick());
                    self.user_map.remove(&key);
                    proof {
                        assert(s0.stranded_by(u, id.0));
                        assert(self@.users =~= before.users.remove(u));
                        assert forall|k: Seq<char>| #[trigger]
                            self@.user_map.contains_key(k) <==> s0.user_map.contains_key(k) && !(
                            members@.take(i + 1).contains(s0.user_map[k]) && s0.stranded_by(
                                s0.user_map[k],
                                id.0,
                            )) by {
                            assert(before.user_map.contains_key(k) <==> s0.user_map.contains_key(k)
                                && !(p0.contains(s0.user_map[k]) && s0.stranded_by(
                                s0.user_map[k],
                                id.0,
                            )));
                            if s0.user_map.contains_key(k) {
                                let v = s0.user_map[k];
                                assert(p1.contains(v) <==> (v == u || p0.contains(v)));
                                if v == u {
                                    assert(k == normalize(s0.users[u].nick));
                                }
                            }
                        }
                        assert forall|k: Seq<char>| #[trigger]
                            self@.user_map.contains_key(k) implies self@.user_map[k]
                            == s0.user_map[k] by {
                            assert(before.user_map.contains_key(k));
                        }
                    }
                } else {
                    self.users.insert(u, user);
                    proof {
                        assert(!s0.stranded_by(u, id.0));
                        assert(self@.users =~= before.users.insert(u, s0.users[u].parted(id.0)));
                        assert(self@.user_map == before.user_map);
                        assert forall|k: Seq<char>| #[trigger]
                            self@.user_map.contains_key(k) <==> s0.user_map.contains_key(k) && !(
                            members@.take(i + 1).contains(s0.user_map[k]) && s0.stranded_by(
                                s0.user_map[k],
                                id.0,
                            )) by {
                            assert(before.user_map.contains_key(k) <==> s0.user_map.contains_key(k)
                                && !(p0.contains(s0.user_map[k]) && s0.stranded_by(
                                s0.user_map[k],
                                id.0,
                            )));
                            if s0.user_map.contains_key(k) {
                                let v = s0.user_map[k];
                                assert(p1.contains(v) <==> (v == u || p0.contains(v)));
                            }
                        }
                    }
                }
            }
            i = i + 1;
        }
        proof {
            let t = s0.remove_channel(id.0);
            assert(members@.take(members@.len() as int) =~= members@);
            assert forall|u: u64| s0.stranded_by(u, id.0) implies members@.contains(u) by {
                assert(s0.channels[id.0].users.contains(u));
                assert(members@.to_set().contains(u));
            }
            assert(self@.users =~= t.users) by {
                assert forall|u: u64| #[trigger] self@.users.contains_key(u) implies self@.users[u]
                    == t.users[u] by {
                    if !members@.contains(u) {
                        assert(!members@.to_set().contains(u));
                        assert(!s0.users[u].channels.contains(id.0));
                        assert(s0.users[u].channels.remove(id.0) =~= s0.users[u].channels);
                    }
                }
            }
            assert(self@.user_map =~= t.user_map);
            lemma_remove_channel_wf(s0, id.0);
        }
        true
    }

    /// Removes the channel that `name` names. Returns its id, if there was one.
    pub fn remove_channel_by_name(&mut self, name: &str) -> (r: Option<ChannelId>)
        requires
            old(self).wf(),
        ensures
            final(self).wf(),
            match r {
                Some(id) => old(self)@.identify_channel(name@) == Some(id.0) && final(self)@
                    == old(self)@.remove_channel(id.0),
                None => old(self)@.identify_channel(name@) is None && final(self)@ == old(self)@,
            },
    {
        match self.channel_map.get(&IrcIdentifier::from_str(name)) {
            Some(id) => {
                self.remove_channel_by_id(ChannelId(id));
                Some(ChannelId(id))
            },
            None => None,
        }
    }

    /// Adds a user and files it under its nick. The user has a fresh id and a
    /// free name, and is in no channel yet.
    pub(crate) fn insert_user(&mut self, user: User)
        requires
            old(self)@.store_wf(),
            !old(self)@.users.contains_key(user@.id),
            !old(self)@.user_map.contains_key(normalize(user@.nick)),
            user@.id < old(self)@.user_seq,
            user@.channels.is_empty(),
        ensures
            final(self)@ == old(self)@.with_user(user@),
            final(self)@.store_wf(),
    {
        let id = user.get_id();
        let key = IrcIdentifier::from_str(user.get_nick());
        self.users.insert(id.0, user);
        self.user_map.insert(key, id.0);
        proof {
            let t = old(self)@.with_user(user@);
            assert(self@.users =~= t.users);
            lemma_with_user_store_wf(old(self)@, user@);
        }
    }

    /// Adds a channel and files it under its name. The channel has a fresh id
    /// and a free name, and has no user yet.
    pub(crate) fn insert_channel(&mut self, channel: Channel)
        requires
            old(self).wf(),
            !old(self)@.channels.contains_key(channel@.id),
            !old(self)@.channel_map.contains_key(normalize(channel@.name)),
            channel@.id < old(self)@.channel_seq,
            channel@.users.is_empty(),
        ensures
            final(self)@ == old(self)@.with_channel(channel@),
            final(self).wf(),
    {
        let id = channel.get_id();
        let key = IrcIdentifier::from_str(channel.get_name());
        self.channels.insert(id.0, channel);
        self.channel_map.insert(key, id.0);
        proof {
            let t = old(self)@.with_channel(channel@);
            assert(self@.channels =~= t.channels);
            lemma_with_channel_wf(old(self)@, channel@);
        }
    }

    /// Gives the user under `id` another nick and files it under the new
    /// name. Refuses a nick that is filed under another user. Returns whether
    /// there was such a user.
    pub fn update_user(&mut self, id: UserId, new_nick: &str) -> (r: Result<bool, SyncError>)
        requires
            old(self).wf(),
        ensures
            final(self).wf(),
            match r {
                Ok(found) => found == old(self)@.users.contains_key(id.0) && (found ==> old(
                    self,
                )@.nick_free_for(id.0, new_nick@)) && final(self)@ == (if found {
                    old(self)@.rename_user(id.0, new_nick@)
                } else {
                    old(self)@
                }),
                Err(e) => e == SyncError::NickInUse && old(self)@.users.contains_key(id.0) && !old(
                    self,
                )@.nick_free_for(id.0, new_nick@) && final(self)@ == old(self)@,
            },
    {
        let new_key = IrcIdentifier::from_str(new_nick);
        let prev_key = match self.users.get(&id.0) {
            Some(user) => IrcIdentifier::from_str(user.get_nick()),
            None => { return Ok(false); },
        };
        match self.user_map.get(&new_key) {
            Some(holder) => {
                if holder != id.0 {
                    return Err(SyncError::NickInUse);
                }
            },
            None => {},
        }
        let ghost s0 = self@;
        if let Some(user) = self.users.remove(&id.0) {
            let mut user = user;
            user.set_nick(new_nick);
            self.users.insert(id.0, user);
        }
        if prev_key != new_key {
            self.user_map.remove(&prev_key);
            self.user_map.insert(new_key, id.0);
        }
        proof {
            let t = s0.rename_user(id.0, new_nick@);
            assert(self@.users =~= t.users);
            assert(self@.user_map =~= t.user_map);
            lemma_rename_user_wf(s0, id.0, new_nick@);
        }
        Ok(true)
    }

    /// Gives the user that `nick` names another nick. Returns whether there
    /// was such a user.
    pub fn update_user_by_nick(&mut self, nick: &str, new_nick: &str) -> (r: Result<
        bool,
        SyncError,
    >)
        requires
            old(self).wf(),
        ensures
            final(self).wf(),
            match r {
                Ok(found) => found == (old(self)@.identify_nick(nick@) is Some) && (found ==> old(
                    self,
                )@.nick_free_for(old(self)@.user_map[normalize(nick@)], new_nick@)) && final(self)@
                    == (if found {
                    old(self)@.rename_user(old(self)@.user_map[normalize(nick@)], new_nick@)
                } else {
                    old(self)@
                }),
                Err(e) => e == SyncError::NickInUse && old(self)@.identify_nick(nick@) is Some
                    && !old(self)@.nick_free_for(
                    old(self)@.user_map[normalize(nick@)],
                    new_nick@,
                ) && final(self)@ == old(self)@,
            },
    {
        match self.user_map.get(&IrcIdentifier::from_str(nick)) {
            Some(id) => self.update_user(UserId(id), new_nick),
            None => Ok(false),
        }
    }

    /// Gives the channel under `id` another topic. Returns whether there was
    /// such a channel.
    pub fn update_channel(&mut self, id: ChannelId, topic: &str) -> (r: bool)
        requires
            old(self).wf(),
        ensures
            final(self).wf(),
            r == old(self)@.channels.contains_key(id.0),
            final(self)@ == (if r {
                old(self)@.set_topic(id.0, topic@)
            } else {
                old(self)@
            }),
    {
        let ghost s0 = self@;
        match self.channels.remove(&id.0) {
            Some(chan) => {
                let mut chan = chan;
                chan.set_topic(topic);
                self.channels.insert(id.0, chan);
                proof {
                    assert(self@.channels =~= s0.set_topic(id.0, topic@).channels);
                    lemma_set_topic_wf(s0, id.0, topic@);
                }
                true
            },
            None => {
                assert(self@.channels =~= s0.channels);
                false
            },
        }
    }

    /// Gives the channel that `name` names another topic. Returns whether
    /// there was such a channel.
    pub fn update_channel_by_name(&mut self, name: &str, topic: &str) -> (r: bool)
        requires
            old(self).wf(),
        ensures
            final(self).wf(),
            r == (old(self)@.identify_channel(name@) is Some),
            final(self)@ == old(self)@.topic_change(name@, topic@),
    {
        match self.channel_map.get(&IrcIdentifier::from_str(name)) {
            Some(id) => self.update_channel(ChannelId(id), topic),
            None => false,
        }
    }
}

} // verus!
