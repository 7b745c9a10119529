//! The consistency check: a full scan of the store that finds what is wrong
//! with it, if anything is.
//!
//! Every operation of `State` is proved to keep the store consistent, so on a
//! state that came about through them the scan finds nothing. It is offered
//! all the same, for callers that want to run it after each event while they
//! test; its cost is linear in the number of entities and edges.

use vstd::prelude::*;
use crate::entity::{ChannelId, UserId};
use crate::irc_identifier::{normalize, IrcIdentifier};
use crate::model::StateView;
use crate::name_index::{has_key, lemma_as_map_at, slot_of};
use crate::state::{list_keys, State};

verus! {

/// One thing that is wrong with a store.
#[derive(Debug)]
pub enum Violation {
    /// The channel stored under this id holds another id.
    ChannelIdDiffers(ChannelId),
    /// The channel lists a user that does not exist.
    ChannelUserMissing(ChannelId, UserId),
    /// The channel lists a user that does not list the channel.
    ChannelUserOneSided(ChannelId, UserId),
    /// The user stored under this id holds another id.
    UserIdDiffers(UserId),
    /// The user lists a channel that does not exist.
    UserChannelMissing(UserId, ChannelId),
    /// The user lists a channel that does not list the user.
    UserChannelOneSided(UserId, ChannelId),
    /// The channel index files, under this name, a channel that does not exist.
    ChannelIndexDangling(IrcIdentifier),
    /// The channel index files, under this name, a channel of another name.
    ChannelIndexMisfiled(IrcIdentifier),
    /// The user index files, under this name, a user that does not exist.
    UserIndexDangling(IrcIdentifier),
    /// The user index files, under this name, a user of another nick.
    UserIndexMisfiled(IrcIdentifier),
}

impl Violation {
    /// Whether this is wrong with `s`.
    pub open spec fn holds_of(self, s: StateView) -> bool {
        match self {
            Violation::ChannelIdDiffers(c) => s.channels.contains_key(c.0) && s.channels[c.0].id
                != c.0,
            Violation::ChannelUserMissing(c, u) => s.channels.contains_key(c.0)
                && s.channels[c.0].users.contains(u.0) && !s.users.contains_key(u.0),
            Violation::ChannelUserOneSided(c, u) => s.channels.contains_key(c.0)
                && s.channels[c.0].users.contains(u.0) && s.users.contains_key(u.0)
                && !s.users[u.0].channels.contains(c.0),
            Violation::UserIdDiffers(u) => s.users.contains_key(u.0) && s.users[u.0].id != u.0,
            Violation::UserChannelMissing(u, c) => s.users.contains_key(u.0)
                && s.users[u.0].channels.contains(c.0) && !s.channels.contains_key(c.0),
            Violation::UserChannelOneSided(u, c) => s.users.contains_key(u.0)
                && s.users[u.0].channels.contains(c.0) && s.channels.contains_key(c.0)
                && !s.channels[c.0].users.contains(u.0),
            Violation::ChannelIndexDangling(name) => s.channel_map.contains_key(name@)
                && !s.channels.contains_key(s.channel_map[name@]),
            Violation::ChannelIndexMisfiled(name) => s.channel_map.contains_key(name@)
                && s.channels.contains_key(s.channel_map[name@]) && normalize(
                s.channels[s.channel_map[name@]].name,
            ) != name@,
            Violation::UserIndexDangling(name) => s.user_map.contains_key(name@)
                && !s.users.contains_key(s.user_map[name@]),
            Violation::UserIndexMisfiled(name) => s.user_map.contains_key(name@)
                && s.users.contains_key(s.user_map[name@]) && normalize(
                s.users[s.user_map[name@]].nick,
            ) != name@,
        }
    }
}

/// A store of which a violation holds is not consistent.
pub proof fn lemma_violation_refutes(s: StateView, v: Violation)
    requires
        v.holds_of(s),
    ensures
        !s.consistent(),
{
}

impl StateView {
    /// Channel `c` holds its own id, and each user that it lists exists and
    /// lists the channel.
    pub open spec fn channel_sound(self, c: u64) -> bool {
        &&& self.channels[c].id == c
        &&& forall|u: u64| #[trigger]
            self.channels[c].users.contains(u) ==> self.users.contains_key(u)
                && self.users[u].channels.contains(c)
    }

    /// User `u` holds its own id, and each channel that it lists exists and
    /// lists the user.
    pub open spec fn user_sound(self, u: u64) -> bool {
        &&& self.users[u].id == u
        &&& forall|c: u64| #[trigger]
            self.users[u].channels.contains(c) ==> self.channels.contains_key(c)
                && self.channels[c].users.contains(u)
    }

    /// The channel filed under `k` exists and has that canonical name.
    pub open spec fn channel_entry_sound(self, k: Seq<char>) -> bool {
        &&& self.channels.contains_key(self.channel_map[k])
        &&& normalize(self.channels[self.channel_map[k]].name) == k
    }

    /// The user filed under `k` exists and has that canonical nick.
    pub open spec fn user_entry_sound(self, k: Seq<char>) -> bool {
        &&& self.users.contains_key(self.user_map[k])
        &&& normalize(self.users[self.user_map[k]].nick) == k
    }
}

impl State {
    /// Checks one channel against the users that it lists.
    fn check_channel(&self, c: u64) -> (r: Result<(), Violation>)
        requires
            self@.channels.contains_key(c),
        ensures
            match r {
                Ok(_) => self@.channel_sound(c),
                Err(v) => v.holds_of(self@),
            },
    {
        let channel = match self.channels.get(&c) {
            Some(channel) => channel,
            None => { return Ok(()); },
        };
        if channel.get_id().0 != c {
            return Err(Violation::ChannelIdDiffers(ChannelId(c)));
        }
        let members = channel.user_ids();
        let mut i: usize = 0;
        while i < members.len()
            invariant
                i <= members@.len(),
                self@.channels.contains_key(c),
                members@.to_set() == self@.channels[c].users,
                forall|j: int|
                    0 <= j < i ==> self@.users.contains_key(#[trigger] members@[j])
                        && self@.users[members@[j]].channels.contains(c),
            decreases members@.len() - i,
        {
            let u = members[i];
            proof {
                assert(members@.to_set().contains(u));
            }
            match self.users.get(&u) {
                Some(user) => {
                    if !user.in_channel(ChannelId(c)) {
                        return Err(Violation::ChannelUserOneSided(ChannelId(c), UserId(u)));
                    }
                },
                None => {
                    return Err(Violation::ChannelUserMissing(ChannelId(c), UserId(u)));
                },
            }
            i = i + 1;
        }
        proof {
            assert forall|u: u64| #[trigger] self@.channels[c].users.contains(u) implies 
                self@.users.contains_key(u) && self@.users[u].channels.contains(c) by {
                assert(members@.to_set().contains(u));
                let j = choose|j: int| 0 <= j < members@.len() && members@[j] == u;
                assert(self@.users.contains_key(members@[j]));
            }
        }
        Ok(())
    }

    /// Checks one user against the channels that it lists.
    fn check_user(&self, u: u64) -> (r: Result<(), Violation>)
        requires
            self@.users.contains_key(u),
        ensures
            match r {
                Ok(_) => self@.user_sound(u),
                Err(v) => v.holds_of(self@),
            },
    {
        let user = match self.users.get(&u) {
            Some(user) => user,
            None => { return Ok(()); },
        };
        if user.get_id().0 != u {
            return Err(Violation::UserIdDiffers(UserId(u)));
        }
        let listed = user.channel_ids();
        let mut i: usize = 0;
        while i < listed.len()
            invariant
                i <= listed@.len(),
                self@.users.contains_key(u),
                listed@.to_set() == self@.users[u].channels,
                forall|j: int|
                    0 <= j < i ==> self@.channels.contains_key(#[trigger] listed@[j])
                        && self@.channels[listed@[j]].users.contains(u),
            decreases listed@.len() - i,
        {
            let c = listed[i];
            proof {
                assert(listed@.to_set().contains(c));
            }
            match self.channels.get(&c) {
                Some(channel) => {
                    if !channel.has_user(UserId(u)) {
                        return Err(Violation::UserChannelOneSided(UserId(u), ChannelId(c)));
                    }
                },
                None => {
                    return Err(Violation::UserChannelMissing(UserId(u), ChannelId(c)));
                },
            }
            i = i + 1;
        }
        proof {
            assert forall|c: u64| #[trigger] self@.users[u].channels.contains(c) implies 
                self@.channels.contains_key(c) && self@.channels[c].users.contains(u) by {
                assert(listed@.to_set().contains(c));
                let j = choose|j: int| 0 <= j < listed@.len() && listed@[j] == c;
                assert(self@.channels.contains_key(listed@[j]));
            }
        }
        Ok(())
    }

    /// Checks every entry of the channel index against the channel it names.
    fn check_channel_index(&self) -> (r: Result<(), Violation>)
        ensures
            match r {
                Ok(_) => forall|k: Seq<char>| #[trigger]
                    self@.channel_map.contains_key(k) ==> self@.channel_entry_sound(k),
                Err(v) => v.holds_of(self@),
            },
    {
        let n = self.channel_map.len();
        let mut i: usize = 0;
        while i < n
            invariant
                i <= n,
                n == self.channel_map.slots().len(),
                crate::name_index::distinct_keys(self.channel_map.slots()),
                forall|j: int|
                    0 <= j < i ==> self@.channel_entry_sound(
                        (#[trigger] self.channel_map.slots()[j]).0,
                    ),
            decreases n - i,
        {
            let (key, id) = self.channel_map.slot(i);
            proof {
                lemma_as_map_at(self.channel_map.slots(), i as int);
            }
            match self.channels.get(&id) {
                Some(channel) => {
                    if IrcIdentifier::from_str(channel.get_name()) != *key {
                        return Err(Violation::ChannelIndexMisfiled(key.clone()));
                    }
                },
                None => {
                    return Err(Violation::ChannelIndexDangling(key.clone()));
                },
            }
            i = i + 1;
        }
        proof {
            assert forall|k: Seq<char>| #[trigger]
                self@.channel_map.contains_key(k) implies self@.channel_entry_sound(k) by {
                assert(has_key(self.channel_map.slots(), k));
                let j = slot_of(self.channel_map.slots(), k);
                assert(self@.channel_entry_sound(self.channel_map.slots()[j].0));
            }
        }
        Ok(())
    }

    /// Checks every entry of the user index against the user it names.
    fn check_user_index(&self) -> (r: Result<(), Violation>)
        ensures
            match r {
                Ok(_) => forall|k: Seq<char>| #[trigger]
                    self@.user_map.contains_key(k) ==> self@.user_entry_sound(k),
                Err(v) => v.holds_of(self@),
            },
    {
        let n = self.user_map.len();
        let mut i: usize = 0;
        while i < n
            invariant
                i <= n,
                n == self.user_map.slots().len(),
                crate::name_index::distinct_keys(self.user_map.slots()),
                forall|j: int|
                    0 <= j < i ==> self@.user_entry_sound((#[trigger] self.user_map.slots()[j]).0),
            decreases n - i,
        {
            let (key, id) = self.user_map.slot(i);
            proof {
                lemma_as_map_at(self.user_map.slots(), i as int);
            }
            match self.users.get(&id) {
                Some(user) => {
                    if IrcIdentifier::from_str(user.get_nick()) != *key {
                        return Err(Violation::UserIndexMisfiled(key.clone()));
                    }
                },
                None => {
                    return Err(Violation::UserIndexDangling(key.clone()));
                },
            }
            i = i + 1;
        }
        proof {
            assert forall|k: Seq<char>| #[trigger]
                self@.user_map.contains_key(k) implies self@.user_entry_sound(k) by {
                assert(has_key(self.user_map.slots(), k));
                let j = slot_of(self.user_map.slots(), k);
                assert(self@.user_entry_sound(self.user_map.slots()[j].0));
            }
        }
        Ok(())
    }

    /// Scans the whole store: every channel against the users it lists, every
    /// user against the channels it lists, and both indexes against the
    /// entities they name. Returns the first thing found wrong; which one that
    /// is, where several things are wrong, is not fixed.
    pub fn validate_state_internal(&self) -> (r: Result<(), Violation>)
        ensures
            r is Ok <==> self@.consistent(),
            r matches Err(v) ==> v.holds_of(self@),
    {
        let channel_ids = list_keys(&self.channels);
        let mut i: usize = 0;
        while i < channel_ids.len()
            invariant
                i <= channel_ids@.len(),
                channel_ids@.to_set() == self@.channels.dom(),
                forall|j: int| 0 <= j < i ==> self@.channel_sound(#[trigger] channel_ids@[j]),
            decreases channel_ids@.len() - i,
        {
            proof {
                assert(channel_ids@.to_set().contains(channel_ids@[i as int]));
            }
            match self.check_channel(channel_ids[i]) {
                Ok(_) => {},
                Err(v) => {
                    proof {
                        lemma_violation_refutes(self@, v);
                    }
                    return Err(v);
                },
            }
            i = i + 1;
        }
        let user_ids = list_keys(&self.users);
        let mut i: usize = 0;
        while i < user_ids.len()
            invariant
                i <= user_ids@.len(),
                user_ids@.to_set() == self@.users.dom(),
                forall|j: int| 0 <= j < i ==> self@.user_sound(#[trigger] user_ids@[j]),
            decreases user_ids@.len() - i,
        {
            proof {
                assert(user_ids@.to_set().contains(user_ids@[i as int]));
            }
            match self.check_user(user_ids[i]) {
                Ok(_) => {},
                Err(v) => {
                    proof {
                        lemma_violation_refutes(self@, v);
                    }
                    return Err(v);
                },
            }
            i = i + 1;
        }
        match self.check_channel_index() {
            Ok(_) => {},
            Err(v) => {
                proof {
                    lemma_violation_refutes(self@, v);
                }
                return Err(v);
            },
        }
        match self.check_user_index() {
            Ok(_) => {},
            Err(v) => {
                proof {
                    lemma_violation_refutes(self@, v);
                }
                return Err(v);
            },
        }
        proof {
            let s = self@;
            assert forall|c: u64| #[trigger] s.channels.contains_key(c) implies s.channel_sound(
                c,
            ) by {
                assert(channel_ids@.to_set().contains(c));
                let j = choose|j: int| 0 <= j < channel_ids@.len() && channel_ids@[j] == c;
                assert(s.channel_sound(channel_ids@[j]));
            }
            assert forall|u: u64| #[trigger] s.users.contains_key(u) implies s.user_sound(u) by {
                assert(user_ids@.to_set().contains(u));
                let j = choose|j: int| 0 <= j < user_ids@.len() && user_ids@[j] == u;
                assert(s.user_sound(user_ids@[j]));
            }
            assert(s.ids_agree());
            assert(s.symmetric());
            assert(s.index_agrees()) by {
                assert forall|k: Seq<char>| #[trigger] s.user_map.contains_key(k) implies 
                    s.users.contains_key(s.user_map[k]) && normalize(s.users[s.user_map[k]].nick)
                    == k by {
                    assert(s.user_entry_sound(k));
                }
                assert forall|k: Seq<char>| #[trigger] s.channel_map.contains_key(k) implies 
                    s.channels.contains_key(s.channel_map[k]) && normalize(
                        s.channels[s.channel_map[k]].name,
                    ) == k by {
                    assert(s.channel_entry_sound(k));
                }
            }
        }
        Ok(())
    }
}

} // verus!
