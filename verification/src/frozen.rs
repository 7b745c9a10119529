//! Snapshots: an independent copy of a whole session, which nothing changes
//! any more.

use vstd::prelude::*;
use std::collections::HashMap;
use crate::entity::{Channel, User};
use crate::model::StateView;
use crate::state::{list_keys, State};

verus! {

/// A copy of a session as it was at one moment. It owns all of its data, so
/// it can be read for as long as it is kept, whatever becomes of the session
/// it was taken from.
#[derive(Debug)]
pub struct FrozenState(State);

impl View for FrozenState {
    type V = StateView;

    closed spec fn view(&self) -> StateView {
        self.0@
    }
}

impl FrozenState {
    /// The session as it was.
    pub fn state(&self) -> (s: &State)
        ensures
            s@ == self@,
    {
        &self.0
    }
}

impl core::ops::Deref for FrozenState {
    type Target = State;

    fn deref(&self) -> (s: &State)
        ensures
            s@ == self@,
    {
        &self.0
    }
}

/// An independent copy of the table of users.
fn copy_users(table: &HashMap<u64, User>) -> (r: HashMap<u64, User>)
    ensures
        r@.dom() == table@.dom(),
        forall|k: u64| #[trigger] table@.contains_key(k) ==> r@[k]@ == table@[k]@,
{
    let keys = list_keys(table);
    let mut out: HashMap<u64, User> = HashMap::new();
    let mut i: usize = 0;
    while i < keys.len()
        invariant
            i <= keys@.len(),
            keys@.to_set() == table@.dom(),
            out@.dom() == keys@.take(i as int).to_set(),
            forall|k: u64| #[trigger] out@.contains_key(k) ==> same_user(out@[k], table@[k]),
        decreases keys@.len() - i,
    {
        let k = keys[i];
        proof {
            assert(keys@.to_set().contains(k));
            assert(keys@.take(i + 1) =~= keys@.take(i as int).push(k));
            keys@.take(i as int).lemma_push_to_set_commute(k);
        }
        if let Some(user) = table.get(&k) {
            out.insert(k, user.clone());
        }
        proof {
            assert(out@.dom() =~= keys@.take(i + 1).to_set());
        }
        i = i + 1;
    }
    proof {
        assert(keys@.take(keys@.len() as int) =~= keys@);
    }
    out
}

/// Two users that are the same as values.
spec fn same_user(a: User, b: User) -> bool {
    a@ == b@
}

/// Two channels that are the same as values.
spec fn same_channel(a: Channel, b: Channel) -> bool {
    a@ == b@
}

/// An independent copy of the table of channels.
fn copy_channels(table: &HashMap<u64, Channel>) -> (r: HashMap<u64, Channel>)
    ensures
        r@.dom() == table@.dom(),
        forall|k: u64| #[trigger] table@.contains_key(k) ==> r@[k]@ == table@[k]@,
{
    let keys = list_keys(table);
    let mut out: HashMap<u64, Channel> = HashMap::new();
    let mut i: usize = 0;
    while i < keys.len()
        invariant
            i <= keys@.len(),
            keys@.to_set() == table@.dom(),
            out@.dom() == keys@.take(i as int).to_set(),
            forall|k: u64| #[trigger] out@.contains_key(k) ==> same_channel(out@[k], table@[k]),
        decreases keys@.len() - i,
    {
        let k = keys[i];
        proof {
            assert(keys@.to_set().contains(k));
            assert(keys@.take(i + 1) =~= keys@.take(i as int).push(k));
            keys@.take(i as int).lemma_push_to_set_commute(k);
        }
        if let Some(channel) = table.get(&k) {
            out.insert(k, channel.clone());
        }
        proof {
            assert(out@.dom() =~= keys@.take(i + 1).to_set());
        }
        i = i + 1;
    }
    proof {
        assert(keys@.take(keys@.len() as int) =~= keys@);
    }
    out
}

impl Clone for State {
    /// An independent copy of the session.
    fn clone(&self) -> (r: State)
        ensures
            r@ == self@,
    {
        let copy = State {
            user_seq: self.user_seq,
            channel_seq: self.channel_seq,
            self_nick: self.self_nick.clone(),
            self_id: self.self_id,
            user_map: self.user_map.clone(),
            users: copy_users(&self.users),
            channel_map: self.channel_map.clone(),
            channels: copy_channels(&self.channels),
            generation: self.generation,
        };
        proof {
            assert(copy@.users =~= self@.users);
            assert(copy@.channels =~= self@.channels);
        }
        copy
    }
}

impl State {
    /// A snapshot of the session: a copy that shares nothing with it.
    pub fn clone_frozen(&self) -> (r: FrozenState)
        ensures
            r@ == self@,
    {
        FrozenState(self.clone())
    }
}

} // verus!
