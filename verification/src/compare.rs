//! Comparing two sessions as values.

use vstd::prelude::*;
use std::collections::HashMap;
use crate::entity::{Channel, User};
use crate::model::{ChannelView, StateView, UserView};
use crate::state::{list_keys, State};

verus! {

impl StateView {
    /// Whether two sessions agree in everything but the id of the session's
    /// own user.
    pub open spec fn same_content(self, other: StateView) -> bool {
        &&& self.user_map == other.user_map
        &&& self.channel_map == other.channel_map
        &&& self.users == other.users
        &&& self.channels == other.channels
        &&& self.user_seq == other.user_seq
        &&& self.channel_seq == other.channel_seq
        &&& self.self_nick == other.self_nick
        &&& self.generation == other.generation
    }
}

/// The table of users, as a value.
pub open spec fn user_views(table: Map<u64, User>) -> Map<u64, UserView> {
    table.map_values(|u: User| u@)
}

/// The table of channels, as a value.
pub open spec fn channel_views(table: Map<u64, Channel>) -> Map<u64, ChannelView> {
    table.map_values(|c: Channel| c@)
}

/// Whether every user of `a` is in `b`, under the same id and the same as a
/// value.
fn users_within(a: &HashMap<u64, User>, b: &HashMap<u64, User>) -> (r: bool)
    ensures
        r == user_views(a@).submap_of(user_views(b@)),
{
    let keys = list_keys(a);
    let mut i: usize = 0;
    while i < keys.len()
        invariant
            i <= keys@.len(),
            keys@.to_set() == a@.dom(),
            forall|j: int|
                0 <= j < i ==> b@.contains_key(#[trigger] keys@[j]) && a@[keys@[j]]@
                    == b@[keys@[j]]@,
        decreases keys@.len() - i,
    {
        let k = keys[i];
        proof {
            assert(keys@.to_set().contains(k));
        }
        let same = match (a.get(&k), b.get(&k)) {
            (Some(x), Some(y)) => x.same_as(y),
            _ => false,
        };
        if !same {
            proof {
                assert(user_views(a@).contains_key(k));
                if user_views(b@).contains_key(k) {
                    assert(user_views(a@)[k] != user_views(b@)[k]);
                }
            }
            return false;
        }
        i = i + 1;
    }
    proof {
        assert forall|k: u64| #[trigger] user_views(a@).contains_key(k) implies user_views(
            b@,
        ).contains_key(k) && user_views(a@)[k] == user_views(b@)[k] by {
            assert(keys@.to_set().contains(k));
            let j = choose|j: int| 0 <= j < keys@.len() && keys@[j] == k;
            assert(b@.contains_key(keys@[j]));
        }
    }
    true
}

/// Whether every channel of `a` is in `b`, under the same id and the same as
/// a value.
fn channels_within(a: &HashMap<u64, Channel>, b: &HashMap<u64, Channel>) -> (r: bool)
    ensures
        r == channel_views(a@).submap_of(channel_views(b@)),
{
    let keys = list_keys(a);
    let mut i: usize = 0;
    while i < keys.len()
        invariant
            i <= keys@.len(),
            keys@.to_set() == a@.dom(),
            forall|j: int|
                0 <= j < i ==> b@.contains_key(#[trigger] keys@[j]) && a@[keys@[j]]@
                    == b@[keys@[j]]@,
        decreases keys@.len() - i,
    {
        let k = keys[i];
        proof {
            assert(keys@.to_set().contains(k));
        }
        let same = match (a.get(&k), b.get(&k)) {
            (Some(x), Some(y)) => x.same_as(y),
            _ => false,
        };
        if !same {
            proof {
                assert(channel_views(a@).contains_key(k));
                if channel_views(b@).contains_key(k) {
                    assert(channel_views(a@)[k] != channel_views(b@)[k]);
                }
            }
            return false;
        }
        i = i + 1;
    }
    proof {
        assert forall|k: u64| #[trigger] channel_views(a@).contains_key(k) implies channel_views(
            b@,
        ).contains_key(k) && channel_views(a@)[k] == channel_views(b@)[k] by {
            assert(keys@.to_set().contains(k));
            let j = choose|j: int| 0 <= j < keys@.len() && keys@[j] == k;
            assert(b@.contains_key(keys@[j]));
        }
    }
    true
}

impl State {
    /// Whether two sessions are the same as values: the same entities under
    /// the same ids, the same index entries, the same counters and the same
    /// own nick. The id of the session's own user is not compared.
    pub fn same_as(&self, other: &State) -> (r: bool)
        ensures
            r == self@.same_content(other@),
    {
        proof {
            assert(self@.users == user_views(self.users@));
            assert(other@.users == user_views(other.users@));
            assert(self@.channels == channel_views(self.channels@));
            assert(other@.channels == channel_views(other.channels@));
        }
        if !self.user_map.same_as(&other.user_map) {
            return false;
        }
        if !self.channel_map.same_as(&other.channel_map) {
            return false;
        }
        if !(users_within(&self.users, &other.users) && users_within(&other.users, &self.users)) {
            return false;
        }
        assert(self@.users =~= other@.users);
        if !(channels_within(&self.channels, &other.channels) && channels_within(
            &other.channels,
            &self.channels,
        )) {
            return false;
        }
        assert(self@.channels =~= other@.channels);
        self.user_seq == other.user_seq && self.channel_seq == other.channel_seq && self.self_nick
            == other.self_nick && self.generation == other.generation
    }
}

impl PartialEq for State {
    fn eq(&self, other: &State) -> (r: bool) {
        self.same_as(other)
    }
}

impl Eq for State {

}

impl vstd::std_specs::cmp::PartialEqSpecImpl for State {
    open spec fn obeys_eq_spec() -> bool {
        true
    }

    open spec fn eq_spec(&self, other: &State) -> bool {
        self@.same_content(other@)
    }
}

} // verus!
