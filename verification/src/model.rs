//! The mathematical model of a session: the store as finite maps and sets,
//! what it means for it to be consistent, and what each operation makes of it.
//!
//! The executable `State` is proved to follow this model step by step.

use vstd::prelude::*;
use crate::irc_identifier::normalize;

verus! {

/// A user, as a value: its id, the three parts of its prefix, and the ids of
/// the channels it is in.
pub struct UserView {
    pub id: u64,
    pub nick: Seq<char>,
    pub user: Seq<char>,
    pub host: Seq<char>,
    pub channels: Set<u64>,
}

/// A channel, as a value: its id, display name and topic, and the ids of the
/// users in it.
pub struct ChannelView {
    pub id: u64,
    pub name: Seq<char>,
    pub topic: Seq<char>,
    pub users: Set<u64>,
}

/// The whole session, as a value.
pub struct StateView {
    pub user_seq: u64,
    pub channel_seq: u64,
    pub self_nick: Seq<char>,
    pub self_id: u64,
    pub user_map: Map<Seq<char>, u64>,
    pub users: Map<u64, UserView>,
    pub channel_map: Map<Seq<char>, u64>,
    pub channels: Map<u64, ChannelView>,
    pub generation: u64,
}

impl UserView {
    /// The user with channel `c` added to its set.
    pub open spec fn joined(self, c: u64) -> UserView {
        UserView { channels: self.channels.insert(c), ..self }
    }

    /// The user with channel `c` taken out of its set.
    pub open spec fn parted(self, c: u64) -> UserView {
        UserView { channels: self.channels.remove(c), ..self }
    }

    /// The user under another nick.
    pub open spec fn renamed(self, nick: Seq<char>) -> UserView {
        UserView { nick, ..self }
    }
}

impl ChannelView {
    /// The channel with user `u` added to its set.
    pub open spec fn admitting(self, u: u64) -> ChannelView {
        ChannelView { users: self.users.insert(u), ..self }
    }

    /// The channel with user `u` taken out of its set.
    pub open spec fn without(self, u: u64) -> ChannelView {
        ChannelView { users: self.users.remove(u), ..self }
    }

    /// The channel with another topic.
    pub open spec fn retitled(self, topic: Seq<char>) -> ChannelView {
        ChannelView { topic, ..self }
    }
}

impl StateView {
    /// The session before any event: no entity, no identity.
    pub open spec fn initial() -> StateView {
        StateView {
            user_seq: 1,
            channel_seq: 0,
            self_nick: Seq::empty(),
            self_id: 0,
            user_map: Map::empty(),
            users: Map::empty(),
            channel_map: Map::empty(),
            channels: Map::empty(),
            generation: 0,
        }
    }

    // ---------------------------------------------------------------------
    // Consistency
    // ---------------------------------------------------------------------
    /// Every entity is stored under its own id.
    pub open spec fn ids_agree(self) -> bool {
        &&& forall|u: u64| #[trigger] self.users.contains_key(u) ==> self.users[u].id == u
        &&& forall|c: u64| #[trigger] self.channels.contains_key(c) ==> self.channels[c].id == c
    }

    /// Membership is symmetric and never points at a missing entity: a user is
    /// in a channel's set exactly when the channel is in the user's set.
    pub open spec fn symmetric(self) -> bool {
        &&& forall|c: u64, u: u64|
            self.channels.contains_key(c) && #[trigger] self.channels[c].users.contains(u)
                ==> self.users.contains_key(u) && self.users[u].channels.contains(c)
        &&& forall|u: u64, c: u64|
            self.users.contains_key(u) && #[trigger] self.users[u].channels.contains(c)
                ==> self.channels.contains_key(c) && self.channels[c].users.contains(u)
    }

    /// Each index entry names an entity that exists and whose name has that
    /// canonical form.
    pub open spec fn index_agrees(self) -> bool {
        &&& forall|k: Seq<char>| #[trigger]
            self.user_map.contains_key(k) ==> self.users.contains_key(self.user_map[k])
                && normalize(self.users[self.user_map[k]].nick) == k
        &&& forall|k: Seq<char>| #[trigger]
            self.channel_map.contains_key(k) ==> self.channels.contains_key(self.channel_map[k])
                && normalize(self.channels[self.channel_map[k]].name) == k
    }

    /// What a full scan of the store checks.
    pub open spec fn consistent(self) -> bool {
        &&& self.ids_agree()
        &&& self.symmetric()
        &&& self.index_agrees()
    }

    /// Each entity is filed in its index under its own canonical name.
    pub open spec fn all_indexed(self) -> bool {
        &&& forall|u: u64| #[trigger]
            self.users.contains_key(u) ==> self.user_map.contains_key(
                normalize(self.users[u].nick),
            ) && self.user_map[normalize(self.users[u].nick)] == u
        &&& forall|c: u64| #[trigger]
            self.channels.contains_key(c) ==> self.channel_map.contains_key(
                normalize(self.channels[c].name),
            ) && self.channel_map[normalize(self.channels[c].name)] == c
    }

    /// Every id in use lies below its counter, so a fresh id was never used.
    pub open spec fn ids_below_counters(self) -> bool {
        &&& self.self_id < self.user_seq
        &&& forall|u: u64| #[trigger] self.users.contains_key(u) ==> u < self.user_seq
        &&& forall|c: u64| #[trigger] self.channels.contains_key(c) ==> c < self.channel_seq
    }

    /// The invariant of the store: what every store operation keeps.
    pub open spec fn store_wf(self) -> bool {
        &&& self.consistent()
        &&& self.all_indexed()
        &&& self.ids_below_counters()
    }

    /// Every user but the session's own is in at least one channel.
    pub open spec fn no_idle_users(self) -> bool {
        forall|u: u64| #[trigger]
            self.users.contains_key(u) && u != self.self_id ==> !self.users[u].channels.is_empty()
    }

    /// The invariant of the session: what every event keeps.
    pub open spec fn wf(self) -> bool {
        &&& self.store_wf()
        &&& self.no_idle_users()
    }

    /// Whether the session's own user exists.
    pub open spec fn established(self) -> bool {
        self.users.contains_key(self.self_id)
    }

    // ---------------------------------------------------------------------
    // Lookups
    // ---------------------------------------------------------------------
    /// The id filed under the canonical form of `nick`.
    pub open spec fn identify_nick(self, nick: Seq<char>) -> Option<u64> {
        if self.user_map.contains_key(normalize(nick)) {
            Some(self.user_map[normalize(nick)])
        } else {
            None
        }
    }

    /// The id filed under the canonical form of `name`.
    pub open spec fn identify_channel(self, name: Seq<char>) -> Option<u64> {
        if self.channel_map.contains_key(normalize(name)) {
            Some(self.channel_map[normalize(name)])
        } else {
            None
        }
    }

    /// Whether `nick` is the session's own nick, up to case folding.
    pub open spec fn is_self(self, nick: Seq<char>) -> bool {
        normalize(nick) == normalize(self.self_nick)
    }

    // ---------------------------------------------------------------------
    // Store operations
    // ---------------------------------------------------------------------
    /// The store with user `u` added and filed under its nick.
    pub open spec fn with_user(self, u: UserView) -> StateView {
        StateView {
            users: self.users.insert(u.id, u),
            user_map: self.user_map.insert(normalize(u.nick), u.id),
            ..self
        }
    }

    /// The store with channel `c` added and filed under its name.
    pub open spec fn with_channel(self, c: ChannelView) -> StateView {
        StateView {
            channels: self.channels.insert(c.id, c),
            channel_map: self.channel_map.insert(normalize(c.name), c.id),
            ..self
        }
    }

    /// The store with the edge between user `u` and channel `c` added on both
    /// sides.
    pub open spec fn link(self, u: u64, c: u64) -> StateView {
        StateView {
            users: self.users.insert(u, self.users[u].joined(c)),
            channels: self.channels.insert(c, self.channels[c].admitting(u)),
            ..self
        }
    }

    /// The store with the edge between user `u` and channel `c` removed on
    /// both sides, and nothing else.
    pub open spec fn detach(self, u: u64, c: u64) -> StateView {
        StateView {
            users: self.users.insert(u, self.users[u].parted(c)),
            channels: self.channels.insert(c, self.channels[c].without(u)),
            ..self
        }
    }

    /// The store without user `u` and without its index entry. Edges are not
    /// touched.
    pub open spec fn drop_user(self, u: u64) -> StateView {
        StateView {
            users: self.users.remove(u),
            user_map: self.user_map.remove(normalize(self.users[u].nick)),
            ..self
        }
    }

    /// The store without channel `c` and without its index entry. Edges are
    /// not touched.
    pub open spec fn drop_channel(self, c: u64) -> StateView {
        StateView {
            channels: self.channels.remove(c),
            channel_map: self.channel_map.remove(normalize(self.channels[c].name)),
            ..self
        }
    }

    /// Whether `u` is in `c`, seen from the user's side.
    pub open spec fn has_edge(self, u: u64, c: u64) -> bool {
        &&& self.users.contains_key(u)
        &&& self.channels.contains_key(c)
        &&& self.users[u].channels.contains(c)
    }

    /// Removing one edge. A user left without a channel is removed, unless it
    /// is the session's own; a channel left without a user is removed. Without
    /// the edge, nothing changes.
    pub open spec fn unlink(self, u: u64, c: u64) -> StateView {
        if !self.has_edge(u, c) {
            self
        } else {
            let s1 = self.detach(u, c);
            let s2 = if s1.users[u].channels.is_empty() && u != self.self_id {
                s1.drop_user(u)
            } else {
                s1
            };
            if s2.channels[c].users.is_empty() {
                s2.drop_channel(c)
            } else {
                s2
            }
        }
    }

    /// Removing a user: it leaves every channel's set, then the user and its
    /// index entry go.
    pub open spec fn remove_user(self, u: u64) -> StateView {
        StateView {
            users: self.users.remove(u),
            user_map: self.user_map.remove(normalize(self.users[u].nick)),
            channels: self.channels.map_values(|ch: ChannelView| ch.without(u)),
            ..self
        }
    }

    /// Whether removing channel `c` leaves user `u` without any channel, `u`
    /// not being the session's own user.
    pub open spec fn stranded_by(self, u: u64, c: u64) -> bool {
        &&& self.users.contains_key(u)
        &&& u != self.self_id
        &&& self.users[u].channels.contains(c)
        &&& self.users[u].channels.remove(c).is_empty()
    }

    /// Removing a channel: it leaves every user's set, the users that this
    /// strands go with their index entries, then the channel and its index
    /// entry go.
    pub open spec fn remove_channel(self, c: u64) -> StateView {
        StateView {
            users: Map::new(
                |u: u64| self.users.contains_key(u) && !self.stranded_by(u, c),
                |u: u64| self.users[u].parted(c),
            ),
            user_map: Map::new(
                |k: Seq<char>|
                    self.user_map.contains_key(k) && !self.stranded_by(self.user_map[k], c),
                |k: Seq<char>| self.user_map[k],
            ),
            channels: self.channels.remove(c),
            channel_map: self.channel_map.remove(normalize(self.channels[c].name)),
            ..self
        }
    }

    /// Giving user `u` another nick and filing it under the new name.
    pub open spec fn rename_user(self, u: u64, nick: Seq<char>) -> StateView {
        StateView {
            users: self.users.insert(u, self.users[u].renamed(nick)),
            user_map: self.user_map.remove(normalize(self.users[u].nick)).insert(
                normalize(nick),
                u,
            ),
            ..self
        }
    }

    /// Whether user `u` can take `nick`: the name is free, or it is `u`'s own.
    pub open spec fn nick_free_for(self, u: u64, nick: Seq<char>) -> bool {
        self.user_map.contains_key(normalize(nick)) ==> self.user_map[normalize(nick)] == u
    }

    /// Giving channel `c` another topic.
    pub open spec fn set_topic(self, c: u64, topic: Seq<char>) -> StateView {
        StateView { channels: self.channels.insert(c, self.channels[c].retitled(topic)), ..self }
    }
}

// -------------------------------------------------------------------------
// The store operations keep the store's invariant
// -------------------------------------------------------------------------
/// The session before any event is consistent.
pub proof fn lemma_initial_wf()
    ensures
        StateView::initial().wf(),
        !StateView::initial().established(),
{
}

/// Adding a user with a fresh id, a free name and no channel keeps the store
/// consistent.
pub proof fn lemma_with_user_store_wf(s: StateView, u: UserView)
    requires
        s.store_wf(),
        !s.users.contains_key(u.id),
        !s.user_map.contains_key(normalize(u.nick)),
        u.id < s.user_seq,
        u.channels.is_empty(),
    ensures
        s.with_user(u).store_wf(),
{
    let t = s.with_user(u);
    assert(t.ids_agree());
    assert(t.symmetric());
    assert(t.index_agrees());
    assert(t.all_indexed());
}

/// Adding a channel with a fresh id, a free name and no user keeps the
/// session consistent.
pub proof fn lemma_with_channel_wf(s: StateView, c: ChannelView)
    requires
        s.wf(),
        !s.channels.contains_key(c.id),
        !s.channel_map.contains_key(normalize(c.name)),
        c.id < s.channel_seq,
        c.users.is_empty(),
    ensures
        s.with_channel(c).wf(),
{
    let t = s.with_channel(c);
    assert(t.ids_agree());
    assert(t.symmetric());
    assert(t.index_agrees());
    assert(t.all_indexed());
}

/// Adding an edge between a user and a channel that exist keeps the store
/// consistent.
pub proof fn lemma_link_store_wf(s: StateView, u: u64, c: u64)
    requires
        s.store_wf(),
        s.users.contains_key(u),
        s.channels.contains_key(c),
    ensures
        s.link(u, c).store_wf(),
        (forall|v: u64| #[trigger]
            s.users.contains_key(v) && v != s.self_id && v != u ==> !s.users[v].channels.is_empty())
            ==> s.link(u, c).wf(),
        s.established() ==> s.link(u, c).established(),
{
    let t = s.link(u, c);
    assert(t.ids_agree());
    assert(t.symmetric());
    assert(t.index_agrees());
    assert(t.all_indexed());
    assert(t.users[u].channels.contains(c));
    if forall|v: u64| #[trigger]
        s.users.contains_key(v) && v != s.self_id && v != u ==> !s.users[v].channels.is_empty() {
        assert forall|v: u64| #[trigger]
            t.users.contains_key(v) && v != t.self_id implies !t.users[v].channels.is_empty() by {
            if v == u {
                assert(t.users[v].channels.contains(c));
            } else {
                assert(s.users.contains_key(v));
            }
        }
    }
}

/// Removing one edge, with what that strands, keeps the session consistent.
pub proof fn lemma_unlink_wf(s: StateView, u: u64, c: u64)
    requires
        s.wf(),
    ensures
        s.unlink(u, c).wf(),
        s.established() ==> s.unlink(u, c).established(),
{
    if s.has_edge(u, c) {
        let s1 = s.detach(u, c);
        assert(s1.ids_agree());
        assert(s1.symmetric());
        assert(s1.index_agrees());
        assert(s1.all_indexed());
        assert(s1.store_wf());
        let s2 = if s1.users[u].channels.is_empty() && u != s.self_id {
            s1.drop_user(u)
        } else {
            s1
        };
        assert(s2.symmetric()) by {
            if s1.users[u].channels.is_empty() && u != s.self_id {
                assert forall|c2: u64, u2: u64|
                    s2.channels.contains_key(c2) && #[trigger] s2.channels[c2].users.contains(
                        u2,
                    ) implies s2.users.contains_key(u2) && s2.users[u2].channels.contains(c2) by {
                    assert(s1.channels[c2].users.contains(u2));
                    if u2 == u {
                        assert(s1.users[u].channels.contains(c2));
                    }
                }
            }
        }
        assert(s2.index_agrees()) by {
            if s1.users[u].channels.is_empty() && u != s.self_id {
                assert forall|k: Seq<char>| #[trigger] s2.user_map.contains_key(k) implies 
                    s2.users.contains_key(s2.user_map[k]) && normalize(
                        s2.users[s2.user_map[k]].nick,
                    ) == k by {
                    assert(s1.user_map.contains_key(k));
                    assert(s1.users.contains_key(u));
                }
            }
        }
        assert(s2.all_indexed()) by {
            if s1.users[u].channels.is_empty() && u != s.self_id {
                assert forall|v: u64| #[trigger] s2.users.contains_key(v) implies 
                    s2.user_map.contains_key(normalize(s2.users[v].nick)) && s2.user_map[normalize(
                        s2.users[v].nick,
                    )] == v by {
                    assert(s1.users.contains_key(v));
                    assert(s1.users.contains_key(u));
                }
            }
        }
        assert(s2.store_wf());
        assert(s2.no_idle_users()) by {
            assert forall|v: u64| #[trigger]
                s2.users.contains_key(v) && v != s2.self_id implies !s2.users[v].channels.is_empty() by {
                if v != u {
                    assert(s.users.contains_key(v));
                }
            }
        }
        let s3 = if s2.channels[c].users.is_empty() {
            s2.drop_channel(c)
        } else {
            s2
        };
        if s2.channels[c].users.is_empty() {
            assert(s3.symmetric()) by {
                assert forall|u2: u64, c2: u64|
                    s3.users.contains_key(u2) && #[trigger] s3.users[u2].channels.contains(
                        c2,
                    ) implies s3.channels.contains_key(c2) && s3.channels[c2].users.contains(
                    u2,
                ) by {
                    assert(s2.users[u2].channels.contains(c2));
                    if c2 == c {
                        assert(s2.channels[c].users.contains(u2));
                    }
                }
            }
            assert(s3.index_agrees()) by {
                assert forall|k: Seq<char>| #[trigger] s3.channel_map.contains_key(k) implies 
                    s3.channels.contains_key(s3.channel_map[k]) && normalize(
                        s3.channels[s3.channel_map[k]].name,
                    ) == k by {
                    assert(s2.channel_map.contains_key(k));
                    assert(s2.channels.contains_key(c));
                }
            }
            assert(s3.all_indexed()) by {
                assert forall|c2: u64| #[trigger] s3.channels.contains_key(c2) implies 
                    s3.channel_map.contains_key(normalize(s3.channels[c2].name))
                    && s3.channel_map[normalize(s3.channels[c2].name)] == c2 by {
                    assert(s2.channels.contains_key(c2));
                    assert(s2.channels.contains_key(c));
                }
            }
        }
        assert(s3.wf());
    }
}

/// Removing a user keeps the session consistent.
pub proof fn lemma_remove_user_wf(s: StateView, u: u64)
    requires
        s.wf(),
        s.users.contains_key(u),
    ensures
        s.remove_user(u).wf(),
        u != s.self_id && s.established() ==> s.remove_user(u).established(),
{
    let t = s.remove_user(u);
    assert(t.ids_agree());
    assert(t.symmetric()) by {
        assert forall|c2: u64, u2: u64|
            t.channels.contains_key(c2) && #[trigger] t.channels[c2].users.contains(
                u2,
            ) implies t.users.contains_key(u2) && t.users[u2].channels.contains(c2) by {
            assert(s.channels[c2].users.contains(u2));
        }
        assert forall|u2: u64, c2: u64|
            t.users.contains_key(u2) && #[trigger] t.users[u2].channels.contains(
                c2,
            ) implies t.channels.contains_key(c2) && t.channels[c2].users.contains(u2) by {
            assert(s.users[u2].channels.contains(c2));
        }
    }
    assert(t.index_agrees()) by {
        assert forall|k: Seq<char>| #[trigger] t.user_map.contains_key(k) implies 
            t.users.contains_key(t.user_map[k]) && normalize(t.users[t.user_map[k]].nick) == k by {
            assert(s.user_map.contains_key(k));
        }
        assert forall|k: Seq<char>| #[trigger] t.channel_map.contains_key(k) implies 
            t.channels.contains_key(t.channel_map[k]) && normalize(
                t.channels[t.channel_map[k]].name,
            ) == k by {
            assert(s.channel_map.contains_key(k));
        }
    }
    assert(t.all_indexed()) by {
        assert forall|v: u64| #[trigger] t.users.contains_key(v) implies t.user_map.contains_key(
            normalize(t.users[v].nick),
        ) && t.user_map[normalize(t.users[v].nick)] == v by {
            assert(s.users.contains_key(v));
        }
        assert forall|c2: u64| #[trigger] t.channels.contains_key(c2) implies 
            t.channel_map.contains_key(normalize(t.channels[c2].name)) && t.channel_map[normalize(
                t.channels[c2].name,
            )] == c2 by {
            assert(s.channels.contains_key(c2));
        }
    }
    assert(t.ids_below_counters()) by {
        assert forall|c2: u64| #[trigger] t.channels.contains_key(c2) implies c2
            < t.channel_seq by {
            assert(s.channels.contains_key(c2));
        }
    }
    assert(t.no_idle_users()) by {
        assert forall|v: u64| #[trigger]
            t.users.contains_key(v) && v != t.self_id implies !t.users[v].channels.is_empty() by {
            assert(s.users.contains_key(v));
        }
    }
}

/// Removing a channel, with the users that this strands, keeps the session
/// consistent, and never removes the session's own user.
pub proof fn lemma_remove_channel_wf(s: StateView, c: u64)
    requires
        s.wf(),
        s.channels.contains_key(c),
    ensures
        s.remove_channel(c).wf(),
        s.established() ==> s.remove_channel(c).established(),
{
    let t = s.remove_channel(c);
    assert(t.ids_agree());
    assert(t.symmetric()) by {
        assert forall|c2: u64, u2: u64|
            t.channels.contains_key(c2) && #[trigger] t.channels[c2].users.contains(
                u2,
            ) implies t.users.contains_key(u2) && t.users[u2].channels.contains(c2) by {
            assert(s.channels[c2].users.contains(u2));
            assert(s.users[u2].channels.contains(c2));
            assert(s.users[u2].channels.remove(c).contains(c2));
        }
        assert forall|u2: u64, c2: u64|
            t.users.contains_key(u2) && #[trigger] t.users[u2].channels.contains(
                c2,
            ) implies t.channels.contains_key(c2) && t.channels[c2].users.contains(u2) by {
            assert(s.users[u2].channels.contains(c2));
        }
    }
    assert(t.index_agrees()) by {
        assert forall|k: Seq<char>| #[trigger] t.user_map.contains_key(k) implies 
            t.users.contains_key(t.user_map[k]) && normalize(t.users[t.user_map[k]].nick) == k by {
            assert(s.user_map.contains_key(k));
        }
        assert forall|k: Seq<char>| #[trigger] t.channel_map.contains_key(k) implies 
            t.channels.contains_key(t.channel_map[k]) && normalize(
                t.channels[t.channel_map[k]].name,
            ) == k by {
            assert(s.channel_map.contains_key(k));
            assert(s.channels.contains_key(c));
        }
    }
    assert(t.all_indexed()) by {
        assert forall|v: u64| #[trigger] t.users.contains_key(v) implies t.user_map.contains_key(
            normalize(t.users[v].nick),
        ) && t.user_map[normalize(t.users[v].nick)] == v by {
            assert(s.users.contains_key(v));
        }
        assert forall|c2: u64| #[trigger] t.channels.contains_key(c2) implies 
            t.channel_map.contains_key(normalize(t.channels[c2].name)) && t.channel_map[normalize(
                t.channels[c2].name,
            )] == c2 by {
            assert(s.channels.contains_key(c2));
            assert(s.channels.contains_key(c));
        }
    }
    assert(t.ids_below_counters()) by {
        assert forall|v: u64| #[trigger] t.users.contains_key(v) implies v < t.user_seq by {
            assert(s.users.contains_key(v));
        }
    }
    assert(t.no_idle_users()) by {
        assert forall|v: u64| #[trigger]
            t.users.contains_key(v) && v != t.self_id implies !t.users[v].channels.is_empty() by {
            assert(s.users.contains_key(v));
            assert(!s.stranded_by(v, c));
            if !s.users[v].channels.contains(c) {
                assert(s.users[v].channels.remove(c) =~= s.users[v].channels);
            }
        }
    }
}

/// Renaming a user to a name that is free, or its own, keeps the session
/// consistent.
pub proof fn lemma_rename_user_wf(s: StateView, u: u64, nick: Seq<char>)
    requires
        s.wf(),
        s.users.contains_key(u),
        s.nick_free_for(u, nick),
    ensures
        s.rename_user(u, nick).wf(),
        s.established() ==> s.rename_user(u, nick).established(),
{
    let t = s.rename_user(u, nick);
    assert(t.ids_agree());
    assert(t.symmetric());
    assert(t.index_agrees()) by {
        assert forall|k: Seq<char>| #[trigger] t.user_map.contains_key(k) implies 
            t.users.contains_key(t.user_map[k]) && normalize(t.users[t.user_map[k]].nick) == k by {
            if k != normalize(nick) {
                assert(s.user_map.contains_key(k));
                assert(s.users.contains_key(u));
            }
        }
    }
    assert(t.all_indexed()) by {
        assert forall|v: u64| #[trigger] t.users.contains_key(v) implies t.user_map.contains_key(
            normalize(t.users[v].nick),
        ) && t.user_map[normalize(t.users[v].nick)] == v by {
            if v != u {
                assert(s.users.contains_key(v));
                assert(s.users.contains_key(u));
            }
        }
    }
    assert(t.no_idle_users()) by {
        assert forall|v: u64| #[trigger]
            t.users.contains_key(v) && v != t.self_id implies !t.users[v].channels.is_empty() by {
            assert(s.users.contains_key(v));
        }
    }
}

/// Changing a topic keeps the session consistent.
pub proof fn lemma_set_topic_wf(s: StateView, c: u64, topic: Seq<char>)
    requires
        s.wf(),
        s.channels.contains_key(c),
    ensures
        s.set_topic(c, topic).wf(),
{
    let t = s.set_topic(c, topic);
    assert(t.ids_agree());
    assert(t.symmetric());
    assert(t.index_agrees());
    assert(t.all_indexed());
}

} // verus!
