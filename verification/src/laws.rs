//! What holds of every session, stated over the model and proved from it.

use vstd::prelude::*;
use crate::event::{IrcEvent, NoticeView, SyncError};
use crate::irc_identifier::normalize;
use crate::model::StateView;
use crate::transition::{lemma_after_all_wf, lemma_enroll_wf};

verus! {

/// Membership is symmetric: in a consistent session, user `u` is in the set
/// of channel `c` exactly when channel `c` is in the set of user `u`.
pub proof fn law_membership_symmetric(s: StateView, u: u64, c: u64)
    requires
        s.wf(),
    ensures
        (s.channels.contains_key(c) && s.channels[c].users.contains(u)) <==> (
        s.users.contains_key(u) && s.users[u].channels.contains(c)),
{
}

/// The indexes agree with the entities: in a consistent session, what is
/// filed under a name exists, and its own name has that canonical form.
pub proof fn law_index_agrees(s: StateView, name: Seq<char>)
    requires
        s.wf(),
    ensures
        s.user_map.contains_key(name) ==> s.users.contains_key(s.user_map[name]) && normalize(
            s.users[s.user_map[name]].nick,
        ) == name,
        s.channel_map.contains_key(name) ==> s.channels.contains_key(s.channel_map[name])
            && normalize(s.channels[s.channel_map[name]].name) == name,
{
}

/// Both hold after any run of events from the start.
pub proof fn law_every_run_is_consistent(events: Seq<IrcEvent>, u: u64, c: u64, name: Seq<char>)
    ensures
        ({
            let s = StateView::after_all(events);
            &&& (s.channels.contains_key(c) && s.channels[c].users.contains(u)) <==> (
            s.users.contains_key(u) && s.users[u].channels.contains(c))
            &&& s.user_map.contains_key(name) ==> s.users.contains_key(s.user_map[name])
                && normalize(s.users[s.user_map[name]].nick) == name
            &&& s.channel_map.contains_key(name) ==> s.channels.contains_key(s.channel_map[name])
                && normalize(s.channels[s.channel_map[name]].name) == name
        }),
{
    lemma_after_all_wf(events);
    law_membership_symmetric(StateView::after_all(events), u, c);
    law_index_agrees(StateView::after_all(events), name);
}

/// A join of the session itself that comes a second time changes nothing:
/// the channel is tracked once, under the id and with the topic it got first.
pub proof fn law_self_join_idempotent(
    s: StateView,
    channel: Seq<char>,
    topic: Seq<char>,
    again: Seq<char>,
)
    ensures
        s.self_join(channel, topic).self_join(channel, again) == s.self_join(channel, topic),
        s.self_join_outcome(channel) == Ok::<NoticeView, SyncError>(NoticeView::Applied)
            ==> s.self_join(channel, topic).self_join_outcome(channel) == Ok::<
            NoticeView,
            SyncError,
        >(NoticeView::AlreadyJoined),
{
}

/// Joining the same user into the same channel twice leaves what joining it
/// once leaves: one user, and one edge between the two.
pub proof fn law_join_twice_is_join_once(
    s: StateView,
    nick: Seq<char>,
    user: Seq<char>,
    host: Seq<char>,
    channel: Seq<char>,
)
    requires
        s.wf(),
    ensures
        s.other_join(nick, user, host, channel).other_join(nick, user, host, channel)
            == s.other_join(nick, user, host, channel),
{
    if s.other_join_outcome(nick, channel) is Ok {
        let c = s.channel_map[normalize(channel)];
        lemma_enroll_wf(s, nick, user, host, c);
        let s1 = s.enroll(nick, user, host, c);
        let u = s1.user_map[normalize(nick)];
        let s2 = s1.other_join(nick, user, host, channel);
        assert(s2 == s1.link(u, c));
        assert(s1.users[u].channels.insert(c) =~= s1.users[u].channels);
        assert(s1.channels[c].users.insert(u) =~= s1.channels[c].users);
        assert(s2.users =~= s1.users);
        assert(s2.channels =~= s1.channels);
    }
}

} // verus!
