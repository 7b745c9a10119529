//! Roster responses: filling a channel that has no member yet, and holding a
//! channel that has members against what the server reports.

use vstd::prelude::*;
use crate::entity::{ChannelId, User};
use crate::event::{
    names_distinct, names_of, outcome_of, Notice, RosterReport, SyncError, WhoRecord, WhoSuccess,
};
use crate::irc_identifier::normalize;
use crate::state::State;
use crate::transition::{lemma_enroll_wf, lemma_populate_wf, reported_nicks};

verus! {

/// A list with one more name is the set with one more name.
proof fn lemma_names_of_push(v: Seq<String>, s: String)
    ensures
        names_of(v.push(s)) == names_of(v).insert(s@),
{
    let w = v.push(s);
    assert forall|n: Seq<char>| names_of(w).contains(n) <==> names_of(v).insert(s@).contains(
        n,
    ) by {
        if names_of(w).contains(n) {
            let i = choose|i: int| 0 <= i < w.len() && (#[trigger] w[i])@ == n;
            if i < v.len() {
                assert(v[i]@ == n);
            }
        }
        if names_of(v).contains(n) {
            let i = choose|i: int| 0 <= i < v.len() && (#[trigger] v[i])@ == n;
            assert(w[i]@ == n);
        }
        if n == s@ {
            assert(w[v.len() as int]@ == n);
        }
    }
    assert(names_of(w) =~= names_of(v).insert(s@));
}

/// A roster with one more record reports one more nick.
proof fn lemma_reported_push(recs: Seq<WhoRecord>, i: int)
    requires
        0 <= i < recs.len(),
    ensures
        reported_nicks(recs.take(i + 1)) == reported_nicks(recs.take(i)).insert(recs[i].nick@),
{
    let a = recs.take(i);
    let b = recs.take(i + 1);
    assert forall|n: Seq<char>| reported_nicks(b).contains(n) <==> reported_nicks(a).insert(
        recs[i].nick@,
    ).contains(n) by {
        if reported_nicks(b).contains(n) {
            let j = choose|j: int| 0 <= j < b.len() && (#[trigger] b[j]).nick@ == n;
            if j < i {
                assert(a[j].nick@ == n);
            }
        }
        if reported_nicks(a).contains(n) {
            let j = choose|j: int| 0 <= j < a.len() && (#[trigger] a[j]).nick@ == n;
            assert(b[j].nick@ == n);
        }
        if n == recs[i].nick@ {
            assert(b[i].nick@ == n);
        }
    }
    assert(reported_nicks(b) =~= reported_nicks(a).insert(recs[i].nick@));
}

/// Whether `name` is in `list`.
fn contains_name(list: &Vec<String>, name: &String) -> (r: bool)
    ensures
        r == names_of(list@).contains(name@),
{
    let mut i: usize = 0;
    while i < list.len()
        invariant
            i <= list@.len(),
            forall|j: int| 0 <= j < i ==> (#[trigger] list@[j])@ != name@,
        decreases list@.len() - i,
    {
        if list[i] == *name {
            return true;
        }
        i = i + 1;
    }
    false
}

/// Whether the roster reports `name`.
fn reports_name(recs: &Vec<WhoRecord>, name: &String) -> (r: bool)
    ensures
        r == reported_nicks(recs@).contains(name@),
{
    let mut i: usize = 0;
    while i < recs.len()
        invariant
            i <= recs@.len(),
            forall|j: int| 0 <= j < i ==> (#[trigger] recs@[j]).nick@ != name@,
        decreases recs@.len() - i,
    {
        if recs[i].nick == *name {
            return true;
        }
        i = i + 1;
    }
    false
}

impl State {
    /// The nicks of the users in channel `chid`, each once.
    fn believed_list(&self, chid: ChannelId) -> (r: Vec<String>)
        requires
            self.wf(),
            self@.channels.contains_key(chid.0),
        ensures
            names_of(r@) == self@.believed_nicks(chid.0),
    {
        let ids = match self.channels.get(&chid.0) {
            Some(channel) => channel.user_ids(),
            None => Vec::new(),
        };
        let mut known: Vec<String> = Vec::new();
        let mut i: usize = 0;
        while i < ids.len()
            invariant
                i <= ids@.len(),
                self.wf(),
                self@.channels.contains_key(chid.0),
                ids@.to_set() == self@.channels[chid.0].users,
                known@.len() == i,
                forall|j: int|
                    0 <= j < i ==> (#[trigger] known@[j])@ == self@.users[ids@[j]].nick,
            decreases ids@.len() - i,
        {
            proof {
                assert(ids@.to_set().contains(ids@[i as int]));
                assert(self@.channels[chid.0].users.contains(ids@[i as int]));
            }
            if let Some(user) = self.users.get(&ids[i]) {
                known.push(user.get_nick().to_owned());
            }
            i = i + 1;
        }
        proof {
            let believed = self@.believed_nicks(chid.0);
            assert forall|n: Seq<char>| names_of(known@).contains(n) <==> believed.contains(n) by {
                if names_of(known@).contains(n) {
                    let j = choose|j: int| 0 <= j < known@.len() && (#[trigger] known@[j])@ == n;
                    assert(ids@.to_set().contains(ids@[j]));
                    assert(self@.channels[chid.0].users.contains(ids@[j]));
                }
                if believed.contains(n) {
                    let u = choose|u: u64| #[trigger]
                        self@.channels[chid.0].users.contains(u) && self@.users.contains_key(u)
                            && self@.users[u].nick == n;
                    assert(ids@.to_set().contains(u));
                    let j = choose|j: int| 0 <= j < ids@.len() && ids@[j] == u;
                    assert(known@[j]@ == n);
                }
            }
            assert(names_of(known@) =~= believed);
        }
        known
    }

    /// Holds the channel that a roster response names against the response:
    /// the nicks that the server reports and the session does not believe to
    /// be in the channel, and the nicks that the session believes to be there
    /// and the server does not report, each once. Nothing for a channel that
    /// the session does not track.
    pub fn validate_state_with_who(&self, who: &WhoSuccess) -> (r: Option<RosterReport>)
        requires
            self.wf(),
        ensures
            match r {
                Some(report) => {
                    let believed = self@.believed_nicks(
                        self@.channel_map[normalize(who.channel@)],
                    );
                    let reported = reported_nicks(who.who_records@);
                    &&& self@.identify_channel(who.channel@) is Some
                    &&& names_of(report.unknown@) == reported.difference(believed)
                    &&& names_of(report.unreported@) == believed.difference(reported)
                    &&& names_distinct(report.unknown@)
                    &&& names_distinct(report.unreported@)
                },
                None => self@.identify_channel(who.channel@) is None,
            },
    {
        let chid = match self.identify_channel(who.channel.as_str()) {
            Some(chid) => chid,
            None => { return None; },
        };
        let known = self.believed_list(chid);
        let ghost believed = self@.believed_nicks(chid.0);
        let ghost recs = who.who_records@;

        let mut unknown: Vec<String> = Vec::new();
        let mut i: usize = 0;
        proof {
            assert(names_of(unknown@) =~= reported_nicks(recs.take(0)).difference(believed));
        }
        while i < who.who_records.len()
            invariant
                i <= recs.len(),
                recs == who.who_records@,
                names_of(known@) == believed,
                names_of(unknown@) == reported_nicks(recs.take(i as int)).difference(believed),
                names_distinct(unknown@),
            decreases recs.len() - i,
        {
            let nick = &who.who_records[i].nick;
            proof {
                lemma_reported_push(recs, i as int);
            }
            if !contains_name(&known, nick) && !contains_name(&unknown, nick) {
                proof {
                    lemma_names_of_push(unknown@, *nick);
                    assert forall|a: int, b: int|
                        0 <= a < b < unknown@.push(*nick).len() implies (
                    #[trigger] unknown@.push(*nick)[a])@ != (#[trigger] unknown@.push(
                        *nick,
                    )[b])@ by {
                        if b == unknown@.len() {
                            assert(unknown@[a]@ != nick@);
                        }
                    }
                }
                unknown.push(nick.clone());
            }
            proof {
                assert(names_of(unknown@) =~= reported_nicks(recs.take(i + 1)).difference(
                    believed,
                ));
            }
            i = i + 1;
        }
        proof {
            assert(recs.take(recs.len() as int) =~= recs);
        }

        let mut unreported: Vec<String> = Vec::new();
        let mut j: usize = 0;
        proof {
            assert(names_of(unreported@) =~= names_of(known@.take(0)).difference(
                reported_nicks(recs),
            ));
        }
        while j < known.len()
            invariant
                j <= known@.len(),
                recs == who.who_records@,
                names_of(unreported@) == names_of(known@.take(j as int)).difference(
                    reported_nicks(recs),
                ),
                names_distinct(unreported@),
            decreases known@.len() - j,
        {
            let nick = &known[j];
            proof {
                assert(known@.take(j + 1) =~= known@.take(j as int).push(*nick));
                lemma_names_of_push(known@.take(j as int), *nick);
            }
            if !reports_name(&who.who_records, nick) && !contains_name(&unreported, nick) {
                proof {
                    lemma_names_of_push(unreported@, *nick);
                    assert forall|a: int, b: int|
                        0 <= a < b < unreported@.push(*nick).len() implies (
                    #[trigger] unreported@.push(*nick)[a])@ != (#[trigger] unreported@.push(
                        *nick,
                    )[b])@ by {
                        if b == unreported@.len() {
                            assert(unreported@[a]@ != nick@);
                        }
                    }
                }
                unreported.push(nick.clone());
            }
            proof {
                assert(names_of(unreported@) =~= names_of(known@.take(j + 1)).difference(
                    reported_nicks(recs),
                ));
            }
            j = j + 1;
        }
        proof {
            assert(known@.take(known@.len() as int) =~= known@);
        }
        Some(RosterReport { unknown, unreported })
    }

    /// A roster response has come. For a channel that the session does not
    /// track, nothing happens. A tracked channel without members is filled:
    /// each occupant is found or made, and put into the channel. A tracked
    /// channel with members is only held against the response; the state stays
    /// as it is and the differences are reported.
    pub fn on_who(&mut self, who: &WhoSuccess) -> (r: Result<Notice, SyncError>)
        requires
            old(self).wf(),
        ensures
            final(self).wf(),
            final(self)@ == old(self)@.who(who.channel@, who.who_records@),
            outcome_of(r) == old(self)@.who_outcome(who.channel@, who.who_records@),
            r matches Ok(Notice::Roster(report)) ==> names_distinct(report.unknown@)
                && names_distinct(report.unreported@),
    {
        let chid = match self.get_channel_by_name(who.channel.as_str()) {
            Some((chid, channel)) => {
                if !channel.is_empty() {
                    return match self.validate_state_with_who(who) {
                        Some(report) => Ok(Notice::Roster(report)),
                        None => Ok(Notice::UnknownChannel),
                    };
                }
                chid
            },
            None => { return Ok(Notice::UnknownChannel); },
        };
        let n = who.who_records.len();
        if n as u64 > u64::MAX - self.user_seq {
            return Err(SyncError::IdsExhausted);
        }
        let ghost s0 = self@;
        let ghost recs = who.who_records@;
        let mut i: usize = 0;
        while i < n
            invariant
                i <= n,
                n == recs.len(),
                recs == who.who_records@,
                s0.wf(),
                s0.channels.contains_key(chid.0),
                s0.user_seq + n <= u64::MAX,
                self@ == s0.populate(chid.0, recs.take(i as int)),
            decreases n - i,
        {
            let rec = &who.who_records[i];
            proof {
                lemma_populate_wf(s0, chid.0, recs.take(i as int));
                lemma_enroll_wf(self@, rec.nick@, rec.user@, rec.host@, chid.0);
                assert(recs.take(i + 1).drop_last() =~= recs.take(i as int));
                assert(recs.take(i + 1).last() == recs[i as int]);
            }
            let uid = match self.identify_nick(rec.nick.as_str()) {
                Some(uid) => uid,
                None => {
                    let uid = self.next_user_id();
                    self.insert_user(User::from_who(uid, rec));
                    uid
                },
            };
            self.link_user_channel(uid, chid);
            i = i + 1;
        }
        proof {
            assert(recs.take(recs.len() as int) =~= recs);
            lemma_populate_wf(s0, chid.0, recs);
        }
        Ok(Notice::Applied)
    }
}

} // verus!
