//! The entities of the store: users and channels, and their ids.

use vstd::prelude::*;
use std::collections::HashSet;
use vstd::std_specs::iter::IteratorSpec;
use crate::event::{JoinSuccess, WhoRecord};
use crate::model::{ChannelView, UserView};

verus! {

/// Where a message comes from or goes to.
#[derive(Debug, PartialEq, Eq, Hash)]
pub enum MessageEndpoint {
    KnownUser(UserId),
    KnownChannel(ChannelId),
    Server(String),
    AnonymousUser,
}

impl Clone for MessageEndpoint {
    fn clone(&self) -> (r: MessageEndpoint)
        ensures
            r == *self,
    {
        match self {
            MessageEndpoint::KnownUser(id) => MessageEndpoint::KnownUser(*id),
            MessageEndpoint::KnownChannel(id) => MessageEndpoint::KnownChannel(*id),
            MessageEndpoint::Server(name) => MessageEndpoint::Server(name.clone()),
            MessageEndpoint::AnonymousUser => MessageEndpoint::AnonymousUser,
        }
    }
}

/// The id of a user: given once, in rising order, and never given again.
#[derive(Copy, Clone, Debug, Hash, PartialEq, Eq, PartialOrd, Ord, Structural)]
pub struct UserId(pub u64);

/// The id of a channel: given once, in rising order, and never given again.
#[derive(Copy, Clone, Debug, Hash, PartialEq, Eq, PartialOrd, Ord, Structural)]
pub struct ChannelId(pub u64);

/// The ids of a set, each once, in no particular order.
fn list_ids(ids: &HashSet<u64>) -> (r: Vec<u64>)
    ensures
        r@.to_set() == ids@,
        r@.no_duplicates(),
{
    let ghost keys = ids.iter().remaining();
    let mut out: Vec<u64> = Vec::new();
    for x in it: ids.iter()
        invariant
            it.seq() == keys,
            keys.unref().to_set() == ids@,
            keys.no_duplicates(),
            out@ == keys.unref().take(it.index()),
    {
        proof {
            assert(keys.unref().take(it.index() + 1) =~= keys.unref().take(it.index()).push(*x));
        }
        out.push(*x);
    }
    proof {
        assert(keys.unref().take(keys.len() as int) =~= keys.unref());
        assert(keys.unref().no_duplicates()) by {
            assert forall|i: int, j: int|
                0 <= i < keys.len() && 0 <= j < keys.len() && i != j implies keys.unref()[i]
                != keys.unref()[j] by {
                assert(keys[i] != keys[j]);
            }
        }
    }
    out
}

/// An independent copy of a set of ids.
fn copy_ids(ids: &HashSet<u64>) -> (r: HashSet<u64>)
    ensures
        r@ == ids@,
{
    let list = list_ids(ids);
    let mut out: HashSet<u64> = HashSet::new();
    let mut i: usize = 0;
    while i < list.len()
        invariant
            i <= list@.len(),
            out@ == list@.take(i as int).to_set(),
        decreases list@.len() - i,
    {
        proof {
            assert(list@.take(i + 1) =~= list@.take(i as int).push(list@[i as int]));
            list@.take(i as int).lemma_push_to_set_commute(list@[i as int]);
        }
        out.insert(list[i]);
        i = i + 1;
    }
    proof {
        assert(list@.take(list@.len() as int) =~= list@);
    }
    out
}

/// The text of a user's prefix: the nick, then `!` and the user part if there
/// is one, then `@` and the host part if there is one.
pub open spec fn prefix_text(nick: Seq<char>, user: Seq<char>, host: Seq<char>) -> Seq<char> {
    if user.len() == 0 && host.len() == 0 {
        nick
    } else if host.len() == 0 {
        nick + seq!['!'] + user
    } else if user.len() == 0 {
        nick + seq!['@'] + host
    } else {
        nick + seq!['!'] + user + seq!['@'] + host
    }
}

/// Formats a prefix with `irc::proto::Prefix`: the `Display` of its
/// `Nickname` variant, which writes the nick, then `!` and the user part
/// unless that is empty, then `@` and the host part unless that is empty.
#[verifier::external_body]
fn format_prefix(nick: &str, user: &str, host: &str) -> (r: String)
    ensures
        r@ == prefix_text(nick@, user@, host@),
{
    irc::proto::Prefix::Nickname(nick.to_owned(), user.to_owned(), host.to_owned()).to_string()
}

/// Whether every id of `a` is in `b`.
fn ids_within(a: &HashSet<u64>, b: &HashSet<u64>) -> (r: bool)
    ensures
        r == a@.subset_of(b@),
{
    let list = list_ids(a);
    let mut i: usize = 0;
    while i < list.len()
        invariant
            i <= list@.len(),
            list@.to_set() == a@,
            forall|j: int| 0 <= j < i ==> b@.contains(#[trigger] list@[j]),
        decreases list@.len() - i,
    {
        if !b.contains(&list[i]) {
            assert(a@.contains(list@[i as int])) by {
                assert(list@.to_set().contains(list@[i as int]));
            }
            return false;
        }
        i = i + 1;
    }
    assert forall|x: u64| a@.contains(x) implies b@.contains(x) by {
        assert(list@.to_set().contains(x));
        let j = choose|j: int| 0 <= j < list@.len() && list@[j] == x;
        assert(b@.contains(list@[j]));
    }
    true
}

/// Whether two sets hold the same ids.
fn same_ids(a: &HashSet<u64>, b: &HashSet<u64>) -> (r: bool)
    ensures
        r == (a@ == b@),
{
    let r = ids_within(a, b) && ids_within(b, a);
    proof {
        if r {
            assert(a@ =~= b@);
        }
    }
    r
}

/// A user: its id, its prefix (nick, user and host), and the channels it is in.
#[derive(Debug)]
pub struct User {
    id: UserId,
    nick: String,
    user: String,
    host: String,
    channels: HashSet<u64>,
}

impl View for User {
    type V = UserView;

    closed spec fn view(&self) -> UserView {
        UserView {
            id: self.id.0,
            nick: self.nick@,
            user: self.user@,
            host: self.host@,
            channels: self.channels@,
        }
    }
}

impl User {
    /// A user that is in no channel yet.
    pub fn new(id: UserId, nick: &str, user: &str, host: &str) -> (r: User)
        ensures
            r@ == (UserView {
                id: id.0,
                nick: nick@,
                user: user@,
                host: host@,
                channels: Set::empty(),
            }),
    {
        User {
            id,
            nick: nick.to_owned(),
            user: user.to_owned(),
            host: host.to_owned(),
            channels: HashSet::new(),
        }
    }

    /// The user that a roster record describes, in no channel yet.
    pub fn from_who(id: UserId, who: &WhoRecord) -> (r: User)
        ensures
            r@ == (UserView {
                id: id.0,
                nick: who.nick@,
                user: who.user@,
                host: who.host@,
                channels: Set::empty(),
            }),
    {
        User::new(id, who.nick.as_str(), who.user.as_str(), who.host.as_str())
    }

    /// The user's id.
    pub fn get_id(&self) -> (r: UserId)
        ensures
            r.0 == self@.id,
    {
        self.id
    }

    /// The user's nick.
    pub fn get_nick(&self) -> (r: &str)
        ensures
            r@ == self@.nick,
    {
        self.nick.as_str()
    }

    /// The user part of the prefix.
    pub fn get_user(&self) -> (r: &str)
        ensures
            r@ == self@.user,
    {
        self.user.as_str()
    }

    /// The host part of the prefix.
    pub fn get_host(&self) -> (r: &str)
        ensures
            r@ == self@.host,
    {
        self.host.as_str()
    }

    /// The user's prefix, as one string.
    pub fn get_prefix(&self) -> (r: String)
        ensures
            r@ == prefix_text(self@.nick, self@.user, self@.host),
    {
        format_prefix(self.nick.as_str(), self.user.as_str(), self.host.as_str())
    }

    /// Gives the user another nick. Its id, user, host and channels stay.
    pub fn set_nick(&mut self, nick: &str)
        ensures
            final(self)@ == old(self)@.renamed(nick@),
    {
        self.nick = nick.to_owned();
    }

    /// Whether the user is in channel `c`.
    pub fn in_channel(&self, c: ChannelId) -> (r: bool)
        ensures
            r == self@.channels.contains(c.0),
    {
        self.channels.contains(&c.0)
    }

    /// Whether the user is in no channel.
    pub fn is_idle(&self) -> (r: bool)
        ensures
            r == self@.channels.is_empty(),
    {
        self.channels.is_empty()
    }

    /// The channels that the user is in, each once, in no particular order.
    pub fn channel_ids(&self) -> (r: Vec<u64>)
        ensures
            r@.to_set() == self@.channels,
            r@.no_duplicates(),
    {
        list_ids(&self.channels)
    }

    /// Whether two users are the same as values.
    pub fn same_as(&self, other: &User) -> (r: bool)
        ensures
            r == (self@ == other@),
    {
        self.id.0 == other.id.0 && self.nick == other.nick && self.user == other.user
            && self.host == other.host && same_ids(&self.channels, &other.channels)
    }

    pub(crate) fn add_channel(&mut self, c: u64)
        ensures
            final(self)@ == old(self)@.joined(c),
    {
        self.channels.insert(c);
    }

    pub(crate) fn remove_channel(&mut self, c: u64)
        ensures
            final(self)@ == old(self)@.parted(c),
    {
        self.channels.remove(&c);
    }
}

impl Clone for User {
    /// An independent copy of the user.
    fn clone(&self) -> (r: User)
        ensures
            r@ == self@,
    {
        User {
            id: self.id,
            nick: self.nick.clone(),
            user: self.user.clone(),
            host: self.host.clone(),
            channels: copy_ids(&self.channels),
        }
    }
}

/// What a new channel is made from.
#[derive(Debug)]
pub struct ChannelInfo {
    pub id: ChannelId,
    pub name: String,
    pub topic: String,
}

/// The topic that a join bundle carries; the empty topic if it carries none.
pub open spec fn topic_of(join: &JoinSuccess) -> Seq<char> {
    match join.topic {
        Some(topic) => topic@,
        None => Seq::empty(),
    }
}

impl ChannelInfo {
    /// The channel that a join bundle announces, under the id `id`.
    pub fn from_join(id: ChannelId, join: &JoinSuccess) -> (r: ChannelInfo)
        ensures
            r.id == id,
            r.name@ == join.channel@,
            r.topic@ == topic_of(join),
    {
        let topic = match &join.topic {
            Some(topic) => topic.clone(),
            None => String::new(),
        };
        ChannelInfo { id, name: join.channel.clone(), topic }
    }
}

/// A channel: its id, display name and topic, and the users in it.
#[derive(Debug)]
pub struct Channel {
    id: ChannelId,
    name: String,
    topic: String,
    users: HashSet<u64>,
}

impl View for Channel {
    type V = ChannelView;

    closed spec fn view(&self) -> ChannelView {
        ChannelView { id: self.id.0, name: self.name@, topic: self.topic@, users: self.users@ }
    }
}

impl Channel {
    /// A channel without users.
    pub fn from_info(chan_info: &ChannelInfo) -> (r: Channel)
        ensures
            r@ == (ChannelView {
                id: chan_info.id.0,
                name: chan_info.name@,
                topic: chan_info.topic@,
                users: Set::empty(),
            }),
    {
        Channel {
            id: chan_info.id,
            name: chan_info.name.clone(),
            topic: chan_info.topic.clone(),
            users: HashSet::new(),
        }
    }

    /// Gives the channel another topic. Its id, name and users stay.
    pub fn set_topic(&mut self, topic: &str)
        ensures
            final(self)@ == old(self)@.retitled(topic@),
    {
        self.topic = topic.to_owned();
    }

    /// The channel's id.
    pub fn get_id(&self) -> (r: ChannelId)
        ensures
            r.0 == self@.id,
    {
        self.id
    }

    /// The channel's display name, as it was when the channel was made.
    pub fn get_name(&self) -> (r: &str)
        ensures
            r@ == self@.name,
    {
        self.name.as_str()
    }

    /// The channel's topic.
    pub fn get_topic(&self) -> (r: &str)
        ensures
            r@ == self@.topic,
    {
        self.topic.as_str()
    }

    /// Whether user `u` is in the channel.
    pub fn has_user(&self, u: UserId) -> (r: bool)
        ensures
            r == self@.users.contains(u.0),
    {
        self.users.contains(&u.0)
    }

    /// Whether the channel has no user.
    pub fn is_empty(&self) -> (r: bool)
        ensures
            r == self@.users.is_empty(),
    {
        self.users.is_empty()
    }

    /// The users in the channel, each once, in no particular order.
    pub fn user_ids(&self) -> (r: Vec<u64>)
        ensures
            r@.to_set() == self@.users,
            r@.no_duplicates(),
    {
        list_ids(&self.users)
    }

    /// Whether two channels are the same as values.
    pub fn same_as(&self, other: &Channel) -> (r: bool)
        ensures
            r == (self@ == other@),
    {
        self.id.0 == other.id.0 && self.name == other.name && self.topic == other.topic
            && same_ids(&self.users, &other.users)
    }

    pub(crate) fn add_user(&mut self, u: u64)
        ensures
            final(self)@ == old(self)@.admitting(u),
    {
        self.users.insert(u);
    }

    pub(crate) fn remove_user(&mut self, u: u64)
        ensures
            final(self)@ == old(self)@.without(u),
    {
        self.users.remove(&u);
    }
}

impl Clone for Channel {
    /// An independent copy of the channel.
    fn clone(&self) -> (r: Channel)
        ensures
            r@ == self@,
    {
        Channel {
            id: self.id,
            name: self.name.clone(),
            topic: self.topic.clone(),
            users: copy_ids(&self.users),
        }
    }
}

} // verus!
