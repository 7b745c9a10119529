use irc_state::name_index::NameIndex;
use irc_state::{
    AnonymousUser, Channel, ChannelId, ChannelInfo, IrcIdentifier, JoinSuccess, KnownChannel,
    KnownUser, MessageEndpoint, User, UserId, WhoRecord,
};

fn key(raw: &str) -> IrcIdentifier {
    IrcIdentifier::from_str(raw)
}

#[test]
fn ids_compare_by_their_number() {
    assert_eq!(UserId(3), UserId(3));
    assert_ne!(UserId(3), UserId(4));
    assert!(UserId(3) < UserId(4));
    assert!(ChannelId(7) > ChannelId(2));
    let copy = ChannelId(7);
    assert_eq!(copy, ChannelId(7));
}

#[test]
fn message_endpoint_clone_is_equal() {
    let endpoints = vec![
        KnownUser(UserId(1)),
        KnownChannel(ChannelId(2)),
        MessageEndpoint::Server("irc.example.org".to_string()),
        AnonymousUser,
    ];
    for endpoint in endpoints.iter() {
        assert_eq!(&endpoint.clone(), endpoint);
    }
    assert_ne!(KnownUser(UserId(1)), KnownUser(UserId(2)));
    assert_ne!(KnownUser(UserId(1)), AnonymousUser);
}

#[test]
fn new_user_is_in_no_channel() {
    let user = User::new(UserId(5), "Bob", "bob", "example.org");
    assert_eq!(user.get_id(), UserId(5));
    assert_eq!(user.get_nick(), "Bob");
    assert_eq!(user.get_user(), "bob");
    assert_eq!(user.get_host(), "example.org");
    assert!(user.is_idle());
    assert!(user.channel_ids().is_empty());
    assert!(!user.in_channel(ChannelId(0)));
}

#[test]
fn user_from_a_roster_record() {
    let record = WhoRecord {
        nick: "Carol".to_string(),
        user: "carol".to_string(),
        host: "example.net".to_string(),
    };
    let user = User::from_who(UserId(9), &record);
    assert_eq!(user.get_id(), UserId(9));
    assert_eq!(user.get_nick(), "Carol");
    assert_eq!(user.get_user(), "carol");
    assert_eq!(user.get_host(), "example.net");
    assert!(user.is_idle());
}

#[test]
fn set_nick_keeps_the_rest_of_the_user() {
    let mut user = User::new(UserId(5), "Bob", "bob", "example.org");
    user.set_nick("Bobby");
    assert_eq!(user.get_nick(), "Bobby");
    assert_eq!(user.get_id(), UserId(5));
    assert_eq!(user.get_user(), "bob");
    assert_eq!(user.get_host(), "example.org");
}

#[test]
fn user_clone_is_the_same_value() {
    let user = User::new(UserId(5), "Bob", "bob", "example.org");
    let copy = user.clone();
    assert!(user.same_as(&copy));
    let mut other = user.clone();
    other.set_nick("Bobby");
    assert!(!user.same_as(&other));
    assert!(!user.same_as(&User::new(UserId(6), "Bob", "bob", "example.org")));
    assert!(!user.same_as(&User::new(UserId(5), "Bob", "rob", "example.org")));
    assert!(!user.same_as(&User::new(UserId(5), "Bob", "bob", "example.com")));
}

#[test]
fn channel_info_from_a_join_bundle() {
    let with_topic = JoinSuccess {
        channel: "#Foo".to_string(),
        topic: Some("hello".to_string()),
        nicks: vec!["Bob".to_string()],
    };
    let info = ChannelInfo::from_join(ChannelId(4), &with_topic);
    assert_eq!(info.id, ChannelId(4));
    assert_eq!(info.name, "#Foo");
    assert_eq!(info.topic, "hello");
    let without_topic =
        JoinSuccess { channel: "#bar".to_string(), topic: None, nicks: Vec::new() };
    let info = ChannelInfo::from_join(ChannelId(5), &without_topic);
    assert_eq!(info.name, "#bar");
    assert_eq!(info.topic, "");
}

#[test]
fn channel_from_info_has_no_users() {
    let info =
        ChannelInfo { id: ChannelId(4), name: "#Foo".to_string(), topic: "hello".to_string() };
    let channel = Channel::from_info(&info);
    assert_eq!(channel.get_id(), ChannelId(4));
    assert_eq!(channel.get_name(), "#Foo");
    assert_eq!(channel.get_topic(), "hello");
    assert!(channel.is_empty());
    assert!(channel.user_ids().is_empty());
    assert!(!channel.has_user(UserId(0)));
}

#[test]
fn set_topic_overwrites_the_topic() {
    let info =
        ChannelInfo { id: ChannelId(4), name: "#Foo".to_string(), topic: "hello".to_string() };
    let mut channel = Channel::from_info(&info);
    channel.set_topic("a longer topic than before");
    assert_eq!(channel.get_topic(), "a longer topic than before");
    channel.set_topic("");
    assert_eq!(channel.get_topic(), "");
    assert_eq!(channel.get_name(), "#Foo");
    assert_eq!(channel.get_id(), ChannelId(4));
}

#[test]
fn channel_clone_is_the_same_value() {
    let info =
        ChannelInfo { id: ChannelId(4), name: "#Foo".to_string(), topic: "hello".to_string() };
    let channel = Channel::from_info(&info);
    let copy = channel.clone();
    assert!(channel.same_as(&copy));
    let mut other = channel.clone();
    other.set_topic("x");
    assert!(!channel.same_as(&other));
}

#[test]
fn name_index_files_and_finds() {
    let mut index = NameIndex::new();
    assert_eq!(index.len(), 0);
    assert_eq!(index.get(&key("Bob")), None);
    assert_eq!(index.insert(key("Bob"), 1), None);
    assert_eq!(index.insert(key("Carol"), 2), None);
    assert_eq!(index.len(), 2);
    assert_eq!(index.get(&key("BOB")), Some(1));
    assert_eq!(index.get(&key("carol")), Some(2));
    assert_eq!(index.get(&key("Dave")), None);
}

#[test]
fn name_index_insert_replaces() {
    let mut index = NameIndex::new();
    index.insert(key("Bob"), 1);
    assert_eq!(index.insert(key("bob"), 7), Some(1));
    assert_eq!(index.len(), 1);
    assert_eq!(index.get(&key("Bob")), Some(7));
}

#[test]
fn name_index_remove_takes_one_entry_out() {
    let mut index = NameIndex::new();
    index.insert(key("Bob"), 1);
    index.insert(key("Carol"), 2);
    index.insert(key("Dave"), 3);
    assert_eq!(index.remove(&key("carol")), Some(2));
    assert_eq!(index.remove(&key("carol")), None);
    assert_eq!(index.len(), 2);
    assert_eq!(index.get(&key("Bob")), Some(1));
    assert_eq!(index.get(&key("Dave")), Some(3));
    assert_eq!(index.get(&key("Carol")), None);
}

#[test]
fn name_index_slots_hold_each_entry_once() {
    let mut index = NameIndex::new();
    index.insert(key("Bob"), 1);
    index.insert(key("Carol"), 2);
    let mut seen = Vec::new();
    for i in 0..index.len() {
        let (name, id) = index.slot(i);
        seen.push((name.as_slice().to_string(), id));
    }
    seen.sort();
    assert_eq!(seen, vec![("bob".to_string(), 1), ("carol".to_string(), 2)]);
}

#[test]
fn name_index_compares_as_a_map() {
    let mut a = NameIndex::new();
    a.insert(key("Bob"), 1);
    a.insert(key("Carol"), 2);
    let mut b = NameIndex::new();
    b.insert(key("Carol"), 2);
    b.insert(key("Bob"), 1);
    assert!(a.same_as(&b));
    assert!(a.same_as(&a.clone()));
    b.insert(key("Bob"), 3);
    assert!(!a.same_as(&b));
    b.remove(&key("Bob"));
    assert!(!a.same_as(&b));
    assert!(!b.same_as(&a));
}

#[test]
fn prefix_joins_nick_user_and_host() {
    assert_eq!(
        User::new(UserId(1), "Bob", "bob", "example.org").get_prefix(),
        "Bob!bob@example.org"
    );
    assert_eq!(User::new(UserId(1), "Bob", "bob", "").get_prefix(), "Bob!bob");
    assert_eq!(User::new(UserId(1), "Bob", "", "example.org").get_prefix(), "Bob@example.org");
    assert_eq!(User::new(UserId(1), "Bob", "", "").get_prefix(), "Bob");
    assert_eq!(User::new(UserId(1), "", "", "").get_prefix(), "");
    assert_eq!(User::new(UserId(1), "", "u", "h").get_prefix(), "!u@h");
}

#[test]
fn prefix_follows_a_change_of_nick() {
    let mut user = User::new(UserId(1), "Bob", "bob", "example.org");
    user.set_nick("Bobby");
    assert_eq!(user.get_prefix(), "Bobby!bob@example.org");
}
