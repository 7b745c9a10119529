use irc_state::{
    IncomingMsg, IrcEvent, Join, JoinSuccess, Kick, Nick, Notice, Part, Quit, State, SyncError,
    Topic, Welcome, WhoRecord, WhoSuccess,
};

fn welcome(nick: &str) -> IrcEvent {
    IrcEvent::IrcMsg(IncomingMsg::Welcome(Welcome { nick: nick.to_string() }))
}

fn self_join(channel: &str, topic: Option<&str>) -> IrcEvent {
    IrcEvent::JoinBundle(Ok(JoinSuccess {
        channel: channel.to_string(),
        topic: topic.map(|t| t.to_string()),
        nicks: Vec::new(),
    }))
}

fn join(nick: &str, channel: &str) -> IrcEvent {
    IrcEvent::IrcMsg(IncomingMsg::Join(Join {
        nick: nick.to_string(),
        user: "user".to_string(),
        host: "example.org".to_string(),
        channel: channel.to_string(),
    }))
}

fn part(nick: &str, channel: &str) -> IrcEvent {
    IrcEvent::IrcMsg(IncomingMsg::Part(Part {
        nick: nick.to_string(),
        channel: channel.to_string(),
    }))
}

fn rename(nick: &str, new_nick: &str) -> IrcEvent {
    IrcEvent::IrcMsg(IncomingMsg::Nick(Nick {
        nick: nick.to_string(),
        new_nick: new_nick.to_string(),
    }))
}

fn who(channel: &str, nicks: &[&str]) -> IrcEvent {
    IrcEvent::WhoBundle(Ok(WhoSuccess {
        channel: channel.to_string(),
        who_records: nicks
            .iter()
            .map(|n| WhoRecord {
                nick: n.to_string(),
                user: "user".to_string(),
                host: "example.org".to_string(),
            })
            .collect(),
    }))
}

fn alice_in_foo() -> State {
    let mut state = State::new();
    assert!(matches!(state.on_event(&welcome("Alice")), Ok(Notice::Applied)));
    assert!(matches!(state.on_event(&self_join("#foo", None)), Ok(Notice::Applied)));
    state
}

fn alice_and_bob_in_foo() -> State {
    let mut state = alice_in_foo();
    assert!(matches!(state.on_event(&join("Bob", "#foo")), Ok(Notice::Applied)));
    state
}

#[test]
fn new_state_is_empty() {
    let state = State::new();
    assert_eq!(state.get_self_nick(), "");
    assert!(state.identify_nick("Alice").is_none());
    assert!(state.identify_channel("#foo").is_none());
    assert!(state.validate_state_internal().is_ok());
}

#[test]
fn scenario_a_self_join_makes_an_empty_channel() {
    let state = alice_in_foo();
    assert_eq!(state.get_self_nick(), "Alice");
    let chid = state.identify_channel("#foo").expect("channel is tracked");
    let channel = state.resolve_channel(chid).expect("channel exists");
    assert_eq!(channel.get_topic(), "");
    assert_eq!(channel.get_name(), "#foo");
    assert!(channel.is_empty());
    assert!(channel.user_ids().is_empty());
    assert!(state.validate_state_internal().is_ok());
}

#[test]
fn self_join_keeps_the_topic_of_the_bundle() {
    let mut state = State::new();
    state.on_event(&welcome("Alice")).unwrap();
    state.on_event(&self_join("#foo", Some("hello there"))).unwrap();
    let chid = state.identify_channel("#FOO").unwrap();
    assert_eq!(state.resolve_channel(chid).unwrap().get_topic(), "hello there");
}

#[test]
fn scenario_b_other_join_links_both_ways() {
    let state = alice_and_bob_in_foo();
    let chid = state.identify_channel("#foo").unwrap();
    let bob = state.identify_nick("Bob").expect("Bob is tracked");
    let alice = state.identify_nick("Alice").unwrap();
    assert_ne!(bob, alice);
    assert!(state.resolve_channel(chid).unwrap().has_user(bob));
    assert!(state.resolve_user(bob).unwrap().in_channel(chid));
    assert_eq!(state.resolve_user(bob).unwrap().get_nick(), "Bob");
    assert_eq!(state.resolve_user(bob).unwrap().get_user(), "user");
    assert_eq!(state.resolve_user(bob).unwrap().get_host(), "example.org");
    assert_eq!(state.resolve_user(bob).unwrap().get_id(), bob);
    assert!(state.validate_state_internal().is_ok());
}

#[test]
fn scenario_c_part_of_the_only_channel_removes_the_user() {
    let mut state = alice_and_bob_in_foo();
    let bob = state.identify_nick("Bob").unwrap();
    assert!(matches!(state.on_event(&part("Bob", "#foo")), Ok(Notice::Applied)));
    assert!(state.identify_nick("Bob").is_none());
    assert!(state.resolve_user(bob).is_none());
    assert!(state.validate_state_internal().is_ok());
}

#[test]
fn part_of_the_last_member_removes_the_channel() {
    let mut state = alice_and_bob_in_foo();
    let chid = state.identify_channel("#foo").unwrap();
    state.on_event(&part("Bob", "#foo")).unwrap();
    assert!(state.identify_channel("#foo").is_none());
    assert!(state.resolve_channel(chid).is_none());
}

#[test]
fn scenario_d_rename_keeps_id_and_membership() {
    let mut state = alice_and_bob_in_foo();
    let chid = state.identify_channel("#foo").unwrap();
    let bob = state.identify_nick("Bob").unwrap();
    let members_before = state.resolve_channel(chid).unwrap().user_ids();
    assert!(matches!(state.on_event(&rename("Bob", "Bobby")), Ok(Notice::Applied)));
    assert!(state.identify_nick("Bob").is_none());
    assert_eq!(state.identify_nick("Bobby"), Some(bob));
    assert_eq!(state.resolve_user(bob).unwrap().get_nick(), "Bobby");
    assert_eq!(state.resolve_channel(chid).unwrap().user_ids(), members_before);
    assert!(state.resolve_channel(chid).unwrap().has_user(bob));
    assert!(state.validate_state_internal().is_ok());
}

#[test]
fn scenario_e_roster_fills_a_channel_without_members() {
    let mut state = alice_in_foo();
    let chid = state.identify_channel("#foo").unwrap();
    assert!(state.identify_nick("Bob").is_none());
    assert!(state.identify_nick("Carol").is_none());
    assert!(matches!(state.on_event(&who("#foo", &["Bob", "Carol"])), Ok(Notice::Applied)));
    let bob = state.identify_nick("Bob").expect("Bob was made");
    let carol = state.identify_nick("Carol").expect("Carol was made");
    assert_ne!(bob, carol);
    let channel = state.resolve_channel(chid).unwrap();
    assert!(channel.has_user(bob));
    assert!(channel.has_user(carol));
    assert_eq!(channel.user_ids().len(), 2);
    assert!(state.resolve_user(bob).unwrap().in_channel(chid));
    assert!(state.resolve_user(carol).unwrap().in_channel(chid));
    assert!(state.validate_state_internal().is_ok());
}

#[test]
fn scenario_f_roster_for_a_channel_with_members_only_reports() {
    let mut state = alice_and_bob_in_foo();
    let before = state.clone_frozen();
    let outcome = state.on_event(&who("#foo", &["Bob", "Dave"]));
    let report = match outcome {
        Ok(Notice::Roster(report)) => report,
        _ => panic!("a roster report was expected"),
    };
    assert_eq!(report.unknown, vec!["Dave".to_string()]);
    assert!(report.unreported.is_empty());
    assert!(state.identify_nick("Dave").is_none());
    assert!(state.same_as(before.state()));
    let chid = state.identify_channel("#foo").unwrap();
    assert_eq!(state.resolve_channel(chid).unwrap().user_ids().len(), 1);
}

#[test]
fn roster_report_lists_both_differences() {
    let mut state = alice_and_bob_in_foo();
    state.on_event(&join("Carol", "#foo")).unwrap();
    let outcome = state.on_event(&who("#foo", &["Dave", "Bob", "Dave", "Erin"]));
    match outcome {
        Ok(notice) => {
            assert!(notice.is_desync());
            match notice {
                Notice::Roster(report) => {
                    assert_eq!(report.unknown, vec!["Dave".to_string(), "Erin".to_string()]);
                    assert_eq!(report.unreported, vec!["Carol".to_string()]);
                }
                _ => panic!("a roster report was expected"),
            }
        }
        Err(_) => panic!("a roster report was expected"),
    }
}

#[test]
fn roster_that_agrees_is_no_desync() {
    let mut state = alice_and_bob_in_foo();
    match state.on_event(&who("#foo", &["Bob"])) {
        Ok(notice) => assert!(!notice.is_desync()),
        Err(_) => panic!("a roster report was expected"),
    }
}

#[test]
fn roster_for_an_untracked_channel_is_left_alone() {
    let mut state = alice_in_foo();
    assert!(matches!(state.on_event(&who("#bar", &["Bob"])), Ok(Notice::UnknownChannel)));
    assert!(state.identify_nick("Bob").is_none());
}

#[test]
fn roster_with_one_nick_twice_makes_one_user() {
    let mut state = alice_in_foo();
    state.on_event(&who("#foo", &["Bob", "bob"])).unwrap();
    let chid = state.identify_channel("#foo").unwrap();
    assert_eq!(state.resolve_channel(chid).unwrap().user_ids().len(), 1);
    assert_eq!(state.identify_nick("BOB"), state.identify_nick("bob"));
}

#[test]
fn roster_that_names_the_session_links_its_own_user() {
    let mut state = alice_in_foo();
    state.on_event(&who("#foo", &["Alice", "Bob"])).unwrap();
    let chid = state.identify_channel("#foo").unwrap();
    let alice = state.identify_nick("Alice").unwrap();
    assert!(state.resolve_channel(chid).unwrap().has_user(alice));
    assert!(state.resolve_user(alice).unwrap().in_channel(chid));
}

#[test]
fn repeated_self_join_is_a_no_op() {
    let mut state = alice_and_bob_in_foo();
    let chid = state.identify_channel("#foo").unwrap();
    let before = state.clone_frozen();
    assert!(matches!(state.on_event(&self_join("#FOO", Some("x"))), Ok(Notice::AlreadyJoined)));
    assert_eq!(state.identify_channel("#foo"), Some(chid));
    assert!(state.same_as(before.state()));
}

#[test]
fn joining_twice_leaves_one_edge() {
    let mut state = alice_and_bob_in_foo();
    let once = state.clone_frozen();
    state.on_event(&join("Bob", "#foo")).unwrap();
    let chid = state.identify_channel("#foo").unwrap();
    let bob = state.identify_nick("Bob").unwrap();
    assert_eq!(state.resolve_channel(chid).unwrap().user_ids(), vec![bob.0]);
    assert_eq!(state.resolve_user(bob).unwrap().channel_ids(), vec![chid.0]);
    assert!(state.same_as(once.state()));
}

#[test]
fn join_into_an_unannounced_channel_is_refused() {
    let mut state = alice_in_foo();
    let before = state.clone_frozen();
    assert_eq!(state.on_event(&join("Bob", "#bar")).err(), Some(SyncError::UnknownChannel));
    assert!(state.identify_nick("Bob").is_none());
    assert!(state.same_as(before.state()));
}

#[test]
fn self_part_removes_the_channel_and_those_it_strands() {
    let mut state = alice_and_bob_in_foo();
    state.on_event(&self_join("#bar", None)).unwrap();
    state.on_event(&join("Carol", "#foo")).unwrap();
    state.on_event(&join("Carol", "#bar")).unwrap();
    let carol = state.identify_nick("Carol").unwrap();
    let bar = state.identify_channel("#bar").unwrap();
    assert!(matches!(state.on_event(&part("alice", "#foo")), Ok(Notice::Applied)));
    assert!(state.identify_channel("#foo").is_none());
    assert!(state.identify_nick("Bob").is_none());
    assert_eq!(state.identify_nick("Carol"), Some(carol));
    assert_eq!(state.resolve_user(carol).unwrap().channel_ids(), vec![bar.0]);
    assert!(state.identify_nick("Alice").is_some());
    assert!(state.validate_state_internal().is_ok());
}

#[test]
fn self_part_of_an_unknown_channel_is_refused() {
    let mut state = alice_in_foo();
    assert_eq!(state.on_event(&part("Alice", "#bar")).err(), Some(SyncError::UnknownChannel));
}

#[test]
fn part_with_an_unknown_side_changes_nothing() {
    let mut state = alice_and_bob_in_foo();
    let before = state.clone_frozen();
    assert!(matches!(state.on_event(&part("Bob", "#bar")), Ok(Notice::UnknownChannel)));
    assert!(matches!(state.on_event(&part("Carol", "#foo")), Ok(Notice::UnknownUser)));
    assert!(matches!(state.on_event(&part("Carol", "#bar")), Ok(Notice::UnknownChannelAndUser)));
    assert!(state.same_as(before.state()));
}

#[test]
fn kick_unlinks_the_kicked_user() {
    let mut state = alice_and_bob_in_foo();
    state.on_event(&join("Carol", "#foo")).unwrap();
    let kick = IrcEvent::IrcMsg(IncomingMsg::Kick(Kick {
        channel: "#foo".to_string(),
        kicked_nick: "bob".to_string(),
    }));
    assert!(matches!(state.on_event(&kick), Ok(Notice::Applied)));
    assert!(state.identify_nick("Bob").is_none());
    assert!(state.identify_nick("Carol").is_some());
    assert!(state.identify_channel("#foo").is_some());
    let unknown = IrcEvent::IrcMsg(IncomingMsg::Kick(Kick {
        channel: "#foo".to_string(),
        kicked_nick: "Dave".to_string(),
    }));
    assert!(matches!(state.on_event(&unknown), Ok(Notice::UnknownUser)));
}

#[test]
fn kick_of_the_session_keeps_its_user() {
    let mut state = alice_in_foo();
    state.on_event(&who("#foo", &["Alice", "Bob"])).unwrap();
    let alice = state.identify_nick("Alice").unwrap();
    let kick = IrcEvent::IrcMsg(IncomingMsg::Kick(Kick {
        channel: "#foo".to_string(),
        kicked_nick: "Alice".to_string(),
    }));
    state.on_event(&kick).unwrap();
    assert!(state.resolve_user(alice).is_some());
    assert!(state.resolve_user(alice).unwrap().is_idle());
    assert!(state.identify_channel("#foo").is_some());
}

#[test]
fn quit_removes_the_user_from_every_channel() {
    let mut state = alice_and_bob_in_foo();
    state.on_event(&self_join("#bar", None)).unwrap();
    state.on_event(&join("Bob", "#bar")).unwrap();
    state.on_event(&join("Carol", "#bar")).unwrap();
    let bob = state.identify_nick("Bob").unwrap();
    let quit = IrcEvent::IrcMsg(IncomingMsg::Quit(Quit { nick: "Bob".to_string() }));
    assert!(matches!(state.on_event(&quit), Ok(Notice::Applied)));
    assert!(state.identify_nick("Bob").is_none());
    let foo = state.identify_channel("#foo").expect("a quit removes no channel");
    let bar = state.identify_channel("#bar").unwrap();
    assert!(state.resolve_channel(foo).unwrap().is_empty());
    assert!(!state.resolve_channel(bar).unwrap().has_user(bob));
    assert_eq!(state.resolve_channel(bar).unwrap().user_ids().len(), 1);
    assert!(state.validate_state_internal().is_ok());
}

#[test]
fn quit_of_an_unknown_user_is_refused() {
    let mut state = alice_in_foo();
    let quit = IrcEvent::IrcMsg(IncomingMsg::Quit(Quit { nick: "Bob".to_string() }));
    assert_eq!(state.on_event(&quit).err(), Some(SyncError::UnknownUser));
}

#[test]
fn quit_of_the_session_is_ignored() {
    let mut state = alice_in_foo();
    let quit = IrcEvent::IrcMsg(IncomingMsg::Quit(Quit { nick: "ALICE".to_string() }));
    assert!(matches!(state.on_event(&quit), Ok(Notice::Ignored)));
    assert!(state.identify_nick("Alice").is_some());
}

#[test]
fn removing_the_session_user_is_refused() {
    let mut state = alice_in_foo();
    let alice = state.identify_nick("Alice").unwrap();
    assert_eq!(state.remove_user_by_id(alice).err(), Some(SyncError::RemoveSelf));
    assert!(state.identify_nick("Alice").is_some());
    // After a change of nick that the session did not note as its own, a quit
    // under the new nick names the session's own user.
    state.on_event(&rename("Alice", "Alicia")).unwrap();
    let quit = IrcEvent::IrcMsg(IncomingMsg::Quit(Quit { nick: "Alicia".to_string() }));
    assert_eq!(state.on_event(&quit).err(), Some(SyncError::RemoveSelf));
}

#[test]
fn nick_change_of_an_unknown_user_is_refused() {
    let mut state = alice_in_foo();
    assert_eq!(state.on_event(&rename("Bob", "Bobby")).err(), Some(SyncError::UnknownUser));
}

#[test]
fn nick_change_to_a_taken_nick_is_refused() {
    let mut state = alice_and_bob_in_foo();
    state.on_event(&join("Carol", "#foo")).unwrap();
    let before = state.clone_frozen();
    assert_eq!(state.on_event(&rename("Bob", "carol")).err(), Some(SyncError::NickInUse));
    assert!(state.same_as(before.state()));
}

#[test]
fn nick_change_in_case_only_keeps_the_key() {
    let mut state = alice_and_bob_in_foo();
    let bob = state.identify_nick("Bob").unwrap();
    assert!(matches!(state.on_event(&rename("Bob", "BOB")), Ok(Notice::Applied)));
    assert_eq!(state.identify_nick("bob"), Some(bob));
    assert_eq!(state.resolve_user(bob).unwrap().get_nick(), "BOB");
}

#[test]
fn topic_change_overwrites_the_topic() {
    let mut state = alice_in_foo();
    let topic = IrcEvent::IrcMsg(IncomingMsg::Topic(Topic {
        channel: "#Foo".to_string(),
        body: "new topic".to_string(),
    }));
    assert!(matches!(state.on_event(&topic), Ok(Notice::Applied)));
    let chid = state.identify_channel("#foo").unwrap();
    assert_eq!(state.resolve_channel(chid).unwrap().get_topic(), "new topic");
    let unknown = IrcEvent::IrcMsg(IncomingMsg::Topic(Topic {
        channel: "#bar".to_string(),
        body: "x".to_string(),
    }));
    assert_eq!(state.on_event(&unknown).err(), Some(SyncError::UnknownChannel));
}

#[test]
fn welcome_makes_the_session_user_with_a_placeholder() {
    let mut state = State::new();
    state.on_event(&welcome("Alice")).unwrap();
    let alice = state.identify_nick("alice").unwrap();
    let user = state.resolve_user(alice).unwrap();
    assert_eq!(user.get_nick(), "Alice");
    assert_eq!(user.get_user(), "someone");
    assert_eq!(user.get_host(), "somewhere");
    assert!(user.is_idle());
}

#[test]
fn second_welcome_renames_the_session_user() {
    let mut state = alice_in_foo();
    let alice = state.identify_nick("Alice").unwrap();
    state.on_event(&welcome("Alice2")).unwrap();
    assert_eq!(state.get_self_nick(), "Alice2");
    assert_eq!(state.identify_nick("Alice2"), Some(alice));
    assert!(state.identify_nick("Alice").is_none());
}

#[test]
fn set_self_nick_rekeys_the_index() {
    let mut state = alice_in_foo();
    let alice = state.identify_nick("Alice").unwrap();
    assert!(state.set_self_nick("Eve").is_ok());
    assert_eq!(state.get_self_nick(), "Eve");
    assert_eq!(state.identify_nick("Eve"), Some(alice));
    assert!(state.identify_nick("Alice").is_none());
    assert_eq!(state.resolve_user(alice).unwrap().get_nick(), "Eve");
    assert!(state.validate_state_internal().is_ok());
}

#[test]
fn set_self_nick_before_the_welcome_only_sets_the_nick() {
    let mut state = State::new();
    assert!(state.set_self_nick("Alice").is_ok());
    assert_eq!(state.get_self_nick(), "Alice");
    assert!(state.identify_nick("Alice").is_none());
    assert!(state.set_self_nick("Eve").is_ok());
    assert_eq!(state.get_self_nick(), "Eve");
}

#[test]
fn set_self_nick_to_a_taken_nick_is_refused() {
    let mut state = alice_and_bob_in_foo();
    assert_eq!(state.set_self_nick("BOB").err(), Some(SyncError::NickInUse));
    assert_eq!(state.get_self_nick(), "Alice");
}

#[test]
fn extension_events_are_refused() {
    let mut state = alice_in_foo();
    assert_eq!(state.on_event(&IrcEvent::Extension).err(), Some(SyncError::Unsupported));
}

#[test]
fn failed_bundles_and_other_messages_are_ignored() {
    let mut state = alice_in_foo();
    let before = state.clone_frozen();
    let failed_join = IrcEvent::JoinBundle(Err(irc_state::BundleFailure {}));
    let failed_who = IrcEvent::WhoBundle(Err(irc_state::BundleFailure {}));
    assert!(matches!(state.on_event(&failed_join), Ok(Notice::Ignored)));
    assert!(matches!(state.on_event(&failed_who), Ok(Notice::Ignored)));
    assert!(matches!(state.on_event(&IrcEvent::IrcMsg(IncomingMsg::Other)), Ok(Notice::Ignored)));
    assert!(matches!(state.on_event(&join("alice", "#foo")), Ok(Notice::Ignored)));
    assert!(state.same_as(before.state()));
}

#[test]
fn is_self_join_tells_the_sessions_own_join() {
    let state = alice_in_foo();
    let own = IncomingMsg::Join(Join {
        nick: "ALICE".to_string(),
        user: "u".to_string(),
        host: "h".to_string(),
        channel: "#bar".to_string(),
    });
    let other = IncomingMsg::Join(Join {
        nick: "Bob".to_string(),
        user: "u".to_string(),
        host: "h".to_string(),
        channel: "#bar".to_string(),
    });
    let own_part =
        IncomingMsg::Part(Part { nick: "Alice".to_string(), channel: "#foo".to_string() });
    assert_eq!(state.is_self_join(&own).map(|j| j.channel.as_str()), Some("#bar"));
    assert!(state.is_self_join(&other).is_none());
    assert!(state.is_self_join(&own_part).is_none());
}

#[test]
fn ids_are_sequential_and_never_given_again() {
    let mut state = alice_and_bob_in_foo();
    let bob = state.identify_nick("Bob").unwrap();
    let foo = state.identify_channel("#foo").unwrap();
    state.on_event(&join("Carol", "#foo")).unwrap();
    state.on_event(&part("Bob", "#foo")).unwrap();
    state.on_event(&join("Bob", "#foo")).unwrap();
    let carol = state.identify_nick("Carol").unwrap();
    let bob_again = state.identify_nick("Bob").unwrap();
    assert_eq!(state.identify_nick("Alice").unwrap().0, 0);
    assert_eq!(bob.0, 1);
    assert_eq!(carol.0, 2);
    assert_eq!(bob_again.0, 3);
    assert_eq!(foo.0, 0);
    state.on_event(&part("Alice", "#foo")).unwrap();
    state.on_event(&self_join("#foo", None)).unwrap();
    assert_eq!(state.identify_channel("#foo").unwrap().0, 1);
}

#[test]
fn snapshot_is_independent_of_the_session() {
    let mut state = alice_and_bob_in_foo();
    let frozen = state.clone_frozen();
    state.on_event(&part("Bob", "#foo")).unwrap();
    assert!(state.identify_nick("Bob").is_none());
    assert!(frozen.state().identify_nick("Bob").is_some());
    assert!(frozen.identify_channel("#foo").is_some());
    assert!(!state.same_as(frozen.state()));
}

#[test]
fn store_operations_by_id_and_name() {
    let mut state = alice_and_bob_in_foo();
    let foo = state.identify_channel("#foo").unwrap();
    let bob = state.identify_nick("Bob").unwrap();
    let (id, channel) = state.get_channel_by_name("@#FOO").unwrap();
    assert_eq!(id, foo);
    assert_eq!(channel.get_id(), foo);
    assert!(state.get_channel_by_name("#bar").is_none());
    assert!(state.update_channel(foo, "t"));
    assert!(!state.update_channel(irc_state::ChannelId(99), "t"));
    assert!(state.update_channel_by_name("#foo", "u"));
    assert!(!state.update_channel_by_name("#bar", "u"));
    assert_eq!(state.update_user(bob, "Robert"), Ok(true));
    assert_eq!(state.update_user(irc_state::UserId(99), "X"), Ok(false));
    assert_eq!(state.update_user_by_nick("robert", "Bob"), Ok(true));
    assert_eq!(state.update_user_by_nick("nobody", "Bob"), Ok(false));
    assert!(!state.unlink_user_channel(irc_state::UserId(99), foo));
    assert!(state.unlink_user_channel(bob, foo));
    assert!(state.identify_nick("Bob").is_none());
    assert_eq!(state.remove_user_by_id(bob), Ok(false));
    assert_eq!(state.remove_user_by_nick("Bob"), Ok(None));
    assert!(!state.remove_channel_by_id(foo));
    assert!(state.remove_channel_by_name("#foo").is_none());
}

#[test]
fn counters_start_where_they_are_told() {
    assert!(State::with_counters(0, 0).is_none());
    let mut state = State::with_counters(10, 20).unwrap();
    state.on_event(&welcome("Alice")).unwrap();
    state.on_event(&self_join("#foo", None)).unwrap();
    state.on_event(&join("Bob", "#foo")).unwrap();
    assert_eq!(state.identify_nick("Alice").unwrap().0, 0);
    assert_eq!(state.identify_nick("Bob").unwrap().0, 10);
    assert_eq!(state.identify_channel("#foo").unwrap().0, 20);
}

#[test]
fn exhausted_channel_counter_refuses_a_self_join() {
    let mut state = State::with_counters(1, u64::MAX).unwrap();
    state.on_event(&welcome("Alice")).unwrap();
    let before = state.clone_frozen();
    assert_eq!(state.on_event(&self_join("#foo", None)).err(), Some(SyncError::IdsExhausted));
    assert!(state.identify_channel("#foo").is_none());
    assert!(state == *before.state());
}

#[test]
fn last_channel_id_is_still_given() {
    let mut state = State::with_counters(1, u64::MAX - 1).unwrap();
    state.on_event(&self_join("#foo", None)).unwrap();
    assert_eq!(state.identify_channel("#foo").unwrap().0, u64::MAX - 1);
    assert_eq!(state.on_event(&self_join("#bar", None)).err(), Some(SyncError::IdsExhausted));
}

#[test]
fn exhausted_user_counter_refuses_a_new_user_only() {
    let mut state = State::with_counters(u64::MAX - 1, 0).unwrap();
    state.on_event(&welcome("Alice")).unwrap();
    state.on_event(&self_join("#foo", None)).unwrap();
    state.on_event(&self_join("#bar", None)).unwrap();
    state.on_event(&join("Bob", "#foo")).unwrap();
    assert_eq!(state.identify_nick("Bob").unwrap().0, u64::MAX - 1);
    let before = state.clone_frozen();
    assert_eq!(state.on_event(&join("Carol", "#foo")).err(), Some(SyncError::IdsExhausted));
    assert!(state == *before.state());
    // A user that is known needs no id.
    assert!(matches!(state.on_event(&join("Bob", "#bar")), Ok(Notice::Applied)));
}

#[test]
fn roster_longer_than_the_ids_left_is_refused() {
    let mut state = State::with_counters(u64::MAX - 1, 0).unwrap();
    state.on_event(&self_join("#foo", None)).unwrap();
    let before = state.clone_frozen();
    assert_eq!(
        state.on_event(&who("#foo", &["Bob", "Carol"])).err(),
        Some(SyncError::IdsExhausted)
    );
    assert!(state == *before.state());
    assert!(matches!(state.on_event(&who("#foo", &["Bob"])), Ok(Notice::Applied)));
    assert_eq!(state.identify_nick("Bob").unwrap().0, u64::MAX - 1);
}

#[test]
fn states_compare_as_values() {
    let a = alice_and_bob_in_foo();
    let b = alice_and_bob_in_foo();
    assert!(a == b);
    let mut c = alice_and_bob_in_foo();
    c.on_event(&rename("Bob", "Bobby")).unwrap();
    assert!(a != c);
    let mut d = alice_and_bob_in_foo();
    let topic = IrcEvent::IrcMsg(IncomingMsg::Topic(Topic {
        channel: "#foo".to_string(),
        body: "t".to_string(),
    }));
    d.on_event(&topic).unwrap();
    assert!(a != d);
    assert!(State::new() == State::new());
    assert!(State::new() != a);
}

#[test]
fn welcome_under_a_taken_nick_is_refused() {
    let mut state = State::new();
    state.on_event(&self_join("#foo", None)).unwrap();
    state.on_event(&join("Bob", "#foo")).unwrap();
    assert_eq!(state.on_event(&welcome("bob")).err(), Some(SyncError::NickInUse));
    assert_eq!(state.get_self_nick(), "");
    assert!(matches!(state.on_event(&welcome("Alice")), Ok(Notice::Applied)));
}

#[test]
fn names_are_found_whatever_their_case_and_prefix() {
    let state = alice_and_bob_in_foo();
    let foo = state.identify_channel("#foo");
    assert!(foo.is_some());
    assert_eq!(state.identify_channel("#FOO"), foo);
    assert_eq!(state.identify_channel("@#Foo"), foo);
    assert_eq!(state.identify_channel("+#foo"), foo);
    let bob = state.identify_nick("Bob");
    assert_eq!(state.identify_nick("BOB"), bob);
    assert_eq!(state.identify_nick("bob"), bob);
}

#[test]
fn nicks_with_braces_fold_to_brackets() {
    let mut state = alice_in_foo();
    state.on_event(&join("Nick{a}", "#foo")).unwrap();
    let id = state.identify_nick("nick[A]");
    assert!(id.is_some());
    assert_eq!(state.identify_nick("NICK{A}"), id);
}

#[test]
fn session_user_has_the_placeholder_prefix() {
    let state = alice_in_foo();
    let alice = state.identify_nick("Alice").unwrap();
    assert_eq!(state.resolve_user(alice).unwrap().get_prefix(), "Alice!someone@somewhere");
}
