use irc_state::irc_identifier::{channel_deprefix, fold, to_irc_lower};
use irc_state::IrcIdentifier;

#[test]
fn letters_fold_to_lower_case() {
    assert_eq!(IrcIdentifier::from_str("Alice").as_slice(), "alice");
    assert_eq!(IrcIdentifier::from_str("ALICE"), IrcIdentifier::from_str("alice"));
    assert_eq!(to_irc_lower("AZaz09"), "azaz09");
}

#[test]
fn braces_bar_and_caret_fold() {
    assert_eq!(fold('{'), '[');
    assert_eq!(fold('}'), ']');
    assert_eq!(fold('|'), '\\');
    assert_eq!(fold('^'), '~');
    assert_eq!(IrcIdentifier::from_str("Nick{a}|^").as_slice(), "nick[a]\\~");
}

#[test]
fn other_characters_stay() {
    assert_eq!(fold('['), '[');
    assert_eq!(fold('~'), '~');
    assert_eq!(fold('@'), '@');
    assert_eq!(fold('`'), '`');
    assert_eq!(fold('_'), '_');
    assert_eq!(fold('é'), 'é');
    assert_eq!(fold('É'), 'É');
    assert_eq!(to_irc_lower("Éa#B"), "Éa#b");
}

#[test]
fn channel_prefix_is_dropped() {
    assert_eq!(channel_deprefix("@#Rust"), "#Rust");
    assert_eq!(channel_deprefix("+@#Rust"), "#Rust");
    assert_eq!(channel_deprefix("#Rust"), "#Rust");
    assert_eq!(channel_deprefix("##Rust"), "##Rust");
    assert_eq!(channel_deprefix("Rust"), "Rust");
    assert_eq!(channel_deprefix(""), "");
    assert_eq!(channel_deprefix("é#x"), "#x");
    assert_eq!(IrcIdentifier::from_str("@#Rust").as_slice(), "#rust");
    assert_eq!(IrcIdentifier::from_str("a#b#C").as_slice(), "#b#c");
}

#[test]
fn normalization_is_idempotent() {
    for raw in ["Alice", "@#Rust", "Nick{a}|^", "", "a#b#C", "#", "É{"] {
        let once = IrcIdentifier::from_str(raw);
        let twice = IrcIdentifier::from_str(once.as_slice());
        assert_eq!(once, twice);
    }
}

#[test]
fn identifier_clone_is_equal() {
    let id = IrcIdentifier::from_str("Alice");
    assert_eq!(id.clone(), id);
    assert_ne!(id, IrcIdentifier::from_str("Bob"));
}
