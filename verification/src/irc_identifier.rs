//! Canonical identifiers: the comparison and lookup key of nicks and channel names.
//!
//! Two raw names that the protocol treats as the same name have the same
//! canonical form. A channel name may arrive with membership-status characters
//! in front of it (`@#rust`, `+#rust`); they are dropped before folding.

use vstd::prelude::*;

verus! {

/// Case folding of one character: ASCII upper-case letters go to lower case,
/// and `{`, `}`, `|`, `^` go to `[`, `]`, `\`, `~`. Every other character stays.
pub open spec fn fold_char(c: char) -> char {
    if 'A' <= c && c <= 'Z' {
        ((c as u32) + 32) as char
    } else if c == '{' {
        '['
    } else if c == '}' {
        ']'
    } else if c == '|' {
        '\\'
    } else if c == '^' {
        '~'
    } else {
        c
    }
}

/// The name without what stands before its first `#`; the name itself if it has no `#`.
pub open spec fn deprefix(s: Seq<char>) -> Seq<char> {
    match s.index_of_first('#') {
        Some(i) => s.skip(i),
        None => s,
    }
}

/// Case folding of a whole name, character by character.
pub open spec fn irc_lower(s: Seq<char>) -> Seq<char> {
    s.map_values(|c: char| fold_char(c))
}

/// The canonical form of a raw nick or channel name.
pub open spec fn normalize(s: Seq<char>) -> Seq<char> {
    irc_lower(deprefix(s))
}

/// Folding a folded character changes nothing.
pub proof fn lemma_fold_char_idempotent(c: char)
    ensures
        fold_char(fold_char(c)) == fold_char(c),
{
}

/// Folding neither makes nor removes a `#`.
pub proof fn lemma_fold_char_keeps_hash(c: char)
    ensures
        fold_char(c) == '#' <==> c == '#',
{
}

/// Normalization is idempotent: a canonical form is its own canonical form.
pub proof fn lemma_normalize_idempotent(s: Seq<char>)
    ensures
        normalize(normalize(s)) == normalize(s),
{
    let d = deprefix(s);
    let n = irc_lower(d);
    s.index_of_first_ensures('#');
    n.index_of_first_ensures('#');
    assert forall|i: int| 0 <= i < n.len() implies (n[i] == '#' <==> d[i] == '#') by {
        lemma_fold_char_keeps_hash(d[i]);
    }
    assert(deprefix(n) =~= n) by {
        match s.index_of_first('#') {
            Some(i) => {
                assert(d[0] == '#');
                assert(n[0] == '#');
                assert(n.contains('#'));
                assert(n.index_of_first('#') == Some(0int));
            },
            None => {
                if n.contains('#') {
                    let j = choose|j: int| 0 <= j < n.len() && n[j] == '#';
                    assert(s[j] == '#');
                    assert(s.contains('#'));
                }
            },
        }
    }
    assert(irc_lower(n) =~= n) by {
        assert forall|i: int| 0 <= i < n.len() implies irc_lower(n)[i] == n[i] by {
            lemma_fold_char_idempotent(d[i]);
        }
    }
}

/// `String::push` appends one character at the end of the string.
pub assume_specification[ String::push ](s: &mut String, c: char)
    ensures
        final(s)@ == old(s)@.push(c),
;

/// Executable case folding of one character.
pub fn fold(c: char) -> (r: char)
    ensures
        r == fold_char(c),
{
    if 'A' <= c && c <= 'Z' {
        let n: u32 = c as u32;
        let m: u8 = (n + 32) as u8;
        m as char
    } else if c == '{' {
        '['
    } else if c == '}' {
        ']'
    } else if c == '|' {
        '\\'
    } else if c == '^' {
        '~'
    } else {
        c
    }
}

/// Case folding of a whole name.
pub fn to_irc_lower(s: &str) -> (r: String)
    ensures
        r@ == irc_lower(s@),
{
    let mut out = String::new();
    for c in it: s.chars()
        invariant
            it.seq() == s@,
            out@ == irc_lower(s@.take(it.index() as int)),
    {
        proof {
            assert(s@.take(it.index() + 1) =~= s@.take(it.index() as int).push(c));
            assert(irc_lower(s@.take(it.index() + 1)) =~= irc_lower(
                s@.take(it.index() as int),
            ).push(fold_char(c)));
        }
        out.push(fold(c));
    }
    proof {
        assert(s@.take(s@.len() as int) =~= s@);
    }
    out
}

/// The position of the first `#` in `target`, counted in characters.
fn find_hash(target: &str) -> (r: Option<usize>)
    ensures
        match r {
            Some(i) => target@.index_of_first('#') == Some(i as int),
            None => target@.index_of_first('#') is None,
        },
{
    let n = target.unicode_len();
    let mut found: Option<usize> = None;
    let mut pos: usize = 0;
    for c in it: target.chars()
        invariant
            it.seq() == target@,
            n == target@.len(),
            pos == it.index(),
            match found {
                Some(i) => i < pos && target@[i as int] == '#' && forall|j: int|
                    0 <= j < i ==> target@[j] != '#',
                None => forall|j: int| 0 <= j < pos ==> target@[j] != '#',
            },
    {
        if found.is_none() && c == '#' {
            found = Some(pos);
        }
        pos = pos + 1;
    }
    proof {
        target@.index_of_first_ensures('#');
        match found {
            Some(i) => {
                assert(target@.contains('#'));
            },
            None => {},
        }
    }
    found
}

/// Drops the membership-status characters in front of a channel name: the
/// result starts at the first `#`. A name without `#` comes back unchanged.
pub fn channel_deprefix(target: &str) -> (r: &str)
    ensures
        r@ == deprefix(target@),
{
    match find_hash(target) {
        Some(idx) => {
            let n = target.unicode_len();
            proof {
                target@.index_of_first_ensures('#');
                assert(target@.skip(idx as int) =~= target@.subrange(idx as int, n as int));
            }
            target.substring_char(idx, n)
        },
        None => target,
    }
}

/// A canonical identifier. It is a lookup key only, and never shown.
#[derive(Debug, Hash, PartialOrd, Ord)]
pub struct IrcIdentifier(String);

impl View for IrcIdentifier {
    type V = Seq<char>;

    closed spec fn view(&self) -> Seq<char> {
        self.0@
    }
}

impl IrcIdentifier {
    /// Whether this value is the canonical form of some name. Every value
    /// that `from_str` returns is.
    pub open spec fn is_canonical(&self) -> bool {
        normalize(self@) == self@
    }

    /// The canonical identifier of a raw nick or channel name.
    pub fn from_str(val: &str) -> (id: IrcIdentifier)
        ensures
            id@ == normalize(val@),
            id.is_canonical(),
    {
        proof {
            lemma_normalize_idempotent(val@);
        }
        let val = channel_deprefix(val);
        IrcIdentifier(to_irc_lower(val))
    }

    /// The identifier's text.
    pub fn as_slice(&self) -> (s: &str)
        ensures
            s@ == self@,
    {
        self.0.as_str()
    }
}

impl Clone for IrcIdentifier {
    fn clone(&self) -> (r: Self)
        ensures
            r@ == self@,
    {
        IrcIdentifier(self.0.clone())
    }
}

impl PartialEq for IrcIdentifier {
    fn eq(&self, other: &Self) -> (r: bool) {
        self.0 == other.0
    }
}

impl Eq for IrcIdentifier {

}

impl vstd::std_specs::cmp::PartialEqSpecImpl for IrcIdentifier {
    open spec fn obeys_eq_spec() -> bool {
        true
    }

    open spec fn eq_spec(&self, other: &Self) -> bool {
        self@ == other@
    }
}

} // verus!
