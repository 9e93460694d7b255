//! Classification of a free-text security-capability line into a closed tag.
use crate::text::{contains, find, find_anchor, occurs_at, to_chars};
use vstd::prelude::*;

verus! {

/// The security of a network, as far as its capability line tells.
#[derive(Debug, Clone, Copy, PartialEq, Eq, Structural)]
pub enum SecurityType {
    Wpa2,
    Wpa3,
    Wpa,
    Invalid,
}

/// The tag of a capability line: the most specific of the tags that it names,
/// checking WPA2 before WPA3 before WPA.
pub open spec fn security_of(line: Seq<char>) -> SecurityType {
    if contains(line, "WPA2"@) {
        SecurityType::Wpa2
    } else if contains(line, "WPA3"@) {
        SecurityType::Wpa3
    } else if contains(line, "WPA"@) {
        SecurityType::Wpa
    } else {
        SecurityType::Invalid
    }
}

/// An anchor search over a window finds something exactly when the window holds the anchor.
pub proof fn lemma_find_contains(s: Seq<char>, from: int, to: int, pat: Seq<char>)
    requires
        0 <= from <= to <= s.len(),
        pat.len() > 0,
    ensures
        (find(s, from, to, pat) is Some) == contains(s.subrange(from, to), pat),
{
    let w = s.subrange(from, to);
    crate::text::lemma_find_bounds(s, from, to, pat);
    crate::text::lemma_find_first(s, from, to, pat);
    if let Some(i) = find(s, from, to, pat) {
        assert(w.subrange(i - from, i - from + pat.len()) =~= s.subrange(i, i + pat.len()));
        assert(occurs_at(w, i - from, pat));
    } else {
        if contains(w, pat) {
            let j = choose|j: int| occurs_at(w, j, pat);
            assert(w.subrange(j, j + pat.len()) =~= s.subrange(j + from, j + from + pat.len()));
            assert(occurs_at(s, j + from, pat));
        }
    }
}

/// The tag of the capability line `s[from..to]`.
pub fn classify(s: &Vec<char>, from: usize, to: usize) -> (r: SecurityType)
    requires
        from <= to <= s@.len(),
    ensures
        r == security_of(s@.subrange(from as int, to as int)),
{
    proof {
        reveal_strlit("WPA2");
        reveal_strlit("WPA3");
        reveal_strlit("WPA");
        lemma_find_contains(s@, from as int, to as int, "WPA2"@);
        lemma_find_contains(s@, from as int, to as int, "WPA3"@);
        lemma_find_contains(s@, from as int, to as int, "WPA"@);
    }
    if find_anchor(s, from, to, "WPA2").is_some() {
        SecurityType::Wpa2
    } else if find_anchor(s, from, to, "WPA3").is_some() {
        SecurityType::Wpa3
    } else if find_anchor(s, from, to, "WPA").is_some() {
        SecurityType::Wpa
    } else {
        SecurityType::Invalid
    }
}

impl<'a> From<&'a str> for SecurityType {
    fn from(value: &'a str) -> Self {
        let chars = to_chars(value);
        let r = classify(&chars, 0, chars.len());
        assert(chars@.subrange(0, chars@.len() as int) =~= value@);
        r
    }
}

impl<'a> vstd::std_specs::convert::FromSpecImpl<&'a str> for SecurityType {
    open spec fn obeys_from_spec() -> bool {
        true
    }

    open spec fn from_spec(v: &'a str) -> Self {
        security_of(v@)
    }
}

/// Classification looks for the more specific tags first: a line that names
/// WPA2 is WPA2; one that names WPA3 but not WPA2 is WPA3, though "WPA" stands
/// in it too; one that names none of the three is invalid.
pub proof fn security_type_priority(line: Seq<char>)
    ensures
        contains(line, "WPA2"@) ==> security_of(line) == SecurityType::Wpa2,
        !contains(line, "WPA2"@) && contains(line, "WPA3"@) ==> security_of(line)
            == SecurityType::Wpa3,
        !contains(line, "WPA"@) ==> security_of(line) == SecurityType::Invalid,
{
    reveal_strlit("WPA2");
    reveal_strlit("WPA3");
    reveal_strlit("WPA");
    if !contains(line, "WPA"@) {
        if contains(line, "WPA2"@) {
            let i = choose|i: int| occurs_at(line, i, "WPA2"@);
            assert("WPA2"@.subrange(0, 3) =~= "WPA"@);
            assert(line.subrange(i, i + 3) =~= line.subrange(i, i + 4).subrange(0, 3));
            assert(occurs_at(line, i, "WPA"@));
        }
        if contains(line, "WPA3"@) {
            let i = choose|i: int| occurs_at(line, i, "WPA3"@);
            assert("WPA3"@.subrange(0, 3) =~= "WPA"@);
            assert(line.subrange(i, i + 3) =~= line.subrange(i, i + 4).subrange(0, 3));
            assert(occurs_at(line, i, "WPA"@));
        }
    }
}

} // verus!
