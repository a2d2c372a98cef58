//! Normalisation of type names: a space directly before a closing angle
//! bracket is removed, so that `vector<int >` and `vector<int>` agree.
use vstd::prelude::*;

verus! {

/// Whether the character at `i` survives normalisation: it does unless it is
/// a space immediately followed by `>`.
pub open spec fn kept(s: Seq<char>, i: int) -> bool {
    !(s[i] == ' ' && i + 1 < s.len() && s[i + 1] == '>')
}

/// Normalisation of the first `i` characters of `s` (the decision for a
/// character may look at the one after it, even beyond `i`).
pub open spec fn normalized_prefix(s: Seq<char>, i: int) -> Seq<char>
    decreases i,
{
    if i <= 0 {
        Seq::empty()
    } else if kept(s, i - 1) {
        normalized_prefix(s, i - 1).push(s[i - 1])
    } else {
        normalized_prefix(s, i - 1)
    }
}

/// `s` with every occurrence of " >" collapsed to ">".
pub open spec fn normalized(s: Seq<char>) -> Seq<char> {
    normalized_prefix(s, s.len() as int)
}

/// Whether `s` holds the two characters " >" side by side somewhere.
pub open spec fn has_space_gt(s: Seq<char>) -> bool {
    exists|i: int| 0 <= i && i + 1 < s.len() && #[trigger] s[i] == ' ' && s[i + 1] == '>'
}

proof fn lemma_prefix_unchanged(s: Seq<char>, i: int)
    requires
        0 <= i <= s.len(),
        !has_space_gt(s),
    ensures
        normalized_prefix(s, i) == s.subrange(0, i),
    decreases i,
{
    if i > 0 {
        lemma_prefix_unchanged(s, i - 1);
        assert(kept(s, i - 1));
        assert(s.subrange(0, i) == s.subrange(0, i - 1).push(s[i - 1]));
    }
}

/// A name that holds no " >" is left as it is by normalisation, so
/// normalising a normalised name of that kind changes nothing.
pub proof fn lemma_normalize_fixed_point(s: Seq<char>)
    requires
        !has_space_gt(s),
    ensures
        normalized(s) == s,
{
    lemma_prefix_unchanged(s, s.len() as int);
    assert(s.subrange(0, s.len() as int) == s);
}

/// Relies on `String`'s `FromIterator<char>`: the string holds the characters
/// in order.
#[verifier::external_body]
fn string_from_chars(chars: &Vec<char>) -> (r: String)
    ensures
        r@ == chars@,
{
    String::from_iter(chars.iter())
}

/// Collapses every " >" in `name` to ">".
pub fn normalize_name(name: &str) -> (r: String)
    ensures
        r@ == normalized(name@),
{
    let n = name.unicode_len();
    let mut out: Vec<char> = Vec::new();
    let mut i: usize = 0;
    while i < n
        invariant
            n == name@.len(),
            i <= n,
            out@ == normalized_prefix(name@, i as int),
        decreases n - i,
    {
        let c = name.get_char(i);
        let keep = if c == ' ' && i + 1 < n {
            name.get_char(i + 1) != '>'
        } else {
            true
        };
        if keep {
            out.push(c);
        }
        i = i + 1;
    }
    string_from_chars(&out)
}

} // verus!
