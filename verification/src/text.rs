//! Character-level vocabulary: ASCII case folding, the flag marker, and
//! small helpers over vectors of strings.

use vstd::prelude::*;
use vstd::string::StrSliceExecFns;

verus! {

/// The ASCII lower-case image of one character: the letters 'A' through 'Z'
/// shift down to 'a' through 'z'; every other character stays itself.
pub open spec fn lower_char(c: char) -> char {
    if 65 <= c as u32 && c as u32 <= 90 {
        ((c as u32 + 32) as u32) as char
    } else {
        c
    }
}

/// The ASCII lower-case image of a character sequence, folded pointwise.
pub open spec fn lower(s: Seq<char>) -> Seq<char> {
    s.map_values(|c: char| lower_char(c))
}

/// True when a token begins with the flag marker '-'.
pub open spec fn starts_marker(t: Seq<char>) -> bool {
    t.len() >= 1 && t[0] == '-'
}

/// A token names a flag when it begins with the marker and is more than the
/// bare marker itself.
pub open spec fn is_flag_token(t: Seq<char>) -> bool {
    t.len() >= 2 && t[0] == '-'
}

/// The case-folded flag name a marked token carries: everything after the
/// marker, lowered.
pub open spec fn flag_name(t: Seq<char>) -> Seq<char>
    recommends
        is_flag_token(t),
{
    lower(t.subrange(1, t.len() as int))
}

/// The views of a sequence of owned strings.
pub open spec fn string_views(s: Seq<String>) -> Seq<Seq<char>> {
    s.map_values(|x: String| x@)
}

/// The views of a sequence of borrowed strings.
pub open spec fn str_views(s: Seq<&str>) -> Seq<Seq<char>> {
    s.map_values(|x: &str| x@)
}

/// The componentwise views of a sequence of string pairs.
pub open spec fn pair_views(s: Seq<(String, String)>) -> Seq<(Seq<char>, Seq<char>)> {
    s.map_values(|p: (String, String)| (p.0@, p.1@))
}

pub proof fn lemma_string_views_push(s: Seq<String>, x: String)
    ensures
        string_views(s.push(x)) == string_views(s).push(x@),
{
    assert(string_views(s.push(x)) =~= string_views(s).push(x@));
}

pub proof fn lemma_pair_views_push(s: Seq<(String, String)>, x: (String, String))
    ensures
        pair_views(s.push(x)) == pair_views(s).push((x.0@, x.1@)),
{
    assert(pair_views(s.push(x)) =~= pair_views(s).push((x.0@, x.1@)));
}

/// Relies on str::to_ascii_lowercase: it returns a copy of the string with
/// ASCII letters 'A' to 'Z' mapped to 'a' to 'z' and every other character
/// unchanged.
#[verifier::external_body]
pub(crate) fn lower_ascii(s: &str) -> (r: String)
    ensures
        r@ == lower(s@),
{
    s.to_ascii_lowercase()
}

/// True when the string begins with the flag marker.
pub(crate) fn begins_with_marker(s: &str) -> (r: bool)
    ensures
        r == starts_marker(s@),
{
    let n = s.unicode_len();
    if n == 0 {
        false
    } else {
        s.get_char(0) == '-'
    }
}

/// Linear scan for a string among the views of a vector's elements.
pub(crate) fn has_string(v: &Vec<String>, x: &String) -> (r: bool)
    ensures
        r == string_views(v@).contains(x@),
{
    let mut j: usize = 0;
    while j < v.len()
        invariant
            j <= v.len(),
            forall|k: int| 0 <= k < j ==> v@[k]@ != x@,
        decreases v.len() - j,
    {
        if v[j] == *x {
            proof {
                assert(string_views(v@)[j as int] == x@);
            }
            return true;
        }
        j += 1;
    }
    proof {
        assert(forall|k: int| 0 <= k < v@.len() ==> string_views(v@)[k] != x@);
    }
    false
}

} // verus!
