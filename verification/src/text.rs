//! Text predicates the repository validates against: the email shape a
//! contact address must have, and substring containment for searches.

use vstd::prelude::*;
use vstd::string::*;

verus! {

/// The Unicode white-space code points (the set the `White_Space` property
/// names).
pub open spec fn is_space_char(c: char) -> bool {
    let u = c as u32;
    ||| u == 0x20
    ||| (0x09 <= u && u <= 0x0d)
    ||| u == 0x85
    ||| u == 0xa0
    ||| u == 0x1680
    ||| (0x2000 <= u && u <= 0x200a)
    ||| u == 0x2028
    ||| u == 0x2029
    ||| u == 0x202f
    ||| u == 0x205f
    ||| u == 0x3000
}

/// A character an email address may carry: anything but white space and `@`.
pub open spec fn is_atom_char(c: char) -> bool {
    !is_space_char(c) && c != '@'
}

/// The accepted email shape: at least one character, then the one `@` of the
/// string, then at least one character, a `.`, and at least one more
/// character, with neither white space nor a second `@` anywhere.
pub open spec fn is_valid_email(s: Seq<char>) -> bool {
    exists|i: int, j: int|
        {
            &&& 0 < i
            &&& i + 2 <= j
            &&& j + 2 <= s.len()
            &&& #[trigger] s[i] == '@'
            &&& #[trigger] s[j] == '.'
            &&& forall|k: int| 0 <= k < s.len() && k != i ==> is_atom_char(#[trigger] s[k])
        }
}

/// Relies on `regex::Regex::is_match` with the anchored pattern
/// `^[^\s@]+@[^\s@]+\.[^\s@]+$` (the pattern classes exclude exactly Unicode
/// white space and `@`, so a match is one or more such characters, the one
/// `@`, one or more such characters, a `.`, and one or more such characters).
#[verifier::external_body]
pub(crate) fn email_format_ok(s: &str) -> (r: bool)
    ensures
        r == is_valid_email(s@),
{
    let pattern = regex::Regex::new(r"^[^\s@]+@[^\s@]+\.[^\s@]+$").unwrap();
    pattern.is_match(s)
}

/// `needle` stands inside `hay` starting at position `i`.
pub open spec fn matches_at(hay: Seq<char>, needle: Seq<char>, i: int) -> bool {
    0 <= i && i + needle.len() <= hay.len() && hay.subrange(i, i + needle.len()) == needle
}

/// `needle` stands somewhere inside `hay`.
pub open spec fn has_substring(hay: Seq<char>, needle: Seq<char>) -> bool {
    exists|i: int| matches_at(hay, needle, i)
}

fn match_at(hay: &str, needle: &str, i: usize, nlen: usize, hlen: usize) -> (r: bool)
    requires
        nlen == needle@.len(),
        hlen == hay@.len(),
        i + nlen <= hay@.len(),
    ensures
        r == matches_at(hay@, needle@, i as int),
{
    let mut j: usize = 0;
    while j < nlen
        invariant
            nlen == needle@.len(),
            hlen == hay@.len(),
            i + nlen <= hay@.len(),
            0 <= j <= nlen,
            forall|l: int| 0 <= l < j ==> hay@[i + l] == needle@[l],
        decreases nlen - j,
    {
        if hay.get_char(i + j) != needle.get_char(j) {
            proof {
                if hay@.subrange(i as int, i + nlen) == needle@ {
                    assert(hay@.subrange(i as int, i + nlen)[j as int] == needle@[j as int]);
                }
            }
            return false;
        }
        j += 1;
    }
    proof {
        assert(hay@.subrange(i as int, i + nlen) =~= needle@);
    }
    true
}

/// Substring search, the predicate behind text filters.
pub fn contains_text(hay: &str, needle: &str) -> (r: bool)
    ensures
        r == has_substring(hay@, needle@),
{
    let hlen = hay.unicode_len();
    let nlen = needle.unicode_len();
    if nlen > hlen {
        proof {
            assert(forall|i: int| !matches_at(hay@, needle@, i));
        }
        return false;
    }
    if nlen == 0 {
        proof {
            assert(hay@.subrange(0, 0) =~= needle@);
            assert(matches_at(hay@, needle@, 0));
        }
        return true;
    }
    let mut i: usize = 0;
    let last = hlen - nlen;
    while i <= last
        invariant
            hlen == hay@.len(),
            nlen == needle@.len(),
            nlen <= hlen,
            last == hlen - nlen,
            1 <= nlen,
            0 <= i <= last + 1,
            forall|l: int| 0 <= l < i ==> !matches_at(hay@, needle@, l),
        decreases last - i + 1,
    {
        if match_at(hay, needle, i, nlen, hlen) {
            return true;
        }
        i += 1;
    }
    proof {
        assert forall|l: int| !matches_at(hay@, needle@, l) by {
            if 0 <= l < i {
            } else {
                assert(!matches_at(hay@, needle@, l));
            }
        }
    }
    false
}

} // verus!
