use vstd::prelude::*;
use vstd::std_specs::iter::IteratorSpec;

verus! {

/// Unicode's White_Space property, which `char::is_whitespace` reads:
/// tab to carriage return, space, next line, no-break space, ogham space
/// mark, the spaces from en quad to hair space, line and paragraph
/// separators, narrow no-break space, medium mathematical space and
/// ideographic space.
pub open spec fn is_space(c: char) -> bool {
    let u = c as u32;
    (0x09 <= u <= 0x0d) || u == 0x20 || u == 0x85 || u == 0xa0 || u == 0x1680 || (0x2000 <= u <= 0x200a)
        || u == 0x2028 || u == 0x2029 || u == 0x202f || u == 0x205f || u == 0x3000
}

pub open spec fn ascii_letter(c: char) -> bool {
    (65 <= c as u32 <= 90) || (97 <= c as u32 <= 122)
}

pub open spec fn ascii_digit(c: char) -> bool {
    48 <= c as u32 <= 57
}

/// Unicode's Alphabetic property beyond ASCII, as `char::is_alphabetic`
/// reads it.
pub uninterp spec fn alpha_beyond_ascii(c: char) -> bool;

/// Alphabetic or numeric in Unicode beyond ASCII, as
/// `char::is_alphanumeric` reads it.
pub uninterp spec fn alnum_beyond_ascii(c: char) -> bool;

/// Unicode's Alphabetic property: in ASCII the letters and nothing else.
pub open spec fn is_alpha(c: char) -> bool {
    if (c as u32) < 128 {
        ascii_letter(c)
    } else {
        alpha_beyond_ascii(c)
    }
}

/// Alphabetic or numeric in Unicode: in ASCII the letters and the digits.
pub open spec fn is_alnum(c: char) -> bool {
    if (c as u32) < 128 {
        ascii_letter(c) || ascii_digit(c)
    } else {
        alnum_beyond_ascii(c)
    }
}

/// Whether `c` is white space, as `is_space` states it.
pub fn space_char(c: char) -> (r: bool)
    ensures
        r == is_space(c),
{
    let u = c as u32;
    (0x09 <= u && u <= 0x0d) || u == 0x20 || u == 0x85 || u == 0xa0 || u == 0x1680 || (0x2000 <= u && u
        <= 0x200a) || u == 0x2028 || u == 0x2029 || u == 0x202f || u == 0x205f || u == 0x3000
}

/// Relies on `char::is_alphabetic`: the Alphabetic property, which in ASCII
/// holds of the letters and of nothing else.
#[verifier::external_body]
pub(crate) fn alpha_char(c: char) -> (r: bool)
    ensures
        r == is_alpha(c),
        (c as u32) >= 128 ==> r == alpha_beyond_ascii(c),
{
    c.is_alphabetic()
}

/// Relies on `char::is_alphanumeric`: Alphabetic or Numeric, which in
/// ASCII holds of the letters and the digits and of nothing else.
#[verifier::external_body]
pub(crate) fn alnum_char(c: char) -> (r: bool)
    ensures
        r == is_alnum(c),
        (c as u32) >= 128 ==> r == alnum_beyond_ascii(c),
{
    c.is_alphanumeric()
}

/// The characters of `s`, in order.
pub fn chars_of(s: &str) -> (r: Vec<char>)
    ensures
        r@ == s@,
{
    broadcast use vstd::string::next_postcondition;

    let mut v: Vec<char> = Vec::new();
    let mut it = s.chars();
    proof {
        vstd::string::axiom_spec_iter(s);
    }
    loop
        invariant
            it.obeys_prophetic_iter_laws(),
            it.decrease() is Some,
            v@.len() <= s@.len(),
            it.remaining() == s@.skip(v@.len() as int),
            v@ == s@.take(v@.len() as int),
        ensures
            v@ == s@,
        decreases it.decrease()->0,
    {
        match it.next() {
            Some(c) => {
                assert(s@.skip(v@.len() as int).drop_first() =~= s@.skip(v@.len() + 1 as int));
                v.push(c);
                assert(v@ =~= s@.take(v@.len() as int));
            },
            None => {
                assert(v@ =~= s@);
                break ;
            },
        }
    }
    v
}

/// Relies on `Vec::len`: a vector never holds more than `isize::MAX`
/// bytes, so its length stays below `usize::MAX`.
#[verifier::external_body]
pub(crate) fn char_count(v: &Vec<char>) -> (r: usize)
    ensures
        r == v@.len(),
        r < usize::MAX,
{
    v.len()
}

/// Relies on collecting characters into a `String`: the same characters.
#[verifier::external_body]
pub(crate) fn string_of(v: &Vec<char>) -> (r: String)
    ensures
        r@ == v@,
{
    v.iter().collect()
}

/// The characters `lo..hi` of `s` as a string.
pub fn slice_string(s: &Vec<char>, lo: usize, hi: usize) -> (r: String)
    requires
        lo <= hi <= s.len(),
    ensures
        r@ == s@.subrange(lo as int, hi as int),
{
    let mut v: Vec<char> = Vec::new();
    let mut i: usize = lo;
    while i < hi
        invariant
            lo <= i <= hi <= s.len(),
            v@ == s@.subrange(lo as int, i as int),
        decreases hi - i,
    {
        v.push(s[i]);
        i = i + 1;
        assert(v@ =~= s@.subrange(lo as int, i as int));
    }
    string_of(&v)
}

/// Whether the characters `lo..hi` of `s` spell `w`.
pub fn spells(s: &Vec<char>, lo: usize, hi: usize, w: &str) -> (r: bool)
    requires
        lo <= hi <= s.len(),
    ensures
        r == (s@.subrange(lo as int, hi as int) == w@),
{
    let n = w.unicode_len();
    if hi - lo != n {
        return false;
    }
    let mut i: usize = 0;
    while i < n
        invariant
            i <= n,
            n == w@.len(),
            hi - lo == n,
            lo <= hi <= s.len(),
            forall|k: int| 0 <= k < i ==> s@[lo + k] == w@[k],
        decreases n - i,
    {
        if s[lo + i] != w.get_char(i) {
            assert(s@.subrange(lo as int, hi as int)[i as int] != w@[i as int]);
            return false;
        }
        i = i + 1;
    }
    assert(s@.subrange(lo as int, hi as int) =~= w@);
    true
}

} // verus!
