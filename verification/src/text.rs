//! Character classes and the string primitives that the front end leans on.

use vstd::prelude::*;

verus! {

/// Whether `c` has the Unicode property `White_Space`: the tab, the four
/// line controls after it, the space, the next-line control, the no-break
/// space, and the spaces and separators of the higher planes.
pub open spec fn is_white_space(c: char) -> bool {
    let n = c as u32;
    ||| 0x09 <= n <= 0x0D
    ||| n == 0x20
    ||| n == 0x85
    ||| n == 0xA0
    ||| n == 0x1680
    ||| 0x2000 <= n <= 0x200A
    ||| n == 0x2028
    ||| n == 0x2029
    ||| n == 0x202F
    ||| n == 0x205F
    ||| n == 0x3000
}

/// Whether `c` is alphabetic or numeric in Unicode's sense: the answer of
/// `char::is_alphanumeric`.
pub uninterp spec fn is_alpha_numeric(c: char) -> bool;

/// `char::is_whitespace` tells whether the character has the property
/// `White_Space`.
pub assume_specification[ char::is_whitespace ](c: char) -> (b: bool)
    ensures
        b == is_white_space(c),
;

/// `char::is_alphanumeric` depends on the character alone; its answer is
/// [`is_alpha_numeric`].
pub assume_specification[ char::is_alphanumeric ](c: char) -> (b: bool)
    ensures
        b == is_alpha_numeric(c),
;

/// `s` without its leading run of whitespace characters.
pub open spec fn trim_leading_whitespace(s: Seq<char>) -> Seq<char>
    decreases s.len(),
{
    if s.len() > 0 && is_white_space(s[0]) {
        trim_leading_whitespace(s.drop_first())
    } else {
        s
    }
}

/// The number of bytes that `s` takes in UTF-8.
pub open spec fn byte_len(s: Seq<char>) -> nat {
    vstd::utf8::encode_utf8(s).len()
}

/// `str::trim_start`: the slice that is left when the leading characters with
/// the property `White_Space` are removed.
#[verifier::external_body]
pub(crate) fn trim_start(s: &str) -> (t: &str)
    ensures
        t@ == trim_leading_whitespace(s@),
{
    s.trim_start()
}

/// `str::starts_with` on a string pattern: whether `prefix` matches a prefix of
/// `s`.
#[verifier::external_body]
pub(crate) fn starts_with(s: &str, prefix: &str) -> (b: bool)
    ensures
        b == prefix@.is_prefix_of(s@),
{
    s.starts_with(prefix)
}

/// What is left of a trimmed string is a suffix of it, begins with no
/// whitespace, and all that was removed is whitespace.
pub proof fn trim_leading_whitespace_is_suffix(s: Seq<char>)
    ensures
        trim_leading_whitespace(s).len() <= s.len(),
        trim_leading_whitespace(s) == s.skip(s.len() - trim_leading_whitespace(s).len()),
        forall|i: int|
            0 <= i < s.len() - trim_leading_whitespace(s).len() ==> is_white_space(#[trigger] s[i]),
        trim_leading_whitespace(s).len() > 0 ==> !is_white_space(trim_leading_whitespace(s)[0]),
    decreases s.len(),
{
    if s.len() > 0 && is_white_space(s[0]) {
        let rest = s.drop_first();
        trim_leading_whitespace_is_suffix(rest);
        let t = trim_leading_whitespace(rest);
        assert(rest.skip(rest.len() - t.len()) =~= s.skip(s.len() - t.len()));
        assert forall|i: int| 0 <= i < s.len() - t.len() implies is_white_space(#[trigger] s[i]) by {
            if i > 0 {
                assert(s[i] == rest[i - 1]);
            }
        }
    } else {
        assert(s.skip(0) =~= s);
    }
}

} // verus!
