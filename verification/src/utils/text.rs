use vstd::prelude::*;
use vstd::string::*;

verus! {

/// `c` is an ASCII decimal digit.
pub open spec fn is_ascii_digit_char(c: char) -> bool {
    '0' <= c <= '9'
}

/// `c` is an ASCII letter or an ASCII decimal digit.
pub open spec fn is_ascii_alphanumeric_char(c: char) -> bool {
    ||| 'a' <= c <= 'z'
    ||| 'A' <= c <= 'Z'
    ||| '0' <= c <= '9'
}

/// `c` lies in the ASCII range.
pub open spec fn is_ascii_char(c: char) -> bool {
    c <= '\u{7f}'
}

/// Every character of `s` lies in the ASCII range.
pub open spec fn all_ascii(s: Seq<char>) -> bool {
    forall|i: int| 0 <= i < s.len() ==> is_ascii_char(#[trigger] s[i])
}

/// The ASCII lower-case form of `c`: `A`..`Z` become `a`..`z`, anything else stays.
pub open spec fn ascii_lower(c: char) -> char {
    if 'A' <= c <= 'Z' {
        ((c as u32) + 32) as char
    } else {
        c
    }
}

/// What `char::is_uppercase` answers for `c` (the Unicode `Uppercase` property).
pub uninterp spec fn is_uppercase_char(c: char) -> bool;

/// What `char::is_lowercase` answers for `c` (the Unicode `Lowercase` property).
pub uninterp spec fn is_lowercase_char(c: char) -> bool;

/// What `str::to_lowercase` returns for a string with the characters `s`.
pub uninterp spec fn lowercase(s: Seq<char>) -> Seq<char>;

/// Calls `char::is_uppercase`. Its answer is named by `is_uppercase_char`; on ASCII
/// characters the Unicode `Uppercase` property holds exactly of `A`..`Z`. Beyond ASCII
/// nothing is said of the answer.
#[verifier::external_body]
pub(crate) fn char_is_uppercase(c: char) -> (r: bool)
    ensures
        r == is_uppercase_char(c),
        is_ascii_char(c) ==> (r <==> 'A' <= c <= 'Z'),
{
    c.is_uppercase()
}

/// Calls `char::is_lowercase`. Its answer is named by `is_lowercase_char`; on ASCII
/// characters the Unicode `Lowercase` property holds exactly of `a`..`z`. Beyond ASCII
/// nothing is said of the answer.
#[verifier::external_body]
pub(crate) fn char_is_lowercase(c: char) -> (r: bool)
    ensures
        r == is_lowercase_char(c),
        is_ascii_char(c) ==> (r <==> 'a' <= c <= 'z'),
{
    c.is_lowercase()
}

/// Calls `str::to_lowercase`. Its result is named by `lowercase`; on an ASCII string the
/// Unicode lower-casing maps `A`..`Z` to `a`..`z` and keeps every other character, one
/// for one. For other strings (where a character may become several) nothing more is said.
#[verifier::external_body]
pub(crate) fn to_lowercase(s: &str) -> (r: String)
    ensures
        r@ == lowercase(s@),
        all_ascii(s@) ==> r@ == s@.map_values(|c: char| ascii_lower(c)),
{
    s.to_lowercase()
}

/// Decides `is_ascii_digit_char`, as `char::is_ascii_digit` does.
pub fn is_ascii_digit(c: char) -> (r: bool)
    ensures
        r == is_ascii_digit_char(c),
{
    '0' <= c && c <= '9'
}

/// Decides `is_ascii_alphanumeric_char`, as `char::is_ascii_alphanumeric` does.
pub fn is_ascii_alphanumeric(c: char) -> (r: bool)
    ensures
        r == is_ascii_alphanumeric_char(c),
{
    ('a' <= c && c <= 'z') || ('A' <= c && c <= 'Z') || ('0' <= c && c <= '9')
}

/// Copies the characters of `s` into a vector, in order.
pub fn chars_of(s: &str) -> (v: Vec<char>)
    ensures
        v@ == s@,
{
    let mut v: Vec<char> = Vec::new();
    for c in it: s.chars()
        invariant
            v@ == it.seq().take(it.index() as int),
            it.seq() == s@,
    {
        v.push(c);
    }
    v
}

/// `needle` occurs in `hay` as a contiguous block starting at `start`.
pub open spec fn occurs_at(needle: Seq<char>, hay: Seq<char>, start: int) -> bool {
    &&& 0 <= start
    &&& start + needle.len() <= hay.len()
    &&& hay.subrange(start, start + needle.len()) == needle
}

/// `needle` occurs somewhere in `hay` as a contiguous block.
pub open spec fn is_substring(needle: Seq<char>, hay: Seq<char>) -> bool {
    exists|start: int| #[trigger] occurs_at(needle, hay, start)
}

/// Whether `needle` occurs in `hay` as a contiguous block, as `str::contains` answers
/// for a string pattern.
pub fn contains_chars(hay: &Vec<char>, needle: &Vec<char>) -> (r: bool)
    ensures
        r == is_substring(needle@, hay@),
{
    if needle.len() > hay.len() {
        assert forall|start: int| !occurs_at(needle@, hay@, start) by {}
        return false;
    }
    let last: usize = hay.len() - needle.len();
    let mut start: usize = 0;
    while start <= last
        invariant
            last == hay.len() - needle.len(),
            needle.len() <= hay.len(),
            forall|s: int| 0 <= s < start ==> !#[trigger] occurs_at(needle@, hay@, s),
        decreases last + 1 - start,
    {
        let mut j: usize = 0;
        let mut same: bool = true;
        while j < needle.len()
            invariant
                start <= last,
                last == hay.len() - needle.len(),
                j <= needle.len(),
                same <==> (forall|k: int| 0 <= k < j ==> hay@[start + k] == needle@[k]),
            decreases needle.len() - j,
        {
            if hay[start + j] != needle[j] {
                same = false;
            }
            j = j + 1;
        }
        if same {
            assert(hay@.subrange(start as int, start + needle.len()) =~= needle@);
            assert(occurs_at(needle@, hay@, start as int));
            return true;
        }
        assert(!occurs_at(needle@, hay@, start as int)) by {
            let k = choose|k: int| 0 <= k < needle.len() && hay@[start + k] != needle@[k];
            assert(hay@.subrange(start as int, start + needle.len())[k] == hay@[start + k]);
        }
        start = start + 1;
    }
    assert forall|s: int| !occurs_at(needle@, hay@, s) by {
        if 0 <= s < start {
        }
    }
    false
}

/// The text of `a` followed by the text of `b`.
pub fn join_text(a: &str, b: &str) -> (r: String)
    ensures
        r@ == a@ + b@,
{
    let mut r = String::from_str(a);
    r.append(b);
    r
}

} // verus!
