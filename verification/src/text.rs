//! Character-level helpers: strings as sequences of characters, padding and
//! searching.

use vstd::prelude::*;
use vstd::string::StringExecFns;

verus! {

/// `String::push` of std appends one character to the end of the string and
/// changes nothing else of it.
pub assume_specification[ String::push ](s: &mut String, ch: char)
    ensures
        final(s)@ == old(s)@.push(ch),
;

/// The lowercase form that std's `str::to_lowercase` gives to a text. It
/// follows the Unicode tables that std is built with, so this library names
/// it and claims nothing more of it.
pub uninterp spec fn lowercased(text: Seq<char>) -> Seq<char>;

/// `str::to_lowercase` of std returns the lowercase form of the text, which
/// depends on the text alone.
pub assume_specification[ str::to_lowercase ](s: &str) -> (out: String)
    ensures
        out@ == lowercased(s@),
;

/// The text that std's `Debug` for `str` writes for a text: the text between
/// double quotes, with escapes for what would not print. The escapes follow
/// tables of std, so this library names the result and claims nothing more
/// of it.
pub uninterp spec fn debug_text(text: Seq<char>) -> Seq<char>;

/// Formats a text with `{:?}`: std's `Debug` for `str`, whose result depends
/// on the text alone.
#[verifier::external_body]
pub(crate) fn quoted(text: &str) -> (out: String)
    ensures
        out@ == debug_text(text@),
{
    format!("{:?}", text)
}

/// `n` spaces.
pub open spec fn spaces(n: nat) -> Seq<char> {
    Seq::new(n, |i: int| ' ')
}

/// `text` followed by as many spaces as it lacks to reach `width` characters.
pub open spec fn padded_right(text: Seq<char>, width: nat) -> Seq<char> {
    if text.len() >= width {
        text
    } else {
        text + spaces((width - text.len()) as nat)
    }
}

/// `text` preceded by as many spaces as it lacks to reach `width` characters.
pub open spec fn padded_left(text: Seq<char>, width: nat) -> Seq<char> {
    if text.len() >= width {
        text
    } else {
        spaces((width - text.len()) as nat) + text
    }
}

/// `needle` stands in `hay` at position `at`.
pub open spec fn occurs_at(needle: Seq<char>, hay: Seq<char>, at: int) -> bool {
    &&& 0 <= at
    &&& at + needle.len() <= hay.len()
    &&& hay.subrange(at, at + needle.len()) == needle
}

/// `needle` stands somewhere in `hay`, character for character.
pub open spec fn is_substring(needle: Seq<char>, hay: Seq<char>) -> bool {
    exists|at: int| occurs_at(needle, hay, at)
}

/// The characters of `s`, in order.
pub fn chars_of(s: &str) -> (out: Vec<char>)
    ensures
        out@ == s@,
{
    let mut out: Vec<char> = Vec::new();
    for c in it: s.chars()
        invariant
            out@ == it.seq().take(it.index() as int),
            it.seq() == s@,
    {
        out.push(c);
    }
    out
}

/// The number of bytes that a character takes in UTF-8.
pub open spec fn utf8_width(c: char) -> nat {
    if (c as u32) < 0x80 {
        1
    } else if (c as u32) < 0x800 {
        2
    } else if (c as u32) < 0x1_0000 {
        3
    } else {
        4
    }
}

/// The number of bytes that a text takes in UTF-8.
pub open spec fn utf8_len(text: Seq<char>) -> nat
    decreases text.len(),
{
    if text.len() == 0 {
        0
    } else {
        utf8_len(text.drop_last()) + utf8_width(text.last())
    }
}

/// How many leading characters of `text` fit into `budget` bytes of UTF-8.
pub open spec fn fitting(text: Seq<char>, budget: nat) -> nat
    decreases text.len(),
{
    if text.len() == 0 || utf8_width(text[0]) > budget {
        0
    } else {
        1 + fitting(text.skip(1), (budget - utf8_width(text[0])) as nat)
    }
}

/// No more characters fit than the text has.
pub proof fn lemma_fitting_bound(text: Seq<char>, budget: nat)
    ensures
        fitting(text, budget) <= text.len(),
    decreases text.len(),
{
    if text.len() > 0 && utf8_width(text[0]) <= budget {
        lemma_fitting_bound(text.skip(1), (budget - utf8_width(text[0])) as nat);
    }
}

/// A text takes at least as many bytes as any of its beginnings.
pub proof fn lemma_utf8_len_grows(text: Seq<char>, n: int)
    requires
        0 <= n <= text.len(),
    ensures
        utf8_len(text.take(n)) <= utf8_len(text),
    decreases text.len(),
{
    if n == text.len() {
        assert(text.take(n) =~= text);
    } else {
        lemma_utf8_len_grows(text.drop_last(), n);
        assert(text.drop_last().take(n) =~= text.take(n));
    }
}

/// The bytes of a text are those of its first character and those of the
/// rest.
proof fn lemma_utf8_len_front(text: Seq<char>)
    requires
        text.len() > 0,
    ensures
        utf8_len(text) == utf8_width(text[0]) + utf8_len(text.drop_first()),
    decreases text.len(),
{
    if text.len() == 1 {
        assert(text.drop_last() =~= text.drop_first());
        assert(utf8_len(text.drop_first()) == 0);
    } else {
        lemma_utf8_len_front(text.drop_last());
        assert(text.drop_last().drop_first() =~= text.drop_first().drop_last());
    }
}

/// `utf8_len` counts the bytes of the UTF-8 encoding of a text.
pub proof fn lemma_utf8_len_is_encoded_len(text: Seq<char>)
    ensures
        utf8_len(text) == vstd::utf8::encode_utf8(text).len(),
    decreases text.len(),
{
    if text.len() > 0 {
        lemma_utf8_len_front(text);
        lemma_utf8_len_is_encoded_len(text.drop_first());
        vstd::utf8::char_is_scalar(text[0]);
        assert(vstd::utf8::encode_scalar(text[0] as u32).len() == utf8_width(text[0]));
    }
}

/// The number of bytes that a character takes in UTF-8.
pub fn width_of(c: char) -> (w: usize)
    ensures
        w == utf8_width(c),
        1 <= w <= 4,
{
    let code: u32 = c as u32;
    if code < 0x80 {
        1
    } else if code < 0x800 {
        2
    } else if code < 0x1_0000 {
        3
    } else {
        4
    }
}

/// Whether a text takes more than `limit` bytes in UTF-8.
pub fn longer_than(text: &Vec<char>, limit: usize) -> (longer: bool)
    ensures
        longer == (utf8_len(text@) > limit),
{
    let mut total: usize = 0;
    let mut i: usize = 0;
    while i < text.len()
        invariant
            i <= text.len(),
            total == utf8_len(text@.take(i as int)),
            total <= limit,
        decreases text.len() - i,
    {
        let w = width_of(text[i]);
        proof {
            assert(text@.take(i + 1).drop_last() =~= text@.take(i as int));
            lemma_utf8_len_grows(text@, i + 1);
        }
        if w > limit - total {
            return true;
        }
        total = total + w;
        i = i + 1;
    }
    proof {
        assert(text@.take(i as int) =~= text@);
    }
    false
}

/// The leading characters of a text that fit into `budget` bytes of UTF-8.
pub fn leading(text: &Vec<char>, budget: usize) -> (out: String)
    ensures
        fitting(text@, budget as nat) <= text@.len(),
        out@ == text@.take(fitting(text@, budget as nat) as int),
{
    proof {
        lemma_fitting_bound(text@, budget as nat);
    }
    let mut out = String::new();
    let mut left: usize = budget;
    let mut i: usize = 0;
    proof {
        assert(text@.skip(0) =~= text@);
    }
    while i < text.len() && width_of(text[i]) <= left
        invariant
            i <= text.len(),
            out@ == text@.take(i as int),
            fitting(text@, budget as nat) == i + fitting(text@.skip(i as int), left as nat),
        decreases text.len() - i,
    {
        proof {
            assert(text@.skip(i as int).skip(1) =~= text@.skip(i + 1));
            assert(text@.take(i + 1) =~= text@.take(i as int).push(text@[i as int]));
        }
        left = left - width_of(text[i]);
        out.push(text[i]);
        i = i + 1;
    }
    out
}

/// Appends `n` spaces to `out`.
pub fn push_spaces(out: &mut String, n: usize)
    ensures
        final(out)@ == old(out)@ + spaces(n as nat),
{
    let mut i: usize = 0;
    while i < n
        invariant
            i <= n,
            out@ == old(out)@ + spaces(i as nat),
        decreases n - i,
    {
        out.push(' ');
        i = i + 1;
        assert(out@ =~= old(out)@ + spaces(i as nat));
    }
}

/// Pads `text` with spaces on the right up to `width` characters.
pub fn pad_right(text: &str, width: usize) -> (out: String)
    ensures
        out@ == padded_right(text@, width as nat),
{
    let len = text.unicode_len();
    let mut out = text.to_string();
    if len < width {
        push_spaces(&mut out, width - len);
    }
    out
}

/// Pads `text` with spaces on the left up to `width` characters.
pub fn pad_left(text: &str, width: usize) -> (out: String)
    ensures
        out@ == padded_left(text@, width as nat),
{
    let len = text.unicode_len();
    let mut out = String::new();
    if len < width {
        push_spaces(&mut out, width - len);
    }
    out.append(text);
    out
}

/// Whether `needle` stands in `hay` at position `at`.
fn matches_at(needle: &Vec<char>, hay: &Vec<char>, at: usize) -> (found: bool)
    requires
        at + needle.len() <= hay.len(),
    ensures
        found == occurs_at(needle@, hay@, at as int),
{
    let mut k: usize = 0;
    while k < needle.len()
        invariant
            k <= needle.len(),
            at + needle.len() <= hay.len(),
            hay@.subrange(at as int, at + k) == needle@.take(k as int),
        decreases needle.len() - k,
    {
        if hay[at + k] != needle[k] {
            proof {
                let part = hay@.subrange(at as int, at + needle.len());
                assert(part[k as int] != needle@[k as int]);
            }
            return false;
        }
        k = k + 1;
        assert(hay@.subrange(at as int, at + k) =~= needle@.take(k as int)) by {
            let before = hay@.subrange(at as int, at + k - 1);
            assert(hay@.subrange(at as int, at + k) =~= before.push(hay@[at + k - 1]));
            assert(needle@.take(k as int) =~= needle@.take(k - 1).push(needle@[k - 1]));
        }
    }
    assert(needle@.take(needle.len() as int) =~= needle@);
    true
}

/// Whether `needle` stands somewhere in `hay`.
pub fn contains_chars(hay: &Vec<char>, needle: &Vec<char>) -> (found: bool)
    ensures
        found == is_substring(needle@, hay@),
{
    if needle.len() > hay.len() {
        return false;
    }
    let last: usize = hay.len() - needle.len();
    let mut at: usize = 0;
    loop
        invariant
            at <= last,
            last == hay.len() - needle.len(),
            needle.len() <= hay.len(),
            forall|p: int| 0 <= p < at ==> !occurs_at(needle@, hay@, p),
        decreases last - at,
    {
        if matches_at(needle, hay, at) {
            return true;
        }
        if at == last {
            return false;
        }
        at = at + 1;
    }
}

/// Whether the text `needle` stands somewhere in the text `hay`; letters of
/// different case are different characters.
pub fn contains(hay: &str, needle: &str) -> (found: bool)
    ensures
        found == is_substring(needle@, hay@),
{
    let h = chars_of(hay);
    let n = chars_of(needle);
    contains_chars(&h, &n)
}

} // verus!
