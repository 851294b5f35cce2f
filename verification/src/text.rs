//! Small verified text functions that the rest of the library is written with.

use crate::platform::{alphanumeric, is_alphanumeric, is_white_space, push_char, white_space};
use vstd::prelude::*;
use vstd::slice::slice_subrange;

verus! {

/// The characters of a text, in order.
pub fn chars_of(text: &str) -> (chars: Vec<char>)
    ensures
        chars@ == text@,
{
    let mut chars: Vec<char> = Vec::new();
    for c in it: text.chars()
        invariant
            chars@ == text@.take(it.index() as int),
            it.seq() == text@,
    {
        chars.push(c);
        assert(text@.take(it.index() + 1) =~= text@.take(it.index() as int).push(c));
    }
    assert(text@.take(text@.len() as int) =~= text@);
    chars
}

/// The text that some characters spell.
pub fn text_of(chars: &[char]) -> (text: String)
    ensures
        text@ == chars@,
{
    let mut text = String::new();
    let mut i: usize = 0;
    while i < chars.len()
        invariant
            i <= chars@.len(),
            text@ == chars@.take(i as int),
        decreases chars@.len() - i,
    {
        push_char(&mut text, chars[i]);
        assert(chars@.take(i + 1) =~= chars@.take(i as int).push(chars@[i as int]));
        i += 1;
    }
    assert(chars@.take(chars@.len() as int) =~= chars@);
    text
}

/// Appends the characters of `tail` to `out`.
pub fn push_text(out: &mut Vec<char>, tail: &str)
    ensures
        final(out)@ == old(out)@ + tail@,
{
    let mut more = chars_of(tail);
    out.append(&mut more);
}

/// Whether two texts spell the same.
pub fn text_eq(a: &str, b: &str) -> (same: bool)
    ensures
        same == (a@ == b@),
{
    let x = a.as_bytes();
    let y = b.as_bytes();
    proof {
        vstd::utf8::encode_utf8_decode_utf8(a@);
        vstd::utf8::encode_utf8_decode_utf8(b@);
    }
    if x.len() != y.len() {
        return false;
    }
    let mut i: usize = 0;
    while i < x.len()
        invariant
            i <= x@.len(),
            x@.len() == y@.len(),
            x@ == vstd::utf8::encode_utf8(a@),
            y@ == vstd::utf8::encode_utf8(b@),
            forall|j: int| 0 <= j < i ==> x@[j] == y@[j],
        decreases x@.len() - i,
    {
        if x[i] != y[i] {
            assert(x@[i as int] != y@[i as int]);
            assert(x@ != y@);
            return false;
        }
        i += 1;
    }
    assert(x@ =~= y@);
    true
}

/// A set of characters that a text is trimmed of or split at.
#[derive(Debug, Clone, Copy, PartialEq, Eq, Structural)]
pub enum CharClass {
    /// Unicode white space.
    WhiteSpace,
    /// A space, a hyphen or an underscore.
    Separator,
    /// The slash.
    Slash,
    /// What cannot stand at either end of a URL: anything but a letter, a
    /// digit, `:`, `/`, `.` and `-`.
    UrlEdge,
}

impl CharClass {
    /// Whether the character belongs to the class.
    pub open spec fn holds(self, c: char) -> bool {
        match self {
            CharClass::WhiteSpace => white_space(c),
            CharClass::Separator => c == ' ' || c == '-' || c == '_',
            CharClass::Slash => c == '/',
            CharClass::UrlEdge => !alphanumeric(c) && c != ':' && c != '/' && c != '.' && c != '-',
        }
    }

    /// Whether the character belongs to the class.
    pub fn test(&self, c: char) -> (belongs: bool)
        ensures
            belongs == self.holds(c),
    {
        match self {
            CharClass::WhiteSpace => is_white_space(c),
            CharClass::Separator => c == ' ' || c == '-' || c == '_',
            CharClass::Slash => c == '/',
            CharClass::UrlEdge => !is_alphanumeric(c) && c != ':' && c != '/' && c != '.' && c
                != '-',
        }
    }
}

/// Number of characters at the front of `s` that belong to the class.
pub open spec fn leading(s: Seq<char>, class: CharClass) -> nat
    decreases s.len(),
{
    if s.len() > 0 && class.holds(s[0]) {
        1 + leading(s.skip(1), class)
    } else {
        0
    }
}

/// Number of characters at the back of `s` that belong to the class.
pub open spec fn trailing(s: Seq<char>, class: CharClass) -> nat
    decreases s.len(),
{
    if s.len() > 0 && class.holds(s.last()) {
        1 + trailing(s.drop_last(), class)
    } else {
        0
    }
}

/// `s` without the characters of the class at its front.
pub open spec fn trim_start(s: Seq<char>, class: CharClass) -> Seq<char> {
    s.skip(leading(s, class) as int)
}

/// `s` without the characters of the class at its back.
pub open spec fn trim_end(s: Seq<char>, class: CharClass) -> Seq<char> {
    s.take(s.len() - trailing(s, class))
}

/// `s` without the characters of the class at its front and at its back.
pub open spec fn trim(s: Seq<char>, class: CharClass) -> Seq<char> {
    trim_end(trim_start(s, class), class)
}

/// Counts the characters of the class at the front.
pub fn count_leading(chars: &[char], class: CharClass) -> (n: usize)
    ensures
        n == leading(chars@, class),
        n <= chars@.len(),
{
    let mut i: usize = 0;
    assert(chars@.skip(0) =~= chars@);
    while i < chars.len() && class.test(chars[i])
        invariant
            i <= chars@.len(),
            leading(chars@, class) == i + leading(chars@.skip(i as int), class),
        decreases chars@.len() - i,
    {
        assert(chars@.skip(i as int).skip(1) =~= chars@.skip(i + 1));
        i += 1;
    }
    i
}

/// Counts the characters of the class at the back.
pub fn count_trailing(chars: &[char], class: CharClass) -> (n: usize)
    ensures
        n == trailing(chars@, class),
        n <= chars@.len(),
{
    let len = chars.len();
    let mut k: usize = 0;
    assert(chars@.take(len as int) =~= chars@);
    while k < len && class.test(chars[len - 1 - k])
        invariant
            k <= len,
            len == chars@.len(),
            trailing(chars@, class) == k + trailing(chars@.take(len - k), class),
        decreases len - k,
    {
        assert(chars@.take(len - k).drop_last() =~= chars@.take(len - k - 1));
        k += 1;
    }
    k
}

/// The characters without those of the class at the front and at the back.
pub fn trim_chars(chars: &[char], class: CharClass) -> (kept: &[char])
    ensures
        kept@ == trim(chars@, class),
{
    let from = count_leading(chars, class);
    let rest = slice_subrange(chars, from, chars.len());
    assert(rest@ =~= trim_start(chars@, class));
    let cut = count_trailing(rest, class);
    slice_subrange(rest, 0, rest.len() - cut)
}

/// The characters without those of the class at the back.
pub fn trim_end_chars(chars: &[char], class: CharClass) -> (kept: &[char])
    ensures
        kept@ == trim_end(chars@, class),
{
    let cut = count_trailing(chars, class);
    slice_subrange(chars, 0, chars.len() - cut)
}

/// Position of the first `c` in `s`, or the length of `s` where it has none.
pub open spec fn first_index(s: Seq<char>, c: char) -> nat
    decreases s.len(),
{
    if s.len() > 0 && s[0] != c {
        1 + first_index(s.skip(1), c)
    } else {
        0
    }
}

/// Finds the first `c`; returns the length where there is none.
pub fn find_char(chars: &[char], c: char) -> (at: usize)
    ensures
        at == first_index(chars@, c),
        at <= chars@.len(),
        at < chars@.len() ==> chars@[at as int] == c,
        forall|j: int| 0 <= j < at ==> chars@[j] != c,
{
    let mut i: usize = 0;
    assert(chars@.skip(0) =~= chars@);
    while i < chars.len() && chars[i] != c
        invariant
            i <= chars@.len(),
            first_index(chars@, c) == i + first_index(chars@.skip(i as int), c),
            forall|j: int| 0 <= j < i ==> chars@[j] != c,
        decreases chars@.len() - i,
    {
        assert(chars@.skip(i as int).skip(1) =~= chars@.skip(i + 1));
        i += 1;
    }
    i
}

/// The decimal digit of a number below ten.
pub open spec fn digit(d: nat) -> char {
    seq!['0', '1', '2', '3', '4', '5', '6', '7', '8', '9'][d as int]
}

/// A number in decimal, without sign or leading zeros.
pub open spec fn decimal(n: nat) -> Seq<char>
    decreases n,
{
    if n < 10 {
        seq![digit(n)]
    } else {
        decimal(n / 10).push(digit(n % 10))
    }
}

fn digit_of(d: u64) -> (c: char)
    requires
        d < 10,
    ensures
        c == digit(d as nat),
{
    if d == 0 {
        '0'
    } else if d == 1 {
        '1'
    } else if d == 2 {
        '2'
    } else if d == 3 {
        '3'
    } else if d == 4 {
        '4'
    } else if d == 5 {
        '5'
    } else if d == 6 {
        '6'
    } else if d == 7 {
        '7'
    } else if d == 8 {
        '8'
    } else {
        '9'
    }
}

/// Appends a number in decimal to `out`.
pub fn push_decimal(out: &mut Vec<char>, n: u64)
    ensures
        final(out)@ == old(out)@ + decimal(n as nat),
    decreases n,
{
    if n >= 10 {
        push_decimal(out, n / 10);
    }
    out.push(digit_of(n % 10));
    proof {
        if n >= 10 {
            assert(final(out)@ =~= old(out)@ + decimal(n as nat));
        } else {
            assert(final(out)@ =~= old(out)@ + decimal(n as nat));
        }
    }
}

/// Whether `pattern` stands in `s` at position `at`.
pub open spec fn occurs_at(s: Seq<char>, pattern: Seq<char>, at: int) -> bool {
    0 <= at && at + pattern.len() <= s.len() && s.subrange(at, at + pattern.len()) == pattern
}

/// Whether `s` begins with `prefix`.
pub open spec fn starts_with(s: Seq<char>, prefix: Seq<char>) -> bool {
    occurs_at(s, prefix, 0)
}

/// Whether `pattern` stands somewhere in `s`.
pub open spec fn contains(s: Seq<char>, pattern: Seq<char>) -> bool {
    exists|at: int| occurs_at(s, pattern, at)
}

/// Whether `pattern` stands in `chars` at position `at`.
pub fn matches_at(chars: &[char], pattern: &[char], at: usize) -> (found: bool)
    ensures
        found == occurs_at(chars@, pattern@, at as int),
{
    if at > chars.len() || chars.len() - at < pattern.len() {
        return false;
    }
    let mut i: usize = 0;
    while i < pattern.len()
        invariant
            i <= pattern@.len(),
            at + pattern@.len() <= chars@.len() <= usize::MAX,
            forall|j: int| 0 <= j < i ==> chars@[at + j] == pattern@[j],
        decreases pattern@.len() - i,
    {
        if chars[at + i] != pattern[i] {
            assert(chars@.subrange(at as int, at + pattern@.len())[i as int] != pattern@[i as int]);
            return false;
        }
        i += 1;
    }
    assert(chars@.subrange(at as int, at + pattern@.len()) =~= pattern@);
    true
}

/// Whether `pattern` stands somewhere in `chars`.
pub fn contains_chars(chars: &[char], pattern: &[char]) -> (found: bool)
    ensures
        found == contains(chars@, pattern@),
{
    let mut at: usize = 0;
    while at < chars.len()
        invariant
            at <= chars@.len(),
            forall|k: int| 0 <= k < at ==> !occurs_at(chars@, pattern@, k),
        decreases chars@.len() - at,
    {
        if matches_at(chars, pattern, at) {
            return true;
        }
        at += 1;
    }
    matches_at(chars, pattern, at)
}

} // verus!
