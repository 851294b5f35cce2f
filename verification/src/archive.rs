//! Names inside an archive: how the root folder is shortened, and which
//! directories are left out.

use crate::text::{chars_of, push_text, text_eq, text_of, trim_end, trim_end_chars, CharClass};
use vstd::prelude::*;
use vstd::slice::slice_subrange;

verus! {

/// Most bytes of the root folder's name inside an archive. A tar header has
/// 100 bytes for a whole path, and this leaves room for what is nested.
pub const MAX_ARCHIVE_PREFIX: usize = 50;

/// Bytes that a character takes in UTF-8.
pub open spec fn utf8_width(c: char) -> nat {
    if (c as u32) < 0x80 {
        1
    } else if (c as u32) < 0x800 {
        2
    } else if (c as u32) < 0x1_0000 {
        3
    } else {
        4
    }
}

/// Bytes that a text takes in UTF-8.
pub open spec fn byte_len(s: Seq<char>) -> nat
    decreases s.len(),
{
    if s.len() == 0 {
        0
    } else {
        utf8_width(s[0]) + byte_len(s.skip(1))
    }
}

/// Number of characters at the front of `s` that fit in `limit` bytes.
pub open spec fn fitting_chars(s: Seq<char>, limit: nat) -> nat
    decreases s.len(),
{
    if s.len() == 0 || utf8_width(s[0]) > limit {
        0
    } else {
        1 + fitting_chars(s.skip(1), (limit - utf8_width(s[0])) as nat)
    }
}

/// The name of a folder as it stands at the root of an archive: the name
/// itself where it has 50 bytes or fewer, else as many of its leading
/// characters as fit in 50 bytes, without spaces, hyphens and underscores at
/// the end.
pub open spec fn archive_prefix(name: Seq<char>) -> Seq<char> {
    if byte_len(name) <= MAX_ARCHIVE_PREFIX {
        name
    } else {
        trim_end(name.take(fitting_chars(name, MAX_ARCHIVE_PREFIX as nat) as int), CharClass::Separator)
    }
}

fn width_of(c: char) -> (w: usize)
    ensures
        w == utf8_width(c),
        1 <= w <= 4,
{
    let code = c as u32;
    if code < 0x80 {
        1
    } else if code < 0x800 {
        2
    } else if code < 0x1_0000 {
        3
    } else {
        4
    }
}

/// Shortens the name of a folder to fit within the path limit of tar.
pub fn truncate_archive_prefix(name: &str) -> (prefix: String)
    ensures
        prefix@ == archive_prefix(name@),
{
    let chars = chars_of(name);
    let mut used: usize = 0;
    let mut i: usize = 0;
    assert(chars@.skip(0) =~= chars@);
    while i < chars.len() && used + width_of(chars[i]) <= MAX_ARCHIVE_PREFIX
        invariant
            i <= chars@.len(),
            used <= MAX_ARCHIVE_PREFIX,
            byte_len(chars@) == used + byte_len(chars@.skip(i as int)),
            fitting_chars(chars@, MAX_ARCHIVE_PREFIX as nat) == i + fitting_chars(
                chars@.skip(i as int),
                (MAX_ARCHIVE_PREFIX - used) as nat,
            ),
        decreases chars@.len() - i,
    {
        assert(chars@.skip(i as int).skip(1) =~= chars@.skip(i + 1));
        used += width_of(chars[i]);
        i += 1;
    }
    if i == chars.len() {
        return name.to_owned();
    }
    let kept = trim_end_chars(slice_subrange(chars.as_slice(), 0, i), CharClass::Separator);
    text_of(kept)
}

/// The name an archive of a folder is shown under: the shortened name of the
/// folder and `.tar.gz`.
pub fn archive_name(folder_name: &str) -> (name: String)
    ensures
        name@ == archive_prefix(folder_name@) + ".tar.gz"@,
{
    let prefix = truncate_archive_prefix(folder_name);
    let mut out = chars_of(prefix.as_str());
    push_text(&mut out, ".tar.gz");
    text_of(out.as_slice())
}

/// Whether a directory of this name is left out of an archive: hidden
/// directories, `node_modules` and `target`.
pub fn is_skipped_dir(name: &str) -> (skipped: bool)
    ensures
        skipped == ((name@.len() > 0 && name@[0] == '.') || name@ == "node_modules"@ || name@
            == "target"@),
{
    let chars = chars_of(name);
    (chars.len() > 0 && chars[0] == '.') || text_eq(name, "node_modules") || text_eq(name, "target")
}

} // verus!
