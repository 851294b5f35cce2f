//! The public address of a Cloudflare quick tunnel: how it is found in the
//! output of `cloudflared`, and how links over the tunnel are written.

use crate::platform::white_space;
use crate::text::{
    chars_of, contains, contains_chars, matches_at, push_text, starts_with, text_eq, text_of,
    trim, trim_chars, trim_end, trim_end_chars, CharClass,
};
use vstd::prelude::*;
use vstd::slice::slice_subrange;

verus! {

/// A running tunnel, by its public address.
pub struct CloudflareTunnel {
    pub public_url: String,
}

impl CloudflareTunnel {
    /// A link over the tunnel: the public address without slashes at its
    /// end, the path, `#` and the fragment.
    pub fn tunnel_url(&self, path: &str, key_fragment: &str) -> (url: String)
        ensures
            url@ == trim_end(self.public_url@, CharClass::Slash) + path@ + "#"@ + key_fragment@,
    {
        let address = chars_of(self.public_url.as_str());
        let base = trim_end_chars(address.as_slice(), CharClass::Slash);
        let mut out: Vec<char> = Vec::new();
        let mut i: usize = 0;
        while i < base.len()
            invariant
                i <= base@.len(),
                out@ == base@.take(i as int),
            decreases base@.len() - i,
        {
            out.push(base[i]);
            assert(base@.take(i + 1) =~= base@.take(i as int).push(base@[i as int]));
            i += 1;
        }
        assert(base@.take(base@.len() as int) =~= base@);
        push_text(&mut out, path);
        push_text(&mut out, "#");
        push_text(&mut out, key_fragment);
        text_of(out.as_slice())
    }
}

/// Whether a word is the address of a quick tunnel.
pub open spec fn is_tunnel_address(word: Seq<char>) -> bool {
    starts_with(word, "https://"@) && contains(word, ".trycloudflare.com"@)
}

/// Number of characters at the front of `s` that are not white space.
pub open spec fn word_len(s: Seq<char>) -> nat
    decreases s.len(),
{
    if s.len() > 0 && !white_space(s[0]) {
        1 + word_len(s.skip(1))
    } else {
        0
    }
}

/// The address of a quick tunnel in a line of log: the first of the words
/// of the line that, without what cannot stand at the ends of a URL, begins
/// with `https://` and holds `.trycloudflare.com`.
pub open spec fn tunnel_address_in(line: Seq<char>) -> Option<Seq<char>>
    decreases line.len(),
{
    if line.len() == 0 {
        None
    } else if white_space(line[0]) {
        tunnel_address_in(line.skip(1))
    } else {
        let n = word_len(line);
        let word = trim(line.take(n as int), CharClass::UrlEdge);
        if is_tunnel_address(word) {
            Some(word)
        } else if 0 < n <= line.len() {
            tunnel_address_in(line.skip(n as int))
        } else {
            None
        }
    }
}

/// A word is no longer than the text it opens, and not empty where the text
/// opens with anything but white space.
pub proof fn lemma_word_len_bounds(s: Seq<char>)
    ensures
        word_len(s) <= s.len(),
        s.len() > 0 && !white_space(s[0]) ==> word_len(s) > 0,
    decreases s.len(),
{
    if s.len() > 0 && !white_space(s[0]) {
        lemma_word_len_bounds(s.skip(1));
    }
}

fn count_word(chars: &[char]) -> (n: usize)
    ensures
        n == word_len(chars@),
        n <= chars@.len(),
{
    let mut i: usize = 0;
    assert(chars@.skip(0) =~= chars@);
    while i < chars.len() && !CharClass::WhiteSpace.test(chars[i])
        invariant
            i <= chars@.len(),
            word_len(chars@) == i + word_len(chars@.skip(i as int)),
        decreases chars@.len() - i,
    {
        assert(chars@.skip(i as int).skip(1) =~= chars@.skip(i + 1));
        i += 1;
    }
    i
}

/// Finds the address of a quick tunnel in a line of the log of `cloudflared`.
pub fn extract_tunnel_url(line: &str) -> (url: Option<String>)
    ensures
        match url {
            Some(address) => tunnel_address_in(line@) == Some(address@),
            None => tunnel_address_in(line@) is None,
        },
{
    let chars = chars_of(line);
    let scheme = chars_of("https://");
    let domain = chars_of(".trycloudflare.com");
    let mut at: usize = 0;
    assert(chars@.skip(0) =~= chars@);
    while at < chars.len()
        invariant
            at <= chars@.len(),
            scheme@ == "https://"@,
            domain@ == ".trycloudflare.com"@,
            tunnel_address_in(line@) == tunnel_address_in(chars@.skip(at as int)),
        decreases chars@.len() - at,
    {
        let rest = slice_subrange(chars.as_slice(), at, chars.len());
        assert(rest@ =~= chars@.skip(at as int));
        if CharClass::WhiteSpace.test(chars[at]) {
            assert(rest@.skip(1) =~= chars@.skip(at + 1));
            at += 1;
        } else {
            let n = count_word(rest);
            proof {
                lemma_word_len_bounds(rest@);
            }
            let word = trim_chars(slice_subrange(rest, 0, n), CharClass::UrlEdge);
            if matches_at(word, scheme.as_slice(), 0) && contains_chars(word, domain.as_slice()) {
                return Some(text_of(word));
            }
            assert(rest@.skip(n as int) =~= chars@.skip(at + n));
            at += n;
        }
    }
    None
}

/// The name of the `cloudflared` release for a platform, or `None` for a
/// platform that has none.
pub open spec fn cloudflared_asset(os: Seq<char>, arch: Seq<char>) -> Option<Seq<char>> {
    if os == "windows"@ && (arch == "x86_64"@ || arch == "aarch64"@) {
        Some("cloudflared-windows-amd64.exe"@)
    } else if os == "linux"@ && arch == "x86_64"@ {
        Some("cloudflared-linux-amd64"@)
    } else if os == "linux"@ && arch == "aarch64"@ {
        Some("cloudflared-linux-arm64"@)
    } else if os == "linux"@ && arch == "arm"@ {
        Some("cloudflared-linux-arm"@)
    } else if os == "macos"@ && (arch == "x86_64"@ || arch == "aarch64"@) {
        Some("cloudflared-darwin-amd64.tgz"@)
    } else {
        None
    }
}

/// Where the latest `cloudflared` for a platform is downloaded from; `None`
/// for a platform without a release.
pub fn get_cloudflared_download_url(os: &str, arch: &str) -> (url: Option<String>)
    ensures
        match url {
            Some(link) => cloudflared_asset(os@, arch@) matches Some(asset) && link@
                == "https://github.com/cloudflare/cloudflared/releases/latest/download/"@ + asset,
            None => cloudflared_asset(os@, arch@) is None,
        },
{
    let x86 = text_eq(arch, "x86_64");
    let arm64 = text_eq(arch, "aarch64");
    let asset = if text_eq(os, "windows") && (x86 || arm64) {
        "cloudflared-windows-amd64.exe"
    } else if text_eq(os, "linux") && x86 {
        "cloudflared-linux-amd64"
    } else if text_eq(os, "linux") && arm64 {
        "cloudflared-linux-arm64"
    } else if text_eq(os, "linux") && text_eq(arch, "arm") {
        "cloudflared-linux-arm"
    } else if text_eq(os, "macos") && (x86 || arm64) {
        "cloudflared-darwin-amd64.tgz"
    } else {
        return None;
    };
    let mut out: Vec<char> = Vec::new();
    push_text(&mut out, "https://github.com/cloudflare/cloudflared/releases/latest/download/");
    push_text(&mut out, asset);
    Some(text_of(out.as_slice()))
}

} // verus!
