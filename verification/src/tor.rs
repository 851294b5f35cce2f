//! The address of a Tor hidden service, and how links to it are written.

use crate::text::{chars_of, decimal, push_decimal, push_text, text_of, trim, trim_chars, CharClass};
use vstd::prelude::*;

verus! {

/// A running hidden service, by its host name and the directory it keeps
/// its state in.
pub struct TorHiddenService {
    pub onion_hostname: String,
    pub data_dir: String,
}

impl TorHiddenService {
    /// A link to the hidden service: `http://`, the host name without white
    /// space around it, the path, `#` and the fragment.
    pub fn onion_url(&self, path: &str, key_fragment: &str) -> (url: String)
        ensures
            url@ == "http://"@ + trim(self.onion_hostname@, CharClass::WhiteSpace) + path@ + "#"@
                + key_fragment@,
    {
        let name = chars_of(self.onion_hostname.as_str());
        let host = text_of(trim_chars(name.as_slice(), CharClass::WhiteSpace));
        let mut out: Vec<char> = Vec::new();
        push_text(&mut out, "http://");
        push_text(&mut out, host.as_str());
        push_text(&mut out, path);
        push_text(&mut out, "#");
        push_text(&mut out, key_fragment);
        assert(out@ =~= "http://"@ + trim(self.onion_hostname@, CharClass::WhiteSpace) + path@
            + "#"@ + key_fragment@);
        text_of(out.as_slice())
    }
}

/// The configuration that `tor` is started with: no SOCKS port, a hidden
/// service in its own directory that forwards port 80 to the local port, and
/// a directory for the data of `tor`.
pub open spec fn torrc_text(hidden_service_dir: Seq<char>, local_port: u16, data_dir: Seq<char>) -> Seq<
    char,
> {
    "SocksPort 0\nHiddenServiceDir "@ + hidden_service_dir + "\nHiddenServicePort 80 127.0.0.1:"@
        + decimal(local_port as nat) + "\nDataDirectory "@ + data_dir + "\n"@
}

/// Writes the configuration that `tor` is started with.
pub fn torrc_contents(hidden_service_dir: &str, local_port: u16, data_dir: &str) -> (torrc: String)
    ensures
        torrc@ == torrc_text(hidden_service_dir@, local_port, data_dir@),
{
    let mut out: Vec<char> = Vec::new();
    push_text(&mut out, "SocksPort 0\nHiddenServiceDir ");
    push_text(&mut out, hidden_service_dir);
    push_text(&mut out, "\nHiddenServicePort 80 127.0.0.1:");
    push_decimal(&mut out, local_port as u64);
    push_text(&mut out, "\nDataDirectory ");
    push_text(&mut out, data_dir);
    push_text(&mut out, "\n");
    assert(out@ =~= torrc_text(hidden_service_dir@, local_port, data_dir@));
    text_of(out.as_slice())
}

} // verus!
