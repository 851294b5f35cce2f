//! The decisions of the send service: whose request it is, whether the pin
//! admits it, what a download does to the store, and what is told of a drop.

use crate::platform::{
    extension_mime, format_rfc3339, format_size, human_size, lower_hex, mime_of_extension,
    option_text, random_uuid_hex, rfc3339_text,
};
use crate::primitives::random_u64;
use crate::store::{Backing, BlobStore, Drop, DropView, StoreModel};
use crate::crypto::{concat, EncryptionKey};
use crate::primitives::{base64url_encode, base64url_text};
use crate::text::{
    chars_of, decimal, find_char, first_index, push_decimal, push_text, text_eq, text_of, trim,
    trim_chars, CharClass,
};
use vstd::prelude::*;
use vstd::slice::slice_subrange;

verus! {

/// Plaintext size above which the ciphertext is kept in a file: 50 MiB.
pub const DISK_THRESHOLD: u64 = 52_428_800;

/// Where the ciphertext of a new drop is to be kept.
#[derive(Debug, Clone, Copy, PartialEq, Eq, Structural)]
pub enum BackendKind {
    Memory,
    Disk,
}

/// Chooses the backend by the size of the plaintext: a file above the
/// threshold, memory up to it.
pub fn choose_backend(file_size: u64) -> (kind: BackendKind)
    ensures
        kind == if file_size > DISK_THRESHOLD {
            BackendKind::Disk
        } else {
            BackendKind::Memory
        },
{
    if file_size > DISK_THRESHOLD {
        BackendKind::Disk
    } else {
        BackendKind::Memory
    }
}

/// What the transport knows of a request: the address of the peer, whether
/// that is a loopback address, and the two headers a front may set.
pub struct Peer {
    pub ip: String,
    pub is_loopback: bool,
    pub cf_connecting_ip: Option<String>,
    pub x_forwarded_for: Option<String>,
}

/// The first entry of a forwarded-for list: what stands before the first
/// comma, without white space around it.
pub open spec fn first_hop(value: Seq<char>) -> Seq<char> {
    trim(value.take(first_index(value, ',') as int), CharClass::WhiteSpace)
}

/// The header that names the client: that of the front, else the list of
/// forwarders.
pub open spec fn forwarded_header(peer: &Peer) -> Option<Seq<char>> {
    if peer.cf_connecting_ip is Some {
        option_text(peer.cf_connecting_ip)
    } else {
        option_text(peer.x_forwarded_for)
    }
}

/// The client address of a request. A header is believed only from a
/// loopback peer, that is from a front on this machine; from any other peer,
/// and where the header names nobody, the client is the peer itself.
pub open spec fn client_ip(peer: &Peer) -> Seq<char> {
    if peer.is_loopback && forwarded_header(peer) is Some && first_hop(
        forwarded_header(peer)->0,
    ).len() > 0 {
        first_hop(forwarded_header(peer)->0)
    } else {
        peer.ip@
    }
}

/// Whether a request comes through the trusted front: from a loopback peer,
/// with the header that the front sets.
pub open spec fn via_front(peer: &Peer) -> bool {
    peer.is_loopback && peer.cf_connecting_ip is Some
}

/// Resolves the client address of a request.
pub fn resolve_client_ip(peer: &Peer) -> (ip: String)
    ensures
        ip@ == client_ip(peer),
{
    if peer.is_loopback {
        let header = match &peer.cf_connecting_ip {
            Some(value) => Some(value),
            None => match &peer.x_forwarded_for {
                Some(value) => Some(value),
                None => None,
            },
        };
        match header {
            Some(value) => {
                let chars = chars_of(value.as_str());
                let comma = find_char(chars.as_slice(), ',');
                let first = slice_subrange(chars.as_slice(), 0, comma);
                let hop = trim_chars(first, CharClass::WhiteSpace);
                if hop.len() > 0 {
                    return text_of(hop);
                }
            },
            None => {},
        }
    }
    peer.ip.clone()
}

/// Whether a request comes through the trusted front.
pub fn is_tunnel_request(peer: &Peer) -> (front: bool)
    ensures
        front == via_front(peer),
{
    peer.is_loopback && peer.cf_connecting_ip.is_some()
}

/// What the pin of a drop says to a request.
#[derive(Debug, Clone, Copy, PartialEq, Eq, Structural)]
pub enum PinVerdict {
    /// No pin yet: the request is admitted and its client becomes the pin.
    Install,
    /// Admitted, and the pin stays as it is.
    Admit,
    /// Another client holds the pin.
    Refuse,
}

/// The pin policy: the first client wins; later, the same client is
/// admitted, a request through the trusted front is admitted whoever it
/// names, and anyone else is refused.
pub open spec fn pin_verdict(pinned: Option<Seq<char>>, client: Seq<char>, front: bool) -> PinVerdict {
    match pinned {
        None => PinVerdict::Install,
        Some(ip) => if ip == client || front {
            PinVerdict::Admit
        } else {
            PinVerdict::Refuse
        },
    }
}

/// Applies the pin policy to one request.
pub fn check_pin(pinned: &Option<String>, client: &str, front: bool) -> (verdict: PinVerdict)
    ensures
        verdict == pin_verdict(option_text(*pinned), client@, front),
{
    match pinned {
        None => PinVerdict::Install,
        Some(ip) => {
            if text_eq(ip.as_str(), client) || front {
                PinVerdict::Admit
            } else {
                PinVerdict::Refuse
            }
        },
    }
}

/// Why a request for a drop is turned away.
#[derive(Debug, Clone, Copy, PartialEq, Eq, Structural)]
pub enum ServeError {
    /// The id was never known, or is forgotten: status 404.
    NotFound,
    /// The drop was destroyed or has no download left: status 410.
    Burned,
    /// The drop is locked to another client: status 403.
    Forbidden,
}

impl ServeError {
    /// The HTTP status that answers the request.
    pub fn status(&self) -> (code: u16)
        ensures
            code == match self {
                ServeError::NotFound => 404u16,
                ServeError::Burned => 410u16,
                ServeError::Forbidden => 403u16,
            },
    {
        match self {
            ServeError::NotFound => 404,
            ServeError::Burned => 410,
            ServeError::Forbidden => 403,
        }
    }
}

/// What the service answers to a request for the blob of `id` from `client`:
/// the new download count and whether the drop is now to be deleted, or why
/// the request is turned away. The pin is looked at before the counter.
pub open spec fn blob_reply(store: StoreModel, id: Seq<char>, client: Seq<char>, front: bool) -> Result<
    (u32, bool),
    ServeError,
> {
    if !store.live.contains_key(id) {
        if store.burned.contains_key(id) {
            Err(ServeError::Burned)
        } else {
            Err(ServeError::NotFound)
        }
    } else if pin_verdict(store.live[id].pinned_ip, client, front) is Refuse {
        Err(ServeError::Forbidden)
    } else {
        match store.pinned(id, client).recorded_result(id) {
            Some(counted) => Ok(counted),
            None => Err(ServeError::Burned),
        }
    }
}

/// The store after that request: an admitted request installs the pin where
/// there was none and counts one download; any other changes nothing.
pub open spec fn after_blob_request(
    store: StoreModel,
    id: Seq<char>,
    client: Seq<char>,
    front: bool,
) -> StoreModel {
    if !store.live.contains_key(id) || pin_verdict(store.live[id].pinned_ip, client, front)
        is Refuse {
        store
    } else {
        store.pinned(id, client).recorded(id)
    }
}

/// What an admitted request is served with.
#[derive(Debug)]
pub struct Delivery {
    /// Downloads counted, this one included.
    pub count: u32,
    pub max_downloads: u32,
    /// This was the last download allowed: the caller is to remove the drop
    /// once the stream has had time to flush.
    pub should_delete: bool,
    /// Length of the body, for `Content-Length`.
    pub encrypted_size: u64,
    pub backing: Backing,
}

/// Decides a request for the blob of `id` and updates the store: checks the
/// pin, installs it for the first client, and counts the download.
pub fn serve_blob(store: &mut BlobStore, id: &str, peer: &Peer) -> (res: Result<
    Delivery,
    ServeError,
>)
    requires
        old(store).model().wf(),
    ensures
        final(store).model().wf(),
        final(store).model() == after_blob_request(
            old(store).model(),
            id@,
            client_ip(peer),
            via_front(peer),
        ),
        match res {
            Ok(delivery) => {
                &&& blob_reply(old(store).model(), id@, client_ip(peer), via_front(peer)) == Ok::<
                    (u32, bool),
                    ServeError,
                >((delivery.count, delivery.should_delete))
                &&& delivery.max_downloads == old(store).model().live[id@].max_downloads
                &&& delivery.encrypted_size == old(store).model().live[id@].encrypted_size
                &&& delivery.backing@ == old(store).model().live[id@].backing
                &&& delivery.backing@ matches crate::store::BackingView::Memory(bytes)
                    ==> bytes.len() == delivery.encrypted_size
            },
            Err(e) => blob_reply(old(store).model(), id@, client_ip(peer), via_front(peer)) == Err::<
                (u32, bool),
                ServeError,
            >(e),
        },
{
    let drop = match store.get(id) {
        Some(drop) => drop,
        None => {
            if store.is_burned(id) {
                return Err(ServeError::Burned);
            }
            return Err(ServeError::NotFound);
        },
    };
    let client = resolve_client_ip(peer);
    let front = is_tunnel_request(peer);
    match check_pin(&drop.pinned_ip, client.as_str(), front) {
        PinVerdict::Refuse => {
            return Err(ServeError::Forbidden);
        },
        PinVerdict::Install => {
            store.pin(id, client.as_str());
        },
        PinVerdict::Admit => {},
    }
    match store.record_download(id) {
        Some((count, should_delete)) => Ok(
            Delivery {
                count,
                max_downloads: drop.max_downloads,
                should_delete,
                encrypted_size: drop.encrypted_size,
                backing: drop.backing,
            },
        ),
        None => Err(ServeError::Burned),
    }
}

/// The first client to be admitted holds the pin: a request from any other
/// client, not through the front, is then refused, and changes nothing.
pub proof fn lemma_first_client_wins(
    store: StoreModel,
    id: Seq<char>,
    first: Seq<char>,
    second: Seq<char>,
)
    requires
        store.wf(),
        store.live.contains_key(id),
        store.live[id].pinned_ip is None,
        first != second,
    ensures
        after_blob_request(store, id, first, false).live[id].pinned_ip == Some(first),
        blob_reply(after_blob_request(store, id, first, false), id, second, false) == Err::<
            (u32, bool),
            ServeError,
        >(ServeError::Forbidden),
        after_blob_request(after_blob_request(store, id, first, false), id, second, false)
            == after_blob_request(store, id, first, false),
{
}

/// A request through the trusted front is never refused for the pin, and
/// leaves a pin that is set as it is.
pub proof fn lemma_front_passes_pin(store: StoreModel, id: Seq<char>, client: Seq<char>)
    requires
        store.wf(),
        store.live.contains_key(id),
    ensures
        blob_reply(store, id, client, true) != Err::<(u32, bool), ServeError>(
            ServeError::Forbidden,
        ),
        store.live[id].pinned_ip is Some ==> after_blob_request(
            store,
            id,
            client,
            true,
        ).live[id].pinned_ip == store.live[id].pinned_ip,
{
}

/// Once the last download allowed has been served, every further request
/// for the blob is turned away, and after removal it is answered as burned.
pub proof fn lemma_consumed_drop_is_gone(
    store: StoreModel,
    id: Seq<char>,
    client: Seq<char>,
    front: bool,
    later: Seq<char>,
    later_front: bool,
    now: i64,
)
    requires
        store.wf(),
        blob_reply(store, id, client, front) matches Ok(counted) && counted.1,
    ensures
        blob_reply(after_blob_request(store, id, client, front), id, later, later_front) is Err,
        blob_reply(
            after_blob_request(store, id, client, front).removed(id, now),
            id,
            later,
            later_front,
        ) == Err::<(u32, bool), ServeError>(ServeError::Burned),
{
    crate::store::lemma_pin_keeps_wf(store, id, client);
    crate::store::lemma_record_keeps_wf(store.pinned(id, client), id);
}

/// What the service tells of a live drop.
#[derive(Debug)]
pub struct DropMeta {
    pub filename: String,
    /// Size of the plaintext in bytes.
    pub size_bytes: u64,
    /// The same size as people read it.
    pub size_human: String,
    pub mime: String,
    /// Time the drop expires at, in milliseconds since the Unix epoch.
    pub expires_at: i64,
    /// The same time as RFC 3339 text, where the calendar reaches it.
    pub expires_at_text: Option<String>,
    /// Downloads still to be had; `None` for no limit.
    pub downloads_remaining: Option<u32>,
    pub has_password: bool,
}

/// What the service answers to a request for the metadata of an id.
#[derive(Debug)]
pub enum MetaReply {
    /// The id is burned: status 410 with `{"burned":true}`.
    Burned,
    /// The id is unknown: status 404, after the delay for unknown ids.
    NotFound,
    /// The drop is live: status 200 with its metadata.
    Live(DropMeta),
}

/// Downloads still to be had of a drop: `None` where there is no limit.
pub open spec fn downloads_left(drop: DropView) -> Option<u32> {
    if drop.max_downloads == 0 {
        None
    } else if drop.download_count >= drop.max_downloads {
        Some(0u32)
    } else {
        Some((drop.max_downloads - drop.download_count) as u32)
    }
}

/// How the downloads still to be had are told: as a number, or `unlimited`.
pub open spec fn downloads_left_text(left: Option<u32>) -> Seq<char> {
    match left {
        Some(n) => decimal(n as nat),
        None => "unlimited"@,
    }
}

impl DropMeta {
    /// The downloads still to be had, as the metadata tells them.
    pub fn downloads_remaining_text(&self) -> (text: String)
        ensures
            text@ == downloads_left_text(self.downloads_remaining),
    {
        match self.downloads_remaining {
            Some(n) => {
                let mut out: Vec<char> = Vec::new();
                push_decimal(&mut out, n as u64);
                assert(out@ =~= decimal(n as nat));
                text_of(out.as_slice())
            },
            None => "unlimited".to_owned(),
        }
    }
}

/// Answers a request for the metadata of an id. Changes nothing.
pub fn serve_meta(store: &BlobStore, id: &str) -> (reply: MetaReply)
    requires
        store.model().wf(),
    ensures
        match reply {
            MetaReply::Burned => store.model().burned.contains_key(id@),
            MetaReply::NotFound => store.model().unknown(id@),
            MetaReply::Live(meta) => {
                let drop = store.model().live[id@];
                &&& store.model().live.contains_key(id@)
                &&& meta.filename@ == drop.filename
                &&& meta.size_bytes == drop.file_size
                &&& meta.size_human@ == human_size(drop.file_size)
                &&& meta.mime@ == drop.mime_type
                &&& meta.expires_at == drop.expires_at
                &&& option_text(meta.expires_at_text) == rfc3339_text(drop.expires_at)
                &&& meta.downloads_remaining == downloads_left(drop)
                &&& meta.has_password == drop.has_password
            },
        },
{
    if store.is_burned(id) {
        return MetaReply::Burned;
    }
    let drop = match store.get(id) {
        Some(drop) => drop,
        None => {
            return MetaReply::NotFound;
        },
    };
    let downloads_remaining = drop.downloads_remaining();
    MetaReply::Live(
        DropMeta {
            size_bytes: drop.file_size,
            size_human: format_size(drop.file_size),
            expires_at: drop.expires_at,
            expires_at_text: format_rfc3339(drop.expires_at),
            downloads_remaining,
            has_password: drop.has_password,
            filename: drop.filename,
            mime: drop.mime_type,
        },
    )
}

/// Destroys a drop after its last download: removes it at the present time,
/// hands it over so that its backing can be wiped, and says whether the
/// store is now empty, which is the signal to shut the service down.
pub fn finish_download(store: &mut BlobStore, id: &str) -> (res: (Option<Drop>, bool))
    requires
        old(store).model().wf(),
    ensures
        final(store).model().wf(),
        exists|now: i64| final(store).model() == old(store).model().removed(id@, now),
        match res.0 {
            Some(drop) => old(store).model().live.contains_key(id@) && drop@ == old(
                store,
            ).model().live[id@],
            None => !old(store).model().live.contains_key(id@),
        },
        res.1 == (final(store).model().live == Map::<Seq<char>, DropView>::empty()),
{
    let removed = store.remove(id);
    let empty = store.is_empty();
    (removed, empty)
}

/// The delay before an unknown id is answered, from a random number: 50
/// milliseconds and up to 149 more.
pub fn jitter_millis(random: u64) -> (delay: u64)
    ensures
        delay == 50 + random % 150,
        50 <= delay < 200,
{
    50 + random % 150
}

/// A fresh delay before an unknown id is answered, so that the time taken
/// tells nothing of the id.
pub fn not_found_delay_millis() -> (delay: u64)
    ensures
        50 <= delay < 200,
{
    jitter_millis(random_u64())
}

/// The first eight characters of a text, or all of it where it is shorter.
pub open spec fn first_eight(text: Seq<char>) -> Seq<char> {
    if text.len() <= 8 {
        text
    } else {
        text.take(8)
    }
}

/// A drop id made of the first eight characters of each of two texts.
pub fn drop_id_from(first: &str, second: &str) -> (id: String)
    ensures
        id@ == first_eight(first@) + first_eight(second@),
{
    let a = chars_of(first);
    let b = chars_of(second);
    let mut id: Vec<char> = Vec::new();
    let mut i: usize = 0;
    while i < a.len() && i < 8
        invariant
            i <= a@.len(),
            i <= 8,
            id@ == a@.take(i as int),
        decreases 8 - i,
    {
        id.push(a[i]);
        assert(a@.take(i + 1) =~= a@.take(i as int).push(a@[i as int]));
        i += 1;
    }
    assert(id@ =~= first_eight(a@));
    let mut j: usize = 0;
    while j < b.len() && j < 8
        invariant
            j <= b@.len(),
            j <= 8,
            id@ == first_eight(a@) + b@.take(j as int),
        decreases 8 - j,
    {
        id.push(b[j]);
        assert(b@.take(j + 1) =~= b@.take(j as int).push(b@[j as int]));
        assert(first_eight(a@) + b@.take(j + 1) =~= (first_eight(a@) + b@.take(j as int)).push(
            b@[j as int],
        ));
        j += 1;
    }
    assert(b@.take(j as int) =~= first_eight(b@));
    text_of(id.as_slice())
}

/// A fresh drop id: sixteen lower-case hexadecimal digits, eight from each of
/// two random UUIDs, which makes 64 random bits.
pub fn new_drop_id() -> (id: String)
    ensures
        id@.len() == 16,
        forall|i: int| 0 <= i < 16 ==> lower_hex(#[trigger] id@[i]),
{
    let first = random_uuid_hex();
    let second = random_uuid_hex();
    drop_id_from(first.as_str(), second.as_str())
}

/// Index of the last `c` in `s`, or -1 where it has none.
pub open spec fn last_index(s: Seq<char>, c: char) -> int
    decreases s.len(),
{
    if s.len() == 0 {
        -1
    } else if s.last() == c {
        s.len() - 1
    } else {
        last_index(s.drop_last(), c)
    }
}

/// The extension of a file name: what follows its last dot, where that dot
/// is not the first character of the name.
pub open spec fn extension(name: Seq<char>) -> Option<Seq<char>> {
    let rest = name.skip(1);
    if name.len() == 0 || last_index(rest, '.') < 0 {
        None
    } else {
        Some(rest.skip(last_index(rest, '.') + 1))
    }
}

/// The media type guessed for a file name from its extension.
pub open spec fn guessed_mime(name: Seq<char>) -> Seq<char> {
    match extension(name) {
        Some(ext) => extension_mime(ext),
        None => "application/octet-stream"@,
    }
}

/// Guesses the media type of a file from the extension of its name;
/// `application/octet-stream` for a name without one.
pub fn guess_mime(file_name: &str) -> (mime: String)
    ensures
        mime@ == guessed_mime(file_name@),
{
    let chars = chars_of(file_name);
    if chars.len() == 0 {
        return "application/octet-stream".to_owned();
    }
    let rest = slice_subrange(chars.as_slice(), 1, chars.len());
    let mut k: usize = rest.len();
    assert(rest@.take(k as int) =~= rest@);
    while k > 0 && rest[k - 1] != '.'
        invariant
            k <= rest@.len(),
            last_index(rest@, '.') == last_index(rest@.take(k as int), '.'),
        decreases k,
    {
        assert(rest@.take(k as int).drop_last() =~= rest@.take(k - 1));
        k -= 1;
    }
    if k == 0 {
        return "application/octet-stream".to_owned();
    }
    let ext = text_of(slice_subrange(rest, k, rest.len()));
    mime_of_extension(ext.as_str())
}

/// The fragment of a link: the salt behind `pw:` for a drop with a password,
/// else the key itself, either as URL-safe base64 without padding.
pub open spec fn fragment_text(key: Seq<u8>, salt: Option<Seq<u8>>) -> Seq<char> {
    match salt {
        Some(bytes) => "pw:"@ + base64url_text(bytes),
        None => base64url_text(key),
    }
}

/// Builds the fragment of a link. It stays in the browser and never reaches
/// a server.
pub fn key_fragment(key: &EncryptionKey, password_salt: Option<&[u8; 16]>) -> (fragment: String)
    ensures
        fragment@ == fragment_text(
            key@,
            match password_salt {
                Some(salt) => Some(salt@),
                None => None,
            },
        ),
        fragment@.len() == (if password_salt is Some {
            25nat
        } else {
            43nat
        }),
{
    match password_salt {
        Some(salt) => {
            let encoded = base64url_encode(salt.as_slice());
            let mut out: Vec<char> = Vec::new();
            push_text(&mut out, "pw:");
            push_text(&mut out, encoded.as_str());
            proof {
                reveal_strlit("pw:");
            }
            text_of(out.as_slice())
        },
        None => key.to_url_safe(),
    }
}

/// The link to a drop: `http://host:port/d/id#fragment`.
pub open spec fn download_link(
    host: Seq<char>,
    port: u16,
    id: Seq<char>,
    fragment: Seq<char>,
) -> Seq<char> {
    "http://"@ + host + ":"@ + decimal(port as nat) + "/d/"@ + id + "#"@ + fragment
}

/// Builds the link to a drop.
pub fn download_url(host: &str, port: u16, id: &str, fragment: &str) -> (url: String)
    ensures
        url@ == download_link(host@, port, id@, fragment@),
{
    let mut out: Vec<char> = Vec::new();
    push_text(&mut out, "http://");
    push_text(&mut out, host);
    push_text(&mut out, ":");
    push_decimal(&mut out, port as u64);
    push_text(&mut out, "/d/");
    push_text(&mut out, id);
    push_text(&mut out, "#");
    push_text(&mut out, fragment);
    assert(out@ =~= download_link(host@, port, id@, fragment@));
    text_of(out.as_slice())
}

/// The link to a receiving service: `http://host:port/#fragment`.
pub open spec fn receive_link(host: Seq<char>, port: u16, fragment: Seq<char>) -> Seq<char> {
    "http://"@ + host + ":"@ + decimal(port as nat) + "/#"@ + fragment
}

/// Builds the link to a receiving service.
pub fn receive_url(host: &str, port: u16, fragment: &str) -> (url: String)
    ensures
        url@ == receive_link(host@, port, fragment@),
{
    let mut out: Vec<char> = Vec::new();
    push_text(&mut out, "http://");
    push_text(&mut out, host);
    push_text(&mut out, ":");
    push_decimal(&mut out, port as u64);
    push_text(&mut out, "/#");
    push_text(&mut out, fragment);
    assert(out@ =~= receive_link(host@, port, fragment@));
    text_of(out.as_slice())
}

/// What the send service holds while it runs.
pub struct AppState {
    pub store: BlobStore,
}

/// Seconds between the last download of a drop and its removal, so that the
/// stream has time to flush.
pub const DRAIN_GRACE_SECS: u64 = 5;

/// Seconds between two passes of the reaper.
pub const REAP_INTERVAL_SECS: u64 = 5;

/// Requests per second that one client may make of the rate-limited routes.
pub const RATE_PER_SECOND: u64 = 2;

/// Requests that one client may make in a burst.
pub const RATE_BURST: u32 = 5;

/// Most bytes in one binary frame of a download over a WebSocket.
pub const WS_FRAME_SIZE: usize = 65536;

/// The response headers that every route sets, each with its value.
pub const X_FRAME_OPTIONS: &'static str = "DENY";

pub const X_CONTENT_TYPE_OPTIONS: &'static str = "nosniff";

pub const REFERRER_POLICY: &'static str = "no-referrer";

pub const PERMISSIONS_POLICY: &'static str = "camera=(), microphone=(), geolocation=()";

pub const CONTENT_SECURITY_POLICY: &'static str =
    "default-src 'self'; script-src 'self' 'unsafe-inline' 'wasm-unsafe-eval'; style-src 'self' 'unsafe-inline'; img-src 'self' data:; connect-src 'self'; frame-ancestors 'none';";

pub const CACHE_CONTROL: &'static str = "no-store, no-cache, must-revalidate";

pub const PRAGMA: &'static str = "no-cache";

/// The text frame that closes a download over a WebSocket.
pub const WS_DONE_MESSAGE: &'static str = "{\"type\":\"done\"}";

/// The body that answers a request for the metadata of a burned id.
pub const BURNED_BODY: &'static str = "{\"burned\":true}";

/// The text frame that opens a download over a WebSocket: the size of the
/// blob that follows in binary frames.
pub open spec fn ws_start_text(encrypted_size: u64) -> Seq<char> {
    "{\"type\":\"start\",\"encrypted_size\":"@ + decimal(encrypted_size as nat) + "}"@
}

/// Builds the text frame that opens a download over a WebSocket.
pub fn ws_start_message(encrypted_size: u64) -> (message: String)
    ensures
        message@ == ws_start_text(encrypted_size),
{
    let mut out: Vec<char> = Vec::new();
    push_text(&mut out, "{\"type\":\"start\",\"encrypted_size\":");
    push_decimal(&mut out, encrypted_size);
    push_text(&mut out, "}");
    text_of(out.as_slice())
}

/// The bytes that some frames hold, frame by frame.
pub open spec fn frame_views(frames: Seq<&[u8]>) -> Seq<Seq<u8>> {
    frames.map_values(|frame: &[u8]| frame@)
}

/// Number of binary frames that a blob of `len` bytes is sent in.
pub open spec fn ws_frame_count(len: nat) -> nat {
    ((len + WS_FRAME_SIZE - 1) / WS_FRAME_SIZE as int) as nat
}

/// Cuts a blob into the binary frames it is sent in over a WebSocket: all
/// of `WS_FRAME_SIZE` bytes but the last, none of them empty, and together
/// the blob again.
pub fn ws_frames<'a>(data: &'a [u8]) -> (frames: Vec<&'a [u8]>)
    ensures
        frames@.len() == ws_frame_count(data@.len()),
        concat(frame_views(frames@)) == data@,
        forall|i: int|
            0 <= i < frames@.len() ==> 0 < (#[trigger] frames@[i])@.len() <= WS_FRAME_SIZE,
        forall|i: int| 0 <= i < frames@.len() - 1 ==> (#[trigger] frames@[i])@.len() == WS_FRAME_SIZE,
{
    let mut frames: Vec<&'a [u8]> = Vec::new();
    let mut offset: usize = 0;
    proof {
        assert(frame_views(frames@) =~= Seq::<Seq<u8>>::empty());
        assert(data@.take(0) =~= Seq::<u8>::empty());
    }
    while offset < data.len()
        invariant
            offset <= data@.len(),
            offset % WS_FRAME_SIZE == 0,
            frames@.len() == offset / WS_FRAME_SIZE,
            concat(frame_views(frames@)) == data@.take(offset as int),
            forall|i: int| 0 <= i < frames@.len() ==> (#[trigger] frames@[i])@.len() == WS_FRAME_SIZE,
        decreases data@.len() - offset,
    {
        let end = if data.len() - offset > WS_FRAME_SIZE {
            offset + WS_FRAME_SIZE
        } else {
            data.len()
        };
        let frame = slice_subrange(data, offset, end);
        let ghost before = frame_views(frames@);
        frames.push(frame);
        proof {
            let after = frame_views(frames@);
            assert(after.drop_last() =~= before);
            assert(after.last() == frame@);
            assert(data@.take(offset as int) + data@.subrange(offset as int, end as int)
                =~= data@.take(end as int));
        }
        if end == data.len() {
            assert(data@.take(end as int) =~= data@);
            return frames;
        }
        offset = end;
    }
    assert(data@.take(offset as int) =~= data@);
    frames
}

} // verus!
