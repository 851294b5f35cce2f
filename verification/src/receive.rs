//! The decisions of the receive service: the name an upload is saved under,
//! the one upload it takes, and how an upload over a WebSocket is put together.

use crate::crypto::{decoded, decrypt_blob, CodecError, EncryptionKey};
use crate::platform::{
    json_member, json_string_member, option_text, percent_decode, percent_decoded,
};
use crate::text::{chars_of, text_eq, text_of};
use vstd::prelude::*;

verus! {

/// Seconds between a finished upload and the shutdown of the service.
pub const SHUTDOWN_DELAY_SECS: u64 = 2;

/// `s` without its pairs of dots, taken from the left: each `..` is removed,
/// and a third dot in a row stays.
pub open spec fn without_dot_pairs(s: Seq<char>) -> Seq<char>
    decreases s.len(),
{
    if s.len() == 0 {
        s
    } else if s.len() >= 2 && s[0] == '.' && s[1] == '.' {
        without_dot_pairs(s.skip(2))
    } else {
        seq![s[0]] + without_dot_pairs(s.skip(1))
    }
}

/// `s` without any `c`.
pub open spec fn without(s: Seq<char>, c: char) -> Seq<char>
    decreases s.len(),
{
    if s.len() == 0 {
        s
    } else if s[0] == c {
        without(s.skip(1), c)
    } else {
        seq![s[0]] + without(s.skip(1), c)
    }
}

/// The name a file is saved under: the name without its pairs of dots, then
/// without slashes, then without backslashes; `received_file` where nothing
/// is left.
pub open spec fn sanitized(name: Seq<char>) -> Seq<char> {
    let kept = without(without(without_dot_pairs(name), '/'), '\\');
    if kept.len() == 0 {
        "received_file"@
    } else {
        kept
    }
}

fn remove_dot_pairs(chars: &[char]) -> (kept: Vec<char>)
    ensures
        kept@ == without_dot_pairs(chars@),
{
    let mut kept: Vec<char> = Vec::new();
    let mut i: usize = 0;
    assert(chars@.skip(0) =~= chars@);
    while i < chars.len()
        invariant
            i <= chars@.len(),
            without_dot_pairs(chars@) == kept@ + without_dot_pairs(chars@.skip(i as int)),
        decreases chars@.len() - i,
    {
        let ghost rest = chars@.skip(i as int);
        if chars.len() - i >= 2 && chars[i] == '.' && chars[i + 1] == '.' {
            assert(rest.skip(2) =~= chars@.skip(i + 2));
            i += 2;
        } else {
            assert(rest.skip(1) =~= chars@.skip(i + 1));
            let ghost before = kept@;
            kept.push(chars[i]);
            assert(before + (seq![rest[0]] + without_dot_pairs(rest.skip(1))) =~= kept@
                + without_dot_pairs(rest.skip(1)));
            i += 1;
        }
    }
    assert(kept@ + Seq::<char>::empty() =~= kept@);
    kept
}

fn remove_char(chars: &[char], c: char) -> (kept: Vec<char>)
    ensures
        kept@ == without(chars@, c),
{
    let mut kept: Vec<char> = Vec::new();
    let mut i: usize = 0;
    assert(chars@.skip(0) =~= chars@);
    while i < chars.len()
        invariant
            i <= chars@.len(),
            without(chars@, c) == kept@ + without(chars@.skip(i as int), c),
        decreases chars@.len() - i,
    {
        let ghost rest = chars@.skip(i as int);
        assert(rest.skip(1) =~= chars@.skip(i + 1));
        if chars[i] != c {
            let ghost before = kept@;
            kept.push(chars[i]);
            assert(before + (seq![rest[0]] + without(rest.skip(1), c)) =~= kept@ + without(
                rest.skip(1),
                c,
            ));
        }
        i += 1;
    }
    assert(kept@ + Seq::<char>::empty() =~= kept@);
    kept
}

/// Makes a file name safe to save under: removes `..`, `/` and `\`, and
/// falls back to `received_file`.
pub fn sanitize_filename(name: &str) -> (safe: String)
    ensures
        safe@ == sanitized(name@),
{
    let chars = chars_of(name);
    let no_pairs = remove_dot_pairs(chars.as_slice());
    let no_slash = remove_char(no_pairs.as_slice(), '/');
    let kept = remove_char(no_slash.as_slice(), '\\');
    if kept.len() == 0 {
        "received_file".to_owned()
    } else {
        text_of(kept.as_slice())
    }
}

/// A sanitized name holds no slash and no backslash.
pub proof fn lemma_sanitized_has_no_separator(name: Seq<char>, i: int)
    requires
        0 <= i < sanitized(name).len(),
    ensures
        sanitized(name)[i] != '/',
        sanitized(name)[i] != '\\',
{
    let a = without(without_dot_pairs(name), '/');
    let kept = without(a, '\\');
    if kept.len() == 0 {
        reveal_strlit("received_file");
    } else {
        lemma_without_has_none(a, '\\', i);
        assert forall|j: int| 0 <= j < a.len() implies a[j] != '/' by {
            lemma_without_has_none(without_dot_pairs(name), '/', j);
        }
        lemma_without_keeps_absent(a, '\\', '/', i);
    }
}

proof fn lemma_without_has_none(s: Seq<char>, c: char, i: int)
    requires
        0 <= i < without(s, c).len(),
    ensures
        without(s, c)[i] != c,
    decreases s.len(),
{
    if s.len() == 0 {
    } else if s[0] == c {
        lemma_without_has_none(s.skip(1), c, i);
    } else if i > 0 {
        lemma_without_has_none(s.skip(1), c, i - 1);
    }
}

proof fn lemma_without_keeps_absent(s: Seq<char>, c: char, other: char, i: int)
    requires
        forall|j: int| 0 <= j < s.len() ==> s[j] != other,
        0 <= i < without(s, c).len(),
    ensures
        without(s, c)[i] != other,
    decreases s.len(),
{
    if s.len() == 0 {
    } else {
        assert forall|j: int| 0 <= j < s.skip(1).len() implies s.skip(1)[j] != other by {
            assert(s.skip(1)[j] == s[j + 1]);
        }
        if s[0] == c {
            lemma_without_keeps_absent(s.skip(1), c, other, i);
        } else if i > 0 {
            lemma_without_keeps_absent(s.skip(1), c, other, i - 1);
        }
    }
}

/// The name an upload is saved under, from the `X-Filename` header: the
/// header percent-decoded and sanitized; `received_file` where the header is
/// missing or does not decode.
pub open spec fn upload_name(header: Option<Seq<char>>) -> Seq<char> {
    match header {
        Some(value) => match percent_decoded(value) {
            Some(plain) => sanitized(plain),
            None => "received_file"@,
        },
        None => "received_file"@,
    }
}

/// Works out the name an upload is saved under.
pub fn upload_filename(header: Option<&str>) -> (name: String)
    ensures
        name@ == upload_name(
            match header {
                Some(value) => Some(value@),
                None => None,
            },
        ),
{
    match header {
        Some(value) => match percent_decode(value) {
            Some(plain) => sanitize_filename(plain.as_str()),
            None => "received_file".to_owned(),
        },
        None => "received_file".to_owned(),
    }
}

/// What the receive service holds while it runs.
pub struct ReceiveState {
    pub key: EncryptionKey,
    pub output_dir: String,
    /// Set once a file has been saved; the service takes no second upload.
    pub received: bool,
}

/// Why an upload is turned away.
#[derive(Debug, Clone, Copy, PartialEq, Eq, Structural)]
pub enum UploadError {
    /// A file was received already: status 410.
    Gone,
    /// The blob does not decode under the key of the service: status 400,
    /// `Decryption failed`.
    DecryptionFailed(CodecError),
    /// The WebSocket closed without any data.
    NoData,
    /// A text frame of the WebSocket is not JSON.
    BadControlFrame,
}

/// An upload that decoded: what to save, and under which name.
#[derive(Debug)]
pub struct AcceptedUpload {
    pub filename: String,
    pub plaintext: Vec<u8>,
}

/// What the service makes of an upload: turned away once a file has been
/// received, else decoded under the key of the service.
pub open spec fn upload_outcome(received: bool, key: Seq<u8>, body: Seq<u8>) -> Result<
    Seq<u8>,
    UploadError,
> {
    if received {
        Err(UploadError::Gone)
    } else {
        match decoded(body, key) {
            Ok(plaintext) => Ok(plaintext),
            Err(e) => Err(UploadError::DecryptionFailed(e)),
        }
    }
}

impl ReceiveState {
    /// A service that has received nothing yet.
    pub fn new(key: EncryptionKey, output_dir: String) -> (state: ReceiveState)
        ensures
            state.key@ == key@,
            state.output_dir@ == output_dir@,
            !state.received,
    {
        ReceiveState { key, output_dir, received: false }
    }

    /// Whether the service still takes an upload.
    pub fn check_open(&self) -> (res: Result<(), UploadError>)
        ensures
            match res {
                Ok(_) => !self.received,
                Err(e) => self.received && e == UploadError::Gone,
            },
    {
        if self.received {
            Err(UploadError::Gone)
        } else {
            Ok(())
        }
    }

    /// Records that a file has been saved. From now on every upload is
    /// turned away.
    pub fn mark_received(&mut self)
        ensures
            final(self).received,
            final(self).key@ == old(self).key@,
            final(self).output_dir@ == old(self).output_dir@,
    {
        self.received = true;
    }
}

/// Decodes a blob that was uploaded, under the key of the service.
pub fn decrypt_uploaded_blob(data: &[u8], key: &EncryptionKey) -> (res: Result<Vec<u8>, CodecError>)
    ensures
        crate::crypto::decoding_view(res) == decoded(data@, key@),
{
    decrypt_blob(data, key)
}

/// Decides an upload over HTTP: the whole encrypted blob in the body, its
/// name in the header. The caller saves what is accepted and then marks the
/// service as done.
pub fn receive_upload(state: &ReceiveState, filename_header: Option<&str>, body: &[u8]) -> (res:
    Result<AcceptedUpload, UploadError>)
    ensures
        match res {
            Ok(upload) => {
                &&& upload_outcome(state.received, state.key@, body@) == Ok::<
                    Seq<u8>,
                    UploadError,
                >(upload.plaintext@)
                &&& upload.filename@ == upload_name(
                    match filename_header {
                        Some(value) => Some(value@),
                        None => None,
                    },
                )
            },
            Err(e) => upload_outcome(state.received, state.key@, body@) == Err::<
                Seq<u8>,
                UploadError,
            >(e),
        },
{
    if state.received {
        return Err(UploadError::Gone);
    }
    let filename = upload_filename(filename_header);
    match decrypt_uploaded_blob(body, &state.key) {
        Ok(plaintext) => Ok(AcceptedUpload { filename, plaintext }),
        Err(e) => Err(UploadError::DecryptionFailed(e)),
    }
}

/// The two members that a control frame of an upload may carry.
pub struct ControlFields {
    pub kind: Option<String>,
    pub filename: Option<String>,
}

/// The mathematical value of `ControlFields`.
pub struct ControlFieldsView {
    pub kind: Option<Seq<char>>,
    pub filename: Option<Seq<char>>,
}

impl View for ControlFields {
    type V = ControlFieldsView;

    open spec fn view(&self) -> ControlFieldsView {
        ControlFieldsView { kind: option_text(self.kind), filename: option_text(self.filename) }
    }
}

/// The members `type` and `filename` of a control frame; `None` where the
/// frame is not JSON.
pub open spec fn control_fields(text: Seq<char>) -> Option<ControlFieldsView> {
    match (json_member(text, "type"@), json_member(text, "filename"@)) {
        (Some(kind), Some(filename)) => Some(ControlFieldsView { kind, filename }),
        _ => None,
    }
}

/// Reads the members of a control frame.
pub fn parse_control_fields(text: &str) -> (fields: Option<ControlFields>)
    ensures
        match fields {
            Some(found) => control_fields(text@) == Some(found@),
            None => control_fields(text@) is None,
        },
{
    let kind = match json_string_member(text, "type") {
        Some(kind) => kind,
        None => {
            return None;
        },
    };
    match json_string_member(text, "filename") {
        Some(filename) => Some(ControlFields { kind, filename }),
        None => None,
    }
}

/// One frame of an upload over a WebSocket.
pub enum WsFrame<'a> {
    Text(&'a str),
    Binary(&'a [u8]),
    Close,
    /// A ping or a pong.
    Other,
}

/// What to do after a frame.
#[derive(Debug, Clone, Copy, PartialEq, Eq, Structural)]
pub enum WsStep {
    /// Wait for the next frame.
    Continue,
    /// The upload is complete: decode it.
    Finish,
}

/// An upload over a WebSocket as far as it has come.
pub struct WsUpload {
    pub filename: String,
    pub data: Vec<u8>,
    pub started: bool,
}

/// The mathematical value of a `WsUpload`.
pub struct WsUploadView {
    pub filename: Seq<char>,
    pub data: Seq<u8>,
    pub started: bool,
}

impl View for WsUpload {
    type V = WsUploadView;

    open spec fn view(&self) -> WsUploadView {
        WsUploadView { filename: self.filename@, data: self.data@, started: self.started }
    }
}

impl WsUploadView {
    /// The upload after a text frame with these members. A `start` frame
    /// names the file and opens the upload for data; any other changes
    /// nothing.
    pub open spec fn after_control(self, fields: ControlFieldsView) -> WsUploadView {
        if fields.kind == Some("start"@) {
            WsUploadView {
                filename: match fields.filename {
                    Some(name) => sanitized(name),
                    None => self.filename,
                },
                started: true,
                ..self
            }
        } else {
            self
        }
    }

    /// The upload after a binary frame: the bytes are appended once the
    /// upload has started, and dropped before.
    pub open spec fn after_binary(self, bytes: Seq<u8>) -> WsUploadView {
        if self.started {
            WsUploadView { data: self.data + bytes, ..self }
        } else {
            self
        }
    }
}

/// What follows a text frame with these members: the upload is complete
/// after `done`.
pub open spec fn control_step(fields: ControlFieldsView) -> WsStep {
    if fields.kind == Some("done"@) {
        WsStep::Finish
    } else {
        WsStep::Continue
    }
}

impl WsUpload {
    /// An upload that has not started, to be saved as `received_file`
    /// unless its `start` frame names it.
    pub fn new() -> (upload: WsUpload)
        ensures
            upload@ == (WsUploadView {
                filename: "received_file"@,
                data: Seq::<u8>::empty(),
                started: false,
            }),
    {
        WsUpload { filename: "received_file".to_owned(), data: Vec::new(), started: false }
    }

    /// Takes the members of a text frame.
    pub fn on_control(&mut self, fields: &ControlFields) -> (step: WsStep)
        ensures
            final(self)@ == old(self)@.after_control(fields@),
            step == control_step(fields@),
    {
        proof {
            reveal_strlit("start");
            reveal_strlit("done");
        }
        match &fields.kind {
            Some(kind) => {
                if text_eq(kind.as_str(), "start") {
                    match &fields.filename {
                        Some(name) => {
                            self.filename = sanitize_filename(name.as_str());
                        },
                        None => {},
                    }
                    self.started = true;
                    assert("start"@.len() == 5 && "done"@.len() == 4);
                    WsStep::Continue
                } else if text_eq(kind.as_str(), "done") {
                    WsStep::Finish
                } else {
                    WsStep::Continue
                }
            },
            None => WsStep::Continue,
        }
    }

    /// Takes one frame. A text frame that is not JSON ends the upload with
    /// an error; a close frame and a `done` frame complete it.
    pub fn on_frame(&mut self, frame: WsFrame<'_>) -> (res: Result<WsStep, UploadError>)
        ensures
            match frame {
                WsFrame::Text(text) => match control_fields(text@) {
                    Some(fields) => final(self)@ == old(self)@.after_control(fields) && res == Ok::<
                        WsStep,
                        UploadError,
                    >(control_step(fields)),
                    None => final(self)@ == old(self)@ && res == Err::<WsStep, UploadError>(
                        UploadError::BadControlFrame,
                    ),
                },
                WsFrame::Binary(bytes) => final(self)@ == old(self)@.after_binary(bytes@) && res
                    == Ok::<WsStep, UploadError>(WsStep::Continue),
                WsFrame::Close => final(self)@ == old(self)@ && res == Ok::<WsStep, UploadError>(
                    WsStep::Finish,
                ),
                WsFrame::Other => final(self)@ == old(self)@ && res == Ok::<WsStep, UploadError>(
                    WsStep::Continue,
                ),
            },
    {
        match frame {
            WsFrame::Text(text) => match parse_control_fields(text) {
                Some(fields) => Ok(self.on_control(&fields)),
                None => Err(UploadError::BadControlFrame),
            },
            WsFrame::Binary(bytes) => {
                if self.started {
                    let mut more = vstd::slice::slice_to_vec(bytes);
                    self.data.append(&mut more);
                }
                Ok(WsStep::Continue)
            },
            WsFrame::Close => Ok(WsStep::Finish),
            WsFrame::Other => Ok(WsStep::Continue),
        }
    }

    /// Decodes the completed upload under the key of the service. An upload
    /// without data is refused before the key is tried.
    pub fn finish(self, state: &ReceiveState) -> (res: Result<AcceptedUpload, UploadError>)
        ensures
            match res {
                Ok(upload) => self@.data.len() > 0 && decoded(self@.data, state.key@) == Ok::<
                    Seq<u8>,
                    CodecError,
                >(upload.plaintext@) && upload.filename@ == self@.filename,
                Err(UploadError::NoData) => self@.data.len() == 0,
                Err(UploadError::DecryptionFailed(e)) => self@.data.len() > 0 && decoded(
                    self@.data,
                    state.key@,
                ) == Err::<Seq<u8>, CodecError>(e),
                Err(_) => false,
            },
    {
        if self.data.len() == 0 {
            return Err(UploadError::NoData);
        }
        match decrypt_uploaded_blob(self.data.as_slice(), &state.key) {
            Ok(plaintext) => Ok(AcceptedUpload { filename: self.filename, plaintext }),
            Err(e) => Err(UploadError::DecryptionFailed(e)),
        }
    }
}

} // verus!
