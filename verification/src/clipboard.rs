//! Turning raw clipboard content into entries, and the watcher that decides
//! when the clipboard is read and which captures are passed on.

use vstd::prelude::*;
use vstd::utf8::encode_utf8;
use vstd::string::StringExecFns;
use sha2::Digest;
use crate::model::{Entry, EntryKind, EntryView, Timestamp};
use crate::text::{
    byte_len, chars_of, chars_within, decimal, prefix_within, push_decimal, str_eq, string_of,
};

verus! {

/// The SHA-256 digest of `data`, written as lower-case hexadecimal digits.
pub uninterp spec fn sha256_hex(data: Seq<u8>) -> Seq<char>;

/// The text that lossy UTF-8 decoding makes of `bytes`: the decoded
/// characters, with U+FFFD in place of each ill-formed sequence.
pub uninterp spec fn lossy_text(bytes: Seq<u8>) -> Seq<char>;

/// `sha2::Sha256` fed by `Digest::update` and closed by `Digest::finalize`,
/// the digest then formatted with `{:x}`. The contract claims only that the
/// text depends on the bytes alone.
#[verifier::external_body]
fn hash_data(data: &[u8]) -> (r: String)
    ensures
        r@ == sha256_hex(data@),
{
    let mut hasher = sha2::Sha256::new();
    hasher.update(data);
    let result = hasher.finalize();
    format!("{:x}", result)
}

/// `String::from_utf8_lossy`, made an owned string. The contract claims only
/// that the text depends on the bytes alone.
#[verifier::external_body]
fn utf8_lossy(data: &[u8]) -> (r: String)
    ensures
        r@ == lossy_text(data@),
{
    String::from_utf8_lossy(data).into_owned()
}

/// How many bytes of a rich-text payload's text its preview shows at most.
pub const PREVIEW_BYTES: usize = 100;

/// The preview of an image of `n` bytes.
pub open spec fn image_preview(n: nat) -> Seq<char> {
    "<image "@ + decimal(n) + " bytes>"@
}

/// `body` whole where it takes up no more than `PREVIEW_BYTES` bytes; else
/// the whole characters within its first `PREVIEW_BYTES` bytes, and a mark
/// where it was cut.
pub open spec fn clipped(body: Seq<char>) -> Seq<char> {
    if byte_len(body) > PREVIEW_BYTES {
        body.take(chars_within(body, PREVIEW_BYTES as nat) as int) + " ..."@
    } else {
        body
    }
}

/// The preview of a rich-text payload of `n` bytes that decodes to `body`.
pub open spec fn rtf_preview(n: nat, body: Seq<char>) -> Seq<char> {
    "<rtf "@ + decimal(n) + " bytes> "@ + clipped(body)
}

/// The entry for copied text: the text is its own preview and is what the
/// digest is taken of.
pub open spec fn spec_text_entry(text: Seq<char>, at: Timestamp) -> EntryView {
    EntryView {
        id: None,
        created_at: at,
        kind: EntryKind::Text,
        text: Some(text),
        data: None,
        bytes_len: encode_utf8(text).len() as usize,
        hash: sha256_hex(encode_utf8(text)),
        source_process: None,
        tags: seq![],
    }
}

/// The entry for a copied image.
pub open spec fn spec_image_entry(data: Seq<u8>, at: Timestamp) -> EntryView {
    EntryView {
        id: None,
        created_at: at,
        kind: EntryKind::Image,
        text: Some(image_preview(data.len())),
        data: Some(data),
        bytes_len: data.len() as usize,
        hash: sha256_hex(data),
        source_process: None,
        tags: seq![],
    }
}

/// The entry for copied rich text.
pub open spec fn spec_rtf_entry(data: Seq<u8>, at: Timestamp) -> EntryView {
    EntryView {
        id: None,
        created_at: at,
        kind: EntryKind::Rtf,
        text: Some(rtf_preview(data.len(), lossy_text(data))),
        data: Some(data),
        bytes_len: data.len() as usize,
        hash: sha256_hex(data),
        source_process: None,
        tags: seq![],
    }
}

/// Normalises copied text captured at `at`.
pub fn text_entry(text: String, at: Timestamp) -> (r: Entry)
    ensures
        r@ == spec_text_entry(text@, at),
{
    let bytes_len = text.as_str().len();
    let hash = hash_data(text.as_str().as_bytes());
    let r = Entry {
        id: None,
        created_at: at,
        kind: EntryKind::Text,
        text: Some(text),
        data: None,
        bytes_len,
        hash,
        source_process: None,
        tags: Vec::new(),
    };
    assert(r@.tags =~= seq![]);
    r
}

/// Normalises a copied image captured at `at`.
pub fn image_entry(data: Vec<u8>, at: Timestamp) -> (r: Entry)
    ensures
        r@ == spec_image_entry(data@, at),
{
    let bytes_len = data.len();
    let hash = hash_data(data.as_slice());
    let mut text = String::from_str("<image ");
    push_decimal(&mut text, bytes_len);
    text.append(" bytes>");
    let r = Entry {
        id: None,
        created_at: at,
        kind: EntryKind::Image,
        text: Some(text),
        data: Some(data),
        bytes_len,
        hash,
        source_process: None,
        tags: Vec::new(),
    };
    assert(r@.tags =~= seq![]);
    assert(r@.data == Some(data@)) by {
        assert(data.deep_view() =~= data@);
    }
    r
}

/// Normalises copied rich text captured at `at`.
pub fn rtf_entry(data: Vec<u8>, at: Timestamp) -> (r: Entry)
    ensures
        r@ == spec_rtf_entry(data@, at),
{
    let bytes_len = data.len();
    let hash = hash_data(data.as_slice());
    let body = utf8_lossy(data.as_slice());
    let body_chars = chars_of(body.as_str());
    let mut text = String::from_str("<rtf ");
    push_decimal(&mut text, bytes_len);
    text.append(" bytes> ");
    let fit = prefix_within(body_chars.as_slice(), PREVIEW_BYTES);
    if fit < body_chars.len() {
        let head = string_of(body_chars.as_slice(), 0, fit);
        text.append(head.as_str());
        text.append(" ...");
    } else {
        text.append(body.as_str());
    }
    let r = Entry {
        id: None,
        created_at: at,
        kind: EntryKind::Rtf,
        text: Some(text),
        data: Some(data),
        bytes_len,
        hash,
        source_process: None,
        tags: Vec::new(),
    };
    assert(r@.tags =~= seq![]);
    assert(r@.data == Some(data@)) by {
        assert(data.deep_view() =~= data@);
    }
    assert(text@ =~= rtf_preview(data@.len(), lossy_text(data@)));
    r
}

/// Where the last component of a backslash-separated path begins: after the
/// last backslash, or at the start where there is none.
pub open spec fn file_name_start(path: Seq<char>) -> int
    decreases path.len(),
{
    if path.len() == 0 {
        0
    } else if path.last() == '\\' {
        path.len() as int
    } else {
        file_name_start(path.drop_last())
    }
}

/// The last component of a backslash-separated path.
pub open spec fn file_name(path: Seq<char>) -> Seq<char> {
    path.skip(file_name_start(path))
}

/// The name of a program, given the full path of its image file.
pub fn process_file_name(path: &str) -> (r: String)
    ensures
        r@ == file_name(path@),
{
    let v = chars_of(path);
    let mut i: usize = v.len();
    assert(v@.take(i as int) =~= v@);
    while i > 0 && v[i - 1] != '\\'
        invariant
            i <= v.len(),
            file_name_start(v@) == file_name_start(v@.take(i as int)),
        decreases i,
    {
        assert(v@.take(i as int).drop_last() =~= v@.take(i - 1));
        i -= 1;
    }
    assert(file_name_start(v@.take(i as int)) == i);
    string_of(v.as_slice(), i, v.len())
}

/// A clipboard format that the watcher reads, in the order in which it
/// tries them: an image before rich text, rich text before plain text.
#[derive(Debug, Clone, Copy, PartialEq, Eq, Structural)]
pub enum ClipFormat {
    Image,
    Rtf,
    Text,
}

impl ClipFormat {
    /// The format tried after this one.
    pub open spec fn spec_next(self) -> Option<ClipFormat> {
        match self {
            ClipFormat::Image => Some(ClipFormat::Rtf),
            ClipFormat::Rtf => Some(ClipFormat::Text),
            ClipFormat::Text => None,
        }
    }

    /// The format tried first.
    pub fn first() -> (r: ClipFormat)
        ensures
            r == ClipFormat::Image,
    {
        ClipFormat::Image
    }

    /// The format tried after this one, if any is left.
    pub fn next(self) -> (r: Option<ClipFormat>)
        ensures
            r == self.spec_next(),
    {
        match self {
            ClipFormat::Image => Some(ClipFormat::Rtf),
            ClipFormat::Rtf => Some(ClipFormat::Text),
            ClipFormat::Text => None,
        }
    }
}

/// What a read of the clipboard handed back.
#[derive(Debug, PartialEq, Eq)]
pub enum RawClip {
    /// The bytes of an image or of rich text.
    Bytes(Vec<u8>),
    /// Plain text.
    Text(String),
}

/// Raw content as a mathematical value.
pub enum RawClipView {
    Bytes(Seq<u8>),
    Text(Seq<char>),
}

impl View for RawClip {
    type V = RawClipView;

    open spec fn view(&self) -> RawClipView {
        match *self {
            RawClip::Bytes(b) => RawClipView::Bytes(b@),
            RawClip::Text(t) => RawClipView::Text(t@),
        }
    }
}

/// The entry that content read in `format` makes; none where the content
/// is not what the format holds.
pub open spec fn spec_normalize(format: ClipFormat, raw: RawClipView, at: Timestamp) -> Option<
    EntryView,
> {
    match (format, raw) {
        (ClipFormat::Image, RawClipView::Bytes(b)) => Some(spec_image_entry(b, at)),
        (ClipFormat::Rtf, RawClipView::Bytes(b)) => Some(spec_rtf_entry(b, at)),
        (ClipFormat::Text, RawClipView::Text(t)) => Some(spec_text_entry(t, at)),
        _ => None,
    }
}

/// A capture has no key, no source and no tags yet, and is text, an image
/// or rich text: reading the clipboard never makes a URL entry.
pub proof fn capture_is_fresh(format: ClipFormat, raw: RawClipView, at: Timestamp)
    ensures
        spec_normalize(format, raw, at) matches Some(e) ==> {
            &&& e.id is None
            &&& e.source_process is None
            &&& e.tags.len() == 0
            &&& e.created_at == at
            &&& e.kind != EntryKind::Url
            &&& e.text is Some
            &&& e.kind == EntryKind::Text <==> e.data is None
        },
{
}

/// Normalises content read in `format` at `at`.
pub fn normalize(format: ClipFormat, raw: RawClip, at: Timestamp) -> (r: Option<Entry>)
    ensures
        r.deep_view() == spec_normalize(format, raw@, at),
{
    match (format, raw) {
        (ClipFormat::Image, RawClip::Bytes(b)) => Some(image_entry(b, at)),
        (ClipFormat::Rtf, RawClip::Bytes(b)) => Some(rtf_entry(b, at)),
        (ClipFormat::Text, RawClip::Text(t)) => Some(text_entry(t, at)),
        _ => None,
    }
}

/// What the watcher is told.
#[derive(Debug, PartialEq, Eq)]
pub enum WatchEvent {
    /// The poll interval is over, and the host's change counter reads
    /// `sequence`; zero stands for a counter that is not known.
    Tick { sequence: u32 },
    /// The read that was asked for is done at `at`: `raw` is the content,
    /// or nothing where the format is absent or the clipboard was busy.
    Content { raw: Option<RawClip>, at: Timestamp },
    /// The query that was asked for is done: `path` is the image file of
    /// the application in the foreground, or nothing where it is not known.
    Foreground { path: Option<String> },
}

/// What the watcher asks for.
#[derive(Debug, PartialEq, Eq)]
pub enum WatchAction {
    /// Wait for the poll interval, then report a tick.
    Sleep,
    /// Read the clipboard in this format and report the content.
    Read(ClipFormat),
    /// Ask the host for the application in the foreground and report it.
    QueryForeground,
    /// Pass the entry on to the store's queue, then wait as for `Sleep`.
    Forward(Entry),
}

/// An event as a mathematical value.
pub enum WatchEventView {
    Tick { sequence: u32 },
    Content { raw: Option<RawClipView>, at: Timestamp },
    Foreground { path: Option<Seq<char>> },
}

/// An action as a mathematical value.
pub enum WatchActionView {
    Sleep,
    Read(ClipFormat),
    QueryForeground,
    Forward(EntryView),
}

/// The content of a read as a mathematical value.
pub open spec fn raw_view(raw: Option<RawClip>) -> Option<RawClipView> {
    match raw {
        Some(c) => Some(c@),
        None => None,
    }
}

/// The event that a read is done at `at` and gave `raw`.
pub open spec fn content_event(raw: Option<RawClipView>, at: Timestamp) -> WatchEventView {
    WatchEventView::Content { raw, at }
}

impl View for WatchEvent {
    type V = WatchEventView;

    open spec fn view(&self) -> WatchEventView {
        match *self {
            WatchEvent::Tick { sequence } => WatchEventView::Tick { sequence },
            WatchEvent::Content { raw, at } => WatchEventView::Content { raw: raw_view(raw), at },
            WatchEvent::Foreground { path } => WatchEventView::Foreground { path: path.deep_view() },
        }
    }
}

impl View for WatchAction {
    type V = WatchActionView;

    open spec fn view(&self) -> WatchActionView {
        match *self {
            WatchAction::Sleep => WatchActionView::Sleep,
            WatchAction::Read(f) => WatchActionView::Read(f),
            WatchAction::QueryForeground => WatchActionView::QueryForeground,
            WatchAction::Forward(e) => WatchActionView::Forward(e@),
        }
    }
}

/// Where the watcher stands between two events.
enum Phase {
    /// Waiting for the next tick.
    Idle,
    /// Waiting for the content of a format.
    Reading(ClipFormat),
    /// Holding a capture while the host is asked where it came from.
    Annotating(Entry),
}

/// The watcher's phase as a mathematical value.
pub enum PhaseView {
    Idle,
    Reading(ClipFormat),
    Annotating(EntryView),
}

/// The watcher as a mathematical value.
pub struct WatcherView {
    /// The change counter at the last change that was taken up.
    pub last_sequence: u32,
    /// The digest of the last capture that was taken up.
    pub last_hash: Option<Seq<char>>,
    pub phase: PhaseView,
}

impl WatcherView {
    /// What the watcher in this phase waits for.
    pub open spec fn awaited(self) -> WatchActionView {
        match self.phase {
            PhaseView::Idle => WatchActionView::Sleep,
            PhaseView::Reading(f) => WatchActionView::Read(f),
            PhaseView::Annotating(_) => WatchActionView::QueryForeground,
        }
    }

    /// The watcher and its action after an event.
    ///
    /// A tick with a counter that is known and has changed starts a round
    /// of reads with the first format. Content that is absent, or not what
    /// the format holds, moves the round to the next format and ends it
    /// after the last. Content that is there is normalised; a capture with
    /// the digest of the last one ends the round, any other is held while
    /// the foreground application is asked for. The answer names the
    /// capture's source, by the file name of the path, and the capture is
    /// passed on. An event that the phase does not wait for changes nothing
    /// and is answered with what the phase waits for.
    pub open spec fn step(self, event: WatchEventView) -> (WatcherView, WatchActionView) {
        match (self.phase, event) {
            (PhaseView::Idle, WatchEventView::Tick { sequence }) => {
                if sequence != self.last_sequence && sequence != 0 {
                    (
                        WatcherView {
                            last_sequence: sequence,
                            phase: PhaseView::Reading(ClipFormat::Image),
                            ..self
                        },
                        WatchActionView::Read(ClipFormat::Image),
                    )
                } else {
                    (self, WatchActionView::Sleep)
                }
            },
            (PhaseView::Reading(format), WatchEventView::Content { raw, at }) => {
                let made = match raw {
                    Some(c) => spec_normalize(format, c, at),
                    None => None,
                };
                match made {
                    Some(entry) => {
                        if self.last_hash == Some(entry.hash) {
                            (WatcherView { phase: PhaseView::Idle, ..self }, WatchActionView::Sleep)
                        } else {
                            (
                                WatcherView {
                                    last_hash: Some(entry.hash),
                                    phase: PhaseView::Annotating(entry),
                                    ..self
                                },
                                WatchActionView::QueryForeground,
                            )
                        }
                    },
                    None => match format.spec_next() {
                        Some(f) => (
                            WatcherView { phase: PhaseView::Reading(f), ..self },
                            WatchActionView::Read(f),
                        ),
                        None => (
                            WatcherView { phase: PhaseView::Idle, ..self },
                            WatchActionView::Sleep,
                        ),
                    },
                }
            },
            (PhaseView::Annotating(entry), WatchEventView::Foreground { path }) => {
                let source = match path {
                    Some(p) => Some(file_name(p)),
                    None => None,
                };
                (
                    WatcherView { phase: PhaseView::Idle, ..self },
                    WatchActionView::Forward(entry.with_source(source)),
                )
            },
            _ => (self, self.awaited()),
        }
    }
}

impl WatcherView {
    /// A capture that is held for its source is the last one taken up.
    pub open spec fn wf(self) -> bool {
        self.phase matches PhaseView::Annotating(e) ==> self.last_hash == Some(e.hash)
    }
}

/// A capture is passed on only once it was taken up, and it is taken up
/// only if its digest is another one than that of the capture taken up
/// before it: of two captures of the same content in a row, the second is
/// not passed on.
pub proof fn only_a_new_digest_is_passed_on(w: WatcherView, event: WatchEventView)
    requires
        w.wf(),
    ensures
        w.step(event).0.wf(),
        w.step(event).1 matches WatchActionView::Forward(e) ==> w.last_hash == Some(e.hash)
            && w.step(event).0.last_hash == w.last_hash,
        w.step(event).0.phase matches PhaseView::Annotating(e) ==> w.step(event).0.last_hash
            == Some(e.hash) && (w.last_hash != Some(e.hash) || w.phase is Annotating),
        w.step(event).0.last_hash != w.last_hash ==> w.step(event).1 is QueryForeground,
{
}

/// Watches the clipboard: decides when it is read, in which format, and
/// which captures are passed on. The caller does what the actions ask for
/// and reports back with events.
pub struct ClipboardWatcher {
    last_sequence: u32,
    last_hash: Option<String>,
    phase: Phase,
}

impl View for ClipboardWatcher {
    type V = WatcherView;

    closed spec fn view(&self) -> WatcherView {
        WatcherView {
            last_sequence: self.last_sequence,
            last_hash: self.last_hash.deep_view(),
            phase: match self.phase {
                Phase::Idle => PhaseView::Idle,
                Phase::Reading(f) => PhaseView::Reading(f),
                Phase::Annotating(e) => PhaseView::Annotating(e@),
            },
        }
    }
}

impl ClipboardWatcher {
    /// A watcher that has seen no change and no capture, and waits.
    pub fn new() -> (r: ClipboardWatcher)
        ensures
            r@ == (WatcherView { last_sequence: 0, last_hash: None, phase: PhaseView::Idle }),
    {
        ClipboardWatcher { last_sequence: 0, last_hash: None, phase: Phase::Idle }
    }

    /// Whether `hash` is the digest of the last capture taken up.
    fn is_last_hash(&self, hash: &String) -> (r: bool)
        ensures
            r == (self@.last_hash == Some(hash@)),
    {
        match &self.last_hash {
            Some(h) => str_eq(h.as_str(), hash.as_str()),
            None => false,
        }
    }

    /// Takes an event and says what is to be done next.
    pub fn step(&mut self, event: WatchEvent) -> (action: WatchAction)
        ensures
            (final(self)@, action@) == old(self)@.step(event@),
    {
        let mut phase = Phase::Idle;
        core::mem::swap(&mut self.phase, &mut phase);
        match (phase, event) {
            (Phase::Idle, WatchEvent::Tick { sequence }) => {
                if sequence != self.last_sequence && sequence != 0 {
                    self.last_sequence = sequence;
                    self.phase = Phase::Reading(ClipFormat::Image);
                    WatchAction::Read(ClipFormat::Image)
                } else {
                    WatchAction::Sleep
                }
            },
            (Phase::Reading(format), WatchEvent::Content { raw, at }) => {
                let made = match raw {
                    Some(c) => normalize(format, c, at),
                    None => None,
                };
                match made {
                    Some(entry) => {
                        if self.is_last_hash(&entry.hash) {
                            WatchAction::Sleep
                        } else {
                            self.last_hash = Some(entry.hash.clone());
                            self.phase = Phase::Annotating(entry);
                            WatchAction::QueryForeground
                        }
                    },
                    None => match format.next() {
                        Some(f) => {
                            self.phase = Phase::Reading(f);
                            WatchAction::Read(f)
                        },
                        None => WatchAction::Sleep,
                    },
                }
            },
            (Phase::Annotating(entry), WatchEvent::Foreground { path }) => {
                let mut entry = entry;
                entry.source_process = match path {
                    Some(p) => Some(process_file_name(p.as_str())),
                    None => None,
                };
                WatchAction::Forward(entry)
            },
            (Phase::Idle, _) => WatchAction::Sleep,
            (Phase::Reading(format), _) => {
                self.phase = Phase::Reading(format);
                WatchAction::Read(format)
            },
            (Phase::Annotating(entry), _) => {
                self.phase = Phase::Annotating(entry);
                WatchAction::QueryForeground
            },
        }
    }

    /// Takes the content of a read as an event stamped with the present
    /// instant.
    pub fn content_read(&mut self, raw: Option<RawClip>) -> (action: WatchAction)
        ensures
            exists|at: Timestamp|
                (final(self)@, action@) == old(self)@.step(
                    #[trigger] content_event(raw_view(raw), at),
                ),
    {
        let at = Timestamp::now();
        let event = WatchEvent::Content { raw, at };
        assert(event@ == content_event(raw_view(raw), at));
        self.step(event)
    }
}

} // verus!
