//! The data model shared by the watcher, the store and the protocol.

use vstd::prelude::*;
use crate::text::str_eq;

verus! {

/// What sort of content an entry carries. The set is closed.
#[derive(Debug, Clone, Copy, PartialEq, Eq, Structural)]
pub enum EntryKind {
    Text,
    Url,
    Image,
    Rtf,
}

impl EntryKind {
    /// The lower-case name by which a kind is stored and sent.
    pub open spec fn spec_name(self) -> Seq<char> {
        match self {
            EntryKind::Text => "text"@,
            EntryKind::Url => "url"@,
            EntryKind::Image => "image"@,
            EntryKind::Rtf => "rtf"@,
        }
    }

    /// The kind that a stored name stands for; an unknown name reads as text.
    pub open spec fn spec_from_name(name: Seq<char>) -> EntryKind {
        if name == "url"@ {
            EntryKind::Url
        } else if name == "image"@ {
            EntryKind::Image
        } else if name == "rtf"@ {
            EntryKind::Rtf
        } else {
            EntryKind::Text
        }
    }

    pub fn name(&self) -> (r: &'static str)
        ensures
            r@ == self.spec_name(),
    {
        match self {
            EntryKind::Text => "text",
            EntryKind::Url => "url",
            EntryKind::Image => "image",
            EntryKind::Rtf => "rtf",
        }
    }

    pub fn from_name(name: &str) -> (r: EntryKind)
        ensures
            r == Self::spec_from_name(name@),
    {
        if str_eq(name, "url") {
            EntryKind::Url
        } else if str_eq(name, "image") {
            EntryKind::Image
        } else if str_eq(name, "rtf") {
            EntryKind::Rtf
        } else {
            EntryKind::Text
        }
    }
}

/// Reading a kind's own name gives the kind back.
pub proof fn lemma_kind_name_round_trip(kind: EntryKind)
    ensures
        EntryKind::spec_from_name(kind.spec_name()) == kind,
{
    reveal_strlit("text");
    reveal_strlit("url");
    reveal_strlit("image");
    reveal_strlit("rtf");
    assert("text"@.len() == 4 && "url"@.len() == 3 && "image"@.len() == 5);
    assert("rtf"@[0] == 'r' && "url"@[0] == 'u');
}

/// The RFC 3339 text of the UTC instant that lies `secs` whole seconds and
/// `nanos` nanoseconds after the Unix epoch, where the calendar can
/// represent that instant.
pub uninterp spec fn rfc3339_text(secs: i64, nanos: u32) -> Option<Seq<char>>;

/// The calendar can represent the instant.
pub open spec fn is_instant(secs: i64, nanos: u32) -> bool {
    rfc3339_text(secs, nanos) is Some
}

/// `chrono::DateTime::<Utc>::from_timestamp`, which gives no instant for
/// seconds or nanoseconds out of the calendar's range, and then
/// `DateTime::to_rfc3339` on the instant. The contract claims only that the
/// outcome depends on the two numbers alone.
#[verifier::external_body]
fn rfc3339_of(secs: i64, nanos: u32) -> (r: Option<String>)
    ensures
        r matches Some(s) ==> rfc3339_text(secs, nanos) == Some(s@),
        r is None ==> rfc3339_text(secs, nanos) is None,
{
    match chrono::DateTime::from_timestamp(secs, nanos) {
        Some(instant) => Some(instant.to_rfc3339()),
        None => None,
    }
}

/// `chrono::Utc::now`, taken apart by `DateTime::timestamp` and
/// `DateTime::timestamp_subsec_nanos`. Nothing is claimed of the time itself;
/// the two parts of any instant that chrono hands out are ones from which
/// `from_timestamp` builds that instant again.
#[verifier::external_body]
fn clock_parts() -> (r: (i64, u32))
    ensures
        is_instant(r.0, r.1),
{
    let instant = chrono::Utc::now();
    (instant.timestamp(), instant.timestamp_subsec_nanos())
}

/// A UTC instant: whole seconds since the Unix epoch and the nanoseconds
/// within the second. Every value is one the calendar can represent.
#[derive(Debug, Clone, Copy, PartialEq, Eq, Structural)]
pub struct Timestamp {
    secs: i64,
    nanos: u32,
}

impl Timestamp {
    #[verifier::type_invariant]
    spec fn representable(self) -> bool {
        is_instant(self.secs, self.nanos)
    }

    pub closed spec fn spec_secs(&self) -> i64 {
        self.secs
    }

    pub closed spec fn spec_nanos(&self) -> u32 {
        self.nanos
    }

    /// `self` is not later than `other`.
    pub open spec fn le(self, other: Timestamp) -> bool {
        self.spec_secs() < other.spec_secs() || (self.spec_secs() == other.spec_secs()
            && self.spec_nanos() <= other.spec_nanos())
    }

    /// The instant with these parts, if the calendar has one.
    pub fn new(secs: i64, nanos: u32) -> (r: Option<Timestamp>)
        ensures
            r is Some <==> is_instant(secs, nanos),
            r matches Some(t) ==> t.spec_secs() == secs && t.spec_nanos() == nanos,
    {
        match rfc3339_of(secs, nanos) {
            Some(_) => Some(Timestamp { secs, nanos }),
            None => None,
        }
    }

    /// The present instant. Which one that is lies with the clock; whichever
    /// it is, its parts are those of an instant that the calendar can
    /// represent, so that `new` makes the same instant of them again.
    pub fn now() -> (r: Timestamp)
        ensures
            is_instant(r.spec_secs(), r.spec_nanos()),
    {
        let (secs, nanos) = clock_parts();
        Timestamp { secs, nanos }
    }

    #[verifier::when_used_as_spec(spec_secs)]
    pub fn secs(&self) -> (r: i64)
        ensures
            r == self.spec_secs(),
    {
        self.secs
    }

    #[verifier::when_used_as_spec(spec_nanos)]
    pub fn nanos(&self) -> (r: u32)
        ensures
            r == self.spec_nanos(),
    {
        self.nanos
    }

    pub fn at_or_before(&self, other: &Timestamp) -> (r: bool)
        ensures
            r == self.le(*other),
    {
        self.secs < other.secs || (self.secs == other.secs && self.nanos <= other.nanos)
    }

    /// The instant as RFC 3339 text.
    pub fn to_rfc3339(&self) -> (s: String)
        ensures
            rfc3339_text(self.spec_secs(), self.spec_nanos()) == Some(s@),
    {
        proof {
            use_type_invariant(self);
        }
        match rfc3339_of(self.secs, self.nanos) {
            Some(s) => s,
            None => {
                assert(false);
                String::new()
            },
        }
    }
}

/// One normalised clipboard capture.
#[derive(Debug, PartialEq, Eq)]
pub struct Entry {
    /// The store's key for the row; absent until the entry is first stored.
    pub id: Option<u64>,
    /// When the content was captured.
    pub created_at: Timestamp,
    pub kind: EntryKind,
    /// The content itself for text, a synthesised preview for the other kinds.
    pub text: Option<String>,
    /// The raw payload of a non-text capture.
    pub data: Option<Vec<u8>>,
    /// The size of the captured content in bytes.
    pub bytes_len: usize,
    /// The digest of the captured bytes, by which the store tells entries apart.
    pub hash: String,
    /// The name of the application in the foreground at capture time.
    pub source_process: Option<String>,
    pub tags: Vec<String>,
}

/// An entry as a mathematical value: text as sequences of characters, the
/// payload as a sequence of bytes.
pub struct EntryView {
    pub id: Option<u64>,
    pub created_at: Timestamp,
    pub kind: EntryKind,
    pub text: Option<Seq<char>>,
    pub data: Option<Seq<u8>>,
    pub bytes_len: usize,
    pub hash: Seq<char>,
    pub source_process: Option<Seq<char>>,
    pub tags: Seq<Seq<char>>,
}

impl View for Entry {
    type V = EntryView;

    open spec fn view(&self) -> EntryView {
        EntryView {
            id: self.id,
            created_at: self.created_at,
            kind: self.kind,
            text: self.text.deep_view(),
            data: self.data.deep_view(),
            bytes_len: self.bytes_len,
            hash: self.hash@,
            source_process: self.source_process.deep_view(),
            tags: self.tags.deep_view(),
        }
    }
}

impl DeepView for Entry {
    type V = EntryView;

    open spec fn deep_view(&self) -> EntryView {
        self@
    }
}

impl EntryView {
    /// The same entry under another key.
    pub open spec fn with_id(self, id: Option<u64>) -> EntryView {
        EntryView { id, ..self }
    }

    /// The same entry with other tags.
    pub open spec fn with_tags(self, tags: Seq<Seq<char>>) -> EntryView {
        EntryView { tags, ..self }
    }

    /// The same entry with another source application.
    pub open spec fn with_source(self, source_process: Option<Seq<char>>) -> EntryView {
        EntryView { source_process, ..self }
    }
}

/// A copy of an optional string.
pub fn copy_opt_string(o: &Option<String>) -> (r: Option<String>)
    ensures
        r.deep_view() == o.deep_view(),
{
    match o {
        Some(s) => Some(s.clone()),
        None => None,
    }
}

/// A copy of a list of strings.
pub fn copy_strings(v: &Vec<String>) -> (r: Vec<String>)
    ensures
        r.deep_view() == v.deep_view(),
{
    let mut r: Vec<String> = Vec::new();
    let mut i: usize = 0;
    while i < v.len()
        invariant
            i <= v.len(),
            r@.len() == i,
            forall|j: int| 0 <= j < i ==> r@[j]@ == v@[j]@,
        decreases v.len() - i,
    {
        r.push(v[i].clone());
        i += 1;
    }
    assert(r.deep_view() =~= v.deep_view());
    r
}

/// A copy of an optional payload.
pub fn copy_opt_bytes(o: &Option<Vec<u8>>) -> (r: Option<Vec<u8>>)
    ensures
        r.deep_view() == o.deep_view(),
{
    match o {
        Some(b) => {
            let c = b.clone();
            assert(c@ =~= b@);
            assert(c.deep_view() =~= b.deep_view());
            Some(c)
        },
        None => None,
    }
}

impl Clone for Entry {
    fn clone(&self) -> (r: Self)
        ensures
            r@ == self@,
    {
        Entry {
            id: self.id,
            created_at: self.created_at,
            kind: self.kind,
            text: copy_opt_string(&self.text),
            data: copy_opt_bytes(&self.data),
            bytes_len: self.bytes_len,
            hash: self.hash.clone(),
            source_process: copy_opt_string(&self.source_process),
            tags: copy_strings(&self.tags),
        }
    }
}

} // verus!
