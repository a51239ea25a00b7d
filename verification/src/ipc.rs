//! The protocol between the daemon and its clients: requests, responses,
//! the length-prefixed frames that carry them, and the server's dispatch of
//! a request against the store.

use vstd::prelude::*;
use vstd::std_specs::convert::FromSpecImpl;
use vstd::string::StringExecFns;
use crate::db::{Database, ImportReport, InsertOutcome, MAX_ID, StoreError, StoreView};
use crate::model::{Entry, EntryView, rfc3339_text};

verus! {

/// A request as a client sends it.
#[derive(Debug, PartialEq, Eq)]
pub struct Request {
    pub kind: RequestKind,
}

/// What a client can ask for.
#[derive(Debug, PartialEq, Eq)]
pub enum RequestKind {
    List,
    Search { query: String },
    Paste { id: u64 },
    AddTag { id: u64, tag: String },
    RemoveTag { id: u64, tag: String },
    Export { path: String },
    Import { path: String },
}

/// A request as a mathematical value.
pub enum RequestView {
    List,
    Search { query: Seq<char> },
    Paste { id: u64 },
    AddTag { id: u64, tag: Seq<char> },
    RemoveTag { id: u64, tag: Seq<char> },
    Export { path: Seq<char> },
    Import { path: Seq<char> },
}

impl View for RequestKind {
    type V = RequestView;

    open spec fn view(&self) -> RequestView {
        match *self {
            RequestKind::List => RequestView::List,
            RequestKind::Search { query } => RequestView::Search { query: query@ },
            RequestKind::Paste { id } => RequestView::Paste { id },
            RequestKind::AddTag { id, tag } => RequestView::AddTag { id, tag: tag@ },
            RequestKind::RemoveTag { id, tag } => RequestView::RemoveTag { id, tag: tag@ },
            RequestKind::Export { path } => RequestView::Export { path: path@ },
            RequestKind::Import { path } => RequestView::Import { path: path@ },
        }
    }
}

impl View for Request {
    type V = RequestView;

    open spec fn view(&self) -> RequestView {
        self.kind@
    }
}

/// What a client is shown of one entry.
#[derive(Debug, Clone, PartialEq, Eq)]
pub struct EntrySummary {
    pub id: u64,
    pub preview: String,
    pub created_at: String,
    pub kind: String,
    pub source_process: Option<String>,
    pub tags: Vec<String>,
}

/// A summary as a mathematical value.
pub struct SummaryView {
    pub id: u64,
    pub preview: Seq<char>,
    pub created_at: Seq<char>,
    pub kind: Seq<char>,
    pub source_process: Option<Seq<char>>,
    pub tags: Seq<Seq<char>>,
}

impl View for EntrySummary {
    type V = SummaryView;

    open spec fn view(&self) -> SummaryView {
        SummaryView {
            id: self.id,
            preview: self.preview@,
            created_at: self.created_at@,
            kind: self.kind@,
            source_process: self.source_process.deep_view(),
            tags: self.tags.deep_view(),
        }
    }
}

impl DeepView for EntrySummary {
    type V = SummaryView;

    open spec fn deep_view(&self) -> SummaryView {
        self@
    }
}

/// The summary of an entry: its key, or zero where it has none; its preview
/// text, or a stand-in where it has none; its capture time as RFC 3339
/// text; the name of its kind; its source and its tags.
pub open spec fn summary_of(e: EntryView) -> SummaryView {
    SummaryView {
        id: match e.id {
            Some(id) => id,
            None => 0,
        },
        preview: match e.text {
            Some(t) => t,
            None => "<non-text entry>"@,
        },
        created_at: rfc3339_text(e.created_at.spec_secs(), e.created_at.spec_nanos())->0,
        kind: e.kind.spec_name(),
        source_process: e.source_process,
        tags: e.tags,
    }
}

/// The summaries of `entries`, in order.
pub open spec fn summaries_of(entries: Seq<EntryView>) -> Seq<SummaryView> {
    Seq::new(entries.len(), |i: int| summary_of(entries[i]))
}

impl From<Entry> for EntrySummary {
    fn from(entry: Entry) -> (r: EntrySummary)
        ensures
            r@ == summary_of(entry@),
    {
        let created_at = entry.created_at.to_rfc3339();
        let kind = String::from_str(entry.kind.name());
        EntrySummary {
            id: match entry.id {
                Some(id) => id,
                None => 0,
            },
            preview: match entry.text {
                Some(t) => t,
                None => String::from_str("<non-text entry>"),
            },
            created_at,
            kind,
            source_process: entry.source_process,
            tags: entry.tags,
        }
    }
}

impl FromSpecImpl<Entry> for EntrySummary {
    open spec fn obeys_from_spec() -> bool {
        false
    }

    open spec fn from_spec(v: Entry) -> EntrySummary {
        choose|s: EntrySummary| s@ == summary_of(v@)
    }
}

/// What the daemon answers: the entries the client is to show.
#[derive(Debug, PartialEq, Eq)]
pub struct Response {
    pub entries: Vec<EntrySummary>,
}

impl View for Response {
    type V = Seq<SummaryView>;

    open spec fn view(&self) -> Seq<SummaryView> {
        self.entries.deep_view()
    }
}

impl Response {
    /// The response that shows `entries`.
    pub fn of(entries: Vec<Entry>) -> (r: Response)
        ensures
            r@ == summaries_of(entries.deep_view()),
    {
        let ghost all = entries.deep_view();
        let n = entries.len();
        let mut stack = entries;
        let mut reversed: Vec<EntrySummary> = Vec::new();
        while stack.len() > 0
            invariant
                stack@.len() + reversed@.len() == n,
                n == all.len(),
                stack.deep_view() == all.take(stack@.len() as int),
                forall|j: int|
                    0 <= j < reversed@.len() ==> (#[trigger] reversed@[j])@ == summary_of(
                        all[n - 1 - j],
                    ),
            decreases stack.len(),
        {
            let ghost m = stack@.len();
            let ghost before = stack;
            let entry = stack.pop().unwrap();
            assert(entry@ == all[m - 1]) by {
                assert(entry@ == before.deep_view()[m - 1]);
            }
            assert(stack.deep_view() =~= all.take(m - 1)) by {
                assert forall|j: int| 0 <= j < m - 1 implies stack.deep_view()[j] == all[j] by {
                    assert(stack@[j] == before@[j]);
                    assert(before.deep_view()[j] == all[j]);
                }
            }
            reversed.push(EntrySummary::from(entry));
        }
        let mut summaries: Vec<EntrySummary> = Vec::new();
        while reversed.len() > 0
            invariant
                reversed@.len() + summaries@.len() == n,
                n == all.len(),
                forall|j: int|
                    0 <= j < reversed@.len() ==> (#[trigger] reversed@[j])@ == summary_of(
                        all[n - 1 - j],
                    ),
                forall|j: int|
                    0 <= j < summaries@.len() ==> (#[trigger] summaries@[j])@ == summary_of(all[j]),
            decreases reversed.len(),
        {
            let s = reversed.pop().unwrap();
            summaries.push(s);
        }
        let r = Response { entries: summaries };
        assert(r@ =~= summaries_of(all));
        r
    }
}

/// How many entries a listing or a search shows at most.
pub const LIST_LIMIT: usize = 256;

/// The length of a frame's header, which holds the length of its payload.
pub const HEADER_LEN: usize = 4;

/// `n`, which is below 2^32, as four bytes, the least significant first.
pub open spec fn le4(n: nat) -> Seq<u8> {
    seq![
        (n % 256) as u8,
        ((n / 256) % 256) as u8,
        ((n / 65536) % 256) as u8,
        ((n / 16777216) % 256) as u8,
    ]
}

/// The number that four bytes hold, the least significant first.
pub open spec fn le4_value(b: Seq<u8>) -> nat {
    (b[0] + 256 * b[1] + 65536 * b[2] + 16777216 * b[3]) as nat
}

/// The frame that carries `payload`: its length in four bytes, then itself.
pub open spec fn frame_of(payload: Seq<u8>) -> Seq<u8> {
    le4(payload.len()) + payload
}

/// The first frame in `bytes`, with the number of bytes it takes up; none
/// where `bytes` end before the frame does.
pub open spec fn first_frame(bytes: Seq<u8>) -> Option<(Seq<u8>, nat)> {
    if bytes.len() < HEADER_LEN {
        None
    } else {
        let n = le4_value(bytes.take(HEADER_LEN as int));
        if bytes.len() < HEADER_LEN + n {
            None
        } else {
            Some((bytes.subrange(HEADER_LEN as int, HEADER_LEN + n), (HEADER_LEN + n) as nat))
        }
    }
}

/// Four bytes hold the number they were made of.
pub proof fn le4_round_trip(n: nat)
    requires
        n <= u32::MAX,
    ensures
        le4(n).len() == 4,
        le4_value(le4(n)) == n,
{
}

/// A frame, whatever follows it, is read back as the payload it was made
/// of, and takes up the header and the payload.
pub proof fn frame_round_trip(payload: Seq<u8>, rest: Seq<u8>)
    requires
        payload.len() <= u32::MAX,
    ensures
        first_frame(frame_of(payload) + rest) == Some(
            (payload, (HEADER_LEN + payload.len()) as nat),
        ),
{
    let bytes = frame_of(payload) + rest;
    le4_round_trip(payload.len());
    assert(bytes.take(HEADER_LEN as int) =~= le4(payload.len()));
    assert(bytes.subrange(HEADER_LEN as int, HEADER_LEN + payload.len()) =~= payload);
}

/// The frame that carries `payload`; none where the payload is too long for
/// its length to be written in the header.
pub fn encode_frame(payload: &[u8]) -> (r: Option<Vec<u8>>)
    ensures
        payload@.len() <= u32::MAX ==> r is Some && r->0@ == frame_of(payload@),
        payload@.len() > u32::MAX ==> r is None,
{
    let n = payload.len();
    if n > 0xffff_ffff {
        return None;
    }
    let mut frame: Vec<u8> = Vec::new();
    frame.push((n % 256) as u8);
    frame.push(((n / 256) % 256) as u8);
    frame.push(((n / 65536) % 256) as u8);
    frame.push(((n / 16777216) % 256) as u8);
    assert(frame@ =~= le4(n as nat));
    frame.extend_from_slice(payload);
    assert(frame@ =~= frame_of(payload@));
    Some(frame)
}

/// The length of the payload that follows a header.
pub fn payload_len(header: [u8; 4]) -> (n: u32)
    ensures
        n == le4_value(header@),
{
    let b0 = header[0] as u32;
    let b1 = header[1] as u32;
    let b2 = header[2] as u32;
    let b3 = header[3] as u32;
    b0 + 256 * b1 + 65536 * b2 + 16777216 * b3
}

/// What reading a frame from the front of a buffer gave.
#[derive(Debug, PartialEq, Eq)]
pub enum Decoded {
    /// The buffer ends before the frame does.
    Incomplete,
    /// The payload of the first frame, and the bytes the frame took up.
    Frame { payload: Vec<u8>, consumed: usize },
}

/// Reads the first frame from the front of `bytes`.
pub fn decode_frame(bytes: &[u8]) -> (r: Decoded)
    ensures
        match r {
            Decoded::Incomplete => first_frame(bytes@) is None,
            Decoded::Frame { payload, consumed } => first_frame(bytes@) == Some(
                (payload@, consumed as nat),
            ),
        },
{
    if bytes.len() < HEADER_LEN {
        return Decoded::Incomplete;
    }
    let header = [bytes[0], bytes[1], bytes[2], bytes[3]];
    assert(header@ =~= bytes@.take(HEADER_LEN as int));
    let n = payload_len(header) as usize;
    if bytes.len() - HEADER_LEN < n {
        return Decoded::Incomplete;
    }
    let mut payload: Vec<u8> = Vec::new();
    let mut i: usize = 0;
    while i < n
        invariant
            i <= n,
            HEADER_LEN + n <= bytes.len(),
            payload@ == bytes@.subrange(HEADER_LEN as int, HEADER_LEN + i),
        decreases n - i,
    {
        payload.push(bytes[HEADER_LEN + i]);
        i += 1;
        assert(payload@ =~= bytes@.subrange(HEADER_LEN as int, HEADER_LEN + i));
    }
    Decoded::Frame { payload, consumed: HEADER_LEN + n }
}

/// What the listing of a store shows: its most recent entries.
pub open spec fn listing(s: StoreView) -> Seq<SummaryView> {
    summaries_of(s.recent(LIST_LIMIT as nat))
}

/// What a search of a store shows; the empty query shows the listing.
pub open spec fn search_result(s: StoreView, query: Seq<char>) -> Seq<SummaryView> {
    if query.len() == 0 {
        listing(s)
    } else {
        summaries_of(s.search(query, LIST_LIMIT as nat))
    }
}

/// The request is answered from the store without a change to it.
pub open spec fn reads_only(request: RequestView) -> bool {
    !(request is AddTag) && !(request is RemoveTag)
}

/// What the server does next for a request.
#[derive(Debug, PartialEq, Eq)]
pub enum Step {
    /// Send this response.
    Reply(Response),
    /// Write `entries` to the file at `path`; if that went through, send
    /// the listing.
    Export { path: String, entries: Vec<Entry> },
    /// Read the entries in the file at `path` and hand them to
    /// `handle_import`.
    Import { path: String },
}

/// The daemon's side of the protocol, over the store it serves.
pub struct Server {
    pipe_name: String,
    db: Database,
}

impl View for Server {
    type V = StoreView;

    closed spec fn view(&self) -> StoreView {
        self.db@
    }
}

impl Server {
    /// The invariant of the server: that of its store.
    pub closed spec fn wf(&self) -> bool {
        self.db.wf()
    }

    /// The name of the channel the server listens on.
    pub closed spec fn spec_pipe_name(&self) -> Seq<char> {
        self.pipe_name@
    }

    pub fn new(pipe_name: String, db: Database) -> (r: Server)
        requires
            db.wf(),
        ensures
            r.wf(),
            r@ == db@,
            r.spec_pipe_name() == pipe_name@,
    {
        Server { pipe_name, db }
    }

    /// The name of the channel the server listens on.
    pub fn pipe_name(&self) -> (r: &str)
        ensures
            r@ == self.spec_pipe_name(),
    {
        self.pipe_name.as_str()
    }

    /// The store behind the server.
    pub fn db(&self) -> (r: &Database)
        ensures
            r@ == self@,
            self.wf() ==> r.wf(),
    {
        &self.db
    }

    /// Takes in a capture from the watcher, as `Database::insert_entry` does.
    pub fn ingest(&mut self, entry: &Entry) -> (r: Result<InsertOutcome, StoreError>)
        requires
            old(self).wf(),
        ensures
            final(self).wf(),
            final(self).spec_pipe_name() == old(self).spec_pipe_name(),
            final(self)@ == old(self)@.insert(entry@),
            final(self)@.rows.len() <= final(self)@.max_entries,
            old(self)@.has_hash(entry@.hash) ==> r == Ok::<InsertOutcome, StoreError>(
                InsertOutcome::Duplicate,
            ),
            old(self)@.admits(entry@) ==> r matches Ok(InsertOutcome::Stored { .. }),
            match r {
                Ok(InsertOutcome::Duplicate) => old(self)@.has_hash(entry@.hash),
                Ok(InsertOutcome::Stored { id, evicted }) => {
                    &&& old(self)@.admits(entry@)
                    &&& id == old(self)@.last_id + 1
                    &&& evicted@ == old(self)@.grown(entry@).evicted_ids()
                },
                Err(e) => {
                    &&& e == StoreError::IdsExhausted
                    &&& !old(self)@.has_hash(entry@.hash)
                    &&& old(self)@.last_id >= MAX_ID
                },
            },
    {
        self.db.insert_entry(entry)
    }

    /// The listing: the most recent entries, newest first.
    pub fn handle_list(&self) -> (r: Response)
        ensures
            r@ == listing(self@),
    {
        Response::of(self.db.list_recent(LIST_LIMIT))
    }

    /// The entries that match `query`; the listing where the query is empty.
    pub fn handle_search(&self, query: &str) -> (r: Response)
        requires
            self.wf(),
        ensures
            r@ == search_result(self@, query@),
    {
        if query.is_empty() {
            self.handle_list()
        } else {
            Response::of(self.db.search(query, LIST_LIMIT))
        }
    }

    /// The answer to a paste: the listing. Pasting is the client's own
    /// affair, so the key is taken without a look at the store.
    pub fn handle_paste(&self, id: u64) -> (r: Response)
        ensures
            r@ == listing(self@),
    {
        self.handle_list()
    }

    /// Adds a tag to a row and answers with the listing.
    pub fn handle_add_tag(&mut self, id: u64, tag: &str) -> (r: Result<Response, StoreError>)
        requires
            old(self).wf(),
        ensures
            final(self).wf(),
            final(self).spec_pipe_name() == old(self).spec_pipe_name(),
            r is Ok <==> old(self)@.has_id(id),
            r matches Ok(resp) ==> {
                &&& final(self)@ == old(self)@.add_tag(id, tag@)
                &&& resp@ == listing(final(self)@)
            },
            r matches Err(e) ==> e == StoreError::NotFound && final(self)@ == old(self)@,
    {
        match self.db.add_tag(id, tag) {
            Ok(()) => Ok(self.handle_list()),
            Err(e) => Err(e),
        }
    }

    /// Removes a tag from a row and answers with the listing.
    pub fn handle_remove_tag(&mut self, id: u64, tag: &str) -> (r: Result<Response, StoreError>)
        requires
            old(self).wf(),
        ensures
            final(self).wf(),
            final(self).spec_pipe_name() == old(self).spec_pipe_name(),
            r is Ok <==> old(self)@.has_id(id),
            r matches Ok(resp) ==> {
                &&& final(self)@ == old(self)@.remove_tag(id, tag@)
                &&& resp@ == listing(final(self)@)
            },
            r matches Err(e) ==> e == StoreError::NotFound && final(self)@ == old(self)@,
    {
        match self.db.remove_tag(id, tag) {
            Ok(()) => Ok(self.handle_list()),
            Err(e) => Err(e),
        }
    }

    /// What an export writes: every row in full, oldest first.
    pub fn handle_export(&self) -> (r: Vec<Entry>)
        ensures
            r.deep_view() == self@.rows,
    {
        self.db.export_to_json()
    }

    /// Takes in the entries read from an import file and answers with the
    /// listing.
    pub fn handle_import(&mut self, entries: &Vec<Entry>) -> (r: Result<
        (ImportReport, Response),
        StoreError,
    >)
        requires
            old(self).wf(),
        ensures
            final(self).wf(),
            final(self).spec_pipe_name() == old(self).spec_pipe_name(),
            r is Ok <==> old(self)@.takes_all(entries.deep_view()),
            old(self)@.last_id + entries@.len() <= MAX_ID ==> r is Ok,
            r matches Ok((report, resp)) ==> {
                &&& final(self)@ == old(self)@.insert_all(entries.deep_view())
                &&& report.imported == old(self)@.imported(entries.deep_view())
                &&& report.imported + report.skipped == entries@.len()
                &&& resp@ == listing(final(self)@)
            },
            r matches Err(e) ==> {
                &&& e == StoreError::IdsExhausted
                &&& exists|n: int|
                    0 <= n < entries@.len() && !(#[trigger] old(self)@.has_room_at(
                        entries.deep_view(),
                        n,
                    )) && final(self)@ == old(self)@.insert_all(entries.deep_view().take(n))
            },
    {
        match self.db.import_from_json(entries) {
            Ok(report) => Ok((report, self.handle_list())),
            Err(e) => Err(e),
        }
    }

    /// Decides what is done for a request. A listing, a search and a paste
    /// are answered from the store as it is; a tag is added or removed and
    /// the listing sent; an export and an import go back to the caller, who
    /// has the files.
    pub fn dispatch(&mut self, request: Request) -> (r: Result<Step, StoreError>)
        requires
            old(self).wf(),
        ensures
            final(self).wf(),
            final(self).spec_pipe_name() == old(self).spec_pipe_name(),
            reads_only(request@) ==> final(self)@ == old(self)@ && r is Ok,
            request@ matches RequestView::AddTag { id, .. } ==> (r is Ok <==> old(self)@.has_id(id)),
            request@ matches RequestView::RemoveTag { id, .. } ==> (r is Ok <==> old(self)@.has_id(
                id,
            )),
            match request@ {
                RequestView::List => r matches Ok(Step::Reply(resp))
                    && resp@ == listing(old(self)@),
                RequestView::Paste { id } => r matches Ok(
                    Step::Reply(resp),
                ) && resp@ == listing(old(self)@),
                RequestView::Search { query } => r matches Ok(
                    Step::Reply(resp),
                ) && resp@ == search_result(old(self)@, query),
                RequestView::AddTag { id, tag } => match r {
                    Ok(Step::Reply(resp)) => {
                        &&& old(self)@.has_id(id)
                        &&& final(self)@ == old(self)@.add_tag(id, tag)
                        &&& resp@ == listing(final(self)@)
                    },
                    Ok(_) => false,
                    Err(e) => {
                        &&& e == StoreError::NotFound
                        &&& !old(self)@.has_id(id)
                        &&& final(self)@ == old(self)@
                    },
                },
                RequestView::RemoveTag { id, tag } => match r {
                    Ok(Step::Reply(resp)) => {
                        &&& old(self)@.has_id(id)
                        &&& final(self)@ == old(self)@.remove_tag(id, tag)
                        &&& resp@ == listing(final(self)@)
                    },
                    Ok(_) => false,
                    Err(e) => {
                        &&& e == StoreError::NotFound
                        &&& !old(self)@.has_id(id)
                        &&& final(self)@ == old(self)@
                    },
                },
                RequestView::Export { path } => r matches Ok(
                    Step::Export { path: p, entries },
                ) && p@ == path && entries.deep_view() == old(self)@.rows,
                RequestView::Import { path } => r matches Ok(
                    Step::Import { path: p },
                ) && p@ == path,
            },
    {
        match request.kind {
            RequestKind::List => Ok(Step::Reply(self.handle_list())),
            RequestKind::Search { query } => Ok(Step::Reply(self.handle_search(query.as_str()))),
            RequestKind::Paste { id } => Ok(Step::Reply(self.handle_paste(id))),
            RequestKind::AddTag { id, tag } => match self.handle_add_tag(id, tag.as_str()) {
                Ok(resp) => Ok(Step::Reply(resp)),
                Err(e) => Err(e),
            },
            RequestKind::RemoveTag { id, tag } => match self.handle_remove_tag(id, tag.as_str()) {
                Ok(resp) => Ok(Step::Reply(resp)),
                Err(e) => Err(e),
            },
            RequestKind::Export { path } => {
                let entries = self.handle_export();
                Ok(Step::Export { path, entries })
            },
            RequestKind::Import { path } => Ok(Step::Import { path }),
        }
    }

    /// One turn of a session: what is done for the frame that came in,
    /// `parsed` being the request it held, or nothing where it held none.
    /// A frame that holds no request ends the session and leaves the store
    /// as it is, so no other session sees a difference; a request that the
    /// store refuses ends the session too.
    pub fn serve(&mut self, parsed: Option<Request>) -> (r: Option<Step>)
        requires
            old(self).wf(),
        ensures
            final(self).wf(),
            final(self).spec_pipe_name() == old(self).spec_pipe_name(),
            parsed is None ==> r is None && final(self)@ == old(self)@,
            parsed matches Some(request) && reads_only(request@) ==> final(self)@ == old(self)@
                && r is Some,
            parsed matches Some(Request { kind: RequestKind::AddTag { id, .. } }) ==> (r is Some
                <==> old(self)@.has_id(id)),
            parsed matches Some(Request { kind: RequestKind::RemoveTag { id, .. } }) ==> (r is Some
                <==> old(self)@.has_id(id)),
            parsed matches Some(request) ==> match request@ {
                RequestView::List => r matches Some(Step::Reply(resp))
                    && resp@ == listing(old(self)@),
                RequestView::Paste { id } => r matches Some(
                    Step::Reply(resp),
                ) && resp@ == listing(old(self)@),
                RequestView::Search { query } => r matches Some(
                    Step::Reply(resp),
                ) && resp@ == search_result(old(self)@, query),
                RequestView::AddTag { id, tag } => match r {
                    Some(Step::Reply(resp)) => {
                        &&& old(self)@.has_id(id)
                        &&& final(self)@ == old(self)@.add_tag(id, tag)
                        &&& resp@ == listing(final(self)@)
                    },
                    Some(_) => false,
                    None => !old(self)@.has_id(id) && final(self)@ == old(self)@,
                },
                RequestView::RemoveTag { id, tag } => match r {
                    Some(Step::Reply(resp)) => {
                        &&& old(self)@.has_id(id)
                        &&& final(self)@ == old(self)@.remove_tag(id, tag)
                        &&& resp@ == listing(final(self)@)
                    },
                    Some(_) => false,
                    None => !old(self)@.has_id(id) && final(self)@ == old(self)@,
                },
                RequestView::Export { path } => r matches Some(
                    Step::Export { path: p, entries },
                ) && p@ == path && entries.deep_view() == old(self)@.rows,
                RequestView::Import { path } => r matches Some(
                    Step::Import { path: p },
                ) && p@ == path,
            },
    {
        match parsed {
            Some(request) => match self.dispatch(request) {
                Ok(step) => Some(step),
                Err(_) => None,
            },
            None => None,
        }
    }
}

} // verus!
