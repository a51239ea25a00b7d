//! The history store: a bounded table of entries, one row for each distinct
//! content digest, kept in order of capture time.
//!
//! The store is described by its view, a `StoreView`; every operation states
//! how the view after it follows from the view before.

use vstd::prelude::*;
use crate::model::{Entry, EntryView, Timestamp, copy_strings};
use crate::text::{chars_of, contains_chars, is_substring, str_eq};

verus! {

/// The JSON text that serialises a list of tags.
pub uninterp spec fn tags_json(tags: Seq<Seq<char>>) -> Seq<char>;

/// `serde_json::Error`: why the encoder gave no text. Nothing is read of it.
#[verifier::external_type_specification]
#[verifier::external_body]
pub struct ExJsonError(serde_json::Error);

/// `serde_json::to_string` on a list of strings. The contract claims that
/// the call gives a text and that the text depends on the strings alone.
/// The encoder writes into a byte vector, and for a list of strings its
/// every failure is a failure of the writer, which a vector does not have.
#[verifier::external_body]
fn tags_to_json(tags: &Vec<String>) -> (r: Result<String, serde_json::Error>)
    ensures
        r is Ok,
        r matches Ok(s) ==> s@ == tags_json(tags.deep_view()),
{
    serde_json::to_string(tags)
}

/// The JSON text of a list of tags.
fn tags_text(tags: &Vec<String>) -> (s: String)
    ensures
        s@ == tags_json(tags.deep_view()),
{
    match tags_to_json(tags) {
        Ok(s) => s,
        Err(_) => {
            assert(false);
            String::new()
        },
    }
}

/// The largest key a row can have. Keys start at one and are never reused.
pub const MAX_ID: u64 = 9_223_372_036_854_775_807;

/// Why a store operation did not go through.
#[derive(Debug, Clone, Copy, PartialEq, Eq, Structural)]
pub enum StoreError {
    /// No row has the given key.
    NotFound,
    /// Every key has been handed out.
    IdsExhausted,
    /// The rows handed over do not make a store.
    Corrupt,
}

/// What an insert did.
#[derive(Debug, PartialEq, Eq)]
pub enum InsertOutcome {
    /// A row with the same digest was there already; nothing changed.
    Duplicate,
    /// The entry was stored under `id`, and the rows with the keys in
    /// `evicted` left the store to keep it within its bound.
    Stored { id: u64, evicted: Vec<u64> },
}

/// How an import went.
#[derive(Debug, Clone, Copy, PartialEq, Eq, Structural)]
pub struct ImportReport {
    /// How many entries were stored.
    pub imported: usize,
    /// How many were skipped because a row had their digest.
    pub skipped: usize,
}

/// The store as a mathematical value.
pub struct StoreView {
    /// The rows, oldest capture first; rows captured at the same instant
    /// stand in the order in which they were stored.
    pub rows: Seq<EntryView>,
    /// The last key handed out, zero where none was.
    pub last_id: u64,
    /// The bound on the number of rows.
    pub max_entries: usize,
}

/// By how many rows `len` exceeds `max`.
pub open spec fn surplus(len: nat, max: nat) -> nat {
    if len > max {
        (len - max) as nat
    } else {
        0
    }
}

/// Where a row captured at `at` goes: behind the last row that is not later.
pub open spec fn slot(rows: Seq<EntryView>, at: Timestamp) -> int
    decreases rows.len(),
{
    if rows.len() == 0 {
        0
    } else if rows.last().created_at.le(at) {
        rows.len() as int
    } else {
        slot(rows.drop_last(), at)
    }
}

/// Each row is at least as old as the rows behind it.
pub open spec fn oldest_first(rows: Seq<EntryView>) -> bool {
    forall|i: int, j: int| 0 <= i <= j < rows.len() ==> (#[trigger] rows[i]).created_at.le(
        (#[trigger] rows[j]).created_at,
    )
}

/// No two rows share a digest.
pub open spec fn distinct_hashes(rows: Seq<EntryView>) -> bool {
    forall|i: int, j: int| 0 <= i < j < rows.len() ==> (#[trigger] rows[i]).hash != (
    #[trigger] rows[j]).hash
}

/// Every row has a key between one and `last_id`, and no two share one.
pub open spec fn keyed(rows: Seq<EntryView>, last_id: u64) -> bool {
    &&& forall|i: int| 0 <= i < rows.len() ==> (#[trigger] rows[i]).id is Some && 1 <= rows[i].id->0
            <= last_id
    &&& forall|i: int, j: int| 0 <= i < j < rows.len() ==> (#[trigger] rows[i]).id != (
    #[trigger] rows[j]).id
}

/// The keys of `rows`, in order.
pub open spec fn ids_of(rows: Seq<EntryView>) -> Seq<u64> {
    Seq::new(rows.len(), |i: int| rows[i].id.unwrap_or(0))
}

/// The entry matches a query: the query stands in its preview text or in
/// the JSON text of its tags.
pub open spec fn matches_query(e: EntryView, query: Seq<char>) -> bool {
    (e.text matches Some(t) && is_substring(query, t)) || is_substring(query, tags_json(e.tags))
}

/// `tags` with `tag` at the end, unless it is among them already.
pub open spec fn tags_with(tags: Seq<Seq<char>>, tag: Seq<char>) -> Seq<Seq<char>> {
    if tags.contains(tag) {
        tags
    } else {
        tags.push(tag)
    }
}

/// The test that a tag is another one than `tag`.
pub open spec fn other_than(tag: Seq<char>) -> spec_fn(Seq<char>) -> bool {
    |t: Seq<char>| t != tag
}

/// `tags` without any occurrence of `tag`.
pub open spec fn tags_without(tags: Seq<Seq<char>>, tag: Seq<char>) -> Seq<Seq<char>> {
    tags.filter(other_than(tag))
}

/// The test that an entry matches `query`.
pub open spec fn matching(query: Seq<char>) -> spec_fn(EntryView) -> bool {
    |e: EntryView| matches_query(e, query)
}

impl StoreView {
    /// Some row has this digest.
    pub open spec fn has_hash(self, hash: Seq<char>) -> bool {
        exists|i: int| 0 <= i < self.rows.len() && (#[trigger] self.rows[i]).hash == hash
    }

    /// Some row has this key.
    pub open spec fn has_id(self, id: u64) -> bool {
        exists|i: int| 0 <= i < self.rows.len() && (#[trigger] self.rows[i]).id == Some(id)
    }

    /// The position of the row with this key.
    pub open spec fn index_of_id(self, id: u64) -> int {
        choose|i: int| 0 <= i < self.rows.len() && (#[trigger] self.rows[i]).id == Some(id)
    }

    /// The rows are keyed, distinct by digest and in order of age.
    pub open spec fn consistent(self) -> bool {
        &&& self.last_id <= MAX_ID
        &&& keyed(self.rows, self.last_id)
        &&& distinct_hashes(self.rows)
        &&& oldest_first(self.rows)
    }

    /// The store is consistent and within its bound.
    pub open spec fn wf(self) -> bool {
        &&& self.consistent()
        &&& self.rows.len() <= self.max_entries
    }

    /// The store without its surplus: the oldest rows leave.
    pub open spec fn evict(self) -> StoreView {
        StoreView {
            rows: self.rows.skip(surplus(self.rows.len(), self.max_entries as nat) as int),
            ..self
        }
    }

    /// The keys of the rows that `evict` removes.
    pub open spec fn evicted_ids(self) -> Seq<u64> {
        ids_of(self.rows.take(surplus(self.rows.len(), self.max_entries as nat) as int))
    }

    /// The store with `e` put in under the next key, before any eviction.
    pub open spec fn grown(self, e: EntryView) -> StoreView {
        let id = (self.last_id + 1) as u64;
        StoreView {
            rows: self.rows.insert(slot(self.rows, e.created_at), e.with_id(Some(id))),
            last_id: id,
            max_entries: self.max_entries,
        }
    }

    /// Inserting `e` stores a row: no row has its digest, and a key is left.
    pub open spec fn admits(self, e: EntryView) -> bool {
        !self.has_hash(e.hash) && self.last_id < MAX_ID
    }

    /// The store after `e` is inserted: `e` is stored under the next key and
    /// the surplus evicted; where a row has the digest of `e`, or no key is
    /// left, nothing changes.
    pub open spec fn insert(self, e: EntryView) -> StoreView {
        if self.admits(e) {
            self.grown(e).evict()
        } else {
            self
        }
    }

    /// The store after each of `entries` is inserted in turn.
    pub open spec fn insert_all(self, entries: Seq<EntryView>) -> StoreView
        decreases entries.len(),
    {
        if entries.len() == 0 {
            self
        } else {
            self.insert_all(entries.drop_last()).insert(entries.last())
        }
    }

    /// The insert of the entry at `n`, after the inserts of those before it,
    /// does not fail: its digest is there already, or a key is left.
    pub open spec fn has_room_at(self, entries: Seq<EntryView>, n: int) -> bool {
        let before = self.insert_all(entries.take(n));
        before.has_hash(entries[n].hash) || before.last_id < MAX_ID
    }

    /// None of the inserts of `entries`, made in turn, fails.
    pub open spec fn takes_all(self, entries: Seq<EntryView>) -> bool {
        forall|n: int| 0 <= n < entries.len() ==> #[trigger] self.has_room_at(entries, n)
    }

    /// How many of `entries`, inserted in turn, are stored rather than skipped.
    pub open spec fn imported(self, entries: Seq<EntryView>) -> nat
        decreases entries.len(),
    {
        if entries.len() == 0 {
            0
        } else {
            let before = self.insert_all(entries.drop_last());
            self.imported(entries.drop_last()) + if before.admits(entries.last()) {
                1nat
            } else {
                0nat
            }
        }
    }

    /// All rows, newest first.
    pub open spec fn newest_first(self) -> Seq<EntryView> {
        self.rows.reverse()
    }

    /// The `limit` most recent rows, newest first.
    pub open spec fn recent(self, limit: nat) -> Seq<EntryView> {
        let all = self.newest_first();
        all.take(if limit < all.len() { limit as int } else { all.len() as int })
    }

    /// The `limit` most recent rows that match `query`, newest first.
    pub open spec fn search(self, query: Seq<char>, limit: nat) -> Seq<EntryView> {
        let hits = self.newest_first().filter(matching(query));
        hits.take(if limit < hits.len() { limit as int } else { hits.len() as int })
    }

    /// The store with the tags of the row at `i` replaced.
    pub open spec fn retagged(self, i: int, tags: Seq<Seq<char>>) -> StoreView {
        StoreView { rows: self.rows.update(i, self.rows[i].with_tags(tags)), ..self }
    }

    /// The store after `tag` is added to the row with key `id`.
    pub open spec fn add_tag(self, id: u64, tag: Seq<char>) -> StoreView {
        let i = self.index_of_id(id);
        self.retagged(i, tags_with(self.rows[i].tags, tag))
    }

    /// The store after `tag` is removed from the row with key `id`.
    pub open spec fn remove_tag(self, id: u64, tag: Seq<char>) -> StoreView {
        let i = self.index_of_id(id);
        self.retagged(i, tags_without(self.rows[i].tags, tag))
    }
}

/// In rows that are in order of age, the slot for `at` parts the rows that
/// are not later than `at` from those that are.
pub proof fn lemma_slot(rows: Seq<EntryView>, at: Timestamp)
    requires
        oldest_first(rows),
    ensures
        0 <= slot(rows, at) <= rows.len(),
        forall|i: int| 0 <= i < slot(rows, at) ==> (#[trigger] rows[i]).created_at.le(at),
        forall|i: int| slot(rows, at) <= i < rows.len() ==> !(#[trigger] rows[i]).created_at.le(at),
    decreases rows.len(),
{
    if rows.len() > 0 && !rows.last().created_at.le(at) {
        let front = rows.drop_last();
        assert forall|i: int, j: int| 0 <= i <= j < front.len() implies (#[trigger] front[i]).created_at.le(
            (#[trigger] front[j]).created_at,
        ) by {
            assert(front[i] == rows[i] && front[j] == rows[j]);
        }
        lemma_slot(front, at);
        assert forall|i: int| 0 <= i < slot(rows, at) implies (#[trigger] rows[i]).created_at.le(at) by {
            assert(rows[i] == front[i]);
        }
        assert forall|i: int| slot(rows, at) <= i < rows.len() implies !(#[trigger] rows[i]).created_at.le(
            at,
        ) by {
            if i < front.len() {
                assert(rows[i] == front[i]);
            }
        }
    } else if rows.len() > 0 {
        assert forall|i: int| 0 <= i < rows.len() implies (#[trigger] rows[i]).created_at.le(at) by {
            assert(rows[i].created_at.le(rows[rows.len() - 1].created_at));
        }
    }
}

/// Putting a new digest into a consistent store under the next key keeps
/// it consistent.
pub proof fn lemma_grown_consistent(s: StoreView, e: EntryView)
    requires
        s.consistent(),
        !s.has_hash(e.hash),
        s.last_id < MAX_ID,
    ensures
        s.grown(e).consistent(),
        s.grown(e).rows.len() == s.rows.len() + 1,
{
    let k = slot(s.rows, e.created_at);
    let x = e.with_id(Some((s.last_id + 1) as u64));
    let g = s.grown(e).rows;
    lemma_slot(s.rows, e.created_at);
    s.rows.insert_ensures(k, x);
    assert forall|i: int| 0 <= i < g.len() implies (#[trigger] g[i]) == (if i < k {
        s.rows[i]
    } else if i == k {
        x
    } else {
        s.rows[i - 1]
    }) by {
        if i > k {
            assert(g[(i - 1) + 1] == s.rows[i - 1]);
        }
    }
    assert forall|i: int, j: int| 0 <= i < j < g.len() implies (#[trigger] g[i]).hash != (
    #[trigger] g[j]).hash by {
        let a = if i < k { i } else { i - 1 };
        let b = if j < k { j } else { j - 1 };
        if i != k && j != k {
            assert(s.rows[a].hash != s.rows[b].hash);
        } else if i == k {
            assert(s.rows[b].hash != e.hash);
        } else {
            assert(s.rows[a].hash != e.hash);
        }
    }
    assert forall|i: int, j: int| 0 <= i < j < g.len() implies (#[trigger] g[i]).id != (
    #[trigger] g[j]).id by {
        let a = if i < k { i } else { i - 1 };
        let b = if j < k { j } else { j - 1 };
        if i != k && j != k {
            assert(s.rows[a].id != s.rows[b].id);
        } else if i == k {
            assert(s.rows[b].id->0 <= s.last_id);
        } else {
            assert(s.rows[a].id->0 <= s.last_id);
        }
    }
    assert forall|i: int| 0 <= i < g.len() implies (#[trigger] g[i]).id is Some && 1 <= g[i].id->0
        <= s.grown(e).last_id by {
        if i < k {
            assert(s.rows[i].id is Some);
        } else if i > k {
            assert(s.rows[i - 1].id is Some);
        }
    }
    assert forall|i: int, j: int| 0 <= i <= j < g.len() implies (#[trigger] g[i]).created_at.le(
        (#[trigger] g[j]).created_at,
    ) by {
        let a = if i < k { i } else { i - 1 };
        let b = if j < k { j } else { j - 1 };
        if i != k && j != k {
            assert(s.rows[a].created_at.le(s.rows[b].created_at));
        } else if i == k && j != k {
            assert(!s.rows[b].created_at.le(e.created_at));
        } else if j == k && i != k {
            assert(s.rows[a].created_at.le(e.created_at));
        }
    }
}

/// Evicting the surplus of a consistent store leaves a well-formed one.
pub proof fn lemma_evict_wf(s: StoreView)
    requires
        s.consistent(),
    ensures
        s.evict().wf(),
        s.evict().rows.len() == s.rows.len() - surplus(s.rows.len(), s.max_entries as nat),
{
    let n = surplus(s.rows.len(), s.max_entries as nat) as int;
    let r = s.evict().rows;
    assert forall|i: int| 0 <= i < r.len() implies (#[trigger] r[i]) == s.rows[i + n] by {}
    assert forall|i: int, j: int| 0 <= i < j < r.len() implies (#[trigger] r[i]).hash != (
    #[trigger] r[j]).hash by {
        assert(s.rows[i + n].hash != s.rows[j + n].hash);
    }
    assert forall|i: int, j: int| 0 <= i < j < r.len() implies (#[trigger] r[i]).id != (
    #[trigger] r[j]).id by {
        assert(s.rows[i + n].id != s.rows[j + n].id);
    }
    assert forall|i: int| 0 <= i < r.len() implies (#[trigger] r[i]).id is Some && 1 <= r[i].id->0
        <= s.last_id by {
        assert(s.rows[i + n].id is Some);
    }
    assert forall|i: int, j: int| 0 <= i <= j < r.len() implies (#[trigger] r[i]).created_at.le(
        (#[trigger] r[j]).created_at,
    ) by {
        assert(s.rows[i + n].created_at.le(s.rows[j + n].created_at));
    }
}

/// A stored entry beside the JSON text of its tags, which queries read.
struct Row {
    entry: Entry,
    tags_text: String,
}

/// The history store.
pub struct Database {
    rows: Vec<Row>,
    last_id: u64,
    max_entries: usize,
}

impl View for Database {
    type V = StoreView;

    closed spec fn view(&self) -> StoreView {
        StoreView {
            rows: Seq::new(self.rows@.len(), |i: int| self.rows@[i].entry@),
            last_id: self.last_id,
            max_entries: self.max_entries,
        }
    }
}

impl Database {
    /// Beside each row stands the JSON text of its tags.
    spec fn texts_match(&self) -> bool {
        forall|i: int|
            0 <= i < self.rows@.len() ==> (#[trigger] self.rows@[i]).tags_text@ == tags_json(
                self.rows@[i].entry@.tags,
            )
    }

    /// The store is well formed but for its bound.
    spec fn consistent(&self) -> bool {
        self@.consistent() && self.texts_match()
    }

    /// The invariant of the store, which `open` and `restore` establish and
    /// every operation keeps.
    pub closed spec fn wf(&self) -> bool {
        self@.wf() && self.texts_match()
    }

    /// What `wf` says of the view.
    pub proof fn lemma_wf_view(&self)
        requires
            self.wf(),
        ensures
            self@.wf(),
    {
    }

    /// An empty store that will hold at most `max_entries` rows.
    pub fn open(max_entries: usize) -> (db: Database)
        ensures
            db.wf(),
            db@ == (StoreView { rows: Seq::empty(), last_id: 0, max_entries }),
    {
        let db = Database { rows: Vec::new(), last_id: 0, max_entries };
        assert(db@.rows =~= Seq::empty());
        db
    }

    /// The number of rows.
    pub fn len(&self) -> (n: usize)
        ensures
            n == self@.rows.len(),
    {
        self.rows.len()
    }

    /// The bound on the number of rows.
    pub fn max_entries(&self) -> (n: usize)
        ensures
            n == self@.max_entries,
    {
        self.max_entries
    }

    /// The last key handed out, zero where none was.
    pub fn last_id(&self) -> (n: u64)
        ensures
            n == self@.last_id,
    {
        self.last_id
    }

    /// Whether some row has this digest.
    pub fn contains_hash(&self, hash: &str) -> (r: bool)
        ensures
            r == self@.has_hash(hash@),
    {
        let mut i: usize = 0;
        while i < self.rows.len()
            invariant
                i <= self.rows@.len(),
                forall|j: int| 0 <= j < i ==> (#[trigger] self@.rows[j]).hash != hash@,
            decreases self.rows.len() - i,
        {
            if str_eq(self.rows[i].entry.hash.as_str(), hash) {
                assert(self@.rows[i as int].hash == hash@);
                return true;
            }
            i += 1;
        }
        false
    }

    /// Removes the oldest rows while the store holds more than its bound,
    /// and returns their keys, oldest first.
    fn cleanup_old_entries(&mut self) -> (evicted: Vec<u64>)
        requires
            old(self).consistent(),
        ensures
            final(self).wf(),
            final(self)@ == old(self)@.evict(),
            evicted@ == old(self)@.evicted_ids(),
    {
        proof {
            lemma_evict_wf(self@);
        }
        let n = self.rows.len();
        if n <= self.max_entries {
            assert(self@.evict().rows =~= self@.rows);
            let none: Vec<u64> = Vec::new();
            assert(none@ =~= self@.evicted_ids());
            return none;
        }
        let k = n - self.max_entries;
        let mut kept = self.rows.split_off(k);
        let mut evicted: Vec<u64> = Vec::new();
        let mut i: usize = 0;
        while i < k
            invariant
                i <= k,
                k == self.rows@.len(),
                self.rows@ == old(self).rows@.subrange(0, k as int),
                evicted@.len() == i,
                forall|j: int| 0 <= j < i ==> evicted@[j] == (#[trigger] self.rows@[j]).entry.id.unwrap_or(0),
            decreases k - i,
        {
            let id = match self.rows[i].entry.id {
                Some(id) => id,
                None => 0,
            };
            evicted.push(id);
            i += 1;
        }
        assert(evicted@ =~= old(self)@.evicted_ids()) by {
            assert(surplus(old(self)@.rows.len(), old(self)@.max_entries as nat) == k);
            assert forall|j: int| 0 <= j < k implies evicted@[j] == old(self)@.evicted_ids()[j] by {
                assert(self.rows@[j] == old(self).rows@[j]);
            }
        }
        core::mem::swap(&mut self.rows, &mut kept);
        assert(self@.rows =~= old(self)@.evict().rows);
        evicted
    }

    /// Stores `entry`, whose tags serialise to `tags_text`, unless a row has
    /// its digest. The surplus, if the store then has one, is evicted.
    fn store_row(&mut self, entry: &Entry, tags_text: String) -> (r: Result<
        InsertOutcome,
        StoreError,
    >)
        requires
            old(self).wf(),
            tags_text@ == tags_json(entry@.tags),
        ensures
            final(self).wf(),
            final(self)@ == old(self)@.insert(entry@),
            match r {
                Ok(InsertOutcome::Duplicate) => old(self)@.has_hash(entry@.hash),
                Ok(InsertOutcome::Stored { id, evicted }) => {
                    &&& old(self)@.admits(entry@)
                    &&& id == old(self)@.last_id + 1
                    &&& evicted@ == old(self)@.grown(entry@).evicted_ids()
                },
                Err(e) => {
                    &&& e == StoreError::IdsExhausted
                    &&& !old(self)@.has_hash(entry@.hash)
                    &&& old(self)@.last_id >= MAX_ID
                },
            },
    {
        if self.contains_hash(entry.hash.as_str()) {
            return Ok(InsertOutcome::Duplicate);
        }
        if self.last_id >= MAX_ID {
            return Err(StoreError::IdsExhausted);
        }
        let id = self.last_id + 1;
        let mut stored = entry.clone();
        stored.id = Some(id);
        let mut k: usize = self.rows.len();
        assert(self@.rows.take(k as int) =~= self@.rows);
        while k > 0 && !self.rows[k - 1].entry.created_at.at_or_before(&entry.created_at)
            invariant
                k <= self.rows@.len(),
                slot(self@.rows, entry@.created_at) == slot(self@.rows.take(k as int), entry@.created_at),
            decreases k,
        {
            assert(self@.rows.take(k as int).drop_last() =~= self@.rows.take(k - 1));
            k -= 1;
        }
        assert(slot(self@.rows, entry@.created_at) == k);
        proof {
            lemma_grown_consistent(self@, entry@);
        }
        let ghost before = self@;
        self.rows.insert(k, Row { entry: stored, tags_text });
        self.last_id = id;
        proof {
            before.rows.insert_ensures(k as int, entry@.with_id(Some(id)));
            old(self).rows@.insert_ensures(k as int, self.rows@[k as int]);
            assert(self@.rows =~= before.grown(entry@).rows);
            assert(self@ == before.grown(entry@));
            assert forall|i: int| 0 <= i < self.rows@.len() implies (#[trigger] self.rows@[i]).tags_text@
                == tags_json(self.rows@[i].entry@.tags) by {
                if i < k {
                    assert(self.rows@[i] == old(self).rows@[i]);
                } else if i > k {
                    assert(self.rows@[(i - 1) + 1] == old(self).rows@[i - 1]);
                }
            }
        }
        let evicted = self.cleanup_old_entries();
        Ok(InsertOutcome::Stored { id, evicted })
    }

    /// Inserts `entry` unless a row has its digest already.
    ///
    /// A duplicate changes nothing. A new digest is stored under the next
    /// key, and the oldest rows leave while the store is over its bound.
    /// Only a store that has handed out its last key refuses a new digest,
    /// and then nothing changes.
    pub fn insert_entry(&mut self, entry: &Entry) -> (r: Result<InsertOutcome, StoreError>)
        requires
            old(self).wf(),
        ensures
            final(self).wf(),
            final(self)@ == old(self)@.insert(entry@),
            final(self)@.rows.len() <= final(self)@.max_entries,
            final(self)@.max_entries == old(self)@.max_entries,
            old(self)@.has_hash(entry@.hash) ==> r == Ok::<InsertOutcome, StoreError>(
                InsertOutcome::Duplicate,
            ),
            old(self)@.admits(entry@) ==> r matches Ok(InsertOutcome::Stored { .. }),
            match r {
                Ok(InsertOutcome::Duplicate) => old(self)@.has_hash(entry@.hash),
                Ok(InsertOutcome::Stored { id, evicted }) => {
                    &&& old(self)@.admits(entry@)
                    &&& id == old(self)@.last_id + 1
                    &&& evicted@ == old(self)@.grown(entry@).evicted_ids()
                },
                Err(e) => {
                    &&& e == StoreError::IdsExhausted
                    &&& !old(self)@.has_hash(entry@.hash)
                    &&& old(self)@.last_id >= MAX_ID
                },
            },
    {
        if self.contains_hash(entry.hash.as_str()) {
            return Ok(InsertOutcome::Duplicate);
        }
        let text = tags_text(&entry.tags);
        self.store_row(entry, text)
    }

    /// The `limit` most recent entries, newest first.
    pub fn list_recent(&self, limit: usize) -> (r: Vec<Entry>)
        ensures
            r.deep_view() == self@.recent(limit as nat),
    {
        let n = self.rows.len();
        let m = if limit < n { limit } else { n };
        let mut out: Vec<Entry> = Vec::new();
        let mut i: usize = 0;
        while i < m
            invariant
                i <= m <= n,
                n == self.rows@.len(),
                out@.len() == i,
                forall|j: int| 0 <= j < i ==> (#[trigger] out@[j])@ == self@.rows[n - 1 - j],
            decreases m - i,
        {
            out.push(self.rows[n - 1 - i].entry.clone());
            i += 1;
        }
        assert(out.deep_view() =~= self@.recent(limit as nat));
        out
    }

    /// Whether the row at `i` matches the query with the characters `query`.
    fn row_matches(&self, i: usize, query: &[char]) -> (r: bool)
        requires
            i < self.rows@.len(),
            self.texts_match(),
        ensures
            r == matches_query(self@.rows[i as int], query@),
    {
        let row = &self.rows[i];
        let in_text = match &row.entry.text {
            Some(t) => {
                let chars = chars_of(t.as_str());
                contains_chars(chars.as_slice(), query)
            },
            None => false,
        };
        if in_text {
            return true;
        }
        let chars = chars_of(row.tags_text.as_str());
        contains_chars(chars.as_slice(), query)
    }

    /// The `limit` most recent entries in whose preview text, or in the JSON
    /// text of whose tags, `query` stands; newest first. The match is by
    /// characters and tells upper case from lower.
    pub fn search(&self, query: &str, limit: usize) -> (r: Vec<Entry>)
        requires
            self.wf(),
        ensures
            r.deep_view() == self@.search(query@, limit as nat),
    {
        let q = chars_of(query);
        let n = self.rows.len();
        let ghost all = self@.newest_first();
        let ghost pred = matching(query@);
        let mut out: Vec<Entry> = Vec::new();
        let mut i: usize = 0;
        proof {
            reveal(Seq::filter);
            assert(all.take(0) =~= Seq::<EntryView>::empty());
        }
        while i < n && out.len() < limit
            invariant
                i <= n,
                n == self.rows@.len(),
                all == self@.newest_first(),
                all.len() == n,
                pred == matching(query@),
                q@ == query@,
                self.texts_match(),
                out@.len() <= limit,
                out.deep_view() == all.take(i as int).filter(pred),
            decreases n - i,
        {
            let ghost before = out.deep_view();
            if self.row_matches(n - 1 - i, q.as_slice()) {
                out.push(self.rows[n - 1 - i].entry.clone());
            }
            proof {
                reveal(Seq::filter);
                let next = all.take(i + 1);
                assert(next.drop_last() =~= all.take(i as int));
                assert(next.last() == self@.rows[n - 1 - i]);
                assert(pred(next.last()) == matches_query(self@.rows[n - 1 - i], query@));
                if pred(next.last()) {
                    assert(out.deep_view() =~= before.push(next.last()));
                } else {
                    assert(out.deep_view() =~= before);
                }
            }
            i += 1;
        }
        proof {
            let hits = all.filter(pred);
            let head = all.take(i as int);
            let tail = all.skip(i as int);
            assert(all =~= head + tail);
            Seq::filter_distributes_over_add(head, tail, pred);
            assert(hits == head.filter(pred) + tail.filter(pred));
            if i < n {
                assert(out@.len() == limit);
                assert(hits.take(limit as int) =~= head.filter(pred));
            } else {
                assert(head =~= all);
            }
            assert(out.deep_view().len() == out@.len());
            assert(out.deep_view() =~= self@.search(query@, limit as nat));
        }
        out
    }

    /// The position of the row with key `id`.
    fn find_id(&self, id: u64) -> (r: Option<usize>)
        requires
            self.wf(),
        ensures
            r is Some <==> self@.has_id(id),
            r matches Some(i) ==> i < self.rows@.len() && i == self@.index_of_id(id),
    {
        let mut i: usize = 0;
        while i < self.rows.len()
            invariant
                self.wf(),
                i <= self.rows@.len(),
                forall|j: int| 0 <= j < i ==> (#[trigger] self@.rows[j]).id != Some(id),
            decreases self.rows.len() - i,
        {
            let hit = match self.rows[i].entry.id {
                Some(x) => x == id,
                None => false,
            };
            if hit {
                assert(self@.rows[i as int].id == Some(id));
                let ghost c = self@.index_of_id(id);
                assert(c == i) by {
                    if c < i {
                        assert(self@.rows[c].id != self@.rows[i as int].id);
                    } else if c > i {
                        assert(self@.rows[i as int].id != self@.rows[c].id);
                    }
                }
                return Some(i);
            }
            i += 1;
        }
        None
    }

    /// The row with key `id`, if there is one.
    pub fn entry(&self, id: u64) -> (r: Option<Entry>)
        requires
            self.wf(),
        ensures
            r is Some <==> self@.has_id(id),
            r matches Some(e) ==> e@ == self@.rows[self@.index_of_id(id)],
    {
        match self.find_id(id) {
            Some(i) => Some(self.rows[i].entry.clone()),
            None => None,
        }
    }

    /// Gives the row with key `id` the tags `tags`, which serialise to
    /// `tags_text`.
    fn retag(&mut self, id: u64, tags: Vec<String>, tags_text: String) -> (r: Result<
        (),
        StoreError,
    >)
        requires
            old(self).wf(),
            tags_text@ == tags_json(tags.deep_view()),
        ensures
            final(self).wf(),
            r is Ok <==> old(self)@.has_id(id),
            r is Ok ==> final(self)@ == old(self)@.retagged(
                old(self)@.index_of_id(id),
                tags.deep_view(),
            ),
            r matches Err(e) ==> e == StoreError::NotFound && final(self)@ == old(self)@,
    {
        let i = match self.find_id(id) {
            Some(i) => i,
            None => {
                return Err(StoreError::NotFound);
            },
        };
        let ghost want = self@.retagged(i as int, tags.deep_view());
        let mut row = self.rows.remove(i);
        row.entry.tags = tags;
        row.tags_text = tags_text;
        self.rows.insert(i, row);
        proof {
            old(self).rows@.remove_ensures(i as int);
            old(self).rows@.remove(i as int).insert_ensures(i as int, self.rows@[i as int]);
            assert forall|j: int| 0 <= j < self.rows@.len() && j != i implies (#[trigger] self.rows@[j])
                == old(self).rows@[j] by {
                if j > i {
                    assert(self.rows@[(j - 1) + 1] == old(self).rows@.remove(i as int)[j - 1]);
                }
            }
            assert(self@.rows =~= want.rows);
            lemma_retagged_wf(old(self)@, i as int, tags.deep_view());
        }
        Ok(())
    }

    /// Adds `tag` to the row with key `id`, at the end of its tags, unless
    /// the row has it already.
    pub fn add_tag(&mut self, id: u64, tag: &str) -> (r: Result<(), StoreError>)
        requires
            old(self).wf(),
        ensures
            final(self).wf(),
            r is Ok <==> old(self)@.has_id(id),
            r is Ok ==> final(self)@ == old(self)@.add_tag(id, tag@),
            r matches Err(e) ==> e == StoreError::NotFound && final(self)@ == old(self)@,
    {
        let i = match self.find_id(id) {
            Some(i) => i,
            None => {
                return Err(StoreError::NotFound);
            },
        };
        let tags = &self.rows[i].entry.tags;
        let mut k: usize = 0;
        while k < tags.len()
            invariant
                self.wf(),
                *self == *old(self),
                self@.has_id(id),
                i < self.rows@.len(),
                i == self@.index_of_id(id),
                *tags == self.rows@[i as int].entry.tags,
                k <= tags@.len(),
                forall|j: int| 0 <= j < k ==> (#[trigger] tags.deep_view()[j]) != tag@,
            decreases tags.len() - k,
        {
            if str_eq(tags[k].as_str(), tag) {
                assert(tags.deep_view()[k as int] == tag@);
                assert(self@.rows[i as int].tags.contains(tag@));
                assert(self@.add_tag(id, tag@).rows =~= self@.rows);
                return Ok(());
            }
            k += 1;
        }
        assert(!self@.rows[i as int].tags.contains(tag@));
        let mut grown = copy_strings(tags);
        grown.push(tag.to_owned());
        assert(grown.deep_view() =~= tags_with(self@.rows[i as int].tags, tag@));
        let text = tags_text(&grown);
        self.retag(id, grown, text)
    }

    /// Removes every occurrence of `tag` from the row with key `id`.
    pub fn remove_tag(&mut self, id: u64, tag: &str) -> (r: Result<(), StoreError>)
        requires
            old(self).wf(),
        ensures
            final(self).wf(),
            r is Ok <==> old(self)@.has_id(id),
            r is Ok ==> final(self)@ == old(self)@.remove_tag(id, tag@),
            r matches Err(e) ==> e == StoreError::NotFound && final(self)@ == old(self)@,
    {
        let i = match self.find_id(id) {
            Some(i) => i,
            None => {
                return Err(StoreError::NotFound);
            },
        };
        let tags = &self.rows[i].entry.tags;
        let ghost pred = other_than(tag@);
        let mut left: Vec<String> = Vec::new();
        let mut k: usize = 0;
        proof {
            reveal(Seq::filter);
            assert(tags.deep_view().take(0) =~= Seq::<Seq<char>>::empty());
            assert(left.deep_view() =~= Seq::<Seq<char>>::empty());
        }
        while k < tags.len()
            invariant
                k <= tags@.len(),
                pred == other_than(tag@),
                left.deep_view() == tags.deep_view().take(k as int).filter(pred),
            decreases tags.len() - k,
        {
            let ghost before = left.deep_view();
            if !str_eq(tags[k].as_str(), tag) {
                left.push(tags[k].clone());
            }
            proof {
                reveal(Seq::filter);
                let next = tags.deep_view().take(k + 1);
                assert(next.drop_last() =~= tags.deep_view().take(k as int));
                assert(next.last() == tags@[k as int]@);
                if pred(next.last()) {
                    assert(left.deep_view() =~= before.push(next.last()));
                } else {
                    assert(left.deep_view() =~= before);
                }
            }
            k += 1;
        }
        assert(tags.deep_view().take(k as int) =~= tags.deep_view());
        let text = tags_text(&left);
        self.retag(id, left, text)
    }

    /// Every row in full, oldest first: what an export file holds.
    pub fn export_to_json(&self) -> (r: Vec<Entry>)
        ensures
            r.deep_view() == self@.rows,
    {
        let mut out: Vec<Entry> = Vec::new();
        let mut i: usize = 0;
        while i < self.rows.len()
            invariant
                i <= self.rows@.len(),
                out@.len() == i,
                forall|j: int| 0 <= j < i ==> (#[trigger] out@[j])@ == self@.rows[j],
            decreases self.rows.len() - i,
        {
            out.push(self.rows[i].entry.clone());
            i += 1;
        }
        assert(out.deep_view() =~= self@.rows);
        out
    }

    /// Inserts each of `entries` in turn, as `insert_entry` does, and counts
    /// those stored and those skipped as duplicates. The import goes through
    /// unless an insert runs out of keys, which ends it; what was stored
    /// before that insert stays. It does not run out of keys where the store
    /// has as many keys left as there are entries.
    pub fn import_from_json(&mut self, entries: &Vec<Entry>) -> (r: Result<
        ImportReport,
        StoreError,
    >)
        requires
            old(self).wf(),
        ensures
            final(self).wf(),
            final(self)@.rows.len() <= final(self)@.max_entries,
            final(self)@.max_entries == old(self)@.max_entries,
            r is Ok <==> old(self)@.takes_all(entries.deep_view()),
            old(self)@.last_id + entries@.len() <= MAX_ID ==> r is Ok,
            r matches Ok(report) ==> {
                &&& final(self)@ == old(self)@.insert_all(entries.deep_view())
                &&& report.imported == old(self)@.imported(entries.deep_view())
                &&& report.imported + report.skipped == entries@.len()
            },
            r matches Err(e) ==> {
                &&& e == StoreError::IdsExhausted
                &&& exists|n: int|
                    0 <= n < entries@.len() && !(#[trigger] old(self)@.has_room_at(
                        entries.deep_view(),
                        n,
                    )) && final(self)@ == old(self)@.insert_all(entries.deep_view().take(n))
            },
    {
        let ghost all = entries.deep_view();
        let mut imported: usize = 0;
        let mut skipped: usize = 0;
        let mut i: usize = 0;
        assert(all.take(0) =~= Seq::<EntryView>::empty());
        while i < entries.len()
            invariant
                self.wf(),
                i <= entries@.len(),
                all == entries.deep_view(),
                imported + skipped == i,
                self@ == old(self)@.insert_all(all.take(i as int)),
                self@.max_entries == old(self)@.max_entries,
                self@.rows.len() <= self@.max_entries,
                self@.last_id <= old(self)@.last_id + i,
                imported == old(self)@.imported(all.take(i as int)),
                forall|m: int| 0 <= m < i ==> #[trigger] old(self)@.has_room_at(all, m),
            decreases entries.len() - i,
        {
            proof {
                assert(all.take(i + 1).drop_last() =~= all.take(i as int));
                assert(all.take(i + 1).last() == entries@[i as int]@);
                assert(all[i as int] == entries@[i as int]@);
            }
            match self.insert_entry(&entries[i]) {
                Ok(InsertOutcome::Duplicate) => {
                    skipped += 1;
                },
                Ok(InsertOutcome::Stored { id: _, evicted: _ }) => {
                    imported += 1;
                },
                Err(e) => {
                    assert(!old(self)@.has_room_at(all, i as int));
                    return Err(e);
                },
            }
            assert(old(self)@.has_room_at(all, i as int));
            i += 1;
        }
        assert(all.take(i as int) =~= all);
        Ok(ImportReport { imported, skipped })
    }

    /// The store that holds `rows`, as they were read back from where they
    /// are kept: oldest first, each under its key, `last_id` being the last
    /// key ever handed out. Rows that do not make a store are refused. Where
    /// there are more rows than `max_entries`, the oldest are left out.
    pub fn restore(rows: Vec<Entry>, last_id: u64, max_entries: usize) -> (r: Result<
        Database,
        StoreError,
    >)
        ensures
            match r {
                Ok(db) => {
                    &&& (StoreView { rows: rows.deep_view(), last_id, max_entries }).consistent()
                    &&& db.wf()
                    &&& db@ == (StoreView { rows: rows.deep_view(), last_id, max_entries }).evict()
                },
                Err(e) => {
                    &&& e == StoreError::Corrupt
                    &&& !(StoreView { rows: rows.deep_view(), last_id, max_entries }).consistent()
                },
            },
    {
        let ghost all = rows.deep_view();
        if !rows_consistent(&rows, last_id) {
            return Err(StoreError::Corrupt);
        }
        let n = rows.len();
        let mut stack = rows;
        let mut reversed: Vec<Row> = Vec::new();
        while stack.len() > 0
            invariant
                all == rows.deep_view(),
                (StoreView { rows: all, last_id, max_entries }).consistent(),
                stack@.len() + reversed@.len() == n,
                n == all.len(),
                stack.deep_view() == all.take(stack@.len() as int),
                forall|j: int|
                    0 <= j < reversed@.len() ==> (#[trigger] reversed@[j]).entry@ == all[n - 1 - j]
                        && reversed@[j].tags_text@ == tags_json(reversed@[j].entry@.tags),
            decreases stack.len(),
        {
            let ghost m = stack@.len();
            let ghost before = stack;
            let entry = stack.pop().unwrap();
            assert(entry@ == all[m - 1]) by {
                assert(entry@ == before.deep_view()[m - 1]);
            }
            assert(stack.deep_view() =~= all.take(m - 1)) by {
                assert forall|j: int| 0 <= j < m - 1 implies stack.deep_view()[j] == all[j] by {
                    assert(stack@[j] == before@[j]);
                    assert(before.deep_view()[j] == all[j]);
                }
            }
            let tags_text = tags_text(&entry.tags);
            reversed.push(Row { entry, tags_text });
        }
        let mut built: Vec<Row> = Vec::new();
        while reversed.len() > 0
            invariant
                reversed@.len() + built@.len() == n,
                n == all.len(),
                forall|j: int|
                    0 <= j < reversed@.len() ==> (#[trigger] reversed@[j]).entry@ == all[n - 1 - j]
                        && reversed@[j].tags_text@ == tags_json(reversed@[j].entry@.tags),
                forall|j: int|
                    0 <= j < built@.len() ==> (#[trigger] built@[j]).entry@ == all[j]
                        && built@[j].tags_text@ == tags_json(built@[j].entry@.tags),
            decreases reversed.len(),
        {
            let row = reversed.pop().unwrap();
            built.push(row);
        }
        let mut db = Database { rows: built, last_id, max_entries };
        assert(db@.rows =~= all);
        let _ = db.cleanup_old_entries();
        Ok(db)
    }
}

/// Whether `rows` are keyed within `last_id`, distinct by digest and in
/// order of age.
fn rows_consistent(rows: &Vec<Entry>, last_id: u64) -> (r: bool)
    ensures
        r == (StoreView { rows: rows.deep_view(), last_id, max_entries: 0 }).consistent(),
{
    let ghost all = rows.deep_view();
    if last_id > MAX_ID {
        return false;
    }
    let mut i: usize = 0;
    while i < rows.len()
        invariant
            i <= rows@.len(),
            all == rows.deep_view(),
            keyed(all.take(i as int), last_id),
            distinct_hashes(all.take(i as int)),
            oldest_first(all.take(i as int)),
        decreases rows.len() - i,
    {
        let ghost front = all.take(i as int);
        let ghost next = all.take(i + 1);
        let id = match rows[i].id {
            Some(id) => id,
            None => {
                assert(all[i as int].id is None);
                return false;
            },
        };
        if id < 1 || id > last_id {
            assert(all[i as int].id == Some(id));
            return false;
        }
        if i > 0 && !rows[i - 1].created_at.at_or_before(&rows[i].created_at) {
            assert(!all[i - 1].created_at.le(all[i as int].created_at));
            return false;
        }
        let mut j: usize = 0;
        while j < i
            invariant
                j <= i < rows@.len(),
                all == rows.deep_view(),
                all[i as int].id == Some(id),
                forall|k: int| 0 <= k < j ==> (#[trigger] all[k]).id != Some(id),
                forall|k: int| 0 <= k < j ==> (#[trigger] all[k]).hash != all[i as int].hash,
            decreases i - j,
        {
            let same_id = match rows[j].id {
                Some(x) => x == id,
                None => false,
            };
            if same_id {
                assert(all[j as int].id == all[i as int].id);
                return false;
            }
            if str_eq(rows[j].hash.as_str(), rows[i].hash.as_str()) {
                assert(all[j as int].hash == all[i as int].hash);
                return false;
            }
            j += 1;
        }
        proof {
            assert forall|a: int| 0 <= a < next.len() implies (#[trigger] next[a]).id is Some && 1
                <= next[a].id->0 <= last_id by {
                if a < i {
                    assert(front[a].id is Some);
                }
            }
            assert forall|a: int, b: int| 0 <= a < b < next.len() implies (#[trigger] next[a]).id != (
            #[trigger] next[b]).id by {
                if b < i {
                    assert(front[a].id != front[b].id);
                } else {
                    assert(all[a].id != Some(id));
                }
            }
            assert forall|a: int, b: int| 0 <= a < b < next.len() implies (#[trigger] next[a]).hash
                != (#[trigger] next[b]).hash by {
                if b < i {
                    assert(front[a].hash != front[b].hash);
                } else {
                    assert(all[a].hash != all[i as int].hash);
                }
            }
            assert forall|a: int, b: int| 0 <= a <= b < next.len() implies (#[trigger] next[a]).created_at.le(
                (#[trigger] next[b]).created_at,
            ) by {
                if b < i {
                    assert(front[a].created_at.le(front[b].created_at));
                } else if a < i {
                    assert(front[a].created_at.le(front[i - 1].created_at));
                    assert(all[i - 1].created_at.le(all[i as int].created_at));
                }
            }
        }
        i += 1;
    }
    assert(all.take(i as int) =~= all);
    true
}

/// Replacing the tags of one row keeps a store well formed.
pub proof fn lemma_retagged_wf(s: StoreView, i: int, tags: Seq<Seq<char>>)
    requires
        s.wf(),
        0 <= i < s.rows.len(),
    ensures
        s.retagged(i, tags).wf(),
{
    let r = s.retagged(i, tags).rows;
    assert forall|a: int| 0 <= a < r.len() implies (#[trigger] r[a]).id == s.rows[a].id && r[a].hash
        == s.rows[a].hash && r[a].created_at == s.rows[a].created_at by {}
    assert forall|a: int, b: int| 0 <= a < b < r.len() implies (#[trigger] r[a]).hash != (
    #[trigger] r[b]).hash by {
        assert(s.rows[a].hash != s.rows[b].hash);
    }
    assert forall|a: int, b: int| 0 <= a < b < r.len() implies (#[trigger] r[a]).id != (
    #[trigger] r[b]).id by {
        assert(s.rows[a].id != s.rows[b].id);
    }
    assert forall|a: int| 0 <= a < r.len() implies (#[trigger] r[a]).id is Some && 1 <= r[a].id->0
        <= s.last_id by {
        assert(s.rows[a].id is Some);
    }
    assert forall|a: int, b: int| 0 <= a <= b < r.len() implies (#[trigger] r[a]).created_at.le(
        (#[trigger] r[b]).created_at,
    ) by {
        assert(s.rows[a].created_at.le(s.rows[b].created_at));
    }
}

} // verus!
