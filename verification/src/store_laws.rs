//! What holds of the store's operations taken together.

use vstd::prelude::*;
use crate::model::EntryView;
use crate::db::{
    MAX_ID, StoreView, distinct_hashes, lemma_evict_wf, lemma_grown_consistent, lemma_slot, matches_query,
    matching, other_than, slot, surplus, tags_json, tags_with, tags_without,
};
use crate::text::occurs_at;

verus! {

/// Inserting into a well-formed store leaves a well-formed store: the rows
/// stay keyed, distinct by digest, in order of age, and within the bound.
pub proof fn insert_keeps_store_well_formed(s: StoreView, e: EntryView)
    requires
        s.wf(),
    ensures
        s.insert(e).wf(),
        s.insert(e).rows.len() <= s.max_entries,
        s.insert(e).max_entries == s.max_entries,
{
    if s.admits(e) {
        lemma_grown_consistent(s, e);
        lemma_evict_wf(s.grown(e));
    }
}

/// However many entries are inserted one after another, the store is well
/// formed, and so within its bound, after each of them.
pub proof fn every_insert_keeps_bound(s: StoreView, entries: Seq<EntryView>, n: int)
    requires
        s.wf(),
        0 <= n <= entries.len(),
    ensures
        s.insert_all(entries.take(n)).wf(),
        s.insert_all(entries.take(n)).rows.len() <= s.max_entries,
        s.insert_all(entries.take(n)).max_entries == s.max_entries,
    decreases n,
{
    if n > 0 {
        assert(entries.take(n).drop_last() =~= entries.take(n - 1));
        every_insert_keeps_bound(s, entries, n - 1);
        insert_keeps_store_well_formed(s.insert_all(entries.take(n - 1)), entries.take(n).last());
    }
}

/// Where an insert makes the store exceed its bound, the rows that leave are
/// the surplus and no more, and each of them is at least as old as every row
/// that stays.
pub proof fn eviction_takes_oldest_surplus(s: StoreView, e: EntryView)
    requires
        s.wf(),
        s.admits(e),
    ensures
        ({
            let g = s.grown(e).rows;
            let k = surplus(g.len(), s.max_entries as nat) as int;
            &&& g.len() == s.rows.len() + 1
            &&& s.insert(e).rows == g.skip(k)
            &&& s.insert(e).rows.len() == g.len() - k
            &&& forall|i: int, j: int|
                0 <= i < k <= j < g.len() ==> (#[trigger] g[i]).created_at.le(
                    (#[trigger] g[j]).created_at,
                )
        }),
{
    lemma_grown_consistent(s, e);
    lemma_evict_wf(s.grown(e));
}

/// Inserting the same entry a second time changes no row, and where the
/// first insert left the entry in the store, it changes nothing at all. No
/// two rows ever share a digest.
pub proof fn insert_twice_is_insert_once(s: StoreView, e: EntryView)
    requires
        s.wf(),
    ensures
        s.insert(e).insert(e).rows == s.insert(e).rows,
        s.insert(e).has_hash(e.hash) ==> s.insert(e).insert(e) == s.insert(e),
        distinct_hashes(s.insert(e).rows),
{
    insert_keeps_store_well_formed(s, e);
    let s1 = s.insert(e);
    if s1.admits(e) {
        // The first insert stored the entry and evicted it at once.
        assert(s.admits(e));
        lemma_grown_consistent(s, e);
        let g = s.grown(e);
        let k = slot(s.rows, e.created_at);
        lemma_slot(s.rows, e.created_at);
        s.rows.insert_ensures(k, g.rows[k]);
        let n = surplus(g.rows.len(), s.max_entries as nat) as int;
        assert(n <= 1);
        if n == 0 || k > 0 {
            assert(s1.rows[k - n] == g.rows[k]);
            assert(s1.rows[k - n].hash == e.hash);
            assert(false);
        }
        assert(s1.rows =~= s.rows);
        let g1 = s1.grown(e);
        s1.rows.insert_ensures(0, g1.rows[0]);
        lemma_slot(s1.rows, e.created_at);
        assert(slot(s1.rows, e.created_at) == 0);
        assert(g1.rows.len() == g.rows.len());
        assert(s1.insert(e).rows =~= s1.rows) by {
            assert forall|i: int| 0 <= i < s1.rows.len() implies s1.insert(e).rows[i] == s1.rows[i] by {
                assert(g1.rows[i + 1] == s1.rows[i]);
            }
        }
    }
}

/// A key is handed out once: the key under which an insert stores a row is
/// larger than every key in the store and than every key handed out
/// before, whether or not the rows that had them are still there.
pub proof fn keys_are_never_reused(s: StoreView, e: EntryView)
    requires
        s.wf(),
    ensures
        s.insert(e).last_id >= s.last_id,
        s.admits(e) ==> s.insert(e).last_id == s.last_id + 1,
        forall|i: int| 0 <= i < s.rows.len() ==> (#[trigger] s.rows[i]).id->0 <= s.last_id,
        forall|i: int|
            0 <= i < s.insert(e).rows.len() && (#[trigger] s.insert(e).rows[i]).id->0 > s.last_id
                ==> s.insert(e).rows[i] == e.with_id(Some((s.last_id + 1) as u64)),
{
    if s.admits(e) {
        lemma_grown_consistent(s, e);
        let g = s.grown(e);
        let k = slot(s.rows, e.created_at);
        lemma_slot(s.rows, e.created_at);
        s.rows.insert_ensures(k, e.with_id(Some((s.last_id + 1) as u64)));
        let n = surplus(g.rows.len(), s.max_entries as nat) as int;
        assert forall|i: int|
            0 <= i < s.insert(e).rows.len() && (#[trigger] s.insert(e).rows[i]).id->0 > s.last_id
            implies s.insert(e).rows[i] == e.with_id(Some((s.last_id + 1) as u64)) by {
            let j = i + n;
            assert(s.insert(e).rows[i] == g.rows[j]);
            if j < k {
                assert(g.rows[j] == s.rows[j]);
            } else if j > k {
                assert(g.rows[(j - 1) + 1] == s.rows[j - 1]);
            }
        }
    }
}

/// Filtering by a test that every element passes changes nothing.
pub proof fn filter_keeps_all<A>(s: Seq<A>, pred: spec_fn(A) -> bool)
    requires
        forall|i: int| 0 <= i < s.len() ==> pred(#[trigger] s[i]),
    ensures
        s.filter(pred) == s,
    decreases s.len(),
{
    reveal(Seq::filter);
    if s.len() > 0 {
        filter_keeps_all(s.drop_last(), pred);
        assert(s.drop_last().push(s.last()) =~= s);
    }
}

/// Filtering keeps a relation that holds between each element and every
/// element behind it, and gives only elements that were there and pass.
pub proof fn filter_keeps_order<A>(s: Seq<A>, pred: spec_fn(A) -> bool, rel: spec_fn(A, A) -> bool)
    requires
        forall|i: int, j: int| 0 <= i < j < s.len() ==> rel(#[trigger] s[i], #[trigger] s[j]),
    ensures
        forall|i: int, j: int|
            0 <= i < j < s.filter(pred).len() ==> rel(
                #[trigger] s.filter(pred)[i],
                #[trigger] s.filter(pred)[j],
            ),
        forall|i: int|
            0 <= i < s.filter(pred).len() ==> s.contains(#[trigger] s.filter(pred)[i]) && pred(
                s.filter(pred)[i],
            ),
    decreases s.len(),
{
    reveal(Seq::filter);
    if s.len() > 0 {
        let front = s.drop_last();
        filter_keeps_order(front, pred, rel);
        let f = s.filter(pred);
        let ff = front.filter(pred);
        assert forall|i: int| 0 <= i < f.len() implies s.contains(#[trigger] f[i]) && pred(f[i]) by {
            if i < ff.len() {
                assert(front.contains(ff[i]));
                let w = choose|w: int| 0 <= w < front.len() && front[w] == ff[i];
                assert(s[w] == ff[i]);
            } else {
                assert(f[i] == s[s.len() - 1]);
            }
        }
        assert forall|i: int, j: int| 0 <= i < j < f.len() implies rel(
            #[trigger] f[i],
            #[trigger] f[j],
        ) by {
            if j >= ff.len() {
                assert(f[j] == s[s.len() - 1]);
                assert(front.contains(ff[i]));
                let w = choose|w: int| 0 <= w < front.len() && front[w] == ff[i];
                assert(rel(s[w], s[s.len() - 1]));
            }
        }
    }
}

/// A search for the empty query gives what listing the recent entries gives.
pub proof fn empty_search_is_recent(s: StoreView, limit: nat)
    ensures
        s.search(Seq::empty(), limit) == s.recent(limit),
{
    let all = s.newest_first();
    let pred = matching(Seq::empty());
    assert forall|i: int| 0 <= i < all.len() implies pred(#[trigger] all[i]) by {
        let hay = tags_json(all[i].tags);
        assert(hay.subrange(0, 0) =~= Seq::<char>::empty());
        assert(occurs_at(hay, Seq::empty(), 0));
    }
    filter_keeps_all(all, pred);
}

/// A search gives only entries that match the query, no more of them than
/// the limit, each of them a row of the store, and the more recent before
/// the less recent.
pub proof fn search_gives_matches_newest_first(s: StoreView, query: Seq<char>, limit: nat)
    requires
        s.wf(),
    ensures
        s.search(query, limit).len() <= limit,
        forall|i: int|
            0 <= i < s.search(query, limit).len() ==> matches_query(
                #[trigger] s.search(query, limit)[i],
                query,
            ) && s.rows.contains(s.search(query, limit)[i]),
        forall|i: int, j: int|
            0 <= i <= j < s.search(query, limit).len() ==> (#[trigger] s.search(
                query,
                limit,
            )[j]).created_at.le((#[trigger] s.search(query, limit)[i]).created_at),
{
    let all = s.newest_first();
    let pred = matching(query);
    let rel = |a: EntryView, b: EntryView| b.created_at.le(a.created_at);
    assert forall|i: int, j: int| 0 <= i < j < all.len() implies rel(
        #[trigger] all[i],
        #[trigger] all[j],
    ) by {
        assert(s.rows[s.rows.len() - 1 - j].created_at.le(s.rows[s.rows.len() - 1 - i].created_at));
    }
    filter_keeps_order(all, pred, rel);
    let hits = all.filter(pred);
    let found = s.search(query, limit);
    assert forall|i: int| 0 <= i < found.len() implies matches_query(#[trigger] found[i], query)
        && s.rows.contains(found[i]) by {
        assert(found[i] == hits[i]);
        assert(all.contains(hits[i]));
        let w = choose|w: int| 0 <= w < all.len() && all[w] == hits[i];
        assert(s.rows[s.rows.len() - 1 - w] == hits[i]);
    }
    assert forall|i: int, j: int| 0 <= i <= j < found.len() implies (#[trigger] found[j]).created_at.le(
        (#[trigger] found[i]).created_at,
    ) by {
        if i < j {
            assert(rel(hits[i], hits[j]));
        }
    }
}

/// How often `tag` stands among `tags`.
pub open spec fn occurrences(tags: Seq<Seq<char>>, tag: Seq<char>) -> nat
    decreases tags.len(),
{
    if tags.len() == 0 {
        0
    } else {
        occurrences(tags.drop_last(), tag) + if tags.last() == tag {
            1nat
        } else {
            0nat
        }
    }
}

/// A tag that is not among the tags occurs in them no times, and one that
/// is occurs at least once.
pub proof fn occurrences_of_member(tags: Seq<Seq<char>>, tag: Seq<char>)
    ensures
        tags.contains(tag) <==> occurrences(tags, tag) >= 1,
    decreases tags.len(),
{
    if tags.len() > 0 {
        occurrences_of_member(tags.drop_last(), tag);
        if tags.drop_last().contains(tag) {
            let w = choose|w: int| 0 <= w < tags.drop_last().len() && tags.drop_last()[w] == tag;
            assert(tags[w] == tag);
        }
        if tags.contains(tag) && tags.last() != tag {
            let w = choose|w: int| 0 <= w < tags.len() && tags[w] == tag;
            assert(tags.drop_last()[w] == tag);
        }
        if tags.last() == tag {
            assert(tags[tags.len() - 1] == tag);
        }
    }
}

/// Adding a tag once or twice comes to the same; the tag is then among the
/// tags, and exactly once where it was there at most once before.
pub proof fn add_tag_twice_is_add_tag_once(tags: Seq<Seq<char>>, tag: Seq<char>)
    ensures
        tags_with(tags_with(tags, tag), tag) == tags_with(tags, tag),
        tags_with(tags, tag).contains(tag),
        occurrences(tags, tag) <= 1 ==> occurrences(tags_with(tags, tag), tag) == 1,
{
    let once = tags_with(tags, tag);
    occurrences_of_member(tags, tag);
    if !tags.contains(tag) {
        assert(once[once.len() - 1] == tag);
        assert(once.drop_last() =~= tags);
    }
}

/// In a store, adding a tag to a row a second time changes nothing.
pub proof fn store_add_tag_is_idempotent(s: StoreView, id: u64, tag: Seq<char>)
    requires
        s.wf(),
        s.has_id(id),
    ensures
        s.add_tag(id, tag).add_tag(id, tag) == s.add_tag(id, tag),
        s.add_tag(id, tag).rows[s.index_of_id(id)].tags.contains(tag),
{
    let i = s.index_of_id(id);
    let t = s.add_tag(id, tag);
    add_tag_twice_is_add_tag_once(s.rows[i].tags, tag);
    assert(t.rows[i].id == Some(id));
    let j = t.index_of_id(id);
    if j != i {
        assert(t.rows[j].id == s.rows[j].id);
        if j < i {
            assert(s.rows[j].id != s.rows[i].id);
        } else {
            assert(s.rows[i].id != s.rows[j].id);
        }
    }
    assert(t.add_tag(id, tag).rows =~= t.rows);
}

/// Removing a tag that a row does not have leaves the store as it is.
pub proof fn remove_absent_tag_changes_nothing(s: StoreView, id: u64, tag: Seq<char>)
    requires
        s.wf(),
        s.has_id(id),
        !s.rows[s.index_of_id(id)].tags.contains(tag),
    ensures
        s.remove_tag(id, tag) == s,
        tags_without(s.rows[s.index_of_id(id)].tags, tag) == s.rows[s.index_of_id(id)].tags,
{
    let i = s.index_of_id(id);
    let tags = s.rows[i].tags;
    let pred = other_than(tag);
    assert forall|k: int| 0 <= k < tags.len() implies pred(#[trigger] tags[k]) by {
        if tags[k] == tag {
            assert(tags.contains(tag));
        }
    }
    filter_keeps_all(tags, pred);
    assert(s.remove_tag(id, tag).rows =~= s.rows);
}

/// Tags that are all different stay so when a tag is added or removed.
pub proof fn tagging_keeps_tags_distinct(tags: Seq<Seq<char>>, tag: Seq<char>)
    requires
        tags.no_duplicates(),
    ensures
        tags_with(tags, tag).no_duplicates(),
        tags_without(tags, tag).no_duplicates(),
{
    let rel = |a: Seq<char>, b: Seq<char>| a != b;
    filter_keeps_order(tags, other_than(tag), rel);
    let left = tags_without(tags, tag);
    assert forall|i: int, j: int| 0 <= i < left.len() && 0 <= j < left.len() && i != j implies left[i]
        != left[j] by {
        if i < j {
            assert(rel(left[i], left[j]));
        } else {
            assert(rel(left[j], left[i]));
        }
    }
    let more = tags_with(tags, tag);
    if !tags.contains(tag) {
        assert forall|i: int, j: int| 0 <= i < more.len() && 0 <= j < more.len() && i != j implies more[i]
            != more[j] by {
            if i == tags.len() {
                assert(tags[j] != tag);
            } else if j == tags.len() {
                assert(tags[i] != tag);
            }
        }
    }
}

/// After a tag is removed from a row, the row does not have it.
pub proof fn removed_tag_is_gone(tags: Seq<Seq<char>>, tag: Seq<char>)
    ensures
        !tags_without(tags, tag).contains(tag),
{
    let pred = other_than(tag);
    let rel = |a: Seq<char>, b: Seq<char>| true;
    filter_keeps_order(tags, pred, rel);
    if tags_without(tags, tag).contains(tag) {
        let w = choose|w: int| 0 <= w < tags.filter(pred).len() && tags.filter(pred)[w] == tag;
        assert(pred(tags.filter(pred)[w]));
    }
}

/// Each insert hands out one key at most.
pub proof fn inserts_use_a_key_each(s: StoreView, entries: Seq<EntryView>, n: int)
    requires
        0 <= n <= entries.len(),
    ensures
        s.last_id <= s.insert_all(entries.take(n)).last_id <= s.last_id + n,
    decreases n,
{
    if n > 0 {
        assert(entries.take(n).drop_last() =~= entries.take(n - 1));
        inserts_use_a_key_each(s, entries, n - 1);
    }
}

/// An import into a store that has a key left for each of the entries goes
/// through: none of its inserts fails.
pub proof fn import_with_keys_left_goes_through(s: StoreView, entries: Seq<EntryView>)
    requires
        s.last_id + entries.len() <= MAX_ID,
    ensures
        s.takes_all(entries),
{
    assert forall|n: int| 0 <= n < entries.len() implies #[trigger] s.has_room_at(entries, n) by {
        inserts_use_a_key_each(s, entries, n);
    }
}

/// The store that holds the first `n` rows of `s`, keyed one to `n`.
pub open spec fn rekeyed(s: StoreView, n: int) -> StoreView {
    StoreView {
        rows: Seq::new(n as nat, |i: int| s.rows[i].with_id(Some((i + 1) as u64))),
        last_id: n as u64,
        max_entries: s.max_entries,
    }
}

/// A well-formed store has no more rows than there are keys.
pub proof fn rows_fit_keys(s: StoreView)
    requires
        s.consistent(),
    ensures
        s.rows.len() <= s.last_id,
{
    let ids = Seq::new(s.rows.len(), |i: int| s.rows[i].id->0 as int);
    assert(ids.no_duplicates()) by {
        assert forall|i: int, j: int| 0 <= i < ids.len() && 0 <= j < ids.len() && i != j implies ids[i]
            != ids[j] by {
            if i < j {
                assert(s.rows[i].id != s.rows[j].id);
            } else {
                assert(s.rows[j].id != s.rows[i].id);
            }
            assert(s.rows[i].id is Some && s.rows[j].id is Some);
        }
    }
    ids.unique_seq_to_set();
    let range = vstd::set_lib::set_int_range(1, s.last_id + 1);
    vstd::set_lib::lemma_int_range(1, s.last_id + 1);
    assert(ids.to_set().subset_of(range)) by {
        assert forall|x: int| ids.to_set().contains(x) implies range.contains(x) by {
            let w = choose|w: int| 0 <= w < ids.len() && ids[w] == x;
            assert(s.rows[w].id is Some && 1 <= s.rows[w].id->0 <= s.last_id);
        }
    }
    vstd::set_lib::lemma_len_subset(ids.to_set(), range);
}

/// Importing the first `n` rows of an export into an empty store of the
/// same bound stores each of them, in the same order, under the keys one to
/// `n`.
pub proof fn import_of_export_prefix(s: StoreView, n: int)
    requires
        s.wf(),
        0 <= n <= s.rows.len(),
    ensures
        (StoreView { rows: Seq::empty(), last_id: 0, max_entries: s.max_entries }).insert_all(
            s.rows.take(n),
        ) == rekeyed(s, n),
    decreases n,
{
    let empty = StoreView { rows: Seq::empty(), last_id: 0, max_entries: s.max_entries };
    rows_fit_keys(s);
    if n == 0 {
        assert(rekeyed(s, 0).rows =~= Seq::<EntryView>::empty());
    } else {
        import_of_export_prefix(s, n - 1);
        assert(s.rows.take(n).drop_last() =~= s.rows.take(n - 1));
        let prev = rekeyed(s, n - 1);
        let e = s.rows[n - 1];
        assert(s.rows.take(n).last() == e);
        assert(!prev.has_hash(e.hash)) by {
            if prev.has_hash(e.hash) {
                let w = choose|w: int| 0 <= w < prev.rows.len() && (#[trigger] prev.rows[w]).hash
                    == e.hash;
                assert(s.rows[w].hash != s.rows[n - 1].hash);
            }
        }
        assert(prev.admits(e));
        assert(slot(prev.rows, e.created_at) == n - 1) by {
            if n - 1 > 0 {
                assert(prev.rows.last() == prev.rows[n - 2]);
                assert(s.rows[n - 2].created_at.le(s.rows[n - 1].created_at));
            }
        }
        let g = prev.grown(e);
        prev.rows.insert_ensures(n - 1, e.with_id(Some(n as u64)));
        assert(g.rows =~= rekeyed(s, n).rows);
        assert(g.evict().rows =~= g.rows);
    }
}

/// Exporting a store and importing the export into an empty store of the
/// same bound goes through and gives the same rows in the same order: each
/// with its digest, its tags and all else but the key, which is handed out
/// anew.
pub proof fn import_of_export_restores_rows(s: StoreView)
    requires
        s.wf(),
    ensures
        ({
            let empty = StoreView { rows: Seq::empty(), last_id: 0, max_entries: s.max_entries };
            let back = empty.insert_all(s.rows);
            &&& empty.takes_all(s.rows)
            &&& back.wf()
            &&& back.rows.len() == s.rows.len()
            &&& forall|i: int|
                0 <= i < s.rows.len() ==> (#[trigger] back.rows[i]) == s.rows[i].with_id(
                    Some((i + 1) as u64),
                )
        }),
{
    let empty = StoreView { rows: Seq::empty(), last_id: 0, max_entries: s.max_entries };
    import_of_export_prefix(s, s.rows.len() as int);
    assert(s.rows.take(s.rows.len() as int) =~= s.rows);
    rows_fit_keys(s);
    import_with_keys_left_goes_through(empty, s.rows);
    assert(empty.wf());
    every_insert_keeps_bound(empty, s.rows, s.rows.len() as int);
}

/// Importing the first `n` rows of a store's own export into that store
/// changes nothing: every row is a duplicate, and none is counted as stored.
pub proof fn import_of_own_export_changes_nothing(s: StoreView, n: int)
    requires
        s.wf(),
        0 <= n <= s.rows.len(),
    ensures
        s.insert_all(s.rows.take(n)) == s,
        s.imported(s.rows.take(n)) == 0,
    decreases n,
{
    if n > 0 {
        import_of_own_export_changes_nothing(s, n - 1);
        assert(s.rows.take(n).drop_last() =~= s.rows.take(n - 1));
        assert(s.rows.take(n).last() == s.rows[n - 1]);
        assert(s.has_hash(s.rows[n - 1].hash));
    }
}

/// Importing a store's own export into that store goes through and
/// changes nothing: every row is a duplicate, and none is counted as stored.
pub proof fn own_export_is_taken(s: StoreView)
    requires
        s.wf(),
    ensures
        s.takes_all(s.rows),
        s.insert_all(s.rows) == s,
        s.imported(s.rows) == 0,
{
    assert forall|n: int| 0 <= n < s.rows.len() implies #[trigger] s.has_room_at(s.rows, n) by {
        import_of_own_export_changes_nothing(s, n);
        assert(s.has_hash(s.rows[n].hash));
    }
    import_of_own_export_changes_nothing(s, s.rows.len() as int);
    assert(s.rows.take(s.rows.len() as int) =~= s.rows);
}

/// An import of entries whose digests are all in the store goes through and
/// changes nothing.
pub proof fn import_of_duplicates_changes_nothing(s: StoreView, entries: Seq<EntryView>, n: int)
    requires
        0 <= n <= entries.len(),
        forall|i: int| 0 <= i < entries.len() ==> s.has_hash(#[trigger] entries[i].hash),
    ensures
        s.insert_all(entries.take(n)) == s,
        s.imported(entries.take(n)) == 0,
        s.takes_all(entries.take(n)),
    decreases n,
{
    if n > 0 {
        import_of_duplicates_changes_nothing(s, entries, n - 1);
        assert(entries.take(n).drop_last() =~= entries.take(n - 1));
        assert(entries.take(n).last() == entries[n - 1]);
        assert(s.has_hash(entries[n - 1].hash));
    }
    assert forall|m: int| 0 <= m < entries.take(n).len() implies #[trigger] s.has_room_at(
        entries.take(n),
        m,
    ) by {
        import_of_duplicates_changes_nothing(s, entries, m);
        assert(entries.take(n).take(m) =~= entries.take(m));
        assert(s.has_hash(entries[m].hash));
    }
}

/// Removing a tag that was added to a row that did not have it gives the
/// store as it was before.
pub proof fn remove_undoes_add(s: StoreView, id: u64, tag: Seq<char>)
    requires
        s.wf(),
        s.has_id(id),
        !s.rows[s.index_of_id(id)].tags.contains(tag),
    ensures
        s.add_tag(id, tag).has_id(id),
        s.add_tag(id, tag).remove_tag(id, tag) == s,
{
    let i = s.index_of_id(id);
    let t = s.add_tag(id, tag);
    assert(t.rows[i].id == Some(id));
    let j = t.index_of_id(id);
    if j != i {
        assert(t.rows[j].id == s.rows[j].id);
        if j < i {
            assert(s.rows[j].id != s.rows[i].id);
        } else {
            assert(s.rows[i].id != s.rows[j].id);
        }
    }
    let tags = s.rows[i].tags;
    let pred = other_than(tag);
    assert forall|k: int| 0 <= k < tags.len() implies pred(#[trigger] tags[k]) by {
        if tags[k] == tag {
            assert(tags.contains(tag));
        }
    }
    filter_keeps_all(tags, pred);
    reveal(Seq::filter);
    assert(tags.push(tag).drop_last() =~= tags);
    assert(tags_without(tags.push(tag), tag) == tags);
    assert(t.remove_tag(id, tag).rows =~= s.rows);
}

} // verus!
