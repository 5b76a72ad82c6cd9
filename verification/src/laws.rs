use vstd::prelude::*;
use crate::signature::{same_fact, SignatureView};
use crate::store::{carries, known, tally, upsert_all, upsert_one, well_formed, StoreView};

verus! {

/// How many records of `batch` state the fact of `row`.
pub open spec fn occurrences(batch: Seq<SignatureView>, row: SignatureView) -> int
    decreases batch.len(),
{
    if batch.len() == 0 {
        0
    } else {
        occurrences(batch.drop_last(), row) + if same_fact(row, batch.last()) {
            1int
        } else {
            0int
        }
    }
}

/// Whether no two records of `batch` state the same fact.
pub open spec fn distinct_facts(batch: Seq<SignatureView>) -> bool {
    forall|i: int, j: int|
        0 <= i < j < batch.len() ==> !same_fact(#[trigger] batch[i], #[trigger] batch[j])
}

/// `row` with its tally moved up by `n`, everything else as it was.
pub open spec fn tallied(row: SignatureView, n: int) -> SignatureView {
    SignatureView { index: row.index + n, ..row }
}

/// A submitted record is known afterwards, and what was known stays known.
pub proof fn lemma_upsert_one_known(s: StoreView, rec: SignatureView, other: SignatureView)
    ensures
        known(upsert_one(s, rec).rows, rec),
        known(s.rows, other) ==> known(upsert_one(s, rec).rows, other),
{
    let t = upsert_one(s, rec);
    if known(s.rows, rec) {
        let i = choose|i: int| 0 <= i < s.rows.len() && same_fact(#[trigger] s.rows[i], rec);
        assert(same_fact(t.rows[i], rec));
    } else {
        assert(same_fact(t.rows[s.rows.len() as int], rec));
    }
    if known(s.rows, other) {
        let i = choose|i: int| 0 <= i < s.rows.len() && same_fact(#[trigger] s.rows[i], other);
        assert(same_fact(t.rows[i], other));
    }
}

/// What was known before a batch stays known after it.
pub proof fn lemma_upsert_all_keeps_known(
    s: StoreView,
    batch: Seq<SignatureView>,
    other: SignatureView,
)
    requires
        known(s.rows, other),
    ensures
        known(upsert_all(s, batch).rows, other),
    decreases batch.len(),
{
    if batch.len() > 0 {
        lemma_upsert_all_keeps_known(s, batch.drop_last(), other);
        lemma_upsert_one_known(upsert_all(s, batch.drop_last()), batch.last(), other);
    }
}

/// After a batch was submitted, the fact of each of its records is known.
pub proof fn lemma_batch_known_afterwards(s: StoreView, batch: Seq<SignatureView>, k: int)
    requires
        0 <= k < batch.len(),
    ensures
        known(upsert_all(s, batch).rows, batch[k]),
    decreases batch.len(),
{
    let t = upsert_all(s, batch.drop_last());
    if k == batch.len() - 1 {
        lemma_upsert_one_known(t, batch.last(), batch.last());
    } else {
        lemma_batch_known_afterwards(s, batch.drop_last(), k);
        lemma_upsert_one_known(t, batch.last(), batch[k]);
    }
}

/// Whatever is submitted, a row that is stored keeps its place and all that
/// was recorded of it; only its tally moves, up by the number of submitted
/// records that state its fact.
pub proof fn lemma_stored_rows_only_tally(s: StoreView, batch: Seq<SignatureView>)
    ensures
        upsert_all(s, batch).next_id >= s.next_id,
        upsert_all(s, batch).rows.len() >= s.rows.len(),
        forall|i: int|
            0 <= i < s.rows.len() ==> (#[trigger] upsert_all(s, batch).rows[i]) == tallied(
                s.rows[i],
                occurrences(batch, s.rows[i]),
            ),
    decreases batch.len(),
{
    if batch.len() > 0 {
        let front = batch.drop_last();
        let last = batch.last();
        let t = upsert_all(s, front);
        lemma_stored_rows_only_tally(s, front);
        assert forall|i: int| 0 <= i < s.rows.len() implies (#[trigger] upsert_all(
            s,
            batch,
        ).rows[i]) == tallied(s.rows[i], occurrences(batch, s.rows[i])) by {
            assert(t.rows[i] == tallied(s.rows[i], occurrences(front, s.rows[i])));
            if !known(t.rows, last) {
                assert(!same_fact(t.rows[i], last));
            }
        }
    } else {
        assert forall|i: int| 0 <= i < s.rows.len() implies (#[trigger] upsert_all(
            s,
            batch,
        ).rows[i]) == tallied(s.rows[i], occurrences(batch, s.rows[i])) by {}
    }
}

/// A batch of known facts adds no row and uses no id: each row's tally moves
/// up by the number of records that state its fact, and nothing else moves.
pub proof fn lemma_known_batch_only_tallies(s: StoreView, batch: Seq<SignatureView>)
    requires
        forall|k: int| 0 <= k < batch.len() ==> known(s.rows, #[trigger] batch[k]),
    ensures
        upsert_all(s, batch).next_id == s.next_id,
        upsert_all(s, batch).rows.len() == s.rows.len(),
        forall|i: int|
            0 <= i < s.rows.len() ==> (#[trigger] upsert_all(s, batch).rows[i]) == tallied(
                s.rows[i],
                occurrences(batch, s.rows[i]),
            ),
    decreases batch.len(),
{
    if batch.len() > 0 {
        let front = batch.drop_last();
        let last = batch.last();
        let t = upsert_all(s, front);
        assert forall|k: int| 0 <= k < front.len() implies known(s.rows, #[trigger] front[k]) by {
            assert(front[k] == batch[k]);
        }
        lemma_known_batch_only_tallies(s, front);
        assert(known(s.rows, batch[batch.len() - 1]));
        lemma_upsert_all_keeps_known(s, front, last);
        assert(upsert_all(s, batch).rows == tally(t.rows, last));
        assert forall|i: int| 0 <= i < s.rows.len() implies (#[trigger] upsert_all(
            s,
            batch,
        ).rows[i]) == tallied(s.rows[i], occurrences(batch, s.rows[i])) by {
            assert(t.rows[i] == tallied(s.rows[i], occurrences(front, s.rows[i])));
        }
    } else {
        assert forall|i: int| 0 <= i < s.rows.len() implies (#[trigger] upsert_all(
            s,
            batch,
        ).rows[i]) == tallied(s.rows[i], occurrences(batch, s.rows[i])) by {}
    }
}

/// Among records of distinct facts, a fact is stated once or not at all.
pub proof fn lemma_occurrences_of_distinct(batch: Seq<SignatureView>, row: SignatureView)
    requires
        distinct_facts(batch),
    ensures
        occurrences(batch, row) == if known(batch, row) {
            1int
        } else {
            0int
        },
    decreases batch.len(),
{
    if batch.len() > 0 {
        let front = batch.drop_last();
        assert forall|i: int, j: int| 0 <= i < j < front.len() implies !same_fact(
            #[trigger] front[i],
            #[trigger] front[j],
        ) by {
            assert(front[i] == batch[i] && front[j] == batch[j]);
        }
        lemma_occurrences_of_distinct(front, row);
        if same_fact(row, batch.last()) {
            assert(same_fact(batch[batch.len() - 1], row));
            if known(front, row) {
                let i = choose|i: int| 0 <= i < front.len() && same_fact(#[trigger] front[i], row);
                assert(same_fact(batch[i], batch[batch.len() - 1]));
            }
        } else {
            if known(batch, row) {
                let i = choose|i: int| 0 <= i < batch.len() && same_fact(#[trigger] batch[i], row);
                assert(same_fact(front[i], row));
            }
            if known(front, row) {
                let i = choose|i: int| 0 <= i < front.len() && same_fact(#[trigger] front[i], row);
                assert(same_fact(batch[i], row));
            }
        }
    }
}

/// Submitting the same batch again leaves the number of rows and the next id
/// as the first submission left them, and moves each row's tally up by the
/// number of records of the batch that state its fact.
pub proof fn lemma_resubmission_tallies(s: StoreView, batch: Seq<SignatureView>)
    ensures
        upsert_all(upsert_all(s, batch), batch).next_id == upsert_all(s, batch).next_id,
        upsert_all(upsert_all(s, batch), batch).rows.len() == upsert_all(s, batch).rows.len(),
        forall|i: int|
            0 <= i < upsert_all(s, batch).rows.len() ==> (#[trigger] upsert_all(
                upsert_all(s, batch),
                batch,
            ).rows[i]) == tallied(
                upsert_all(s, batch).rows[i],
                occurrences(batch, upsert_all(s, batch).rows[i]),
            ),
{
    let once = upsert_all(s, batch);
    assert forall|k: int| 0 <= k < batch.len() implies known(once.rows, #[trigger] batch[k]) by {
        lemma_batch_known_afterwards(s, batch, k);
    }
    lemma_known_batch_only_tallies(once, batch);
}

/// Submitting a batch of distinct facts again moves the tally of every row
/// whose fact the batch states up by exactly one, and leaves every other row
/// and the number of rows as they were.
pub proof fn lemma_resubmission_of_distinct_facts(s: StoreView, batch: Seq<SignatureView>)
    requires
        distinct_facts(batch),
    ensures
        upsert_all(upsert_all(s, batch), batch).rows.len() == upsert_all(s, batch).rows.len(),
        forall|i: int|
            0 <= i < upsert_all(s, batch).rows.len() ==> (#[trigger] upsert_all(
                upsert_all(s, batch),
                batch,
            ).rows[i]) == if known(batch, upsert_all(s, batch).rows[i]) {
                tallied(upsert_all(s, batch).rows[i], 1)
            } else {
                upsert_all(s, batch).rows[i]
            },
{
    let once = upsert_all(s, batch);
    let twice = upsert_all(once, batch);
    lemma_resubmission_tallies(s, batch);
    assert forall|i: int| 0 <= i < once.rows.len() implies (#[trigger] twice.rows[i]) == if known(
        batch,
        once.rows[i],
    ) {
        tallied(once.rows[i], 1)
    } else {
        once.rows[i]
    } by {
        lemma_occurrences_of_distinct(batch, once.rows[i]);
        assert(twice.rows[i] == tallied(once.rows[i], occurrences(batch, once.rows[i])));
    }
}

/// In a well-formed table no row occurs twice.
pub proof fn lemma_rows_differ(s: StoreView)
    requires
        well_formed(s),
    ensures
        s.rows.no_duplicates(),
{
    assert forall|i: int, j: int| 0 <= i < s.rows.len() && 0 <= j < s.rows.len() && i != j implies
        s.rows[i] != s.rows[j] by {
        if i < j {
            assert(s.rows[i].id < s.rows[j].id);
        } else {
            assert(s.rows[j].id < s.rows[i].id);
        }
    }
}

/// A search returns exactly the rows whose fingerprint is among the wanted
/// values, and none of them twice when no row occurs twice.
pub proof fn lemma_search_exact(rows: Seq<SignatureView>, wanted: Seq<Seq<char>>)
    ensures
        forall|row: SignatureView| #[trigger]
            rows.filter(carries(wanted)).contains(row) <==> rows.contains(row) && wanted.contains(
                row.signature,
            ),
        rows.no_duplicates() ==> rows.filter(carries(wanted)).no_duplicates(),
    decreases rows.len(),
{
    let pred = carries(wanted);
    if rows.len() == 0 {
        rows.lemma_filter_len(pred);
        assert forall|row: SignatureView| #[trigger]
            rows.filter(pred).contains(row) <==> rows.contains(row) && wanted.contains(
                row.signature,
            ) by {}
    } else {
        let front = rows.drop_last();
        let last = rows.last();
        lemma_search_exact(front, wanted);
        assert(front.push(last) =~= rows);
        front.lemma_filter_push(last, pred);
        let sub = front.filter(pred);
        assert forall|row: SignatureView| #[trigger]
            rows.filter(pred).contains(row) <==> rows.contains(row) && wanted.contains(
                row.signature,
            ) by {
            if rows.filter(pred).contains(row) {
                if pred(last) {
                    let i = choose|i: int|
                        0 <= i < sub.push(last).len() && sub.push(last)[i] == row;
                    if i < sub.len() {
                        assert(sub[i] == row);
                        assert(sub.contains(row));
                        let j = choose|j: int| 0 <= j < front.len() && front[j] == row;
                        assert(rows[j] == row);
                    } else {
                        assert(rows[rows.len() - 1] == row);
                    }
                } else {
                    assert(sub.contains(row));
                    let j = choose|j: int| 0 <= j < front.len() && front[j] == row;
                    assert(rows[j] == row);
                }
            }
            if rows.contains(row) && wanted.contains(row.signature) {
                let j = choose|j: int| 0 <= j < rows.len() && rows[j] == row;
                if j < front.len() {
                    assert(front[j] == row);
                    assert(front.contains(row));
                    assert(sub.contains(row));
                    let i = choose|i: int| 0 <= i < sub.len() && sub[i] == row;
                    if pred(last) {
                        assert(sub.push(last)[i] == row);
                    }
                } else {
                    assert(pred(last));
                    assert(sub.push(last)[sub.len() as int] == row);
                }
            }
        }
        if rows.no_duplicates() {
            assert forall|i: int, j: int|
                0 <= i < front.len() && 0 <= j < front.len() && i != j implies front[i]
                != front[j] by {
                assert(rows[i] != rows[j]);
            }
            if pred(last) {
                if sub.contains(last) {
                    let j = choose|j: int| 0 <= j < front.len() && front[j] == last;
                    assert(rows[j] == rows[rows.len() - 1]);
                }
                assert forall|i: int, j: int|
                    0 <= i < sub.push(last).len() && 0 <= j < sub.push(last).len() && i
                        != j implies sub.push(last)[i] != sub.push(last)[j] by {
                    if i < sub.len() && j < sub.len() {
                        assert(sub[i] != sub[j]);
                    } else if i < sub.len() {
                        assert(sub.contains(sub[i]));
                    } else {
                        assert(sub.contains(sub[j]));
                    }
                }
            }
        }
    }
}

/// On a well-formed table a search returns every row whose fingerprint is
/// among the wanted values, no other row, and none of them twice.
pub proof fn lemma_search_of_table(s: StoreView, wanted: Seq<Seq<char>>)
    requires
        well_formed(s),
    ensures
        s.rows.filter(carries(wanted)).no_duplicates(),
        forall|row: SignatureView| #[trigger]
            s.rows.filter(carries(wanted)).contains(row) <==> s.rows.contains(row)
                && wanted.contains(row.signature),
{
    lemma_rows_differ(s);
    lemma_search_exact(s.rows, wanted);
}

/// Only the set of wanted values matters to a search, not their order nor
/// how often one is given.
pub proof fn lemma_search_by_set(
    rows: Seq<SignatureView>,
    first: Seq<Seq<char>>,
    second: Seq<Seq<char>>,
)
    requires
        first.to_set() == second.to_set(),
    ensures
        rows.filter(carries(first)) == rows.filter(carries(second)),
    decreases rows.len(),
{
    if rows.len() == 0 {
        rows.lemma_filter_len(carries(first));
        rows.lemma_filter_len(carries(second));
        assert(rows.filter(carries(first)) =~= rows.filter(carries(second)));
    } else {
        let front = rows.drop_last();
        let last = rows.last();
        lemma_search_by_set(front, first, second);
        assert(front.push(last) =~= rows);
        front.lemma_filter_push(last, carries(first));
        front.lemma_filter_push(last, carries(second));
        assert(first.contains(last.signature) == first.to_set().contains(last.signature));
        assert(second.contains(last.signature) == second.to_set().contains(last.signature));
    }
}

/// A search for no value finds no row.
pub proof fn lemma_search_for_nothing(rows: Seq<SignatureView>)
    ensures
        rows.filter(carries(Seq::empty())).len() == 0,
    decreases rows.len(),
{
    if rows.len() == 0 {
        rows.lemma_filter_len(carries(Seq::empty()));
    } else {
        lemma_search_for_nothing(rows.drop_last());
        assert(rows.drop_last().push(rows.last()) =~= rows);
        rows.drop_last().lemma_filter_push(rows.last(), carries(Seq::empty()));
    }
}

} // verus!
