use vstd::prelude::*;
use crate::error::StoreError;
use crate::signature::{same_fact, views, Signature, SignatureView};

verus! {

/// Mathematical value of the signature table: its rows in order of first
/// insertion, and the id that the next fresh row will get.
pub struct StoreView {
    pub rows: Seq<SignatureView>,
    pub next_id: int,
}

/// The table of fingerprint records, at most one row per fact.
pub struct SignatureStore {
    rows: Vec<Signature>,
    next_id: i32,
}

impl View for SignatureStore {
    type V = StoreView;

    closed spec fn view(&self) -> StoreView {
        StoreView { rows: views(self.rows@), next_id: self.next_id as int }
    }
}

/// The table's invariant: ids are positive, grow with the position and lie
/// below `next_id`; tallies are not negative; no two rows state the same fact.
pub open spec fn well_formed(s: StoreView) -> bool {
    &&& 1 <= s.next_id
    &&& s.rows.len() < s.next_id
    &&& forall|i: int|
        0 <= i < s.rows.len() ==> 1 <= (#[trigger] s.rows[i]).id < s.next_id && 0
            <= s.rows[i].index
    &&& forall|i: int, j: int|
        0 <= i < j < s.rows.len() ==> (#[trigger] s.rows[i]).id < (#[trigger] s.rows[j]).id
    &&& forall|i: int, j: int|
        0 <= i < j < s.rows.len() ==> !same_fact(#[trigger] s.rows[i], #[trigger] s.rows[j])
}

/// Whether every counter of the table is one that a row can hold.
pub open spec fn fits(s: StoreView) -> bool {
    &&& s.next_id <= i32::MAX
    &&& forall|i: int| 0 <= i < s.rows.len() ==> (#[trigger] s.rows[i]).index <= i32::MAX
}

/// Whether some row states the fact of `rec`.
pub open spec fn known(rows: Seq<SignatureView>, rec: SignatureView) -> bool {
    exists|i: int| 0 <= i < rows.len() && same_fact(#[trigger] rows[i], rec)
}

/// The row after one more resubmission: only the tally moves.
pub open spec fn bump(row: SignatureView) -> SignatureView {
    SignatureView { index: row.index + 1, ..row }
}

/// The row that a record becomes when it is first stored under `id`.
pub open spec fn fresh(rec: SignatureView, id: int) -> SignatureView {
    SignatureView { id, index: 0, ..rec }
}

/// The rows after a resubmission of the fact of `rec`.
pub open spec fn tally(rows: Seq<SignatureView>, rec: SignatureView) -> Seq<SignatureView> {
    Seq::new(
        rows.len(),
        |i: int|
            if same_fact(rows[i], rec) {
                bump(rows[i])
            } else {
                rows[i]
            },
    )
}

/// The table after one record is submitted: a known fact is tallied and
/// nothing else about its row changes; an unknown one becomes a fresh row.
pub open spec fn upsert_one(s: StoreView, rec: SignatureView) -> StoreView {
    if known(s.rows, rec) {
        StoreView { rows: tally(s.rows, rec), next_id: s.next_id }
    } else {
        StoreView { rows: s.rows.push(fresh(rec, s.next_id)), next_id: s.next_id + 1 }
    }
}

/// The table after a batch is submitted, record by record from the front.
pub open spec fn upsert_all(s: StoreView, batch: Seq<SignatureView>) -> StoreView
    decreases batch.len(),
{
    if batch.len() == 0 {
        s
    } else {
        upsert_one(upsert_all(s, batch.drop_last()), batch.last())
    }
}

/// Submitting one record keeps the table's invariant.
pub proof fn lemma_upsert_one_well_formed(s: StoreView, rec: SignatureView)
    requires
        well_formed(s),
    ensures
        well_formed(upsert_one(s, rec)),
{
    let t = upsert_one(s, rec);
    if known(s.rows, rec) {
        assert forall|i: int, j: int| 0 <= i < j < t.rows.len() implies !same_fact(
            #[trigger] t.rows[i],
            #[trigger] t.rows[j],
        ) by {
            assert(!same_fact(s.rows[i], s.rows[j]));
        }
        assert forall|i: int, j: int| 0 <= i < j < t.rows.len() implies (#[trigger] t.rows[i]).id
            < (#[trigger] t.rows[j]).id by {
            assert(s.rows[i].id < s.rows[j].id);
        }
        assert forall|i: int| 0 <= i < t.rows.len() implies 1 <= (#[trigger] t.rows[i]).id
            < t.next_id && 0 <= t.rows[i].index by {
            assert(1 <= s.rows[i].id < s.next_id);
        }
    } else {
        assert forall|i: int, j: int| 0 <= i < j < t.rows.len() implies !same_fact(
            #[trigger] t.rows[i],
            #[trigger] t.rows[j],
        ) by {
            if j < s.rows.len() {
                assert(!same_fact(s.rows[i], s.rows[j]));
            } else {
                assert(!same_fact(s.rows[i], rec));
            }
        }
        assert forall|i: int, j: int| 0 <= i < j < t.rows.len() implies (#[trigger] t.rows[i]).id
            < (#[trigger] t.rows[j]).id by {
            if j < s.rows.len() {
                assert(s.rows[i].id < s.rows[j].id);
            } else {
                assert(1 <= s.rows[i].id < s.next_id);
            }
        }
        assert forall|i: int| 0 <= i < t.rows.len() implies 1 <= (#[trigger] t.rows[i]).id
            < t.next_id && 0 <= t.rows[i].index by {
            if i < s.rows.len() {
                assert(1 <= s.rows[i].id < s.next_id);
            }
        }
    }
}

/// Submitting a batch keeps the table's invariant.
pub proof fn lemma_upsert_all_well_formed(s: StoreView, batch: Seq<SignatureView>)
    requires
        well_formed(s),
    ensures
        well_formed(upsert_all(s, batch)),
    decreases batch.len(),
{
    if batch.len() > 0 {
        lemma_upsert_all_well_formed(s, batch.drop_last());
        lemma_upsert_one_well_formed(upsert_all(s, batch.drop_last()), batch.last());
    }
}

/// Counters only grow: if the table fits after a record, it did before.
pub proof fn lemma_upsert_one_grows(s: StoreView, rec: SignatureView)
    ensures
        fits(upsert_one(s, rec)) ==> fits(s),
{
    let t = upsert_one(s, rec);
    if fits(t) {
        assert forall|i: int| 0 <= i < s.rows.len() implies (#[trigger] s.rows[i]).index
            <= i32::MAX by {
            assert(t.rows[i].index <= i32::MAX);
        }
    }
}

/// If the table fits after the whole batch, it fits after each front part.
pub proof fn lemma_fits_front(s: StoreView, batch: Seq<SignatureView>, k: int)
    requires
        0 <= k <= batch.len(),
    ensures
        fits(upsert_all(s, batch)) ==> fits(upsert_all(s, batch.take(k))),
    decreases batch.len(),
{
    if k == batch.len() {
        assert(batch.take(k) =~= batch);
    } else {
        lemma_upsert_one_grows(upsert_all(s, batch.drop_last()), batch.last());
        lemma_fits_front(s, batch.drop_last(), k);
        assert(batch.drop_last().take(k) =~= batch.take(k));
    }
}

/// The rows whose fingerprint is one of `wanted`.
pub open spec fn carries(wanted: Seq<Seq<char>>) -> spec_fn(SignatureView) -> bool {
    |row: SignatureView| wanted.contains(row.signature)
}

/// The rows taken from the file with content hash `hash`.
pub open spec fn hashed_as(hash: Seq<char>) -> spec_fn(SignatureView) -> bool {
    |row: SignatureView| row.filehash == hash
}

/// The texts of a sequence of strings, position by position.
pub open spec fn texts(strings: Seq<String>) -> Seq<Seq<char>> {
    Seq::new(strings.len(), |i: int| strings[i]@)
}

/// Whether `text` is one of `strings`.
pub fn listed(strings: &[String], text: &String) -> (res: bool)
    ensures
        res == texts(strings@).contains(text@),
{
    let mut k: usize = 0;
    while k < strings.len()
        invariant
            k <= strings@.len(),
            forall|m: int| 0 <= m < k ==> (#[trigger] texts(strings@)[m]) != text@,
        decreases strings@.len() - k,
    {
        if strings[k] == *text {
            assert(texts(strings@)[k as int] == text@);
            return true;
        }
        k += 1;
    }
    false
}

impl SignatureStore {
    /// Whether the table meets its invariant. Every table that this module
    /// hands out does.
    pub open spec fn wf(&self) -> bool {
        well_formed(self@)
    }

    /// An empty table; the first row will get id `1`.
    pub fn new() -> (res: SignatureStore)
        ensures
            res.wf(),
            res@ == (StoreView { rows: Seq::empty(), next_id: 1 }),
    {
        let res = SignatureStore { rows: Vec::new(), next_id: 1 };
        assert(views(res.rows@) =~= Seq::empty());
        res
    }

    /// Position of the first row that states the fact of `rec`, or the
    /// number of rows if none does.
    fn locate(rows: &Vec<Signature>, rec: &Signature) -> (j: usize)
        ensures
            j <= rows@.len(),
            j < rows@.len() ==> same_fact(rows@[j as int]@, rec@),
            forall|i: int| 0 <= i < j ==> !same_fact((#[trigger] rows@[i])@, rec@),
    {
        let mut j: usize = 0;
        while j < rows.len()
            invariant
                j <= rows@.len(),
                forall|i: int| 0 <= i < j ==> !same_fact((#[trigger] rows@[i])@, rec@),
            decreases rows@.len() - j,
        {
            if rows[j].collides(rec) {
                return j;
            }
            j += 1;
        }
        j
    }

    /// The id that the next fresh row will get.
    pub fn next_id(&self) -> (res: i32)
        ensures
            res == self@.next_id,
    {
        self.next_id
    }

    /// Whether `rows` and `next_id` make a table that meets the invariant.
    pub fn sound(rows: &Vec<Signature>, next_id: i32) -> (res: bool)
        ensures
            res == well_formed(StoreView { rows: views(rows@), next_id: next_id as int }),
    {
        let ghost s = StoreView { rows: views(rows@), next_id: next_id as int };
        if next_id < 1 || rows.len() >= next_id as usize {
            return false;
        }
        let mut i: usize = 0;
        while i < rows.len()
            invariant
                i <= rows@.len(),
                s == (StoreView { rows: views(rows@), next_id: next_id as int }),
                forall|k: int|
                    0 <= k < i ==> 1 <= (#[trigger] s.rows[k]).id < next_id && 0
                        <= s.rows[k].index,
                forall|a: int, b: int|
                    0 <= a < b < i ==> (#[trigger] s.rows[a]).id < (#[trigger] s.rows[b]).id,
                forall|a: int, b: int|
                    0 <= a < b < i ==> !same_fact(#[trigger] s.rows[a], #[trigger] s.rows[b]),
            decreases rows@.len() - i,
        {
            let row = &rows[i];
            assert(s.rows[i as int] == row@);
            if row.id < 1 || row.id >= next_id || row.index < 0 {
                return false;
            }
            if i > 0 {
                assert(s.rows[i as int - 1] == rows@[i as int - 1]@);
                if rows[i - 1].id >= row.id {
                    assert(!(s.rows[i as int - 1].id < s.rows[i as int].id));
                    return false;
                }
                assert forall|a: int| 0 <= a < i implies (#[trigger] s.rows[a]).id < row.id by {
                    if a < i - 1 {
                        assert(s.rows[a].id < s.rows[i as int - 1].id);
                    }
                }
            }
            let j = Self::locate(rows, row);
            if j < i {
                assert(s.rows[j as int] == rows@[j as int]@);
                assert(same_fact(s.rows[j as int], s.rows[i as int]));
                return false;
            }
            assert forall|a: int| 0 <= a < i implies !same_fact(
                #[trigger] s.rows[a],
                s.rows[i as int],
            ) by {
                assert(!same_fact(rows@[a]@, row@));
            }
            i += 1;
        }
        true
    }

    /// The table with the given rows and next id, if they meet the
    /// invariant.
    pub fn restore(rows: Vec<Signature>, next_id: i32) -> (res: Option<SignatureStore>)
        ensures
            match res {
                Some(store) => store.wf() && store@ == (StoreView {
                    rows: views(rows@),
                    next_id: next_id as int,
                }),
                None => !well_formed(StoreView { rows: views(rows@), next_id: next_id as int }),
            },
    {
        if Self::sound(&rows, next_id) {
            Some(SignatureStore { rows, next_id })
        } else {
            None
        }
    }

    /// A copy of the rows, in the table's order.
    pub fn rows(&self) -> (res: Vec<Signature>)
        ensures
            views(res@) == self@.rows,
    {
        let mut res: Vec<Signature> = Vec::new();
        let mut i: usize = 0;
        while i < self.rows.len()
            invariant
                i <= self.rows@.len(),
                res@.len() == i,
                forall|k: int| 0 <= k < i ==> (#[trigger] res@[k])@ == self.rows@[k]@,
            decreases self.rows@.len() - i,
        {
            res.push(self.rows[i].duplicate());
            i += 1;
        }
        assert(views(res@) =~= views(self.rows@));
        res
    }
}

impl Signature {
    /// The number of rows in the table.
    pub fn count(store: &SignatureStore) -> (res: Result<i64, StoreError>)
        requires
            store.wf(),
        ensures
            res == Ok::<i64, StoreError>(store@.rows.len() as i64),
            store@.rows.len() <= i64::MAX,
    {
        Ok(store.rows.len() as i64)
    }

    /// Submits a batch in one step: each record whose fact is known bumps
    /// the tally of its row and changes nothing else; each other record
    /// becomes a fresh row with the next id and tally `0`. Either the whole
    /// batch is applied, and the number of records is returned, or a counter
    /// would run over, and the table stays as it was.
    pub fn persist_data(sigs: &[Signature], store: &mut SignatureStore) -> (res: Result<
        usize,
        StoreError,
    >)
        requires
            old(store).wf(),
        ensures
            final(store).wf(),
            match res {
                Ok(n) => {
                    &&& fits(upsert_all(old(store)@, views(sigs@)))
                    &&& final(store)@ == upsert_all(old(store)@, views(sigs@))
                    &&& n == sigs@.len()
                },
                Err(e) => {
                    &&& !fits(upsert_all(old(store)@, views(sigs@)))
                    &&& final(store)@ == old(store)@
                    &&& e == StoreError::StorageError
                },
            },
    {
        let ghost start = store@;
        let ghost batch = views(sigs@);
        let mut rows = store.rows();
        let mut next_id: i32 = store.next_id;
        let mut k: usize = 0;
        assert(batch.take(0) =~= Seq::<SignatureView>::empty());
        while k < sigs.len()
            invariant
                k <= sigs@.len(),
                batch == views(sigs@),
                well_formed(start),
                (StoreView { rows: views(rows@), next_id: next_id as int }) == upsert_all(
                    start,
                    batch.take(k as int),
                ),
                *store == *old(store),
                start == old(store)@,
            decreases sigs@.len() - k,
        {
            let ghost before = StoreView { rows: views(rows@), next_id: next_id as int };
            proof {
                lemma_upsert_all_well_formed(start, batch.take(k as int));
                lemma_fits_front(start, batch, k as int + 1);
                assert(batch.take(k as int + 1).drop_last() =~= batch.take(k as int));
                assert(batch.take(k as int + 1).last() == sigs@[k as int]@);
            }
            let rec = &sigs[k];
            let j = SignatureStore::locate(&rows, rec);
            if j < rows.len() {
                assert(same_fact(before.rows[j as int], rec@));
                assert(known(before.rows, rec@));
                if rows[j].index == i32::MAX {
                    assert(upsert_one(before, rec@).rows[j as int].index > i32::MAX);
                    return Err(StoreError::StorageError);
                }
                let bumped = rows[j].stored_as(rows[j].id, rows[j].index + 1);
                rows.set(j, bumped);
                proof {
                    assert forall|i: int| 0 <= i < before.rows.len() && i != j implies !same_fact(
                        #[trigger] before.rows[i],
                        rec@,
                    ) by {
                        if i < j {
                            assert(!same_fact(before.rows[i], before.rows[j as int]));
                        } else {
                            assert(!same_fact(before.rows[j as int], before.rows[i]));
                        }
                    }
                    assert(views(rows@) =~= tally(before.rows, rec@));
                }
            } else {
                assert(!known(before.rows, rec@));
                if next_id == i32::MAX {
                    assert(upsert_one(before, rec@).next_id > i32::MAX);
                    return Err(StoreError::StorageError);
                }
                rows.push(rec.stored_as(next_id, 0));
                next_id = next_id + 1;
                assert(views(rows@) =~= before.rows.push(fresh(rec@, before.next_id)));
            }
            k += 1;
        }
        proof {
            assert(batch.take(k as int) =~= batch);
            lemma_upsert_all_well_formed(start, batch);
        }
        store.rows = rows;
        store.next_id = next_id;
        Ok(sigs.len())
    }

    /// The row stored under `id`.
    pub fn fetch(id: i32, store: &SignatureStore) -> (res: Result<Signature, StoreError>)
        requires
            store.wf(),
        ensures
            match res {
                Ok(row) => exists|i: int|
                    0 <= i < store@.rows.len() && (#[trigger] store@.rows[i]).id == id && row@
                        == store@.rows[i],
                Err(e) => {
                    &&& e == StoreError::NotFound
                    &&& forall|i: int|
                        0 <= i < store@.rows.len() ==> (#[trigger] store@.rows[i]).id != id
                },
            },
    {
        let mut i: usize = 0;
        while i < store.rows.len()
            invariant
                i <= store.rows@.len(),
                forall|k: int| 0 <= k < i ==> (#[trigger] store@.rows[k]).id != id,
            decreases store.rows@.len() - i,
        {
            if store.rows[i].id == id {
                assert(store@.rows[i as int].id == id);
                return Ok(store.rows[i].duplicate());
            }
            i += 1;
        }
        Err(StoreError::NotFound)
    }

    /// Every row whose fingerprint equals one of `sigs`, once each, in the
    /// order in which the rows were first stored.
    pub fn search(sigs: &[String], store: &SignatureStore) -> (res: Result<
        Vec<Signature>,
        StoreError,
    >)
        requires
            store.wf(),
        ensures
            res is Ok,
            views(res->Ok_0@) == store@.rows.filter(carries(texts(sigs@))),
            sigs@.len() == 0 ==> res->Ok_0@.len() == 0,
    {
        let ghost wanted = texts(sigs@);
        let mut found: Vec<Signature> = Vec::new();
        let mut i: usize = 0;
        proof {
            assert(store@.rows.take(0) =~= Seq::<SignatureView>::empty());
            Seq::<SignatureView>::empty().lemma_filter_len(carries(wanted));
            assert(views(found@) =~= store@.rows.take(0).filter(carries(wanted)));
        }
        while i < store.rows.len()
            invariant
                i <= store.rows@.len(),
                wanted == texts(sigs@),
                views(found@) == store@.rows.take(i as int).filter(carries(wanted)),
                sigs@.len() == 0 ==> found@.len() == 0,
            decreases store.rows@.len() - i,
        {
            let row = &store.rows[i];
            let hit = listed(sigs, &row.signature);
            proof {
                assert(store@.rows.take(i as int + 1) =~= store@.rows.take(i as int).push(row@));
                store@.rows.take(i as int).lemma_filter_push(row@, carries(wanted));
                assert(hit == carries(wanted)(row@));
            }
            if hit {
                let ghost prior = views(found@);
                found.push(row.duplicate());
                assert(views(found@) =~= prior.push(row@));
            }
            i += 1;
        }
        assert(store@.rows.take(i as int) =~= store@.rows);
        Ok(found)
    }

    /// Every row taken from the file with content hash `hash`, in the order
    /// in which the rows were first stored.
    pub fn by_hash(hash: &str, store: &SignatureStore) -> (res: Result<
        Vec<Signature>,
        StoreError,
    >)
        requires
            store.wf(),
        ensures
            res is Ok,
            views(res->Ok_0@) == store@.rows.filter(hashed_as(hash@)),
    {
        let needle = hash.to_owned();
        let mut found: Vec<Signature> = Vec::new();
        let mut i: usize = 0;
        proof {
            assert(store@.rows.take(0) =~= Seq::<SignatureView>::empty());
            Seq::<SignatureView>::empty().lemma_filter_len(hashed_as(hash@));
            assert(views(found@) =~= store@.rows.take(0).filter(hashed_as(hash@)));
        }
        while i < store.rows.len()
            invariant
                i <= store.rows@.len(),
                needle@ == hash@,
                views(found@) == store@.rows.take(i as int).filter(hashed_as(hash@)),
            decreases store.rows@.len() - i,
        {
            let row = &store.rows[i];
            let hit = row.filehash == needle;
            proof {
                assert(store@.rows.take(i as int + 1) =~= store@.rows.take(i as int).push(row@));
                store@.rows.take(i as int).lemma_filter_push(row@, hashed_as(hash@));
                assert(hit == hashed_as(hash@)(row@));
            }
            if hit {
                let ghost prior = views(found@);
                found.push(row.duplicate());
                assert(views(found@) =~= prior.push(row@));
            }
            i += 1;
        }
        assert(store@.rows.take(i as int) =~= store@.rows);
        Ok(found)
    }
}

} // verus!
