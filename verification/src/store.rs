//! The record store: an in-memory model of the persistent table with its
//! dual-alternate-key uniqueness constraint and the read, upsert and
//! delete operations, including timestamp bookkeeping.

use vstd::prelude::*;
use vstd::pervasive::VecAdditionalExecFns;
use crate::error::BookError;
use crate::merge::{merge, opt_view, spec_merge};
use crate::record::{Book, BookView};

verus! {

/// No two stored rows share a present `isbn10`, and no two share a present
/// `isbn13`; the two uniqueness domains are independent.
pub open spec fn unique_keys(rs: Seq<BookView>) -> bool {
    forall|i: int, j: int|
        #![trigger rs[i], rs[j]]
        0 <= i < rs.len() && 0 <= j < rs.len() && i != j ==> {
            &&& (rs[i].isbn10 is Some ==> rs[j].isbn10 != rs[i].isbn10)
            &&& (rs[i].isbn13 is Some ==> rs[j].isbn13 != rs[i].isbn13)
        }
}

/// Some stored row carries `isbn10 == k`.
pub open spec fn contains_isbn10(rs: Seq<BookView>, k: i64) -> bool {
    exists|i: int| 0 <= i < rs.len() && (#[trigger] rs[i]).isbn10 == Some(k)
}

/// Some stored row carries `isbn13 == k`.
pub open spec fn contains_isbn13(rs: Seq<BookView>, k: i64) -> bool {
    exists|i: int| 0 <= i < rs.len() && (#[trigger] rs[i]).isbn13 == Some(k)
}

/// The index of the row carrying `isbn10 == k`; under [`unique_keys`]
/// there is at most one.
pub open spec fn idx_isbn10(rs: Seq<BookView>, k: i64) -> int {
    choose|i: int| 0 <= i < rs.len() && (#[trigger] rs[i]).isbn10 == Some(k)
}

/// The index of the row carrying `isbn13 == k`.
pub open spec fn idx_isbn13(rs: Seq<BookView>, k: i64) -> int {
    choose|i: int| 0 <= i < rs.len() && (#[trigger] rs[i]).isbn13 == Some(k)
}

/// What an upsert of `r` does to the stored rows `rs`.
///
/// The conflict target is `isbn10` when the incoming record has one, else
/// `isbn13` when it has one; a record with neither is inserted
/// unconditionally as a new row. On a conflict the merge policy is applied
/// against the row sharing the target key and the merged row replaces it
/// in place. `None` stands for the storage layer refusing the write: the
/// row to be written would break the uniqueness constraint of the key that
/// is not the conflict target.
pub open spec fn spec_upsert(rs: Seq<BookView>, r: BookView) -> Option<Seq<BookView>> {
    if r.isbn10 is Some {
        if contains_isbn10(rs, r.isbn10->0) {
            let i = idx_isbn10(rs, r.isbn10->0);
            let m = spec_merge(Some(rs[i]), r);
            if m.isbn13 is Some && (exists|j: int|
                0 <= j < rs.len() && j != i && (#[trigger] rs[j]).isbn13 == m.isbn13) {
                None
            } else {
                Some(rs.update(i, m))
            }
        } else if r.isbn13 is Some && contains_isbn13(rs, r.isbn13->0) {
            None
        } else {
            Some(rs.push(r))
        }
    } else if r.isbn13 is Some {
        if contains_isbn13(rs, r.isbn13->0) {
            let i = idx_isbn13(rs, r.isbn13->0);
            Some(rs.update(i, spec_merge(Some(rs[i]), r)))
        } else {
            Some(rs.push(r))
        }
    } else {
        Some(rs.push(r))
    }
}

/// Replacing row `i` preserves key uniqueness when the new row's keys
/// collide with no other row.
proof fn lemma_unique_after_update(rs: Seq<BookView>, i: int, m: BookView)
    requires
        unique_keys(rs),
        0 <= i < rs.len(),
        m.isbn10 is Some ==> forall|j: int|
            0 <= j < rs.len() && j != i ==> (#[trigger] rs[j]).isbn10 != m.isbn10,
        m.isbn13 is Some ==> forall|j: int|
            0 <= j < rs.len() && j != i ==> (#[trigger] rs[j]).isbn13 != m.isbn13,
    ensures
        unique_keys(rs.update(i, m)),
{
    let rs2 = rs.update(i, m);
    assert forall|a: int, b: int|
        0 <= a < rs2.len() && 0 <= b < rs2.len() && a != b implies {
        &&& (rs2[a].isbn10 is Some ==> rs2[b].isbn10 != rs2[a].isbn10)
        &&& (rs2[a].isbn13 is Some ==> rs2[b].isbn13 != rs2[a].isbn13)
    } by {
        assert(rs[a] == rs[a]);
        assert(rs[b] == rs[b]);
    }
}

/// Appending a row preserves key uniqueness when its keys are fresh.
proof fn lemma_unique_after_push(rs: Seq<BookView>, r: BookView)
    requires
        unique_keys(rs),
        r.isbn10 is Some ==> !contains_isbn10(rs, r.isbn10->0),
        r.isbn13 is Some ==> !contains_isbn13(rs, r.isbn13->0),
    ensures
        unique_keys(rs.push(r)),
{
    let rs2 = rs.push(r);
    assert forall|a: int, b: int|
        0 <= a < rs2.len() && 0 <= b < rs2.len() && a != b implies {
        &&& (rs2[a].isbn10 is Some ==> rs2[b].isbn10 != rs2[a].isbn10)
        &&& (rs2[a].isbn13 is Some ==> rs2[b].isbn13 != rs2[a].isbn13)
    } by {
        if a < rs.len() && b < rs.len() {
            assert(rs[a] == rs[a]);
            assert(rs[b] == rs[b]);
        } else if a < rs.len() {
            assert(rs[a] == rs[a]);
        } else {
            assert(rs[b] == rs[b]);
        }
    }
}

/// The record store: the set of persisted rows, unique per alternate key.
pub struct Store {
    rows: Vec<Book>,
}

impl View for Store {
    type V = Seq<BookView>;

    closed spec fn view(&self) -> Seq<BookView> {
        self.rows.deep_view()
    }
}

impl Store {
    /// The store's invariant: key uniqueness over the stored rows.
    pub open spec fn wf(&self) -> bool {
        unique_keys(self@)
    }

    /// An empty store.
    pub fn new() -> (s: Store)
        ensures
            s@ == Seq::<BookView>::empty(),
            s.wf(),
    {
        let s = Store { rows: Vec::new() };
        proof {
            assert(s@ =~= Seq::<BookView>::empty());
        }
        s
    }

    /// How many rows are stored.
    pub fn len(&self) -> (n: usize)
        ensures
            n == self@.len(),
    {
        self.rows.len()
    }

    fn find_isbn10(&self, k: i64) -> (r: Option<usize>)
        ensures
            match r {
                Some(i) => i < self@.len() && self@[i as int].isbn10 == Some(k),
                None => !contains_isbn10(self@, k),
            },
    {
        let mut i: usize = 0;
        while i < self.rows.len()
            invariant
                0 <= i <= self.rows.len(),
                self@.len() == self.rows.len(),
                forall|j: int| 0 <= j < i ==> (#[trigger] self@[j]).isbn10 != Some(k),
            decreases self.rows.len() - i,
        {
            let hit = match self.rows[i].isbn10 {
                Some(v) => v == k,
                None => false,
            };
            if hit {
                return Some(i);
            }
            i = i + 1;
        }
        None
    }

    fn find_isbn13(&self, k: i64) -> (r: Option<usize>)
        ensures
            match r {
                Some(i) => i < self@.len() && self@[i as int].isbn13 == Some(k),
                None => !contains_isbn13(self@, k),
            },
    {
        let mut i: usize = 0;
        while i < self.rows.len()
            invariant
                0 <= i <= self.rows.len(),
                self@.len() == self.rows.len(),
                forall|j: int| 0 <= j < i ==> (#[trigger] self@[j]).isbn13 != Some(k),
            decreases self.rows.len() - i,
        {
            let hit = match self.rows[i].isbn13 {
                Some(v) => v == k,
                None => false,
            };
            if hit {
                return Some(i);
            }
            i = i + 1;
        }
        None
    }

    /// Writes `rec` into the store per [`spec_upsert`]: merge in place on
    /// the row sharing the conflict key, plain insert when no row does.
    /// Fails, leaving the store unchanged, exactly when the written row
    /// would break the uniqueness of the key that is not the conflict
    /// target.
    pub fn upsert(&mut self, rec: Book) -> (r: Result<(), BookError>)
        requires
            old(self).wf(),
        ensures
            final(self).wf(),
            match r {
                Ok(_) => spec_upsert(old(self)@, rec@) == Some(final(self)@),
                Err(e) => {
                    &&& e == BookError::PersistenceError
                    &&& spec_upsert(old(self)@, rec@) is None
                    &&& final(self)@ == old(self)@
                },
            },
    {
        let ghost rs = self@;
        if let Some(k) = rec.isbn10 {
            match self.find_isbn10(k) {
                Some(i) => {
                    proof {
                        assert(contains_isbn10(rs, k));
                        let ix = idx_isbn10(rs, k);
                        if ix != i as int {
                            assert(rs[ix].isbn10 == Some(k));
                            assert(rs[i as int].isbn10 == Some(k));
                            assert(false);
                        }
                    }
                    let merged = merge(Some(&self.rows[i]), rec);
                    let ghost m = merged@;
                    if let Some(k13) = merged.isbn13 {
                        match self.find_isbn13(k13) {
                            Some(j) => {
                                if j != i {
                                    return Err(BookError::PersistenceError);
                                }
                                proof {
                                    assert(rs[i as int].isbn13 == Some(k13));
                                    assert forall|j2: int|
                                        0 <= j2 < rs.len() && j2 != i as int implies (#[trigger]
                                    rs[j2]).isbn13 != m.isbn13 by {
                                        assert(rs[i as int] == rs[i as int]);
                                    }
                                }
                            },
                            None => {
                                proof {
                                    assert forall|j2: int|
                                        0 <= j2 < rs.len() && j2 != i as int implies (#[trigger]
                                    rs[j2]).isbn13 != m.isbn13 by {}
                                }
                            },
                        }
                    }
                    proof {
                        lemma_unique_after_update(rs, i as int, m);
                        assert(forall|j2: int|
                            0 <= j2 < rs.len() && j2 != i as int ==> (#[trigger] rs[j2]).isbn10
                                != m.isbn10);
                    }
                    self.rows.set(i, merged);
                    proof {
                        assert(self@ =~= rs.update(i as int, m));
                    }
                    Ok(())
                },
                None => {
                    if let Some(k13) = rec.isbn13 {
                        if self.find_isbn13(k13).is_some() {
                            return Err(BookError::PersistenceError);
                        }
                    }
                    proof {
                        lemma_unique_after_push(rs, rec@);
                    }
                    self.rows.push(rec);
                    proof {
                        assert(self@ =~= rs.push(rec@));
                    }
                    Ok(())
                },
            }
        } else if let Some(k) = rec.isbn13 {
            match self.find_isbn13(k) {
                Some(i) => {
                    proof {
                        assert(contains_isbn13(rs, k));
                        let ix = idx_isbn13(rs, k);
                        if ix != i as int {
                            assert(rs[ix].isbn13 == Some(k));
                            assert(rs[i as int].isbn13 == Some(k));
                            assert(false);
                        }
                    }
                    let merged = merge(Some(&self.rows[i]), rec);
                    let ghost m = merged@;
                    proof {
                        assert(m.isbn10 == rs[i as int].isbn10);
                        assert(m.isbn13 == rs[i as int].isbn13);
                        lemma_unique_after_update(rs, i as int, m);
                    }
                    self.rows.set(i, merged);
                    proof {
                        assert(self@ =~= rs.update(i as int, m));
                    }
                    Ok(())
                },
                None => {
                    proof {
                        lemma_unique_after_push(rs, rec@);
                    }
                    self.rows.push(rec);
                    proof {
                        assert(self@ =~= rs.push(rec@));
                    }
                    Ok(())
                },
            }
        } else {
            proof {
                lemma_unique_after_push(rs, rec@);
            }
            self.rows.push(rec);
            proof {
                assert(self@ =~= rs.push(rec@));
            }
            Ok(())
        }
    }
}

/// Rows ordered from most to least recently modified.
pub open spec fn sorted_desc(s: Seq<BookView>) -> bool {
    forall|i: int, j: int|
        0 <= i <= j < s.len() ==> (#[trigger] s[i]).last_modified >= (#[trigger] s[j]).last_modified
}

/// How many rows a read with the given `limit` yields from `n` stored rows.
pub open spec fn clamped(limit: int, n: int) -> int {
    if limit <= 0 {
        0
    } else if limit <= n {
        limit
    } else {
        n
    }
}

impl Store {
    /// Up to `limit` rows, ordered by `last_modified` descending; ties are
    /// broken in an unspecified but stable storage order. A `limit` of zero
    /// or less yields no rows. The rows returned are stored rows (as a
    /// sub-multiset), and every stored row left out was modified no later
    /// than any row returned.
    pub fn list_recent(&self, limit: i32) -> (out: Vec<Book>)
        ensures
            out.deep_view().len() == clamped(limit as int, self@.len() as int),
            sorted_desc(out.deep_view()),
            out.deep_view().to_multiset().subset_of(self@.to_multiset()),
            forall|x: BookView|
                #![trigger self@.to_multiset().count(x)]
                self@.to_multiset().count(x) > out.deep_view().to_multiset().count(x)
                    && out.deep_view().len() > 0 ==> x.last_modified
                    <= out.deep_view().last().last_modified,
    {
        broadcast use vstd::seq_lib::group_to_multiset_ensures;

        let n = self.rows.len();
        let mut sorted: Vec<Book> = Vec::new();
        proof {
            assert(sorted.deep_view() =~= Seq::<BookView>::empty());
            assert(self@.take(0) =~= Seq::<BookView>::empty());
            assert(sorted.deep_view().to_multiset() =~= self@.take(0).to_multiset());
        }
        let mut idx: usize = 0;
        while idx < n
            invariant
                0 <= idx <= n,
                n == self.rows.len(),
                self@.len() == n,
                self@ == self.rows.deep_view(),
                sorted.len() == idx,
                sorted.deep_view().len() == idx,
                sorted_desc(sorted.deep_view()),
                sorted.deep_view().to_multiset() == self@.take(idx as int).to_multiset(),
            decreases n - idx,
        {
            broadcast use vstd::seq_lib::group_to_multiset_ensures;

            let b = self.rows[idx].clone();
            proof {
                assert(self.rows@[idx as int]@ == self@[idx as int]);
            }
            let mut p: usize = 0;
            while p < sorted.len() && sorted[p].last_modified >= b.last_modified
                invariant
                    0 <= p <= sorted.len(),
                    sorted.len() == sorted.deep_view().len(),
                    forall|q: int|
                        0 <= q < p ==> (#[trigger] sorted.deep_view()[q]).last_modified
                            >= b@.last_modified,
                decreases sorted.len() - p,
            {
                proof {
                    assert(sorted.deep_view()[p as int] == sorted@[p as int]@);
                }
                p = p + 1;
            }
            let ghost dv0 = sorted.deep_view();
            let ghost rows0 = sorted@;
            proof {
                if p < sorted.len() {
                    assert(dv0[p as int] == sorted@[p as int]@);
                    assert(dv0[p as int].last_modified < b@.last_modified);
                }
            }
            sorted.insert(p, b);
            proof {
                assert(sorted.deep_view() =~= dv0.insert(p as int, b@)) by {
                    rows0.insert_ensures(p as int, b);
                    dv0.insert_ensures(p as int, b@);
                }
                let s2 = sorted.deep_view();
                assert(sorted_desc(s2)) by {
                    dv0.insert_ensures(p as int, b@);
                    assert forall|i: int, j: int| 0 <= i <= j < s2.len() implies (#[trigger] s2[i])
                        .last_modified >= (#[trigger] s2[j]).last_modified by {
                        if i < p && j < p {
                        } else if i < p && j == p {
                        } else if j > p && i < p {
                            assert(s2[j] == dv0[j - 1]);
                        } else if i == p && j > p {
                            assert(s2[j] == dv0[j - 1]);
                            assert(dv0[p as int].last_modified >= dv0[j - 1].last_modified);
                        } else if i == p && j == p {
                        } else {
                            assert(s2[i] == dv0[i - 1]);
                            assert(s2[j] == dv0[j - 1]);
                        }
                    }
                }
                assert(s2.to_multiset() =~= self@.take(idx + 1 as int).to_multiset()) by {
                    let u = dv0.take(p as int).push(b@);
                    assert(s2 =~= u + dv0.skip(p as int));
                    vstd::seq_lib::lemma_multiset_commutative(u, dv0.skip(p as int));
                    assert(u.to_multiset() == dv0.take(p as int).to_multiset().insert(b@));
                    assert(dv0.take(p as int) + dv0.skip(p as int) =~= dv0);
                    vstd::seq_lib::lemma_multiset_commutative(
                        dv0.take(p as int),
                        dv0.skip(p as int),
                    );
                    assert(self@.take(idx + 1 as int) =~= self@.take(idx as int).push(
                        self@[idx as int],
                    ));
                    assert(self@.take(idx + 1 as int).to_multiset() == self@.take(
                        idx as int,
                    ).to_multiset().insert(b@));
                }
            }
            idx = idx + 1;
        }
        proof {
            assert(self@.take(n as int) =~= self@);
        }
        let k: usize = if limit <= 0 {
            0
        } else if (limit as usize) <= sorted.len() {
            limit as usize
        } else {
            sorted.len()
        };
        let ghost full = sorted.deep_view();
        sorted.truncate(k);
        proof {
            broadcast use vstd::seq_lib::group_to_multiset_ensures;

            assert(sorted.deep_view() =~= full.take(k as int));
            let head = full.take(k as int);
            let tail = full.skip(k as int);
            assert(head + tail =~= full);
            vstd::seq_lib::lemma_multiset_commutative(head, tail);
            assert forall|x: BookView|
                head.to_multiset().count(x) <= #[trigger] full.to_multiset().count(x) by {}
            assert forall|x: BookView|
                full.to_multiset().count(x) > head.to_multiset().count(x) && head.len() > 0 implies
                x.last_modified <= head.last().last_modified by {
                assert(tail.to_multiset().count(x) > 0);
                assert(tail.contains(x));
                let j = choose|j: int| 0 <= j < tail.len() && tail[j] == x;
                assert(full[k + j] == x);
                assert(full[k - 1].last_modified >= full[k + j].last_modified);
                assert(head.last() == full[k - 1]);
            }
        }
        sorted
    }
}

/// The rows of `rs` that do not carry `isbn10 == k`, in order.
pub open spec fn without_isbn10(rs: Seq<BookView>, k: i64) -> Seq<BookView>
    decreases rs.len(),
{
    if rs.len() == 0 {
        Seq::<BookView>::empty()
    } else if rs.last().isbn10 == Some(k) {
        without_isbn10(rs.drop_last(), k)
    } else {
        without_isbn10(rs.drop_last(), k).push(rs.last())
    }
}

/// The rows of `rs` that do not carry `isbn13 == k`, in order.
pub open spec fn without_isbn13(rs: Seq<BookView>, k: i64) -> Seq<BookView>
    decreases rs.len(),
{
    if rs.len() == 0 {
        Seq::<BookView>::empty()
    } else if rs.last().isbn13 == Some(k) {
        without_isbn13(rs.drop_last(), k)
    } else {
        without_isbn13(rs.drop_last(), k).push(rs.last())
    }
}

proof fn lemma_without_isbn10_id(rs: Seq<BookView>, k: i64)
    requires
        forall|j: int| 0 <= j < rs.len() ==> (#[trigger] rs[j]).isbn10 != Some(k),
    ensures
        without_isbn10(rs, k) == rs,
    decreases rs.len(),
{
    if rs.len() > 0 {
        lemma_without_isbn10_id(rs.drop_last(), k);
        assert(rs.drop_last().push(rs.last()) =~= rs);
    }
}

proof fn lemma_without_isbn13_id(rs: Seq<BookView>, k: i64)
    requires
        forall|j: int| 0 <= j < rs.len() ==> (#[trigger] rs[j]).isbn13 != Some(k),
    ensures
        without_isbn13(rs, k) == rs,
    decreases rs.len(),
{
    if rs.len() > 0 {
        lemma_without_isbn13_id(rs.drop_last(), k);
        assert(rs.drop_last().push(rs.last()) =~= rs);
    }
}

proof fn lemma_without_isbn10_removes_one(rs: Seq<BookView>, i: int, k: i64)
    requires
        0 <= i < rs.len(),
        rs[i].isbn10 == Some(k),
        forall|j: int| 0 <= j < rs.len() && j != i ==> (#[trigger] rs[j]).isbn10 != Some(k),
    ensures
        without_isbn10(rs, k) == rs.remove(i),
    decreases rs.len(),
{
    if i == rs.len() - 1 {
        lemma_without_isbn10_id(rs.drop_last(), k);
        assert(rs.remove(i) =~= rs.drop_last());
    } else {
        lemma_without_isbn10_removes_one(rs.drop_last(), i, k);
        assert(without_isbn10(rs, k) == rs.drop_last().remove(i).push(rs.last()));
        assert(rs.drop_last().remove(i).push(rs.last()) =~= rs.remove(i));
    }
}

proof fn lemma_without_isbn13_removes_one(rs: Seq<BookView>, i: int, k: i64)
    requires
        0 <= i < rs.len(),
        rs[i].isbn13 == Some(k),
        forall|j: int| 0 <= j < rs.len() && j != i ==> (#[trigger] rs[j]).isbn13 != Some(k),
    ensures
        without_isbn13(rs, k) == rs.remove(i),
    decreases rs.len(),
{
    if i == rs.len() - 1 {
        lemma_without_isbn13_id(rs.drop_last(), k);
        assert(rs.remove(i) =~= rs.drop_last());
    } else {
        lemma_without_isbn13_removes_one(rs.drop_last(), i, k);
        assert(without_isbn13(rs, k) == rs.drop_last().remove(i).push(rs.last()));
        assert(rs.drop_last().remove(i).push(rs.last()) =~= rs.remove(i));
    }
}

proof fn lemma_unique_after_remove(rs: Seq<BookView>, i: int)
    requires
        unique_keys(rs),
        0 <= i < rs.len(),
    ensures
        unique_keys(rs.remove(i)),
{
    let rs2 = rs.remove(i);
    assert forall|a: int, b: int|
        0 <= a < rs2.len() && 0 <= b < rs2.len() && a != b implies {
        &&& (rs2[a].isbn10 is Some ==> rs2[b].isbn10 != rs2[a].isbn10)
        &&& (rs2[a].isbn13 is Some ==> rs2[b].isbn13 != rs2[a].isbn13)
    } by {
        let a0 = if a < i { a } else { a + 1 };
        let b0 = if b < i { b } else { b + 1 };
        assert(rs2[a] == rs[a0]);
        assert(rs2[b] == rs[b0]);
    }
}

/// What a deletion request reports.
#[derive(Clone, Copy, Debug, PartialEq, Eq, Structural)]
pub enum RemoveOutcome {
    /// The record carried neither identifier: nothing was deleted, by design.
    NoIdentifier,
    /// Deletion ran on the `isbn10` domain; the flag says whether a row matched.
    ByIsbn10(bool),
    /// Deletion ran on the `isbn13` domain; the flag says whether a row matched.
    ByIsbn13(bool),
}

impl Store {
    /// Deletes the row sharing an identifier with `rec`, preferring
    /// `isbn10` when the record carries both. Rows matching the other key
    /// alone are untouched. A record with neither identifier deletes
    /// nothing and reports so, without failing. The caller owns the
    /// record's local cover file, if any, and deletes it alongside.
    pub fn remove(&mut self, rec: &Book) -> (r: RemoveOutcome)
        requires
            old(self).wf(),
        ensures
            final(self).wf(),
            match rec.isbn10 {
                Some(k) => final(self)@ == without_isbn10(old(self)@, k) && r
                    == RemoveOutcome::ByIsbn10(contains_isbn10(old(self)@, k)),
                None => match rec.isbn13 {
                    Some(k) => final(self)@ == without_isbn13(old(self)@, k) && r
                        == RemoveOutcome::ByIsbn13(contains_isbn13(old(self)@, k)),
                    None => final(self)@ == old(self)@ && r == RemoveOutcome::NoIdentifier,
                },
            },
    {
        let ghost rs = self@;
        if let Some(k) = rec.isbn10 {
            match self.find_isbn10(k) {
                Some(i) => {
                    proof {
                        assert(contains_isbn10(rs, k));
                        assert forall|j: int|
                            0 <= j < rs.len() && j != i as int implies (#[trigger] rs[j]).isbn10
                            != Some(k) by {
                            assert(rs[i as int] == rs[i as int]);
                        }
                        lemma_without_isbn10_removes_one(rs, i as int, k);
                        lemma_unique_after_remove(rs, i as int);
                    }
                    self.rows.remove(i);
                    proof {
                        assert(self@ =~= rs.remove(i as int));
                    }
                    RemoveOutcome::ByIsbn10(true)
                },
                None => {
                    proof {
                        lemma_without_isbn10_id(rs, k);
                    }
                    RemoveOutcome::ByIsbn10(false)
                },
            }
        } else if let Some(k) = rec.isbn13 {
            match self.find_isbn13(k) {
                Some(i) => {
                    proof {
                        assert(contains_isbn13(rs, k));
                        assert forall|j: int|
                            0 <= j < rs.len() && j != i as int implies (#[trigger] rs[j]).isbn13
                            != Some(k) by {
                            assert(rs[i as int] == rs[i as int]);
                        }
                        lemma_without_isbn13_removes_one(rs, i as int, k);
                        lemma_unique_after_remove(rs, i as int);
                    }
                    self.rows.remove(i);
                    proof {
                        assert(self@ =~= rs.remove(i as int));
                    }
                    RemoveOutcome::ByIsbn13(true)
                },
                None => {
                    proof {
                        lemma_without_isbn13_id(rs, k);
                    }
                    RemoveOutcome::ByIsbn13(false)
                },
            }
        } else {
            RemoveOutcome::NoIdentifier
        }
    }
}

/// Every descriptive field of `r` is present; only such a record
/// overwrites every stored field on a merge.
pub open spec fn fully_specified(r: BookView) -> bool {
    &&& r.title is Some
    &&& r.authors is Some
    &&& r.cover_url is Some
    &&& r.cover_path is Some
    &&& r.page_count is Some
    &&& r.description is Some
    &&& r.first_sentence is Some
    &&& r.language is Some
    &&& r.isbn10 is Some
    &&& r.isbn13 is Some
    &&& r.catalog_key is Some
    &&& r.publish_year is Some
    &&& r.current_page is Some
    &&& r.finished is Some
    &&& r.date_started is Some
}

/// `a` and `b` carry the same descriptive fields; their timestamps may
/// differ. This is "the same record", possibly re-stamped.
pub open spec fn same_fields(a: BookView, b: BookView) -> bool {
    &&& a.title == b.title
    &&& a.authors == b.authors
    &&& a.cover_url == b.cover_url
    &&& a.cover_path == b.cover_path
    &&& a.page_count == b.page_count
    &&& a.description == b.description
    &&& a.first_sentence == b.first_sentence
    &&& a.language == b.language
    &&& a.isbn10 == b.isbn10
    &&& a.isbn13 == b.isbn13
    &&& a.catalog_key == b.catalog_key
    &&& a.publish_year == b.publish_year
    &&& a.current_page == b.current_page
    &&& a.finished == b.finished
    &&& a.date_started == b.date_started
}

/// Law: an accepted upsert preserves the store's key uniqueness.
pub proof fn lemma_upsert_preserves_unique(rs: Seq<BookView>, r: BookView)
    requires
        unique_keys(rs),
        spec_upsert(rs, r) is Some,
    ensures
        unique_keys(spec_upsert(rs, r)->0),
{
    if r.isbn10 is Some {
        let k = r.isbn10->0;
        if contains_isbn10(rs, k) {
            let i = idx_isbn10(rs, k);
            assert(0 <= i < rs.len() && rs[i].isbn10 == Some(k));
            let m = spec_merge(Some(rs[i]), r);
            assert forall|j: int|
                0 <= j < rs.len() && j != i implies (#[trigger] rs[j]).isbn10 != m.isbn10 by {
                assert(rs[i] == rs[i]);
            }
            if m.isbn13 is Some {
                assert forall|j: int|
                    0 <= j < rs.len() && j != i implies (#[trigger] rs[j]).isbn13 != m.isbn13 by {
                    assert(rs[i] == rs[i]);
                }
            }
            lemma_unique_after_update(rs, i, m);
        } else {
            lemma_unique_after_push(rs, r);
        }
    } else if r.isbn13 is Some {
        let k = r.isbn13->0;
        if contains_isbn13(rs, k) {
            let i = idx_isbn13(rs, k);
            assert(0 <= i < rs.len() && rs[i].isbn13 == Some(k));
            let m = spec_merge(Some(rs[i]), r);
            assert(m.isbn10 == rs[i].isbn10);
            assert(m.isbn13 == rs[i].isbn13);
            lemma_unique_after_update(rs, i, m);
        } else {
            lemma_unique_after_push(rs, r);
        }
    } else {
        lemma_unique_after_push(rs, r);
    }
}

/// Law: upserting the same fully-specified record twice in succession
/// yields one stored row, whose descriptive fields equal the second
/// record's (they overwrite the first's), whose `created_at` is unchanged
/// by the second write, and whose `last_modified` takes the second
/// record's stamp.
pub proof fn lemma_upsert_idempotent(rs: Seq<BookView>, r1: BookView, r2: BookView)
    requires
        unique_keys(rs),
        fully_specified(r1),
        same_fields(r1, r2),
        spec_upsert(rs, r1) is Some,
    ensures
        ({
            let rs1 = spec_upsert(rs, r1)->0;
            let i = idx_isbn10(rs1, r2.isbn10->0);
            &&& spec_upsert(rs1, r2) is Some
            &&& {
                let rs2 = spec_upsert(rs1, r2)->0;
                &&& 0 <= i < rs1.len()
                &&& rs2 =~= rs1.update(i, rs2[i])
                &&& same_fields(rs2[i], r2)
                &&& rs2[i].created_at == rs1[i].created_at
                &&& rs2[i].last_modified == r2.last_modified
                &&& forall|j: int|
                    0 <= j < rs2.len() ==> ((#[trigger] rs2[j]).isbn10 == r2.isbn10 <==> j == i)
            }
        }),
{
    let k = r1.isbn10->0;
    let rs1 = spec_upsert(rs, r1)->0;
    lemma_upsert_preserves_unique(rs, r1);

    // After the first upsert some row carries the key, and its `isbn13`
    // equals the record's: the merge overwrote both keys.
    if contains_isbn10(rs, k) {
        let i0 = idx_isbn10(rs, k);
        let m = spec_merge(Some(rs[i0]), r1);
        assert(rs1 == rs.update(i0, m));
        assert(rs1[i0].isbn10 == Some(k));
        assert(rs1[i0].isbn13 == r1.isbn13);
        assert(contains_isbn10(rs1, k));
    } else {
        assert(rs1 == rs.push(r1));
        assert(rs1[rs.len() as int].isbn10 == Some(k));
        assert(contains_isbn10(rs1, k));
    }

    let i = idx_isbn10(rs1, k);
    assert(0 <= i < rs1.len() && rs1[i].isbn10 == Some(k));
    assert(rs1[i].isbn13 == r1.isbn13) by {
        if contains_isbn10(rs, k) {
            let i0 = idx_isbn10(rs, k);
            if i != i0 {
                assert(rs1[i0].isbn10 == Some(k));
                assert(false);
            }
        } else {
            if i != rs.len() as int {
                assert(rs[i].isbn10 == Some(k));
                assert(contains_isbn10(rs, k));
                assert(false);
            }
        }
    }

    let m2 = spec_merge(Some(rs1[i]), r2);
    assert(m2.isbn13 == r2.isbn13);
    assert forall|j: int|
        0 <= j < rs1.len() && j != i implies (#[trigger] rs1[j]).isbn13 != m2.isbn13 by {
        assert(rs1[i] == rs1[i]);
        assert(rs1[i].isbn13 == r2.isbn13);
    }
    assert(spec_upsert(rs1, r2) == Some(rs1.update(i, m2)));
    let rs2 = spec_upsert(rs1, r2)->0;
    assert forall|j: int|
        0 <= j < rs2.len() implies ((#[trigger] rs2[j]).isbn10 == r2.isbn10 <==> j == i) by {
        if j != i {
            assert(rs2[j] == rs1[j]);
            assert(rs1[i] == rs1[i]);
        }
    }
}

/// Law: a stored row's description survives an upsert whose incoming
/// record leaves the description unset; the merge preserves stored values
/// wherever the incoming record is silent.
pub proof fn lemma_merge_non_destructive(rs: Seq<BookView>, r: BookView)
    requires
        unique_keys(rs),
        r.isbn10 is Some,
        contains_isbn10(rs, r.isbn10->0),
        r.description is None,
        spec_upsert(rs, r) is Some,
    ensures
        ({
            let i = idx_isbn10(rs, r.isbn10->0);
            spec_upsert(rs, r)->0[i].description == rs[i].description
        }),
{
}

/// Law: a record carrying only `isbn13` neither conflicts with nor
/// overwrites a stored row that carries only `isbn10`, however the other
/// fields compare; with no thirteen-digit match anywhere it lands as a new
/// row.
pub proof fn lemma_alternate_keys_independent(rs: Seq<BookView>, i: int, r: BookView)
    requires
        unique_keys(rs),
        0 <= i < rs.len(),
        rs[i].isbn10 is Some,
        rs[i].isbn13 is None,
        r.isbn10 is None,
        r.isbn13 is Some,
    ensures
        spec_upsert(rs, r) is Some,
        spec_upsert(rs, r)->0[i] == rs[i],
        spec_upsert(rs, r)->0.len() >= rs.len(),
        !contains_isbn13(rs, r.isbn13->0) ==> spec_upsert(rs, r)->0 == rs.push(r),
{
    let k = r.isbn13->0;
    if contains_isbn13(rs, k) {
        let j = idx_isbn13(rs, k);
        assert(0 <= j < rs.len() && rs[j].isbn13 == Some(k));
        assert(j != i);
    }
}

/// Law: deletion on the ten-digit key removes exactly the matching row;
/// every row not carrying that key — in particular any row matching on the
/// thirteen-digit key alone — keeps its place and its value.
pub proof fn lemma_remove_by_isbn10_exact(rs: Seq<BookView>, k: i64)
    requires
        unique_keys(rs),
    ensures
        !contains_isbn10(rs, k) ==> without_isbn10(rs, k) == rs,
        contains_isbn10(rs, k) ==> ({
            let i = idx_isbn10(rs, k);
            &&& 0 <= i < rs.len()
            &&& rs[i].isbn10 == Some(k)
            &&& without_isbn10(rs, k) == rs.remove(i)
        }),
{
    if contains_isbn10(rs, k) {
        let i = idx_isbn10(rs, k);
        assert(0 <= i < rs.len() && rs[i].isbn10 == Some(k));
        assert forall|j: int|
            0 <= j < rs.len() && j != i implies (#[trigger] rs[j]).isbn10 != Some(k) by {
            assert(rs[i] == rs[i]);
        }
        lemma_without_isbn10_removes_one(rs, i, k);
    } else {
        assert forall|j: int| 0 <= j < rs.len() implies (#[trigger] rs[j]).isbn10 != Some(k) by {}
        lemma_without_isbn10_id(rs, k);
    }
}

} // verus!
