//! The table of crew involvements: its shape, its invariant, and the plain
//! reads and deletes on it.

use vstd::prelude::*;
use crate::entities::CrewInvolvement;

verus! {

/// Why an operation on stored involvements was refused.
#[derive(Debug, Clone, Copy, PartialEq, Eq, Structural)]
pub enum RepoError {
    /// The caller's data breaks a precondition of the operation.
    Validation,
    /// A person, crew or involvement that the caller named is absent.
    NotFound,
    /// The store could not carry the change out; nothing was changed.
    Persistence,
}

/// The natural key of a row: person, crew, interval.
pub open spec fn key_of(r: CrewInvolvement) -> (i64, i64, i64) {
    (r.person_id, r.crew_id, r.interval_id)
}

/// Some row of `rows` has the natural key `k`.
pub open spec fn has_key(rows: Seq<CrewInvolvement>, k: (i64, i64, i64)) -> bool {
    exists|j: int| 0 <= j < rows.len() && key_of(#[trigger] rows[j]) == k
}

/// No two rows share a natural key.
pub open spec fn unique_keys(rows: Seq<CrewInvolvement>) -> bool {
    forall|a: int, b: int|
        0 <= a < b < rows.len() ==> key_of(#[trigger] rows[a]) != key_of(#[trigger] rows[b])
}

/// No two rows share a row id.
pub open spec fn unique_ids(rows: Seq<CrewInvolvement>) -> bool {
    forall|a: int, b: int|
        0 <= a < b < rows.len() ==> (#[trigger] rows[a]).id != (#[trigger] rows[b]).id
}

/// Every row id is smaller than `next`.
pub open spec fn ids_below(rows: Seq<CrewInvolvement>, next: int) -> bool {
    forall|j: int| 0 <= j < rows.len() ==> (#[trigger] rows[j]).id < next
}

/// The invariant of the table: keys and ids are unique, and the next id to
/// hand out is larger than every id in use.
pub open spec fn table_wf(rows: Seq<CrewInvolvement>, next: int) -> bool {
    &&& unique_keys(rows)
    &&& unique_ids(rows)
    &&& ids_below(rows, next)
    &&& i64::MIN <= next <= i64::MAX
}

/// Rows of one person in one interval.
pub open spec fn owned_by(person_id: i64, interval_id: i64) -> spec_fn(CrewInvolvement) -> bool {
    |r: CrewInvolvement| r.person_id == person_id && r.interval_id == interval_id
}

/// Rows of one crew in one interval.
pub open spec fn in_crew(crew_id: i64, interval_id: i64) -> spec_fn(CrewInvolvement) -> bool {
    |r: CrewInvolvement| r.crew_id == crew_id && r.interval_id == interval_id
}

/// The row ids of `rows`, in order.
pub open spec fn row_ids(rows: Seq<CrewInvolvement>) -> Seq<i64> {
    rows.map_values(|r: CrewInvolvement| r.id)
}

/// The crew ids of `rows`, in order.
pub open spec fn crew_ids(rows: Seq<CrewInvolvement>) -> Seq<i64> {
    rows.map_values(|r: CrewInvolvement| r.crew_id)
}

/// Rows whose id is not among `ids`.
pub open spec fn id_not_in(ids: Seq<i64>) -> spec_fn(CrewInvolvement) -> bool {
    |r: CrewInvolvement| !ids.contains(r.id)
}

/// Every row of a filtered sequence is a row of the sequence it came from.
pub proof fn lemma_filter_subset<A>(rows: Seq<A>, pred: spec_fn(A) -> bool)
    ensures
        forall|j: int|
            0 <= j < rows.filter(pred).len() ==> rows.contains(#[trigger] rows.filter(pred)[j])
                && pred(rows.filter(pred)[j]),
    decreases rows.len(),
{
    reveal(Seq::filter);
    if rows.len() > 0 {
        let init = rows.drop_last();
        lemma_filter_subset(init, pred);
        assert forall|j: int| 0 <= j < rows.filter(pred).len() implies rows.contains(
            #[trigger] rows.filter(pred)[j],
        ) && pred(rows.filter(pred)[j]) by {
            if j < init.filter(pred).len() {
                let x = init.filter(pred)[j];
                assert(init.contains(x));
                let w = choose|w: int| 0 <= w < init.len() && init[w] == x;
                assert(rows[w] == x);
            } else {
                assert(rows[rows.len() - 1] == rows.last());
            }
        }
    }
}

/// Filtering keeps the table's invariant.
pub proof fn lemma_filter_keeps_wf(
    rows: Seq<CrewInvolvement>,
    next: int,
    pred: spec_fn(CrewInvolvement) -> bool,
)
    requires
        table_wf(rows, next),
    ensures
        table_wf(rows.filter(pred), next),
    decreases rows.len(),
{
    reveal(Seq::filter);
    if rows.len() > 0 {
        let init = rows.drop_last();
        assert forall|a: int, b: int| 0 <= a < b < init.len() implies key_of(#[trigger] init[a])
            != key_of(#[trigger] init[b]) by {
            assert(init[a] == rows[a] && init[b] == rows[b]);
        }
        assert forall|a: int, b: int| 0 <= a < b < init.len() implies (#[trigger] init[a]).id != (
        #[trigger] init[b]).id by {
            assert(init[a] == rows[a] && init[b] == rows[b]);
        }
        assert forall|j: int| 0 <= j < init.len() implies (#[trigger] init[j]).id < next by {
            assert(init[j] == rows[j]);
        }
        lemma_filter_keeps_wf(init, next, pred);
        lemma_filter_subset(init, pred);
        let kept = init.filter(pred);
        let out = rows.filter(pred);
        let last = rows.last();
        assert(last == rows[rows.len() - 1]);
        assert forall|j: int| 0 <= j < kept.len() implies key_of(#[trigger] kept[j]) != key_of(last)
            && kept[j].id != last.id by {
            assert(init.contains(kept[j]));
            let w = choose|w: int| 0 <= w < init.len() && init[w] == kept[j];
            assert(rows[w] == kept[j]);
        }
        assert(unique_keys(out));
        assert(unique_ids(out));
        assert(ids_below(out, next));
    }
}

/// Two predicates that agree on every row of a sequence filter it alike.
pub proof fn lemma_filter_agree<A>(rows: Seq<A>, p: spec_fn(A) -> bool, q: spec_fn(A) -> bool)
    requires
        forall|j: int| 0 <= j < rows.len() ==> p(#[trigger] rows[j]) == q(rows[j]),
    ensures
        rows.filter(p) == rows.filter(q),
    decreases rows.len(),
{
    reveal(Seq::filter);
    if rows.len() > 0 {
        let init = rows.drop_last();
        assert forall|j: int| 0 <= j < init.len() implies p(#[trigger] init[j]) == q(init[j]) by {
            assert(init[j] == rows[j]);
        }
        lemma_filter_agree(init, p, q);
        assert(rows.last() == rows[rows.len() - 1]);
    }
}

/// A predicate that holds of every row filters nothing out.
pub proof fn lemma_filter_all<A>(rows: Seq<A>, p: spec_fn(A) -> bool)
    requires
        forall|j: int| 0 <= j < rows.len() ==> p(#[trigger] rows[j]),
    ensures
        rows.filter(p) == rows,
    decreases rows.len(),
{
    reveal(Seq::filter);
    if rows.len() > 0 {
        let init = rows.drop_last();
        assert forall|j: int| 0 <= j < init.len() implies p(#[trigger] init[j]) by {
            assert(init[j] == rows[j]);
        }
        lemma_filter_all(init, p);
        assert(rows.last() == rows[rows.len() - 1]);
        assert(init.push(rows.last()) =~= rows);
    }
}

/// A predicate that holds of no row filters everything out.
pub proof fn lemma_filter_none<A>(rows: Seq<A>, p: spec_fn(A) -> bool)
    requires
        forall|j: int| 0 <= j < rows.len() ==> !p(#[trigger] rows[j]),
    ensures
        rows.filter(p) == Seq::<A>::empty(),
    decreases rows.len(),
{
    reveal(Seq::filter);
    if rows.len() > 0 {
        let init = rows.drop_last();
        assert forall|j: int| 0 <= j < init.len() implies !p(#[trigger] init[j]) by {
            assert(init[j] == rows[j]);
        }
        lemma_filter_none(init, p);
        assert(rows.last() == rows[rows.len() - 1]);
    } else {
        assert(rows =~= Seq::<A>::empty());
    }
}

/// The stored crew involvements.
///
/// Rows are kept in the order in which they were first stored. A row's
/// natural key never changes; its id is given once, when it is first stored.
pub struct CrewInvolvementStore {
    rows: Vec<CrewInvolvement>,
    next_id: i64,
}

impl CrewInvolvementStore {
    /// The rows, oldest first.
    pub closed spec fn rows(&self) -> Seq<CrewInvolvement> {
        self.rows@
    }

    /// The id that the next new row gets.
    pub closed spec fn next_id(&self) -> int {
        self.next_id as int
    }

    /// The store's invariant.
    pub open spec fn wf(&self) -> bool {
        table_wf(self.rows(), self.next_id())
    }

    /// An empty store; ids start at 1.
    pub fn new() -> (s: CrewInvolvementStore)
        ensures
            s.wf(),
            s.rows() == Seq::<CrewInvolvement>::empty(),
            s.next_id() == 1,
    {
        CrewInvolvementStore { rows: Vec::new(), next_id: 1 }
    }

    /// A store that holds `rows` and hands out ids from `next_id` on;
    /// `None` where that table is not valid: two rows share a person, crew
    /// and interval, or an id, or an id is not below `next_id`.
    pub fn from_rows(rows: Vec<CrewInvolvement>, next_id: i64) -> (s: Option<CrewInvolvementStore>)
        ensures
            s.is_some() <==> table_wf(rows@, next_id as int),
            s.is_some() ==> s.unwrap().wf() && s.unwrap().rows() == rows@ && s.unwrap().next_id()
                == next_id,
    {
        let mut i: usize = 0;
        while i < rows.len()
            invariant
                i <= rows.len(),
                forall|a: int, b: int|
                    0 <= a < b < i ==> key_of(#[trigger] rows@[a]) != key_of(#[trigger] rows@[b]),
                forall|a: int, b: int|
                    0 <= a < b < i ==> (#[trigger] rows@[a]).id != (#[trigger] rows@[b]).id,
                forall|j: int| 0 <= j < i ==> (#[trigger] rows@[j]).id < next_id,
            decreases rows.len() - i,
        {
            let r = rows[i];
            if r.id >= next_id {
                return None;
            }
            let mut j: usize = 0;
            while j < i
                invariant
                    j <= i < rows.len(),
                    r == rows@[i as int],
                    forall|a: int| 0 <= a < j ==> key_of(#[trigger] rows@[a]) != key_of(r),
                    forall|a: int| 0 <= a < j ==> (#[trigger] rows@[a]).id != r.id,
                decreases i - j,
            {
                let q = rows[j];
                if q.id == r.id || (q.person_id == r.person_id && q.crew_id == r.crew_id
                    && q.interval_id == r.interval_id) {
                    assert(key_of(rows@[j as int]) == key_of(rows@[i as int]) || rows@[j as int].id
                        == rows@[i as int].id);
                    return None;
                }
                j += 1;
            }
            i += 1;
        }
        Some(CrewInvolvementStore { rows, next_id })
    }

    /// Every stored row, oldest first.
    pub fn all(&self) -> (out: Vec<CrewInvolvement>)
        ensures
            out@ == self.rows(),
    {
        copy_rows(&self.rows)
    }

    /// The rows, for the operations of this crate.
    pub(crate) fn rows_ref(&self) -> (out: &Vec<CrewInvolvement>)
        ensures
            out@ == self.rows(),
    {
        &self.rows
    }

    /// The id that the next new row gets.
    pub fn next_row_id(&self) -> (id: i64)
        ensures
            id == self.next_id(),
    {
        self.next_id
    }

    /// Replaces the table. The caller shows that the new table is valid.
    pub(crate) fn replace(&mut self, rows: Vec<CrewInvolvement>, next_id: i64)
        requires
            table_wf(rows@, next_id as int),
        ensures
            final(self).wf(),
            final(self).rows() == rows@,
            final(self).next_id() == next_id,
    {
        self.rows = rows;
        self.next_id = next_id;
    }
}

/// A copy of `src`.
pub fn copy_rows(src: &Vec<CrewInvolvement>) -> (out: Vec<CrewInvolvement>)
    ensures
        out@ == src@,
{
    let mut out: Vec<CrewInvolvement> = Vec::new();
    let mut i: usize = 0;
    while i < src.len()
        invariant
            i <= src.len(),
            out@ == src@.take(i as int),
        decreases src.len() - i,
    {
        out.push(src[i]);
        assert(src@.take(i + 1) =~= src@.take(i as int).push(src@[i as int]));
        i += 1;
    }
    assert(src@.take(src.len() as int) =~= src@);
    out
}

/// The rows of `rows` that belong to one person in one interval, in order.
pub fn rows_of_person(rows: &Vec<CrewInvolvement>, person_id: i64, interval_id: i64) -> (out: Vec<
    CrewInvolvement,
>)
    ensures
        out@ == rows@.filter(owned_by(person_id, interval_id)),
{
    let mut out: Vec<CrewInvolvement> = Vec::new();
    let mut i: usize = 0;
    assert(rows@.take(0).filter(owned_by(person_id, interval_id)) =~= Seq::empty()) by {
        reveal(Seq::filter);
    }
    while i < rows.len()
        invariant
            i <= rows.len(),
            out@ == rows@.take(i as int).filter(owned_by(person_id, interval_id)),
        decreases rows.len() - i,
    {
        let r = rows[i];
        proof {
            assert(rows@.take(i + 1) =~= rows@.take(i as int).push(r));
            rows@.take(i as int).lemma_filter_push(r, owned_by(person_id, interval_id));
        }
        if r.person_id == person_id && r.interval_id == interval_id {
            out.push(r);
        }
        i += 1;
    }
    assert(rows@.take(rows.len() as int) =~= rows@);
    out
}

/// The rows of `rows` that belong to one crew in one interval, in order.
pub fn rows_of_crew(rows: &Vec<CrewInvolvement>, crew_id: i64, interval_id: i64) -> (out: Vec<
    CrewInvolvement,
>)
    ensures
        out@ == rows@.filter(in_crew(crew_id, interval_id)),
{
    let mut out: Vec<CrewInvolvement> = Vec::new();
    let mut i: usize = 0;
    assert(rows@.take(0).filter(in_crew(crew_id, interval_id)) =~= Seq::empty()) by {
        reveal(Seq::filter);
    }
    while i < rows.len()
        invariant
            i <= rows.len(),
            out@ == rows@.take(i as int).filter(in_crew(crew_id, interval_id)),
        decreases rows.len() - i,
    {
        let r = rows[i];
        proof {
            assert(rows@.take(i + 1) =~= rows@.take(i as int).push(r));
            rows@.take(i as int).lemma_filter_push(r, in_crew(crew_id, interval_id));
        }
        if r.crew_id == crew_id && r.interval_id == interval_id {
            out.push(r);
        }
        i += 1;
    }
    assert(rows@.take(rows.len() as int) =~= rows@);
    out
}

/// Whether some row of `rows` has the id `id`.
pub fn contains_id(rows: &Vec<CrewInvolvement>, id: i64) -> (found: bool)
    ensures
        found == row_ids(rows@).contains(id),
{
    let mut i: usize = 0;
    while i < rows.len()
        invariant
            i <= rows.len(),
            forall|j: int| 0 <= j < i ==> (#[trigger] rows@[j]).id != id,
        decreases rows.len() - i,
    {
        if rows[i].id == id {
            assert(row_ids(rows@)[i as int] == id);
            return true;
        }
        i += 1;
    }
    assert forall|j: int| 0 <= j < row_ids(rows@).len() implies row_ids(rows@)[j] != id by {
        assert(row_ids(rows@)[j] == rows@[j].id);
    }
    false
}

/// The rows of `rows` whose id is not an id of `gone`, in order.
pub fn rows_without(rows: &Vec<CrewInvolvement>, gone: &Vec<CrewInvolvement>) -> (out: Vec<
    CrewInvolvement,
>)
    ensures
        out@ == rows@.filter(id_not_in(row_ids(gone@))),
{
    let mut out: Vec<CrewInvolvement> = Vec::new();
    let mut i: usize = 0;
    assert(rows@.take(0).filter(id_not_in(row_ids(gone@))) =~= Seq::empty()) by {
        reveal(Seq::filter);
    }
    while i < rows.len()
        invariant
            i <= rows.len(),
            out@ == rows@.take(i as int).filter(id_not_in(row_ids(gone@))),
        decreases rows.len() - i,
    {
        let r = rows[i];
        proof {
            assert(rows@.take(i + 1) =~= rows@.take(i as int).push(r));
            rows@.take(i as int).lemma_filter_push(r, id_not_in(row_ids(gone@)));
        }
        if !contains_id(gone, r.id) {
            out.push(r);
        }
        i += 1;
    }
    assert(rows@.take(rows.len() as int) =~= rows@);
    out
}

/// A person's stored crew involvements for one interval, oldest first.
pub fn find_my_crew_involvements(
    person_id: i64,
    interval_id: i64,
    store: &CrewInvolvementStore,
) -> (out: Vec<CrewInvolvement>)
    ensures
        out@ == store.rows().filter(owned_by(person_id, interval_id)),
{
    rows_of_person(store.rows_ref(), person_id, interval_id)
}

/// A crew's stored involvements for one interval, oldest first.
pub fn find_crew_involvements(crew_id: i64, interval_id: i64, store: &CrewInvolvementStore) -> (out:
    Vec<CrewInvolvement>)
    ensures
        out@ == store.rows().filter(in_crew(crew_id, interval_id)),
{
    rows_of_crew(store.rows_ref(), crew_id, interval_id)
}

/// Deletes the stored rows whose id is the id of one of `involvements`.
///
/// Only the ids of `involvements` are read. With none given nothing is
/// deleted: an empty list never stands for "every row".
pub fn delete_crew_involvements(involvements: Vec<CrewInvolvement>, store: &mut CrewInvolvementStore)
    requires
        old(store).wf(),
    ensures
        final(store).wf(),
        final(store).rows() == old(store).rows().filter(id_not_in(row_ids(involvements@))),
        final(store).next_id() == old(store).next_id(),
        involvements@.len() == 0 ==> final(store).rows() == old(store).rows(),
{
    if involvements.len() == 0 {
        proof {
            lemma_filter_all(store.rows(), id_not_in(row_ids(involvements@)));
        }
        return ;
    }
    let kept = rows_without(store.rows_ref(), &involvements);
    let next = store.next_row_id();
    proof {
        lemma_filter_keeps_wf(store.rows(), store.next_id(), id_not_in(row_ids(involvements@)));
    }
    store.replace(kept, next);
}

} // verus!
