//! Reconciliation: replacing a person's stored crew memberships for one
//! interval by the set they now declare.

use vstd::prelude::*;
use crate::entities::CrewInvolvement;
use crate::store::{
    crew_ids, has_key, id_not_in, ids_below, key_of, lemma_filter_agree, lemma_filter_keeps_wf,
    lemma_filter_subset, owned_by, row_ids, rows_of_person, rows_without, table_wf, unique_ids,
    unique_keys, CrewInvolvementStore, RepoError,
};

verus! {

/// The stored row `r` after an upsert of `d` has hit it: the two flags come
/// from `d`, the rest stays.
pub open spec fn with_flags(r: CrewInvolvement, d: CrewInvolvement) -> CrewInvolvement {
    CrewInvolvement { convenor: d.convenor, volunteered_convenor: d.volunteered_convenor, ..r }
}

/// The row that is stored for a new involvement `d`: `d` under the id that
/// the store gives it.
pub open spec fn stored_as(d: CrewInvolvement, id: i64) -> CrewInvolvement {
    CrewInvolvement { id, ..d }
}

/// What an upsert of `d` does to each stored row.
pub open spec fn upsert_in_place(d: CrewInvolvement) -> spec_fn(CrewInvolvement) -> CrewInvolvement {
    |r: CrewInvolvement|
        if key_of(r) == key_of(d) {
            with_flags(r, d)
        } else {
            r
        }
}

/// The table after an upsert of `d`: the row with `d`'s natural key takes
/// `d`'s flags; where there is none, `d` is stored as a new row under the
/// next id. `None` where the ids have run out.
pub open spec fn upserted(rows: Seq<CrewInvolvement>, next: int, d: CrewInvolvement) -> Option<
    (Seq<CrewInvolvement>, int),
> {
    if has_key(rows, key_of(d)) {
        Some((rows.map_values(upsert_in_place(d)), next))
    } else if next < i64::MAX {
        Some((rows.push(stored_as(d, next as i64)), next + 1))
    } else {
        None
    }
}

/// The table after upserting `ds` one by one, first to last.
pub open spec fn upserted_all(rows: Seq<CrewInvolvement>, next: int, ds: Seq<CrewInvolvement>)
    -> Option<(Seq<CrewInvolvement>, int)>
    decreases ds.len(),
{
    if ds.len() == 0 {
        Some((rows, next))
    } else {
        match upserted_all(rows, next, ds.drop_last()) {
            Some((r, n)) => upserted(r, n, ds.last()),
            None => None,
        }
    }
}

/// Every involvement of `ds` is of the given person and interval.
pub open spec fn all_owned_by(ds: Seq<CrewInvolvement>, person_id: i64, interval_id: i64) -> bool {
    forall|j: int|
        0 <= j < ds.len() ==> (#[trigger] ds[j]).person_id == person_id && ds[j].interval_id
            == interval_id
}

/// Rows whose crew is not among the crews of `desired`.
pub open spec fn withdrawn(desired: Seq<CrewInvolvement>) -> spec_fn(CrewInvolvement) -> bool {
    |r: CrewInvolvement| !crew_ids(desired).contains(r.crew_id)
}

/// The stored rows that a reconciliation deletes: those of the person and
/// interval whose crew is not among the crews of `desired`.
pub open spec fn to_remove(
    rows: Seq<CrewInvolvement>,
    person_id: i64,
    interval_id: i64,
    desired: Seq<CrewInvolvement>,
) -> Seq<CrewInvolvement> {
    rows.filter(owned_by(person_id, interval_id)).filter(withdrawn(desired))
}

/// Rows that a reconciliation leaves in place.
pub open spec fn stays(person_id: i64, interval_id: i64, desired: Seq<CrewInvolvement>) -> spec_fn(
    CrewInvolvement,
) -> bool {
    |r: CrewInvolvement|
        !(r.person_id == person_id && r.interval_id == interval_id && !crew_ids(desired).contains(
            r.crew_id,
        ))
}

/// The table after a reconciliation: the withdrawn rows are gone, then every
/// desired involvement is upserted.
pub open spec fn reconciled(
    rows: Seq<CrewInvolvement>,
    next: int,
    person_id: i64,
    interval_id: i64,
    desired: Seq<CrewInvolvement>,
) -> Option<(Seq<CrewInvolvement>, int)> {
    upserted_all(rows.filter(stays(person_id, interval_id, desired)), next, desired)
}

/// The crews whose membership a reconciliation may have changed: the desired
/// crews, then the crews of the deleted rows.
pub open spec fn impacted(
    rows: Seq<CrewInvolvement>,
    person_id: i64,
    interval_id: i64,
    desired: Seq<CrewInvolvement>,
) -> Seq<i64> {
    crew_ids(desired) + crew_ids(to_remove(rows, person_id, interval_id, desired))
}

/// Whether every involvement of `ds` is of the given person and interval.
pub fn belongs_to(ds: &Vec<CrewInvolvement>, person_id: i64, interval_id: i64) -> (ok: bool)
    ensures
        ok == all_owned_by(ds@, person_id, interval_id),
{
    let mut i: usize = 0;
    while i < ds.len()
        invariant
            i <= ds.len(),
            forall|j: int|
                0 <= j < i ==> (#[trigger] ds@[j]).person_id == person_id && ds@[j].interval_id
                    == interval_id,
        decreases ds.len() - i,
    {
        if ds[i].person_id != person_id || ds[i].interval_id != interval_id {
            return false;
        }
        i += 1;
    }
    true
}

/// The crew ids of `rows`, in order.
pub fn crew_ids_of(rows: &Vec<CrewInvolvement>) -> (out: Vec<i64>)
    ensures
        out@ == crew_ids(rows@),
{
    let mut out: Vec<i64> = Vec::new();
    let mut i: usize = 0;
    while i < rows.len()
        invariant
            i <= rows.len(),
            out@ == crew_ids(rows@.take(i as int)),
        decreases rows.len() - i,
    {
        out.push(rows[i].crew_id);
        assert(crew_ids(rows@.take(i + 1)) =~= crew_ids(rows@.take(i as int)).push(
            rows@[i as int].crew_id,
        ));
        i += 1;
    }
    assert(rows@.take(rows.len() as int) =~= rows@);
    out
}

/// Whether `crew_id` is the crew of one of `rows`.
pub fn names_crew(rows: &Vec<CrewInvolvement>, crew_id: i64) -> (found: bool)
    ensures
        found == crew_ids(rows@).contains(crew_id),
{
    let mut i: usize = 0;
    while i < rows.len()
        invariant
            i <= rows.len(),
            forall|j: int| 0 <= j < i ==> (#[trigger] rows@[j]).crew_id != crew_id,
        decreases rows.len() - i,
    {
        if rows[i].crew_id == crew_id {
            assert(crew_ids(rows@)[i as int] == crew_id);
            return true;
        }
        i += 1;
    }
    assert forall|j: int| 0 <= j < crew_ids(rows@).len() implies crew_ids(rows@)[j] != crew_id by {
        assert(crew_ids(rows@)[j] == rows@[j].crew_id);
    }
    false
}

/// The rows of `existing` whose crew is not among the crews of `desired`,
/// in order.
pub fn involvements_to_remove(existing: &Vec<CrewInvolvement>, desired: &Vec<CrewInvolvement>) -> (out:
    Vec<CrewInvolvement>)
    ensures
        out@ == existing@.filter(withdrawn(desired@)),
{
    let mut out: Vec<CrewInvolvement> = Vec::new();
    let mut i: usize = 0;
    assert(existing@.take(0).filter(withdrawn(desired@)) =~= Seq::empty()) by {
        reveal(Seq::filter);
    }
    while i < existing.len()
        invariant
            i <= existing.len(),
            out@ == existing@.take(i as int).filter(withdrawn(desired@)),
        decreases existing.len() - i,
    {
        let r = existing[i];
        proof {
            assert(existing@.take(i + 1) =~= existing@.take(i as int).push(r));
            existing@.take(i as int).lemma_filter_push(r, withdrawn(desired@));
        }
        if !names_crew(desired, r.crew_id) {
            out.push(r);
        }
        i += 1;
    }
    assert(existing@.take(existing.len() as int) =~= existing@);
    out
}

/// Upserts `d` into `rows`: updates the flags of the row with `d`'s natural
/// key, or appends `d` under the id `next`. Returns whether it could; where
/// it could not, nothing is changed.
pub fn upsert_row(rows: &mut Vec<CrewInvolvement>, next: &mut i64, d: CrewInvolvement) -> (ok: bool)
    requires
        unique_keys(old(rows)@),
    ensures
        match upserted(old(rows)@, *old(next) as int, d) {
            Some((r, n)) => ok && final(rows)@ == r && *final(next) == n,
            None => !ok && final(rows)@ == old(rows)@ && *final(next) == *old(next),
        },
{
    let mut i: usize = 0;
    while i < rows.len()
        invariant
            i <= rows.len(),
            rows@ == old(rows)@,
            unique_keys(rows@),
            *next == *old(next),
            forall|j: int| 0 <= j < i ==> key_of(#[trigger] rows@[j]) != key_of(d),
        decreases rows.len() - i,
    {
        let r = rows[i];
        if r.person_id == d.person_id && r.crew_id == d.crew_id && r.interval_id == d.interval_id {
            let updated = CrewInvolvement {
                id: r.id,
                person_id: r.person_id,
                crew_id: r.crew_id,
                interval_id: r.interval_id,
                convenor: d.convenor,
                volunteered_convenor: d.volunteered_convenor,
            };
            rows.set(i, updated);
            proof {
                let before = old(rows)@;
                assert(key_of(before[i as int]) == key_of(d));
                assert(has_key(before, key_of(d)));
                assert forall|j: int| 0 <= j < before.len() implies #[trigger] rows@[j]
                    == upsert_in_place(d)(before[j]) by {
                    if j < i {
                        assert(key_of(before[j]) != key_of(before[i as int]));
                    } else if i < j {
                        assert(key_of(before[i as int]) != key_of(before[j]));
                    }
                }
                assert(rows@ =~= before.map_values(upsert_in_place(d)));
            }
            return true;
        }
        i += 1;
    }
    assert(!has_key(rows@, key_of(d)));
    if *next < i64::MAX {
        let fresh = CrewInvolvement {
            id: *next,
            person_id: d.person_id,
            crew_id: d.crew_id,
            interval_id: d.interval_id,
            convenor: d.convenor,
            volunteered_convenor: d.volunteered_convenor,
        };
        rows.push(fresh);
        *next = *next + 1;
        true
    } else {
        false
    }
}

/// An upsert keeps the table's invariant.
pub proof fn lemma_upserted_wf(rows: Seq<CrewInvolvement>, next: int, d: CrewInvolvement)
    requires
        table_wf(rows, next),
        upserted(rows, next, d).is_some(),
    ensures
        table_wf(upserted(rows, next, d).unwrap().0, upserted(rows, next, d).unwrap().1),
{
    let (r, n) = upserted(rows, next, d).unwrap();
    if has_key(rows, key_of(d)) {
        assert forall|j: int| 0 <= j < r.len() implies key_of(#[trigger] r[j]) == key_of(rows[j])
            && r[j].id == rows[j].id by {}
        assert(unique_keys(r)) by {
            assert forall|a: int, b: int| 0 <= a < b < r.len() implies key_of(#[trigger] r[a])
                != key_of(#[trigger] r[b]) by {
                assert(key_of(rows[a]) != key_of(rows[b]));
            }
        }
        assert(unique_ids(r)) by {
            assert forall|a: int, b: int| 0 <= a < b < r.len() implies (#[trigger] r[a]).id != (
            #[trigger] r[b]).id by {
                assert(rows[a].id != rows[b].id);
            }
        }
        assert(ids_below(r, n)) by {
            assert forall|j: int| 0 <= j < r.len() implies (#[trigger] r[j]).id < n by {
                assert(rows[j].id < next);
            }
        }
    } else {
        assert forall|j: int| 0 <= j < rows.len() implies key_of(#[trigger] rows[j]) != key_of(
            d,
        ) by {}
        assert(unique_keys(r));
        assert(unique_ids(r));
        assert(ids_below(r, n));
    }
}

/// Upserting a list keeps the table's invariant.
pub proof fn lemma_upserted_all_wf(rows: Seq<CrewInvolvement>, next: int, ds: Seq<CrewInvolvement>)
    requires
        table_wf(rows, next),
        upserted_all(rows, next, ds).is_some(),
    ensures
        table_wf(upserted_all(rows, next, ds).unwrap().0, upserted_all(rows, next, ds).unwrap().1),
    decreases ds.len(),
{
    if ds.len() > 0 {
        lemma_upserted_all_wf(rows, next, ds.drop_last());
        let (r, n) = upserted_all(rows, next, ds.drop_last()).unwrap();
        lemma_upserted_wf(r, n, ds.last());
    }
}

/// Upserts `ds` into a table, first to last. `None`, where the ids ran out.
pub fn upsert_rows(rows: Vec<CrewInvolvement>, next: i64, ds: &Vec<CrewInvolvement>) -> (out: Option<
    (Vec<CrewInvolvement>, i64),
>)
    requires
        table_wf(rows@, next as int),
    ensures
        match upserted_all(rows@, next as int, ds@) {
            Some((r, n)) => out.is_some() && out.unwrap().0@ == r && out.unwrap().1 == n
                && table_wf(r, n),
            None => out.is_none(),
        },
{
    let mut work = rows;
    let mut n: i64 = next;
    let mut i: usize = 0;
    while i < ds.len()
        invariant
            i <= ds.len(),
            table_wf(rows@, next as int),
            upserted_all(rows@, next as int, ds@.take(i as int)) == Some((work@, n as int)),
            table_wf(work@, n as int),
        decreases ds.len() - i,
    {
        proof {
            assert(ds@.take(i + 1).drop_last() =~= ds@.take(i as int));
            assert(ds@.take(i + 1).last() == ds@[i as int]);
            if upserted(work@, n as int, ds@[i as int]).is_some() {
                lemma_upserted_wf(work@, n as int, ds@[i as int]);
            }
        }
        let ok = upsert_row(&mut work, &mut n, ds[i]);
        if !ok {
            proof {
                lemma_upserted_all_stuck(rows@, next as int, ds@, i + 1);
            }
            return None;
        }
        i += 1;
    }
    assert(ds@.take(ds.len() as int) =~= ds@);
    Some((work, n))
}

/// Once the ids have run out for a prefix of a list, they have for the list.
pub proof fn lemma_upserted_all_stuck(
    rows: Seq<CrewInvolvement>,
    next: int,
    ds: Seq<CrewInvolvement>,
    k: int,
)
    requires
        0 <= k <= ds.len(),
        upserted_all(rows, next, ds.take(k)).is_none(),
    ensures
        upserted_all(rows, next, ds).is_none(),
    decreases ds.len(),
{
    if k == ds.len() {
        assert(ds.take(k) =~= ds);
    } else {
        assert(ds.drop_last().take(k) =~= ds.take(k));
        lemma_upserted_all_stuck(rows, next, ds.drop_last(), k);
    }
}

/// Stores each involvement of the list, first to last: the stored row with
/// the same person, crew and interval takes its two flags; where there is
/// none, the involvement is stored as a new row under a fresh id (the id it
/// carries is not read). All of it happens or none: where the ids run out,
/// the error is `Persistence` and the store is as it was.
pub fn upsert_crew_involvements(involvements: Vec<CrewInvolvement>, store: &mut CrewInvolvementStore)
    -> (res: Result<(), RepoError>)
    requires
        old(store).wf(),
    ensures
        final(store).wf(),
        match upserted_all(old(store).rows(), old(store).next_id(), involvements@) {
            Some((r, n)) => res.is_ok() && final(store).rows() == r && final(store).next_id() == n,
            None => res == Err::<(), RepoError>(RepoError::Persistence) && final(store).rows() == old(
                store,
            ).rows() && final(store).next_id() == old(store).next_id(),
        },
{
    let work = store.all();
    let next = store.next_row_id();
    match upsert_rows(work, next, &involvements) {
        Some((rows, n)) => {
            store.replace(rows, n);
            Ok(())
        },
        None => Err(RepoError::Persistence),
    }
}

/// What a reconciliation does beside the upserts: the stored rows to
/// delete, and the crews to report as possibly changed.
#[derive(Debug, Clone, PartialEq, Eq)]
pub struct ReconcilePlan {
    pub to_remove: Vec<CrewInvolvement>,
    pub impacted_crew_ids: Vec<i64>,
}

/// Plans a reconciliation from the person's stored rows for the interval
/// and the list they declare. The error is `Validation` exactly if some
/// involvement of the list is of another person or interval. Else the rows
/// to delete are the stored rows whose crew the list does not name, and
/// the crews to report are the crews of the list, then the crews of the
/// rows to delete.
pub fn plan_crew_involvement_update(
    person_id: i64,
    interval_id: i64,
    existing: &Vec<CrewInvolvement>,
    desired: &Vec<CrewInvolvement>,
) -> (res: Result<ReconcilePlan, RepoError>)
    ensures
        !all_owned_by(desired@, person_id, interval_id) ==> res is Err && res->Err_0
            == RepoError::Validation,
        all_owned_by(desired@, person_id, interval_id) ==> res is Ok && res->Ok_0.to_remove@
            == existing@.filter(withdrawn(desired@)) && res->Ok_0.impacted_crew_ids@ == crew_ids(
            desired@,
        ) + crew_ids(existing@.filter(withdrawn(desired@))),
{
    if !belongs_to(desired, person_id, interval_id) {
        return Err(RepoError::Validation);
    }
    let mut impacted_crew_ids = crew_ids_of(desired);
    let to_remove = involvements_to_remove(existing, desired);
    let mut removed_crew_ids = crew_ids_of(&to_remove);
    impacted_crew_ids.append(&mut removed_crew_ids);
    Ok(ReconcilePlan { to_remove, impacted_crew_ids })
}

/// Deleting the rows to remove by their ids leaves exactly the rows that
/// stay.
pub proof fn lemma_delete_by_id_is_stays(
    rows: Seq<CrewInvolvement>,
    next: int,
    person_id: i64,
    interval_id: i64,
    desired: Seq<CrewInvolvement>,
)
    requires
        table_wf(rows, next),
    ensures
        rows.filter(id_not_in(row_ids(to_remove(rows, person_id, interval_id, desired))))
            == rows.filter(stays(person_id, interval_id, desired)),
{
    let own = owned_by(person_id, interval_id);
    let gone = to_remove(rows, person_id, interval_id, desired);
    let existing = rows.filter(own);
    lemma_filter_subset(rows, own);
    lemma_filter_subset(existing, withdrawn(desired));
    let p = id_not_in(row_ids(gone));
    let q = stays(person_id, interval_id, desired);
    assert forall|j: int| 0 <= j < rows.len() implies p(#[trigger] rows[j]) == q(rows[j]) by {
        let r = rows[j];
        if !q(r) {
            assert(own(r));
            rows.lemma_filter_contains(own, j);
            let w = choose|w: int| 0 <= w < existing.len() && existing[w] == r;
            existing.lemma_filter_contains(withdrawn(desired), w);
            let v = choose|v: int| 0 <= v < gone.len() && gone[v] == r;
            assert(row_ids(gone)[v] == r.id);
        }
        if !p(r) {
            let v = choose|v: int| 0 <= v < row_ids(gone).len() && row_ids(gone)[v] == r.id;
            let g = gone[v];
            assert(g.id == r.id);
            assert(existing.contains(g));
            let w = choose|w: int| 0 <= w < existing.len() && existing[w] == g;
            assert(rows.contains(existing[w]));
            let u = choose|u: int| 0 <= u < rows.len() && rows[u] == g;
            if u < j {
                assert(rows[u].id != rows[j].id);
            } else if j < u {
                assert(rows[j].id != rows[u].id);
            }
            assert(g == r);
            assert(withdrawn(desired)(g));
            assert(own(g));
        }
    }
    lemma_filter_agree(rows, p, q);
}

/// Reconciles a person's stored crew involvements for one interval with
/// the list they declare.
///
/// Every involvement of the list has to be of that person and interval;
/// else the error is `Validation` and nothing is changed. The stored rows
/// of the person and interval whose crew the list does not name are
/// deleted, then each involvement of the list is upserted, as one change:
/// where the ids run out, the error is `Persistence` and nothing is
/// changed. The result names the crews whose membership may have changed:
/// the crews of the list, then the crews of the deleted rows.
pub fn update_crew_involvements(
    person_id: i64,
    interval_id: i64,
    involvements: Vec<CrewInvolvement>,
    store: &mut CrewInvolvementStore,
) -> (res: Result<Vec<i64>, RepoError>)
    requires
        old(store).wf(),
    ensures
        final(store).wf(),
        !all_owned_by(involvements@, person_id, interval_id) ==> res == Err::<Vec<i64>, RepoError>(
            RepoError::Validation,
        ) && final(store).rows() == old(store).rows() && final(store).next_id() == old(
            store,
        ).next_id(),
        all_owned_by(involvements@, person_id, interval_id) ==> match reconciled(
            old(store).rows(),
            old(store).next_id(),
            person_id,
            interval_id,
            involvements@,
        ) {
            Some((r, n)) => res.is_ok() && res.unwrap()@ == impacted(
                old(store).rows(),
                person_id,
                interval_id,
                involvements@,
            ) && final(store).rows() == r && final(store).next_id() == n,
            None => res == Err::<Vec<i64>, RepoError>(RepoError::Persistence) && final(store).rows()
                == old(store).rows() && final(store).next_id() == old(store).next_id(),
        },
{
    let existing = rows_of_person(store.rows_ref(), person_id, interval_id);
    let plan = match plan_crew_involvement_update(person_id, interval_id, &existing, &involvements) {
        Ok(plan) => plan,
        Err(e) => {
            return Err(e);
        },
    };
    let removing = plan.to_remove;
    let kept = rows_without(store.rows_ref(), &removing);
    let next = store.next_row_id();
    proof {
        lemma_delete_by_id_is_stays(
            store.rows(),
            store.next_id(),
            person_id,
            interval_id,
            involvements@,
        );
        lemma_filter_keeps_wf(
            store.rows(),
            store.next_id(),
            stays(person_id, interval_id, involvements@),
        );
    }
    match upsert_rows(kept, next, &involvements) {
        Some((rows, n)) => {
            store.replace(rows, n);
            Ok(plan.impacted_crew_ids)
        },
        None => Err(RepoError::Persistence),
    }
}

} // verus!
