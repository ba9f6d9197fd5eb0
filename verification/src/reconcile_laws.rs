//! What holds of every reconciliation.

use vstd::prelude::*;
use crate::entities::CrewInvolvement;
use crate::reconcile::{
    all_owned_by, impacted, lemma_upserted_all_wf, reconciled, stays, to_remove, upsert_in_place,
    upserted, upserted_all, with_flags, withdrawn,
};
use crate::store::{
    crew_ids, has_key, key_of, lemma_filter_all, lemma_filter_keeps_wf, lemma_filter_none,
    lemma_filter_subset, owned_by, table_wf, unique_keys,
};

verus! {

/// The last involvement of `ds` with the natural key `k`, if there is one.
pub open spec fn last_with_key(ds: Seq<CrewInvolvement>, k: (i64, i64, i64)) -> Option<
    CrewInvolvement,
>
    decreases ds.len(),
{
    if ds.len() == 0 {
        None
    } else if key_of(ds.last()) == k {
        Some(ds.last())
    } else {
        last_with_key(ds.drop_last(), k)
    }
}

/// The row `r` carries the flags of the last involvement of `ds` with its
/// key, where there is one.
pub open spec fn settled(ds: Seq<CrewInvolvement>, r: CrewInvolvement) -> bool {
    match last_with_key(ds, key_of(r)) {
        Some(d) => r.convenor == d.convenor && r.volunteered_convenor == d.volunteered_convenor,
        None => true,
    }
}

/// What upserting all of `ds` does to a stored row whose key stays stored.
pub open spec fn settle(ds: Seq<CrewInvolvement>) -> spec_fn(CrewInvolvement) -> CrewInvolvement {
    |r: CrewInvolvement|
        match last_with_key(ds, key_of(r)) {
            Some(d) => with_flags(r, d),
            None => r,
        }
}

/// After upserting `ds` into a table with unique keys: the keys are still
/// unique; the stored keys are the old ones and those of `ds`; and each row
/// whose key `ds` names carries the flags of the last involvement of `ds`
/// with that key.
pub proof fn lemma_upserted_all_result(
    rows: Seq<CrewInvolvement>,
    next: int,
    ds: Seq<CrewInvolvement>,
)
    requires
        unique_keys(rows),
        upserted_all(rows, next, ds).is_some(),
    ensures
        unique_keys(upserted_all(rows, next, ds).unwrap().0),
        forall|k: (i64, i64, i64)|
            has_key(upserted_all(rows, next, ds).unwrap().0, k) <==> (has_key(rows, k) || has_key(
                ds,
                k,
            )),
        forall|j: int|
            0 <= j < upserted_all(rows, next, ds).unwrap().0.len() ==> settled(
                ds,
                #[trigger] upserted_all(rows, next, ds).unwrap().0[j],
            ),
    decreases ds.len(),
{
    let out = upserted_all(rows, next, ds).unwrap().0;
    if ds.len() == 0 {
        assert forall|k: (i64, i64, i64)| !has_key(ds, k) by {}
    } else {
        let init = ds.drop_last();
        let d = ds.last();
        lemma_upserted_all_result(rows, next, init);
        let (mid, n) = upserted_all(rows, next, init).unwrap();
        assert(upserted(mid, n, d) == upserted_all(rows, next, ds));
        assert(d == ds[ds.len() - 1]);
        if has_key(mid, key_of(d)) {
            assert(out == mid.map_values(upsert_in_place(d)));
            assert forall|j: int| 0 <= j < out.len() implies key_of(#[trigger] out[j]) == key_of(
                mid[j],
            ) by {}
            assert forall|a: int, b: int| 0 <= a < b < out.len() implies key_of(#[trigger] out[a])
                != key_of(#[trigger] out[b]) by {
                assert(key_of(mid[a]) != key_of(mid[b]));
            }
            assert forall|k: (i64, i64, i64)| has_key(out, k) <==> (has_key(rows, k) || has_key(
                ds,
                k,
            )) by {
                if has_key(out, k) {
                    let j = choose|j: int| 0 <= j < out.len() && key_of(#[trigger] out[j]) == k;
                    assert(key_of(mid[j]) == k);
                    assert(has_key(mid, k));
                    if has_key(init, k) {
                        let m = choose|m: int| 0 <= m < init.len() && key_of(#[trigger] init[m]) == k;
                        assert(key_of(ds[m]) == k);
                    }
                }
                if has_key(rows, k) || has_key(ds, k) {
                    if has_key(ds, k) && !has_key(rows, k) {
                        let m = choose|m: int| 0 <= m < ds.len() && key_of(#[trigger] ds[m]) == k;
                        if m < init.len() {
                            assert(key_of(init[m]) == k);
                        }
                    }
                    assert(has_key(mid, k));
                    let j = choose|j: int| 0 <= j < mid.len() && key_of(#[trigger] mid[j]) == k;
                    assert(key_of(out[j]) == k);
                }
            }
            assert forall|j: int| 0 <= j < out.len() implies settled(ds, #[trigger] out[j]) by {
                assert(settled(init, mid[j]));
            }
        } else {
            assert(out == mid.push(crate::reconcile::stored_as(d, n as i64)));
            assert forall|j: int| 0 <= j < mid.len() implies key_of(#[trigger] mid[j]) != key_of(
                d,
            ) by {}
            assert(unique_keys(out));
            assert forall|k: (i64, i64, i64)| has_key(out, k) <==> (has_key(rows, k) || has_key(
                ds,
                k,
            )) by {
                if has_key(out, k) {
                    let j = choose|j: int| 0 <= j < out.len() && key_of(#[trigger] out[j]) == k;
                    if j < mid.len() {
                        assert(key_of(mid[j]) == k);
                        assert(has_key(mid, k));
                        if has_key(init, k) {
                            let m = choose|m: int|
                                0 <= m < init.len() && key_of(#[trigger] init[m]) == k;
                            assert(key_of(ds[m]) == k);
                        }
                    }
                }
                if has_key(rows, k) || has_key(ds, k) {
                    if k == key_of(d) {
                        assert(key_of(out[out.len() - 1]) == k);
                    } else {
                        if has_key(ds, k) && !has_key(rows, k) {
                            let m = choose|m: int| 0 <= m < ds.len() && key_of(#[trigger] ds[m]) == k;
                            assert(key_of(init[m]) == k);
                        }
                        assert(has_key(mid, k));
                        let j = choose|j: int| 0 <= j < mid.len() && key_of(#[trigger] mid[j]) == k;
                        assert(key_of(out[j]) == k);
                    }
                }
            }
            assert forall|j: int| 0 <= j < out.len() implies settled(ds, #[trigger] out[j]) by {
                if j < mid.len() {
                    assert(out[j] == mid[j]);
                    assert(settled(init, mid[j]));
                }
            }
        }
    }
}

/// Upserting `ds` into a table that already stores every key of `ds` adds
/// no row and uses no id: each row takes the flags of the last involvement
/// of `ds` with its key.
pub proof fn lemma_upserted_all_in_place(
    rows: Seq<CrewInvolvement>,
    next: int,
    ds: Seq<CrewInvolvement>,
)
    requires
        forall|m: int| 0 <= m < ds.len() ==> has_key(rows, key_of(#[trigger] ds[m])),
    ensures
        upserted_all(rows, next, ds) == Some((rows.map_values(settle(ds)), next)),
    decreases ds.len(),
{
    if ds.len() == 0 {
        assert(rows.map_values(settle(ds)) =~= rows);
    } else {
        let init = ds.drop_last();
        let d = ds.last();
        assert forall|m: int| 0 <= m < init.len() implies has_key(
            rows,
            key_of(#[trigger] init[m]),
        ) by {
            assert(init[m] == ds[m]);
        }
        lemma_upserted_all_in_place(rows, next, init);
        let mid = rows.map_values(settle(init));
        assert(d == ds[ds.len() - 1]);
        assert(has_key(rows, key_of(d)));
        let j = choose|j: int| 0 <= j < rows.len() && key_of(#[trigger] rows[j]) == key_of(d);
        assert(key_of(mid[j]) == key_of(d));
        assert(has_key(mid, key_of(d)));
        assert(mid.map_values(upsert_in_place(d)) =~= rows.map_values(settle(ds)));
    }
}

/// A reconciliation keeps the table valid: afterwards there is still at
/// most one row for each person, crew and interval, and no id is used
/// twice.
pub proof fn lemma_reconciled_wf(
    rows: Seq<CrewInvolvement>,
    next: int,
    person_id: i64,
    interval_id: i64,
    desired: Seq<CrewInvolvement>,
)
    requires
        table_wf(rows, next),
        reconciled(rows, next, person_id, interval_id, desired).is_some(),
    ensures
        table_wf(
            reconciled(rows, next, person_id, interval_id, desired).unwrap().0,
            reconciled(rows, next, person_id, interval_id, desired).unwrap().1,
        ),
{
    let keep = stays(person_id, interval_id, desired);
    lemma_filter_keeps_wf(rows, next, keep);
    lemma_upserted_all_wf(rows.filter(keep), next, desired);
}

/// After a reconciliation the person is, in that interval, a member of
/// exactly the crews that the desired list names.
pub proof fn lemma_reconciled_membership(
    rows: Seq<CrewInvolvement>,
    next: int,
    person_id: i64,
    interval_id: i64,
    desired: Seq<CrewInvolvement>,
    crew_id: i64,
)
    requires
        table_wf(rows, next),
        all_owned_by(desired, person_id, interval_id),
        reconciled(rows, next, person_id, interval_id, desired).is_some(),
    ensures
        has_key(
            reconciled(rows, next, person_id, interval_id, desired).unwrap().0,
            (person_id, crew_id, interval_id),
        ) <==> crew_ids(desired).contains(crew_id),
{
    let keep = stays(person_id, interval_id, desired);
    let base = rows.filter(keep);
    let k = (person_id, crew_id, interval_id);
    lemma_filter_keeps_wf(rows, next, keep);
    lemma_filter_subset(rows, keep);
    lemma_upserted_all_result(base, next, desired);
    if has_key(base, k) {
        let j = choose|j: int| 0 <= j < base.len() && key_of(#[trigger] base[j]) == k;
        assert(keep(base[j]));
    }
    if has_key(desired, k) {
        let m = choose|m: int| 0 <= m < desired.len() && key_of(#[trigger] desired[m]) == k;
        assert(crew_ids(desired)[m] == crew_id);
    }
    if crew_ids(desired).contains(crew_id) {
        let m = choose|m: int| 0 <= m < crew_ids(desired).len() && crew_ids(desired)[m] == crew_id;
        assert(key_of(desired[m]) == k);
    }
}

/// A reconciliation touches no row of another person or another interval:
/// such a key is stored afterwards exactly if it was stored before.
pub proof fn lemma_reconciled_leaves_others(
    rows: Seq<CrewInvolvement>,
    next: int,
    person_id: i64,
    interval_id: i64,
    desired: Seq<CrewInvolvement>,
    k: (i64, i64, i64),
)
    requires
        table_wf(rows, next),
        all_owned_by(desired, person_id, interval_id),
        reconciled(rows, next, person_id, interval_id, desired).is_some(),
        k.0 != person_id || k.2 != interval_id,
    ensures
        has_key(reconciled(rows, next, person_id, interval_id, desired).unwrap().0, k) <==> has_key(
            rows,
            k,
        ),
{
    let keep = stays(person_id, interval_id, desired);
    let base = rows.filter(keep);
    lemma_filter_keeps_wf(rows, next, keep);
    lemma_filter_subset(rows, keep);
    lemma_upserted_all_result(base, next, desired);
    if has_key(base, k) {
        let j = choose|j: int| 0 <= j < base.len() && key_of(#[trigger] base[j]) == k;
        assert(rows.contains(base[j]));
        let w = choose|w: int| 0 <= w < rows.len() && rows[w] == base[j];
        assert(key_of(rows[w]) == k);
    }
    if has_key(rows, k) {
        let j = choose|j: int| 0 <= j < rows.len() && key_of(#[trigger] rows[j]) == k;
        rows.lemma_filter_contains(keep, j);
        let w = choose|w: int| 0 <= w < base.len() && base[w] == rows[j];
        assert(key_of(base[w]) == k);
    }
    if has_key(desired, k) {
        let m = choose|m: int| 0 <= m < desired.len() && key_of(#[trigger] desired[m]) == k;
        assert(false);
    }
}

/// Reconciling a second time with the same desired list changes nothing:
/// the table after the second reconciliation is the table after the first,
/// row for row, and no id is used.
pub proof fn lemma_reconcile_idempotent(
    rows: Seq<CrewInvolvement>,
    next: int,
    person_id: i64,
    interval_id: i64,
    desired: Seq<CrewInvolvement>,
)
    requires
        table_wf(rows, next),
        all_owned_by(desired, person_id, interval_id),
        reconciled(rows, next, person_id, interval_id, desired).is_some(),
    ensures
        reconciled(
            reconciled(rows, next, person_id, interval_id, desired).unwrap().0,
            reconciled(rows, next, person_id, interval_id, desired).unwrap().1,
            person_id,
            interval_id,
            desired,
        ) == reconciled(rows, next, person_id, interval_id, desired),
        impacted(
            reconciled(rows, next, person_id, interval_id, desired).unwrap().0,
            person_id,
            interval_id,
            desired,
        ) == crew_ids(desired),
{
    let keep = stays(person_id, interval_id, desired);
    let base = rows.filter(keep);
    let (once, n) = reconciled(rows, next, person_id, interval_id, desired).unwrap();
    lemma_filter_keeps_wf(rows, next, keep);
    lemma_upserted_all_result(base, next, desired);
    assert forall|j: int| 0 <= j < once.len() implies keep(#[trigger] once[j]) by {
        let r = once[j];
        if r.person_id == person_id && r.interval_id == interval_id {
            assert(has_key(once, key_of(r)));
            lemma_reconciled_membership(rows, next, person_id, interval_id, desired, r.crew_id);
        }
    }
    lemma_filter_all(once, keep);
    assert forall|m: int| 0 <= m < desired.len() implies has_key(
        once,
        key_of(#[trigger] desired[m]),
    ) by {
        assert(has_key(desired, key_of(desired[m])));
    }
    lemma_upserted_all_in_place(once, n, desired);
    assert(once.map_values(settle(desired)) =~= once) by {
        assert forall|j: int| 0 <= j < once.len() implies settle(desired)(#[trigger] once[j])
            == once[j] by {
            assert(settled(desired, once[j]));
        }
    }
    lemma_nothing_to_remove(once, person_id, interval_id, desired);
}

/// Where every stored row of the person and interval is of a crew that the
/// desired list names, a reconciliation deletes nothing, and the crews it
/// reports are those of the desired list and no other.
pub proof fn lemma_nothing_to_remove(
    rows: Seq<CrewInvolvement>,
    person_id: i64,
    interval_id: i64,
    desired: Seq<CrewInvolvement>,
)
    requires
        forall|j: int|
            0 <= j < rows.len() ==> stays(person_id, interval_id, desired)(#[trigger] rows[j]),
    ensures
        to_remove(rows, person_id, interval_id, desired) == Seq::<CrewInvolvement>::empty(),
        impacted(rows, person_id, interval_id, desired) == crew_ids(desired),
        rows.filter(stays(person_id, interval_id, desired)) == rows,
{
    let existing = rows.filter(owned_by(person_id, interval_id));
    lemma_filter_subset(rows, owned_by(person_id, interval_id));
    assert forall|j: int| 0 <= j < existing.len() implies !withdrawn(desired)(
        #[trigger] existing[j],
    ) by {
        let r = existing[j];
        assert(rows.contains(r));
        let w = choose|w: int| 0 <= w < rows.len() && rows[w] == r;
        assert(stays(person_id, interval_id, desired)(rows[w]));
    }
    lemma_filter_none(existing, withdrawn(desired));
    lemma_filter_all(rows, stays(person_id, interval_id, desired));
    assert(crew_ids(Seq::<CrewInvolvement>::empty()) =~= Seq::<i64>::empty());
    assert(crew_ids(desired) + Seq::<i64>::empty() =~= crew_ids(desired));
}

/// The last involvement of `ds` with the key `k` is one of `ds` and has
/// that key.
pub proof fn lemma_last_with_key_is_member(ds: Seq<CrewInvolvement>, k: (i64, i64, i64))
    ensures
        match last_with_key(ds, k) {
            Some(d) => key_of(d) == k && ds.contains(d),
            None => true,
        },
    decreases ds.len(),
{
    if ds.len() > 0 {
        if key_of(ds.last()) == k {
            assert(ds[ds.len() - 1] == ds.last());
        } else {
            let init = ds.drop_last();
            lemma_last_with_key_is_member(init, k);
            if last_with_key(init, k).is_some() {
                let d = last_with_key(init, k).unwrap();
                let w = choose|w: int| 0 <= w < init.len() && init[w] == d;
                assert(ds[w] == d);
            }
        }
    }
}

/// Reconciling with the stored involvements themselves deletes nothing,
/// reports the stored crews and no other, and leaves the table as it was,
/// row for row.
pub proof fn lemma_reconcile_with_existing(
    rows: Seq<CrewInvolvement>,
    next: int,
    person_id: i64,
    interval_id: i64,
)
    requires
        table_wf(rows, next),
    ensures
        to_remove(
            rows,
            person_id,
            interval_id,
            rows.filter(owned_by(person_id, interval_id)),
        ) == Seq::<CrewInvolvement>::empty(),
        impacted(rows, person_id, interval_id, rows.filter(owned_by(person_id, interval_id)))
            == crew_ids(rows.filter(owned_by(person_id, interval_id))),
        reconciled(
            rows,
            next,
            person_id,
            interval_id,
            rows.filter(owned_by(person_id, interval_id)),
        ) == Some((rows, next)),
{
    let existing = rows.filter(owned_by(person_id, interval_id));
    assert forall|j: int| 0 <= j < rows.len() implies stays(person_id, interval_id, existing)(
        #[trigger] rows[j],
    ) by {
        let r = rows[j];
        if r.person_id == person_id && r.interval_id == interval_id {
            rows.lemma_filter_contains(owned_by(person_id, interval_id), j);
            let w = choose|w: int| 0 <= w < existing.len() && existing[w] == r;
            assert(crew_ids(existing)[w] == r.crew_id);
        }
    }
    lemma_nothing_to_remove(rows, person_id, interval_id, existing);
    lemma_filter_subset(rows, owned_by(person_id, interval_id));
    assert forall|m: int| 0 <= m < existing.len() implies has_key(
        rows,
        key_of(#[trigger] existing[m]),
    ) by {
        assert(rows.contains(existing[m]));
        let w = choose|w: int| 0 <= w < rows.len() && rows[w] == existing[m];
        assert(key_of(rows[w]) == key_of(existing[m]));
    }
    lemma_upserted_all_in_place(rows, next, existing);
    assert forall|j: int| 0 <= j < rows.len() implies settle(existing)(#[trigger] rows[j])
        == rows[j] by {
        lemma_last_with_key_is_member(existing, key_of(rows[j]));
        if last_with_key(existing, key_of(rows[j])).is_some() {
            let d = last_with_key(existing, key_of(rows[j])).unwrap();
            assert(existing.contains(d));
            let m = choose|m: int| 0 <= m < existing.len() && existing[m] == d;
            assert(rows.contains(existing[m]));
            let w = choose|w: int| 0 <= w < rows.len() && rows[w] == d;
            if w < j {
                assert(key_of(rows[w]) != key_of(rows[j]));
            } else if j < w {
                assert(key_of(rows[j]) != key_of(rows[w]));
            }
        }
    }
    assert(rows.map_values(settle(existing)) =~= rows);
}

} // verus!
