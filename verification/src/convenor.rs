//! Convenor rotation: who convenes a crew in an interval, and how long each
//! participant has gone without convening.

use std::collections::HashMap;
use vstd::prelude::*;
use crate::entities::CrewInvolvement;
use crate::store::{
    ids_below, key_of, lemma_filter_subset, table_wf, unique_ids, unique_keys,
    CrewInvolvementStore, RepoError,
};

verus! {

/// What naming a convenor does to each stored row: in the crew and interval
/// the named person's row becomes the convenor's and every other row stops
/// being one; rows of other crews or intervals stay as they are.
pub open spec fn convene(crew_id: i64, interval_id: i64, person_id: Option<i64>) -> spec_fn(
    CrewInvolvement,
) -> CrewInvolvement {
    |r: CrewInvolvement|
        if r.crew_id == crew_id && r.interval_id == interval_id {
            CrewInvolvement { convenor: person_id == Some(r.person_id), ..r }
        } else {
            r
        }
}

/// At most one row of the crew and interval is a convenor's.
pub open spec fn at_most_one_convenor(rows: Seq<CrewInvolvement>, crew_id: i64, interval_id: i64)
    -> bool {
    forall|a: int, b: int|
        0 <= a < rows.len() && 0 <= b < rows.len() && (#[trigger] rows[a]).crew_id == crew_id
            && rows[a].interval_id == interval_id && rows[a].convenor && (#[trigger] rows[b]).crew_id
            == crew_id && rows[b].interval_id == interval_id && rows[b].convenor ==> a == b
}

/// No row of the crew and interval is a convenor's.
pub open spec fn no_convenor(rows: Seq<CrewInvolvement>, crew_id: i64, interval_id: i64) -> bool {
    forall|j: int|
        0 <= j < rows.len() && (#[trigger] rows[j]).crew_id == crew_id && rows[j].interval_id
            == interval_id ==> !rows[j].convenor
}

/// Names the convenor of a crew for an interval, or with `None` vacates the
/// role. Both steps are one change: every row of the crew and interval stops
/// being the convenor's, then the named person's row becomes it. Where the
/// person has no row in that crew and interval, the role is left vacant and
/// the call still succeeds: membership is the caller's to check.
pub fn set_crew_convenor(
    crew_id: i64,
    interval_id: i64,
    person_id: Option<i64>,
    store: &mut CrewInvolvementStore,
) -> (res: Result<(), RepoError>)
    requires
        old(store).wf(),
    ensures
        res.is_ok(),
        final(store).wf(),
        final(store).rows() == old(store).rows().map_values(
            convene(crew_id, interval_id, person_id),
        ),
        final(store).next_id() == old(store).next_id(),
        at_most_one_convenor(final(store).rows(), crew_id, interval_id),
        person_id.is_none() ==> no_convenor(final(store).rows(), crew_id, interval_id),
{
    let src = store.rows_ref();
    let mut out: Vec<CrewInvolvement> = Vec::new();
    let mut i: usize = 0;
    while i < src.len()
        invariant
            i <= src.len(),
            out@ == src@.take(i as int).map_values(convene(crew_id, interval_id, person_id)),
        decreases src.len() - i,
    {
        let r = src[i];
        let updated = if r.crew_id == crew_id && r.interval_id == interval_id {
            let is_convenor = match person_id {
                Some(p) => p == r.person_id,
                None => false,
            };
            CrewInvolvement {
                id: r.id,
                person_id: r.person_id,
                crew_id: r.crew_id,
                interval_id: r.interval_id,
                convenor: is_convenor,
                volunteered_convenor: r.volunteered_convenor,
            }
        } else {
            r
        };
        out.push(updated);
        assert(src@.take(i + 1).map_values(convene(crew_id, interval_id, person_id)) =~= src@.take(
            i as int,
        ).map_values(convene(crew_id, interval_id, person_id)).push(updated));
        i += 1;
    }
    assert(src@.take(src.len() as int) =~= src@);
    let next = store.next_row_id();
    proof {
        lemma_convene_keeps_wf(store.rows(), store.next_id(), crew_id, interval_id, person_id);
        lemma_single_convenor(store.rows(), crew_id, interval_id, person_id);
        if person_id.is_none() {
            lemma_vacated(store.rows(), crew_id, interval_id);
        }
    }
    store.replace(out, next);
    Ok(())
}

/// Naming a convenor keeps the table's invariant: no key and no id changes.
pub proof fn lemma_convene_keeps_wf(
    rows: Seq<CrewInvolvement>,
    next: int,
    crew_id: i64,
    interval_id: i64,
    person_id: Option<i64>,
)
    requires
        table_wf(rows, next),
    ensures
        table_wf(rows.map_values(convene(crew_id, interval_id, person_id)), next),
{
    let out = rows.map_values(convene(crew_id, interval_id, person_id));
    assert forall|a: int, b: int| 0 <= a < b < out.len() implies key_of(#[trigger] out[a])
        != key_of(#[trigger] out[b]) by {
        assert(key_of(rows[a]) != key_of(rows[b]));
    }
    assert forall|a: int, b: int| 0 <= a < b < out.len() implies (#[trigger] out[a]).id != (
    #[trigger] out[b]).id by {
        assert(rows[a].id != rows[b].id);
    }
    assert forall|j: int| 0 <= j < out.len() implies (#[trigger] out[j]).id < next by {
        assert(rows[j].id < next);
    }
    assert(unique_keys(out));
    assert(unique_ids(out));
    assert(ids_below(out, next));
}

/// After a convenor is named or the role vacated, the crew has at most one
/// convenor in that interval, and it is the named person.
pub proof fn lemma_single_convenor(
    rows: Seq<CrewInvolvement>,
    crew_id: i64,
    interval_id: i64,
    person_id: Option<i64>,
)
    requires
        unique_keys(rows),
    ensures
        at_most_one_convenor(
            rows.map_values(convene(crew_id, interval_id, person_id)),
            crew_id,
            interval_id,
        ),
        forall|j: int|
            0 <= j < rows.len() && (#[trigger] rows.map_values(
                convene(crew_id, interval_id, person_id),
            )[j]).crew_id == crew_id && rows[j].interval_id == interval_id ==> (rows.map_values(
                convene(crew_id, interval_id, person_id),
            )[j].convenor <==> person_id == Some(rows[j].person_id)),
{
    let out = rows.map_values(convene(crew_id, interval_id, person_id));
    assert forall|a: int, b: int|
        0 <= a < out.len() && 0 <= b < out.len() && (#[trigger] out[a]).crew_id == crew_id
            && out[a].interval_id == interval_id && out[a].convenor && (#[trigger] out[b]).crew_id
            == crew_id && out[b].interval_id == interval_id && out[b].convenor implies a == b by {
        assert(key_of(rows[a]) == key_of(rows[b]));
        if a < b {
            assert(key_of(rows[a]) != key_of(rows[b]));
        } else if b < a {
            assert(key_of(rows[b]) != key_of(rows[a]));
        }
    }
}

/// Naming a convenor in one crew and interval keeps "at most one convenor"
/// in every crew and interval where it held.
pub proof fn lemma_convene_keeps_single_convenor(
    rows: Seq<CrewInvolvement>,
    crew_id: i64,
    interval_id: i64,
    person_id: Option<i64>,
    other_crew_id: i64,
    other_interval_id: i64,
)
    requires
        unique_keys(rows),
        at_most_one_convenor(rows, other_crew_id, other_interval_id),
    ensures
        at_most_one_convenor(
            rows.map_values(convene(crew_id, interval_id, person_id)),
            other_crew_id,
            other_interval_id,
        ),
{
    let out = rows.map_values(convene(crew_id, interval_id, person_id));
    if other_crew_id == crew_id && other_interval_id == interval_id {
        lemma_single_convenor(rows, crew_id, interval_id, person_id);
    } else {
        assert forall|a: int, b: int|
            0 <= a < out.len() && 0 <= b < out.len() && (#[trigger] out[a]).crew_id
                == other_crew_id && out[a].interval_id == other_interval_id && out[a].convenor && (
            #[trigger] out[b]).crew_id == other_crew_id && out[b].interval_id == other_interval_id
                && out[b].convenor implies a == b by {
            assert(out[a] == rows[a] && out[b] == rows[b]);
        }
    }
}

/// Vacating the role leaves the crew without a convenor in that interval,
/// whoever held the role before.
pub proof fn lemma_vacated(rows: Seq<CrewInvolvement>, crew_id: i64, interval_id: i64)
    ensures
        no_convenor(
            rows.map_values(convene(crew_id, interval_id, None::<i64>)),
            crew_id,
            interval_id,
        ),
{
}

/// Vacating the role after naming a convenor leaves the crew without a
/// convenor in that interval.
pub proof fn lemma_vacate_after_set(
    rows: Seq<CrewInvolvement>,
    crew_id: i64,
    interval_id: i64,
    person_id: i64,
)
    ensures
        no_convenor(
            rows.map_values(convene(crew_id, interval_id, Some(person_id))).map_values(
                convene(crew_id, interval_id, None::<i64>),
            ),
            crew_id,
            interval_id,
        ),
{
    lemma_vacated(
        rows.map_values(convene(crew_id, interval_id, Some(person_id))),
        crew_id,
        interval_id,
    );
}

/// Rows in which the person convened the crew, up to and including the
/// interval `before_interval_id`.
pub open spec fn convened(crew_id: i64, before_interval_id: i64, person_id: i64) -> spec_fn(
    CrewInvolvement,
) -> bool {
    |r: CrewInvolvement|
        r.crew_id == crew_id && r.person_id == person_id && r.convenor && r.interval_id
            <= before_interval_id
}

/// Rows that count toward the person's rotation debt: the person took part
/// in the crew without convening, in an interval up to and including
/// `before_interval_id` and later than every interval up to there in which
/// the person convened the crew. For a person who never convened it, every
/// such interval counts.
pub open spec fn counts_toward_debt(
    rows: Seq<CrewInvolvement>,
    crew_id: i64,
    before_interval_id: i64,
    person_id: i64,
) -> spec_fn(CrewInvolvement) -> bool {
    |r: CrewInvolvement|
        r.crew_id == crew_id && r.person_id == person_id && !r.convenor && r.interval_id
            <= before_interval_id && forall|j: int|
            0 <= j < rows.len() && convened(crew_id, before_interval_id, person_id)(
                #[trigger] rows[j],
            ) ==> rows[j].interval_id < r.interval_id
}

/// The person's rotation debt in the crew: the number of rows that count
/// toward it.
pub open spec fn rotation_debt(
    rows: Seq<CrewInvolvement>,
    crew_id: i64,
    before_interval_id: i64,
    person_id: i64,
) -> nat {
    rows.filter(counts_toward_debt(rows, crew_id, before_interval_id, person_id)).len()
}

/// The latest interval, up to and including `before_interval_id`, in which
/// the person convened the crew; `None` where there is none.
pub fn last_convened(
    rows: &Vec<CrewInvolvement>,
    crew_id: i64,
    before_interval_id: i64,
    person_id: i64,
) -> (last: Option<i64>)
    ensures
        last.is_none() <==> forall|j: int|
            0 <= j < rows@.len() ==> !convened(crew_id, before_interval_id, person_id)(
                #[trigger] rows@[j],
            ),
        last.is_some() ==> exists|j: int|
            0 <= j < rows@.len() && convened(crew_id, before_interval_id, person_id)(
                #[trigger] rows@[j],
            ) && rows@[j].interval_id == last.unwrap(),
        last.is_some() ==> forall|j: int|
            0 <= j < rows@.len() && convened(crew_id, before_interval_id, person_id)(
                #[trigger] rows@[j],
            ) ==> rows@[j].interval_id <= last.unwrap(),
{
    let mut last: Option<i64> = None;
    let mut i: usize = 0;
    while i < rows.len()
        invariant
            i <= rows.len(),
            last.is_none() <==> forall|j: int|
                0 <= j < i ==> !convened(crew_id, before_interval_id, person_id)(
                    #[trigger] rows@[j],
                ),
            last.is_some() ==> exists|j: int|
                0 <= j < i && convened(crew_id, before_interval_id, person_id)(#[trigger] rows@[j])
                    && rows@[j].interval_id == last.unwrap(),
            last.is_some() ==> forall|j: int|
                0 <= j < i && convened(crew_id, before_interval_id, person_id)(#[trigger] rows@[j])
                    ==> rows@[j].interval_id <= last.unwrap(),
        decreases rows.len() - i,
    {
        let r = rows[i];
        if r.crew_id == crew_id && r.person_id == person_id && r.convenor && r.interval_id
            <= before_interval_id {
            assert(convened(crew_id, before_interval_id, person_id)(rows@[i as int]));
            let later = match last {
                Some(m) => r.interval_id > m,
                None => true,
            };
            if later {
                last = Some(r.interval_id);
            }
        }
        i += 1;
    }
    last
}

/// The person's rotation debt in the crew.
pub fn debt_of(rows: &Vec<CrewInvolvement>, crew_id: i64, before_interval_id: i64, person_id: i64)
    -> (n: usize)
    ensures
        n == rotation_debt(rows@, crew_id, before_interval_id, person_id),
{
    let last = last_convened(rows, crew_id, before_interval_id, person_id);
    let ghost counts = counts_toward_debt(rows@, crew_id, before_interval_id, person_id);
    let mut n: usize = 0;
    let mut i: usize = 0;
    assert(rows@.take(0).filter(counts) =~= Seq::empty()) by {
        reveal(Seq::filter);
    }
    while i < rows.len()
        invariant
            i <= rows.len(),
            n <= i,
            counts == counts_toward_debt(rows@, crew_id, before_interval_id, person_id),
            n == rows@.take(i as int).filter(counts).len(),
            last.is_none() <==> forall|j: int|
                0 <= j < rows@.len() ==> !convened(crew_id, before_interval_id, person_id)(
                    #[trigger] rows@[j],
                ),
            last.is_some() ==> exists|j: int|
                0 <= j < rows@.len() && convened(crew_id, before_interval_id, person_id)(
                    #[trigger] rows@[j],
                ) && rows@[j].interval_id == last.unwrap(),
            last.is_some() ==> forall|j: int|
                0 <= j < rows@.len() && convened(crew_id, before_interval_id, person_id)(
                    #[trigger] rows@[j],
                ) ==> rows@[j].interval_id <= last.unwrap(),
        decreases rows.len() - i,
    {
        let r = rows[i];
        let after_last = match last {
            Some(m) => r.interval_id > m,
            None => true,
        };
        let qualifies = r.crew_id == crew_id && r.person_id == person_id && !r.convenor
            && r.interval_id <= before_interval_id && after_last;
        proof {
            assert(rows@.take(i + 1) =~= rows@.take(i as int).push(r));
            rows@.take(i as int).lemma_filter_push(r, counts);
            assert(qualifies == counts(r));
        }
        if qualifies {
            n += 1;
        }
        i += 1;
    }
    assert(rows@.take(rows.len() as int) =~= rows@);
    n
}

/// The rotation debt of every person who has one in the crew: a person is
/// in the result exactly if their debt is not zero.
pub fn rotation_debts(rows: &Vec<CrewInvolvement>, crew_id: i64, before_interval_id: i64) -> (debts:
    HashMap<i64, u64>)
    ensures
        forall|p: i64|
            debts@.contains_key(p) <==> #[trigger] rotation_debt(
                rows@,
                crew_id,
                before_interval_id,
                p,
            ) > 0,
        forall|p: i64|
            debts@.contains_key(p) ==> debts@[p] == #[trigger] rotation_debt(
                rows@,
                crew_id,
                before_interval_id,
                p,
            ),
{
    broadcast use vstd::std_specs::hash::group_hash_axioms;

    let mut debts: HashMap<i64, u64> = HashMap::new();
    let mut i: usize = 0;
    while i < rows.len()
        invariant
            i <= rows.len(),
            forall|p: i64|
                debts@.contains_key(p) ==> debts@[p] == #[trigger] rotation_debt(
                    rows@,
                    crew_id,
                    before_interval_id,
                    p,
                ) && debts@[p] > 0,
            forall|j: int|
                0 <= j < i && rotation_debt(
                    rows@,
                    crew_id,
                    before_interval_id,
                    (#[trigger] rows@[j]).person_id,
                ) > 0 ==> debts@.contains_key(rows@[j].person_id),
        decreases rows.len() - i,
    {
        let p = rows[i].person_id;
        let n = debt_of(rows, crew_id, before_interval_id, p);
        if n > 0 {
            debts.insert(p, n as u64);
        }
        i += 1;
    }
    proof {
        assert forall|p: i64| #[trigger]
            rotation_debt(rows@, crew_id, before_interval_id, p) > 0 implies debts@.contains_key(
            p,
        ) by {
            let counts = counts_toward_debt(rows@, crew_id, before_interval_id, p);
            let counted = rows@.filter(counts);
            lemma_filter_subset(rows@, counts);
            assert(rows@.contains(counted[0]));
            let j = choose|j: int| 0 <= j < rows@.len() && rows@[j] == counted[0];
            assert(counts(counted[0]));
            assert(rows@[j].person_id == p);
        }
    }
    debts
}

/// For one crew, each participant's rotation debt: the number of intervals,
/// up to and including `before_interval_id`, in which the person took part
/// without convening since they last convened the crew; over all of them
/// for a person who never convened it. People without debt are left out.
pub fn intervals_participated_since_last_convened(
    crew_id: i64,
    before_interval_id: i64,
    store: &CrewInvolvementStore,
) -> (debts: HashMap<i64, u64>)
    ensures
        forall|p: i64|
            debts@.contains_key(p) <==> #[trigger] rotation_debt(
                store.rows(),
                crew_id,
                before_interval_id,
                p,
            ) > 0,
        forall|p: i64|
            debts@.contains_key(p) ==> debts@[p] == #[trigger] rotation_debt(
                store.rows(),
                crew_id,
                before_interval_id,
                p,
            ),
{
    rotation_debts(store.rows_ref(), crew_id, before_interval_id)
}

/// A crew without rows has no rotation debts.
pub proof fn lemma_no_rows_no_debt(
    rows: Seq<CrewInvolvement>,
    crew_id: i64,
    before_interval_id: i64,
    person_id: i64,
)
    requires
        forall|j: int| 0 <= j < rows.len() ==> (#[trigger] rows[j]).crew_id != crew_id,
    ensures
        rotation_debt(rows, crew_id, before_interval_id, person_id) == 0,
{
    crate::store::lemma_filter_none(
        rows,
        counts_toward_debt(rows, crew_id, before_interval_id, person_id),
    );
}

} // verus!
