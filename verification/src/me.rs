//! One person's own data: their standing in the collective and their crew
//! involvements, interval by interval.

use vstd::prelude::*;
use crate::entities::{CapacityPlanning, CollectiveInvolvement, CrewInvolvement, Interval};
use crate::links::clone_text;
use crate::store::{
    copy_rows, find_my_crew_involvements, owned_by, CrewInvolvementStore, RepoError,
};

verus! {

/// What one person sees of one interval.
#[derive(Debug, Clone, PartialEq, Eq)]
pub struct MyIntervalData {
    pub interval_id: i64,
    pub collective_involvement: Option<CollectiveInvolvement>,
    pub crew_involvements: Vec<CrewInvolvement>,
}

/// What one person sees when they arrive: the current interval and, where
/// one exists already, the next.
#[derive(Debug, Clone, PartialEq, Eq)]
pub struct MyInitialData {
    pub person_id: i64,
    pub current_interval: Option<MyIntervalData>,
    pub next_interval: Option<MyIntervalData>,
}

/// The natural key of a collective involvement: person, collective,
/// interval.
pub open spec fn collective_key(r: CollectiveInvolvement) -> (i64, i64, i64) {
    (r.person_id, r.collective_id, r.interval_id)
}

/// Rows with the natural key `k`.
pub open spec fn keyed(k: (i64, i64, i64)) -> spec_fn(CollectiveInvolvement) -> bool {
    |r: CollectiveInvolvement| collective_key(r) == k
}

/// No two rows share a natural key.
pub open spec fn unique_collective_keys(rows: Seq<CollectiveInvolvement>) -> bool {
    forall|a: int, b: int|
        0 <= a < b < rows.len() ==> collective_key(#[trigger] rows[a]) != collective_key(
            #[trigger] rows[b],
        )
}

/// Some row has the natural key `k`.
pub open spec fn has_collective_key(rows: Seq<CollectiveInvolvement>, k: (i64, i64, i64)) -> bool {
    exists|j: int| 0 <= j < rows.len() && collective_key(#[trigger] rows[j]) == k
}

/// The stored row with the natural key `k`, if there is one.
pub open spec fn involvement_at(rows: Seq<CollectiveInvolvement>, k: (i64, i64, i64)) -> Option<
    CollectiveInvolvement,
> {
    if rows.filter(keyed(k)).len() == 0 {
        None
    } else {
        Some(rows.filter(keyed(k)).first())
    }
}

/// The row `d` as it is stored under the id `id`.
pub open spec fn stored_under(d: CollectiveInvolvement, id: i64) -> CollectiveInvolvement {
    CollectiveInvolvement { id, ..d }
}

/// What an upsert of `d` does to each stored row: the row with `d`'s key
/// takes every value of `d` but the id.
pub open spec fn overwrite(d: CollectiveInvolvement) -> spec_fn(
    CollectiveInvolvement,
) -> CollectiveInvolvement {
    |r: CollectiveInvolvement|
        if collective_key(r) == collective_key(d) {
            stored_under(d, r.id)
        } else {
            r
        }
}

/// A copy of a collective involvement.
pub fn clone_involvement(r: &CollectiveInvolvement) -> (out: CollectiveInvolvement)
    ensures
        out == *r,
{
    let planning = match &r.capacity_planning {
        Some(p) => Some(
            CapacityPlanning {
                wellbeing: clone_text(&p.wellbeing),
                focus: clone_text(&p.focus),
                capacity: clone_text(&p.capacity),
            },
        ),
        None => None,
    };
    CollectiveInvolvement {
        id: r.id,
        person_id: r.person_id,
        collective_id: r.collective_id,
        interval_id: r.interval_id,
        status: r.status,
        private_capacity_planning: r.private_capacity_planning,
        capacity_planning: planning,
        capacity_score: r.capacity_score,
        participation_intention: r.participation_intention,
        opt_out_type: r.opt_out_type,
        opt_out_planned_return_date: clone_text(&r.opt_out_planned_return_date),
        intention_context: clone_text(&r.intention_context),
    }
}

/// The stored collective involvements.
pub struct CollectiveInvolvementStore {
    rows: Vec<CollectiveInvolvement>,
    next_id: i64,
}

impl CollectiveInvolvementStore {
    /// The rows, oldest first.
    pub closed spec fn rows(&self) -> Seq<CollectiveInvolvement> {
        self.rows@
    }

    /// The id that the next new row gets.
    pub closed spec fn next_id(&self) -> int {
        self.next_id as int
    }

    /// The store's invariant: one row at most for each person, collective
    /// and interval.
    pub open spec fn wf(&self) -> bool {
        &&& unique_collective_keys(self.rows())
        &&& i64::MIN <= self.next_id() <= i64::MAX
    }

    /// An empty store; ids start at 1.
    pub fn new() -> (s: CollectiveInvolvementStore)
        ensures
            s.wf(),
            s.rows() == Seq::<CollectiveInvolvement>::empty(),
            s.next_id() == 1,
    {
        CollectiveInvolvementStore { rows: Vec::new(), next_id: 1 }
    }
}

/// A person's involvement in a collective for one interval, if one is
/// stored.
pub fn find_detailed_involvement(
    collective_id: i64,
    person_id: i64,
    interval_id: i64,
    store: &CollectiveInvolvementStore,
) -> (found: Option<CollectiveInvolvement>)
    ensures
        found == involvement_at(store.rows(), (person_id, collective_id, interval_id)),
        found.is_some() <==> has_collective_key(
            store.rows(),
            (person_id, collective_id, interval_id),
        ),
{
    let ghost k = (person_id, collective_id, interval_id);
    let mut i: usize = 0;
    assert(store.rows@.take(0).filter(keyed(k)) =~= Seq::empty()) by {
        reveal(Seq::filter);
    }
    while i < store.rows.len()
        invariant
            i <= store.rows.len(),
            k == (person_id, collective_id, interval_id),
            store.rows@.take(i as int).filter(keyed(k)).len() == 0,
            forall|j: int| 0 <= j < i ==> collective_key(#[trigger] store.rows@[j]) != k,
        decreases store.rows.len() - i,
    {
        let r = &store.rows[i];
        proof {
            assert(store.rows@.take(i + 1) =~= store.rows@.take(i as int).push(*r));
            store.rows@.take(i as int).lemma_filter_push(*r, keyed(k));
        }
        if r.person_id == person_id && r.collective_id == collective_id && r.interval_id
            == interval_id {
            proof {
                let head = store.rows@.take(i + 1);
                let tail = store.rows@.skip(i + 1);
                assert(head + tail =~= store.rows@);
                Seq::filter_distributes_over_add(head, tail, keyed(k));
                assert(head.filter(keyed(k)) =~= seq![*r]);
                assert(store.rows@.filter(keyed(k)).first() == *r);
                assert(collective_key(store.rows@[i as int]) == k);
            }
            return Some(clone_involvement(r));
        }
        i += 1;
    }
    assert(store.rows@.take(store.rows.len() as int) =~= store.rows@);
    None
}

/// Stores a person's involvement in a collective for one interval. The
/// stored row of the same person, collective and interval takes every
/// value of `involvement` but the id; where there is none, `involvement`
/// is stored as a new row under a fresh id. Where the ids have run out,
/// the error is `Persistence` and nothing is changed.
pub fn upsert_detailed_involvement(
    involvement: CollectiveInvolvement,
    store: &mut CollectiveInvolvementStore,
) -> (res: Result<(), RepoError>)
    requires
        old(store).wf(),
    ensures
        final(store).wf(),
        if has_collective_key(old(store).rows(), collective_key(involvement)) {
            &&& res.is_ok()
            &&& final(store).rows() == old(store).rows().map_values(overwrite(involvement))
            &&& final(store).next_id() == old(store).next_id()
        } else if old(store).next_id() < i64::MAX {
            &&& res.is_ok()
            &&& final(store).rows() == old(store).rows().push(
                stored_under(involvement, old(store).next_id() as i64),
            )
            &&& final(store).next_id() == old(store).next_id() + 1
        } else {
            &&& res == Err::<(), RepoError>(RepoError::Persistence)
            &&& final(store).rows() == old(store).rows()
            &&& final(store).next_id() == old(store).next_id()
        },
{
    let mut row = involvement;
    let ghost given = involvement;
    let mut i: usize = 0;
    while i < store.rows.len()
        invariant
            i <= store.rows.len(),
            *store == *old(store),
            store.wf(),
            row == given,
            given == involvement,
            forall|j: int|
                0 <= j < i ==> collective_key(#[trigger] store.rows@[j]) != collective_key(given),
        decreases store.rows.len() - i,
    {
        let r = &store.rows[i];
        if r.person_id == row.person_id && r.collective_id == row.collective_id && r.interval_id
            == row.interval_id {
            row.id = r.id;
            store.rows.set(i, row);
            proof {
                let before = old(store).rows@;
                assert(collective_key(before[i as int]) == collective_key(given));
                assert forall|j: int| 0 <= j < before.len() implies #[trigger] store.rows@[j]
                    == overwrite(given)(before[j]) by {
                    if j < i {
                        assert(collective_key(before[j]) != collective_key(before[i as int]));
                    } else if i < j {
                        assert(collective_key(before[i as int]) != collective_key(before[j]));
                    }
                }
                assert(store.rows@ =~= before.map_values(overwrite(given)));
                assert forall|a: int, b: int| 0 <= a < b < store.rows@.len() implies collective_key(
                    #[trigger] store.rows@[a],
                ) != collective_key(#[trigger] store.rows@[b]) by {
                    assert(collective_key(before[a]) != collective_key(before[b]));
                }
            }
            return Ok(());
        }
        i += 1;
    }
    assert(!has_collective_key(store.rows@, collective_key(given)));
    if store.next_id < i64::MAX {
        row.id = store.next_id;
        store.rows.push(row);
        store.next_id = store.next_id + 1;
        Ok(())
    } else {
        Err(RepoError::Persistence)
    }
}

/// What a person sees of one interval: their involvement in the
/// collective, if one is stored, and their crew involvements.
pub fn find_interval_data_for_me(
    collective_id: i64,
    person_id: i64,
    interval_id: i64,
    collective: &CollectiveInvolvementStore,
    crews: &CrewInvolvementStore,
) -> (out: MyIntervalData)
    ensures
        shows_interval(out, collective_id, person_id, interval_id, collective, crews),
{
    let involvement = find_detailed_involvement(collective_id, person_id, interval_id, collective);
    let crew_involvements = find_my_crew_involvements(person_id, interval_id, crews);
    MyIntervalData { interval_id, collective_involvement: involvement, crew_involvements }
}

/// `data` is what the person sees of the interval.
pub open spec fn shows_interval(
    data: MyIntervalData,
    collective_id: i64,
    person_id: i64,
    interval_id: i64,
    collective: &CollectiveInvolvementStore,
    crews: &CrewInvolvementStore,
) -> bool {
    &&& data.interval_id == interval_id
    &&& data.collective_involvement == involvement_at(
        collective.rows(),
        (person_id, collective_id, interval_id),
    )
    &&& data.crew_involvements@ == crews.rows().filter(owned_by(person_id, interval_id))
}

/// What a person sees when they arrive: their data for the current
/// interval, and for the next interval where the directory of intervals
/// names one.
pub fn find_initial_data_for_me(
    collective_id: i64,
    person_id: i64,
    current_interval: &Interval,
    next_interval: Option<&Interval>,
    collective: &CollectiveInvolvementStore,
    crews: &CrewInvolvementStore,
) -> (out: MyInitialData)
    ensures
        out.person_id == person_id,
        out.current_interval.is_some(),
        shows_interval(
            out.current_interval.unwrap(),
            collective_id,
            person_id,
            current_interval.id,
            collective,
            crews,
        ),
        out.next_interval.is_some() <==> next_interval.is_some(),
        next_interval.is_some() ==> shows_interval(
            out.next_interval.unwrap(),
            collective_id,
            person_id,
            next_interval.unwrap().id,
            collective,
            crews,
        ),
{
    let current = find_interval_data_for_me(
        collective_id,
        person_id,
        current_interval.id,
        collective,
        crews,
    );
    let next = match next_interval {
        Some(interval) => Some(
            find_interval_data_for_me(collective_id, person_id, interval.id, collective, crews),
        ),
        None => None,
    };
    MyInitialData { person_id, current_interval: Some(current), next_interval: next }
}

/// A collective involvement as others may see it: where the person keeps
/// their capacity planning private, it is left out; all else stays.
pub open spec fn public_involvement(r: CollectiveInvolvement) -> CollectiveInvolvement {
    if r.private_capacity_planning {
        CollectiveInvolvement { capacity_planning: None, ..r }
    } else {
        r
    }
}

/// A person's interval data as others may see it: the same data, with the
/// capacity planning left out where the person keeps it private.
pub fn strip_private_data(data: &MyIntervalData) -> (out: MyIntervalData)
    ensures
        out.interval_id == data.interval_id,
        out.crew_involvements@ == data.crew_involvements@,
        out.collective_involvement == match data.collective_involvement {
            Some(r) => Some(public_involvement(r)),
            None => None,
        },
{
    let involvement = match &data.collective_involvement {
        Some(r) => {
            let mut shown = clone_involvement(r);
            if shown.private_capacity_planning {
                shown.capacity_planning = None;
            }
            Some(shown)
        },
        None => None,
    };
    MyIntervalData {
        interval_id: data.interval_id,
        collective_involvement: involvement,
        crew_involvements: copy_rows(&data.crew_involvements),
    }
}

} // verus!
