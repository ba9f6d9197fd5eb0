use crew_rotation::entities::CrewInvolvement;
use crew_rotation::reconcile::{
    belongs_to, crew_ids_of, involvements_to_remove, plan_crew_involvement_update,
    update_crew_involvements, upsert_crew_involvements, upsert_row, upsert_rows,
};
use crew_rotation::store::{
    delete_crew_involvements, find_crew_involvements, find_my_crew_involvements,
    CrewInvolvementStore, RepoError,
};

fn inv(person_id: i64, crew_id: i64, interval_id: i64) -> CrewInvolvement {
    CrewInvolvement {
        id: 0,
        person_id,
        crew_id,
        interval_id,
        convenor: false,
        volunteered_convenor: false,
    }
}

fn flagged(
    person_id: i64,
    crew_id: i64,
    interval_id: i64,
    convenor: bool,
    volunteered_convenor: bool,
) -> CrewInvolvement {
    CrewInvolvement { id: 0, person_id, crew_id, interval_id, convenor, volunteered_convenor }
}

fn sorted(mut v: Vec<i64>) -> Vec<i64> {
    v.sort();
    v.dedup();
    v
}

#[test]
fn new_store_is_empty() {
    let store = CrewInvolvementStore::new();
    assert_eq!(store.all(), vec![]);
    assert_eq!(store.next_row_id(), 1);
}

#[test]
fn impacted_set_names_removed_retained_and_added_crews() {
    let (a, b, c) = (100, 200, 300);
    let mut store = CrewInvolvementStore::new();
    let first = update_crew_involvements(1, 5, vec![inv(1, a, 5), inv(1, b, 5)], &mut store);
    assert_eq!(first, Ok(vec![a, b]));
    let second = update_crew_involvements(1, 5, vec![inv(1, b, 5), inv(1, c, 5)], &mut store);
    assert_eq!(second, Ok(vec![b, c, a]));
    assert_eq!(sorted(second.unwrap()), vec![a, b, c]);
    let mine = find_my_crew_involvements(1, 5, &store);
    let crews: Vec<i64> = mine.iter().map(|r| r.crew_id).collect();
    assert_eq!(sorted(crews), vec![b, c]);
    assert_eq!(mine.len(), 2);
}

#[test]
fn impacted_set_uses_crew_ids_not_row_ids() {
    let mut store = CrewInvolvementStore::new();
    update_crew_involvements(1, 5, vec![inv(1, 77, 5)], &mut store).unwrap();
    assert_eq!(store.all()[0].id, 1);
    let impacted = update_crew_involvements(1, 5, vec![], &mut store);
    assert_eq!(impacted, Ok(vec![77]));
    assert_eq!(store.all(), vec![]);
}

#[test]
fn reconcile_rejects_foreign_person() {
    let mut store = CrewInvolvementStore::new();
    update_crew_involvements(1, 5, vec![inv(1, 10, 5)], &mut store).unwrap();
    let before = store.all();
    let res = update_crew_involvements(1, 5, vec![inv(1, 11, 5), inv(2, 12, 5)], &mut store);
    assert_eq!(res, Err(RepoError::Validation));
    assert_eq!(store.all(), before);
}

#[test]
fn reconcile_rejects_foreign_interval() {
    let mut store = CrewInvolvementStore::new();
    let res = update_crew_involvements(1, 5, vec![inv(1, 11, 6)], &mut store);
    assert_eq!(res, Err(RepoError::Validation));
    assert_eq!(store.all(), vec![]);
}

#[test]
fn reconcile_twice_is_reconcile_once() {
    let mut store = CrewInvolvementStore::new();
    update_crew_involvements(1, 5, vec![inv(1, 10, 5), inv(1, 20, 5)], &mut store).unwrap();
    update_crew_involvements(2, 5, vec![inv(2, 10, 5)], &mut store).unwrap();
    let desired = vec![flagged(1, 20, 5, true, false), inv(1, 30, 5), flagged(1, 20, 5, false, true)];
    let first = update_crew_involvements(1, 5, desired.clone(), &mut store);
    let once = store.all();
    let next_once = store.next_row_id();
    let second = update_crew_involvements(1, 5, desired, &mut store);
    assert_eq!(first, Ok(vec![20, 30, 20, 10]));
    assert_eq!(second, Ok(vec![20, 30, 20]));
    assert_eq!(store.all(), once);
    assert_eq!(store.next_row_id(), next_once);
}

#[test]
fn reconcile_keeps_one_row_per_person_crew_interval() {
    let mut store = CrewInvolvementStore::new();
    update_crew_involvements(1, 5, vec![inv(1, 10, 5), inv(1, 10, 5)], &mut store).unwrap();
    update_crew_involvements(1, 5, vec![inv(1, 10, 5), inv(1, 11, 5)], &mut store).unwrap();
    update_crew_involvements(1, 6, vec![inv(1, 10, 6)], &mut store).unwrap();
    let rows = store.all();
    assert_eq!(rows.len(), 3);
    for a in 0..rows.len() {
        for b in (a + 1)..rows.len() {
            assert!(
                (rows[a].person_id, rows[a].crew_id, rows[a].interval_id)
                    != (rows[b].person_id, rows[b].crew_id, rows[b].interval_id)
            );
            assert_ne!(rows[a].id, rows[b].id);
        }
    }
}

#[test]
fn reconcile_with_existing_deletes_nothing() {
    let mut store = CrewInvolvementStore::new();
    update_crew_involvements(1, 5, vec![inv(1, 10, 5), inv(1, 20, 5)], &mut store).unwrap();
    let existing = find_my_crew_involvements(1, 5, &store);
    let before = store.all();
    assert_eq!(involvements_to_remove(&existing, &existing), vec![]);
    let impacted = update_crew_involvements(1, 5, existing, &mut store);
    assert_eq!(impacted, Ok(vec![10, 20]));
    assert_eq!(store.all(), before);
}

#[test]
fn reconcile_leaves_other_people_and_intervals_alone() {
    let mut store = CrewInvolvementStore::new();
    update_crew_involvements(2, 5, vec![inv(2, 10, 5)], &mut store).unwrap();
    update_crew_involvements(1, 4, vec![inv(1, 10, 4)], &mut store).unwrap();
    update_crew_involvements(1, 5, vec![inv(1, 10, 5)], &mut store).unwrap();
    update_crew_involvements(1, 5, vec![], &mut store).unwrap();
    let rows = store.all();
    assert_eq!(rows.len(), 2);
    assert_eq!((rows[0].person_id, rows[0].interval_id), (2, 5));
    assert_eq!((rows[1].person_id, rows[1].interval_id), (1, 4));
}

#[test]
fn upsert_updates_flags_and_keeps_the_row_id() {
    let mut store = CrewInvolvementStore::new();
    assert_eq!(upsert_crew_involvements(vec![inv(1, 10, 5), inv(2, 10, 5)], &mut store), Ok(()));
    let mut changed = flagged(1, 10, 5, true, true);
    changed.id = 999;
    assert_eq!(upsert_crew_involvements(vec![changed], &mut store), Ok(()));
    let rows = store.all();
    assert_eq!(
        rows,
        vec![
            CrewInvolvement {
                id: 1,
                person_id: 1,
                crew_id: 10,
                interval_id: 5,
                convenor: true,
                volunteered_convenor: true
            },
            CrewInvolvement {
                id: 2,
                person_id: 2,
                crew_id: 10,
                interval_id: 5,
                convenor: false,
                volunteered_convenor: false
            },
        ]
    );
    assert_eq!(store.next_row_id(), 3);
}

#[test]
fn upsert_of_nothing_changes_nothing() {
    let mut store = CrewInvolvementStore::new();
    upsert_crew_involvements(vec![inv(1, 10, 5)], &mut store).unwrap();
    let before = store.all();
    assert_eq!(upsert_crew_involvements(vec![], &mut store), Ok(()));
    assert_eq!(store.all(), before);
}

#[test]
fn upsert_fails_whole_when_ids_run_out() {
    let rows = vec![CrewInvolvement {
        id: 7,
        person_id: 1,
        crew_id: 10,
        interval_id: 5,
        convenor: false,
        volunteered_convenor: false,
    }];
    assert_eq!(upsert_rows(rows.clone(), i64::MAX, &vec![flagged(1, 10, 5, true, false), inv(9, 9, 9)]), None);
    let updated = upsert_rows(rows, i64::MAX, &vec![flagged(1, 10, 5, true, false)]);
    let (out, next) = updated.unwrap();
    assert_eq!(next, i64::MAX);
    assert!(out[0].convenor);
    assert_eq!(out[0].id, 7);
}

#[test]
fn upsert_row_appends_under_the_next_id() {
    let mut rows: Vec<CrewInvolvement> = Vec::new();
    let mut next: i64 = 41;
    assert!(upsert_row(&mut rows, &mut next, flagged(3, 4, 5, false, true)));
    assert_eq!(next, 42);
    assert_eq!(
        rows,
        vec![CrewInvolvement {
            id: 41,
            person_id: 3,
            crew_id: 4,
            interval_id: 5,
            convenor: false,
            volunteered_convenor: true
        }]
    );
    let mut full: i64 = i64::MAX;
    assert!(!upsert_row(&mut rows, &mut full, inv(8, 8, 8)));
    assert_eq!(rows.len(), 1);
    assert_eq!(full, i64::MAX);
}

#[test]
fn delete_by_ids_and_empty_delete() {
    let mut store = CrewInvolvementStore::new();
    upsert_crew_involvements(vec![inv(1, 10, 5), inv(1, 11, 5), inv(2, 10, 5)], &mut store).unwrap();
    let before = store.all();
    delete_crew_involvements(vec![], &mut store);
    assert_eq!(store.all(), before);
    delete_crew_involvements(vec![before[1]], &mut store);
    assert_eq!(store.all(), vec![before[0], before[2]]);
    assert_eq!(store.next_row_id(), 4);
}

#[test]
fn finds_by_person_and_by_crew() {
    let mut store = CrewInvolvementStore::new();
    upsert_crew_involvements(
        vec![inv(1, 10, 5), inv(1, 11, 5), inv(2, 10, 5), inv(1, 10, 6)],
        &mut store,
    )
    .unwrap();
    let mine: Vec<i64> = find_my_crew_involvements(1, 5, &store).iter().map(|r| r.id).collect();
    assert_eq!(mine, vec![1, 2]);
    let crew: Vec<i64> = find_crew_involvements(10, 5, &store).iter().map(|r| r.id).collect();
    assert_eq!(crew, vec![1, 3]);
    assert_eq!(find_crew_involvements(12, 5, &store), vec![]);
}

#[test]
fn ownership_check_and_crew_ids() {
    let ds = vec![inv(1, 10, 5), inv(1, 11, 5)];
    assert!(belongs_to(&ds, 1, 5));
    assert!(!belongs_to(&ds, 1, 6));
    assert!(!belongs_to(&ds, 2, 5));
    assert!(belongs_to(&vec![], 2, 5));
    assert_eq!(crew_ids_of(&ds), vec![10, 11]);
}

#[test]
fn plan_names_rows_to_remove_and_impacted_crews() {
    let mut a = inv(1, 100, 5);
    a.id = 31;
    let mut b = inv(1, 200, 5);
    b.id = 32;
    let existing = vec![a, b];
    let desired = vec![inv(1, 200, 5), inv(1, 300, 5)];
    let plan = plan_crew_involvement_update(1, 5, &existing, &desired).unwrap();
    assert_eq!(plan.to_remove, vec![a]);
    assert_eq!(plan.impacted_crew_ids, vec![200, 300, 100]);
    let foreign = vec![inv(2, 200, 5)];
    assert_eq!(
        plan_crew_involvement_update(1, 5, &existing, &foreign),
        Err(RepoError::Validation)
    );
}

#[test]
fn store_from_rows_checks_the_table() {
    let mut a = inv(1, 10, 5);
    a.id = 3;
    let mut b = inv(2, 10, 5);
    b.id = 8;
    let store = CrewInvolvementStore::from_rows(vec![a, b], 9).unwrap();
    assert_eq!(store.all(), vec![a, b]);
    assert_eq!(store.next_row_id(), 9);
    assert!(CrewInvolvementStore::from_rows(vec![a, b], 8).is_none());
    let mut same_key = inv(1, 10, 5);
    same_key.id = 4;
    assert!(CrewInvolvementStore::from_rows(vec![a, same_key], 9).is_none());
    let mut same_id = inv(7, 7, 7);
    same_id.id = 3;
    assert!(CrewInvolvementStore::from_rows(vec![a, same_id], 9).is_none());
    assert!(CrewInvolvementStore::from_rows(vec![], i64::MIN).is_some());
}

#[test]
fn reconcile_fails_whole_when_ids_run_out() {
    let mut a = inv(1, 10, 5);
    a.id = 3;
    let mut store = CrewInvolvementStore::from_rows(vec![a], i64::MAX).unwrap();
    let res = update_crew_involvements(1, 5, vec![inv(1, 11, 5)], &mut store);
    assert_eq!(res, Err(RepoError::Persistence));
    assert_eq!(store.all(), vec![a]);
    let res = update_crew_involvements(1, 5, vec![flagged(1, 10, 5, true, false)], &mut store);
    assert_eq!(res, Ok(vec![10]));
    assert!(store.all()[0].convenor);
}
