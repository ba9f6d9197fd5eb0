use crew_rotation::convenor::{
    debt_of, intervals_participated_since_last_convened, last_convened, rotation_debts,
    set_crew_convenor,
};
use crew_rotation::entities::CrewInvolvement;
use crew_rotation::reconcile::upsert_crew_involvements;
use crew_rotation::store::{find_crew_involvements, CrewInvolvementStore};

fn row(person_id: i64, crew_id: i64, interval_id: i64, convenor: bool) -> CrewInvolvement {
    CrewInvolvement { id: 0, person_id, crew_id, interval_id, convenor, volunteered_convenor: false }
}

fn convenors(store: &CrewInvolvementStore, crew_id: i64, interval_id: i64) -> Vec<i64> {
    find_crew_involvements(crew_id, interval_id, store)
        .iter()
        .filter(|r| r.convenor)
        .map(|r| r.person_id)
        .collect()
}

fn crew_of_three() -> CrewInvolvementStore {
    let mut store = CrewInvolvementStore::new();
    upsert_crew_involvements(
        vec![row(1, 10, 5, false), row(2, 10, 5, false), row(3, 10, 5, false), row(1, 11, 5, true), row(1, 10, 6, true)],
        &mut store,
    )
    .unwrap();
    store
}

#[test]
fn set_convenor_leaves_exactly_one() {
    let mut store = crew_of_three();
    assert_eq!(set_crew_convenor(10, 5, Some(1), &mut store), Ok(()));
    assert_eq!(convenors(&store, 10, 5), vec![1]);
    assert_eq!(set_crew_convenor(10, 5, Some(2), &mut store), Ok(()));
    assert_eq!(convenors(&store, 10, 5), vec![2]);
    assert_eq!(set_crew_convenor(10, 5, Some(3), &mut store), Ok(()));
    assert_eq!(set_crew_convenor(10, 5, Some(3), &mut store), Ok(()));
    assert_eq!(convenors(&store, 10, 5), vec![3]);
    assert_eq!(convenors(&store, 11, 5), vec![1]);
    assert_eq!(convenors(&store, 10, 6), vec![1]);
}

#[test]
fn set_convenor_clears_several_convenors() {
    let mut store = CrewInvolvementStore::new();
    upsert_crew_involvements(vec![row(1, 10, 5, true), row(2, 10, 5, true)], &mut store).unwrap();
    assert_eq!(convenors(&store, 10, 5), vec![1, 2]);
    set_crew_convenor(10, 5, Some(2), &mut store).unwrap();
    assert_eq!(convenors(&store, 10, 5), vec![2]);
}

#[test]
fn vacate_convenor_after_set() {
    let mut store = crew_of_three();
    set_crew_convenor(10, 5, Some(2), &mut store).unwrap();
    assert_eq!(set_crew_convenor(10, 5, None, &mut store), Ok(()));
    assert_eq!(convenors(&store, 10, 5), Vec::<i64>::new());
    assert_eq!(convenors(&store, 10, 6), vec![1]);
    assert_eq!(store.all().len(), 5);
}

#[test]
fn set_convenor_for_a_non_member_vacates_and_succeeds() {
    let mut store = crew_of_three();
    set_crew_convenor(10, 5, Some(1), &mut store).unwrap();
    assert_eq!(set_crew_convenor(10, 5, Some(99), &mut store), Ok(()));
    assert_eq!(convenors(&store, 10, 5), Vec::<i64>::new());
    assert_eq!(store.all().len(), 5);
}

#[test]
fn set_convenor_keeps_ids_and_other_flags() {
    let mut store = CrewInvolvementStore::new();
    let mut volunteer = row(1, 10, 5, false);
    volunteer.volunteered_convenor = true;
    upsert_crew_involvements(vec![volunteer, row(2, 10, 5, false)], &mut store).unwrap();
    set_crew_convenor(10, 5, Some(2), &mut store).unwrap();
    let rows = store.all();
    assert_eq!((rows[0].id, rows[0].convenor, rows[0].volunteered_convenor), (1, false, true));
    assert_eq!((rows[1].id, rows[1].convenor, rows[1].volunteered_convenor), (2, true, false));
    assert_eq!(store.next_row_id(), 3);
}

#[test]
fn rotation_debt_counts_all_intervals_of_one_who_never_convened() {
    let x = 40;
    let mut store = CrewInvolvementStore::new();
    upsert_crew_involvements(
        vec![row(1, x, 10, true), row(2, x, 8, false), row(2, x, 11, false), row(2, x, 12, false)],
        &mut store,
    )
    .unwrap();
    let debts = intervals_participated_since_last_convened(x, 12, &store);
    assert_eq!(debts.len(), 1);
    assert_eq!(debts.get(&2), Some(&3));
    assert_eq!(debts.get(&1), None);
}

#[test]
fn rotation_debt_counts_only_after_the_last_convening() {
    let rows = vec![
        row(2, 40, 8, false),
        row(2, 40, 9, true),
        row(2, 40, 10, false),
        row(2, 40, 11, true),
        row(2, 40, 12, false),
        row(2, 40, 13, false),
        row(2, 40, 14, false),
        row(2, 41, 13, false),
        row(3, 40, 13, false),
    ];
    assert_eq!(last_convened(&rows, 40, 13, 2), Some(11));
    assert_eq!(last_convened(&rows, 40, 10, 2), Some(9));
    assert_eq!(last_convened(&rows, 40, 8, 2), None);
    assert_eq!(last_convened(&rows, 40, 13, 3), None);
    assert_eq!(debt_of(&rows, 40, 13, 2), 2);
    assert_eq!(debt_of(&rows, 40, 14, 2), 3);
    assert_eq!(debt_of(&rows, 40, 10, 2), 1);
    assert_eq!(debt_of(&rows, 40, 8, 2), 1);
    assert_eq!(debt_of(&rows, 40, 7, 2), 0);
    let debts = rotation_debts(&rows, 40, 13);
    assert_eq!(debts.len(), 2);
    assert_eq!(debts.get(&2), Some(&2));
    assert_eq!(debts.get(&3), Some(&1));
}

#[test]
fn rotation_debt_omits_people_without_debt() {
    let rows = vec![row(1, 40, 9, false), row(1, 40, 10, true), row(2, 40, 10, false)];
    let debts = rotation_debts(&rows, 40, 10);
    assert_eq!(debts.len(), 1);
    assert_eq!(debts.get(&2), Some(&1));
    assert!(!debts.contains_key(&1));
}

#[test]
fn rotation_debt_is_inclusive_of_the_bounding_interval() {
    let rows = vec![row(5, 40, 12, false)];
    assert_eq!(rotation_debts(&rows, 40, 12).get(&5), Some(&1));
    assert!(rotation_debts(&rows, 40, 11).is_empty());
}

#[test]
fn rotation_debt_of_an_unknown_crew_is_empty() {
    let store = crew_of_three();
    assert!(intervals_participated_since_last_convened(999, 100, &store).is_empty());
    assert!(intervals_participated_since_last_convened(10, 100, &CrewInvolvementStore::new()).is_empty());
}
