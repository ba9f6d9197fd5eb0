use crew_rotation::auth::{check_reset_token, reset_outcome, AuthRepoError};
use crew_rotation::entities::{
    CapacityPlanning, CollectiveInvolvement, CrewInvolvement, Interval, InvolvementStatus,
    ParticipationIntention,
};
use crew_rotation::me::{
    find_detailed_involvement, find_initial_data_for_me, find_interval_data_for_me,
    strip_private_data, upsert_detailed_involvement, CollectiveInvolvementStore,
};
use crew_rotation::reconcile::update_crew_involvements;
use crew_rotation::store::CrewInvolvementStore;

fn involvement(person_id: i64, collective_id: i64, interval_id: i64) -> CollectiveInvolvement {
    CollectiveInvolvement {
        id: 0,
        person_id,
        collective_id,
        interval_id,
        status: InvolvementStatus::Participating,
        private_capacity_planning: false,
        capacity_planning: Some(CapacityPlanning {
            wellbeing: Some("fine".to_string()),
            focus: None,
            capacity: Some("half".to_string()),
        }),
        capacity_score: Some(3),
        participation_intention: Some(ParticipationIntention::OptIn),
        opt_out_type: None,
        opt_out_planned_return_date: None,
        intention_context: None,
    }
}

fn crew_row(person_id: i64, crew_id: i64, interval_id: i64) -> CrewInvolvement {
    CrewInvolvement {
        id: 0,
        person_id,
        crew_id,
        interval_id,
        convenor: false,
        volunteered_convenor: false,
    }
}

fn interval(id: i64) -> Interval {
    Interval { id, start_date: "2024-01-01".to_string(), end_date: "2024-03-31".to_string() }
}

#[test]
fn collective_involvement_upsert_and_find() {
    let mut store = CollectiveInvolvementStore::new();
    assert_eq!(find_detailed_involvement(1, 2, 3, &store), None);
    assert_eq!(upsert_detailed_involvement(involvement(2, 1, 3), &mut store), Ok(()));
    assert_eq!(upsert_detailed_involvement(involvement(4, 1, 3), &mut store), Ok(()));
    let mut stored = involvement(2, 1, 3);
    stored.id = 1;
    assert_eq!(find_detailed_involvement(1, 2, 3, &store), Some(stored));
    let mut changed = involvement(2, 1, 3);
    changed.id = 55;
    changed.status = InvolvementStatus::OnHiatus;
    changed.capacity_planning = None;
    assert_eq!(upsert_detailed_involvement(changed.clone(), &mut store), Ok(()));
    changed.id = 1;
    assert_eq!(find_detailed_involvement(1, 2, 3, &store), Some(changed));
    assert_eq!(find_detailed_involvement(1, 4, 3, &store).map(|r| r.id), Some(2));
    assert_eq!(find_detailed_involvement(2, 1, 3, &store), None);
}

#[test]
fn interval_data_composes_both_stores() {
    let mut collective = CollectiveInvolvementStore::new();
    let mut crews = CrewInvolvementStore::new();
    upsert_detailed_involvement(involvement(2, 1, 3), &mut collective).unwrap();
    update_crew_involvements(2, 3, vec![crew_row(2, 10, 3), crew_row(2, 11, 3)], &mut crews).unwrap();
    update_crew_involvements(2, 4, vec![crew_row(2, 12, 4)], &mut crews).unwrap();
    let data = find_interval_data_for_me(1, 2, 3, &collective, &crews);
    assert_eq!(data.interval_id, 3);
    assert_eq!(data.collective_involvement.map(|r| r.id), Some(1));
    let crew_ids: Vec<i64> = data.crew_involvements.iter().map(|r| r.crew_id).collect();
    assert_eq!(crew_ids, vec![10, 11]);
    let empty = find_interval_data_for_me(1, 9, 3, &collective, &crews);
    assert_eq!(empty.collective_involvement, None);
    assert_eq!(empty.crew_involvements, vec![]);
}

#[test]
fn initial_data_has_no_next_interval_when_none_exists() {
    let mut collective = CollectiveInvolvementStore::new();
    let mut crews = CrewInvolvementStore::new();
    upsert_detailed_involvement(involvement(2, 1, 3), &mut collective).unwrap();
    update_crew_involvements(2, 4, vec![crew_row(2, 12, 4)], &mut crews).unwrap();
    let alone = find_initial_data_for_me(1, 2, &interval(3), None, &collective, &crews);
    assert_eq!(alone.person_id, 2);
    assert_eq!(alone.current_interval.as_ref().map(|d| d.interval_id), Some(3));
    assert_eq!(alone.next_interval, None);
    let next = interval(4);
    let both = find_initial_data_for_me(1, 2, &interval(3), Some(&next), &collective, &crews);
    let next_data = both.next_interval.unwrap();
    assert_eq!(next_data.interval_id, 4);
    assert_eq!(next_data.collective_involvement, None);
    assert_eq!(next_data.crew_involvements.len(), 1);
    assert_eq!(next_data.crew_involvements[0].crew_id, 12);
}

#[test]
fn private_capacity_planning_is_stripped() {
    let mut collective = CollectiveInvolvementStore::new();
    let crews = CrewInvolvementStore::new();
    let mut private = involvement(2, 1, 3);
    private.private_capacity_planning = true;
    upsert_detailed_involvement(private, &mut collective).unwrap();
    upsert_detailed_involvement(involvement(5, 1, 3), &mut collective).unwrap();
    let mine = find_interval_data_for_me(1, 2, 3, &collective, &crews);
    let shown = strip_private_data(&mine);
    let shown_involvement = shown.collective_involvement.unwrap();
    assert_eq!(shown_involvement.capacity_planning, None);
    assert_eq!(shown_involvement.status, InvolvementStatus::Participating);
    assert_eq!(shown_involvement.id, 1);
    assert!(mine.collective_involvement.unwrap().capacity_planning.is_some());
    let open = find_interval_data_for_me(1, 5, 3, &collective, &crews);
    assert_eq!(strip_private_data(&open), open);
}

#[test]
fn reset_token_and_outcome() {
    assert_eq!(check_reset_token(""), Err(AuthRepoError::UserNotFound));
    assert_eq!(check_reset_token("t0ken"), Ok(()));
    assert_eq!(reset_outcome(0), Err(AuthRepoError::UserNotFound));
    assert_eq!(reset_outcome(1), Ok(()));
}

#[test]
fn auth_errors_in_words() {
    assert_eq!(AuthRepoError::UserNotFound.message(), "User not found");
    assert_eq!(AuthRepoError::DatabaseError.message(), "Database error");
}
