use crew_rotation::crews::{
    find_all_crews, find_all_crews_with_links, update_crew, update_crew_with_links, CrewStore,
};
use crew_rotation::entities::{Crew, CrewWithLinks, Link, LinkWithOwner};
use crew_rotation::store::RepoError;
use crew_rotation::links::{
    find_all_links_for_owner_type, hash_links_by_owner, update_links_for_owner, LinkStore,
};

fn link(kind: &str, url: &str) -> Link {
    Link { link_type: kind.to_string(), url: url.to_string(), label: None }
}

fn labelled(kind: &str, url: &str, label: &str) -> Link {
    Link { link_type: kind.to_string(), url: url.to_string(), label: Some(label.to_string()) }
}

fn crew(id: i64, name: &str) -> Crew {
    Crew { id, name: name.to_string(), description: None }
}

fn owned(id: i64, owner_id: i64, owner_type: &str, url: &str) -> LinkWithOwner {
    LinkWithOwner {
        id,
        link_type: "web".to_string(),
        url: url.to_string(),
        label: None,
        owner_id,
        owner_type: owner_type.to_string(),
    }
}

#[test]
fn replace_links_is_a_full_replacement() {
    let mut store = LinkStore::new();
    let first = vec![link("web", "https://a.example"), labelled("chat", "https://b.example", "B")];
    let res = update_links_for_owner(7, "crews".to_string(), Some(first.clone()), &mut store);
    assert_eq!(res, Ok(Some(first)));
    update_links_for_owner(7, "collectives".to_string(), Some(vec![link("web", "https://c.example")]), &mut store)
        .unwrap();
    update_links_for_owner(8, "crews".to_string(), Some(vec![link("web", "https://d.example")]), &mut store)
        .unwrap();
    let second = vec![labelled("doc", "https://e.example", "E")];
    let res = update_links_for_owner(7, "crews".to_string(), Some(second.clone()), &mut store);
    assert_eq!(res, Ok(Some(second)));
    assert_eq!(
        store.all(),
        vec![
            LinkWithOwner {
                id: 3,
                link_type: "web".to_string(),
                url: "https://c.example".to_string(),
                label: None,
                owner_id: 7,
                owner_type: "collectives".to_string(),
            },
            LinkWithOwner {
                id: 4,
                link_type: "web".to_string(),
                url: "https://d.example".to_string(),
                label: None,
                owner_id: 8,
                owner_type: "crews".to_string(),
            },
            LinkWithOwner {
                id: 5,
                link_type: "doc".to_string(),
                url: "https://e.example".to_string(),
                label: Some("E".to_string()),
                owner_id: 7,
                owner_type: "crews".to_string(),
            },
        ]
    );
    assert_eq!(store.next_row_id(), 6);
}

#[test]
fn replace_links_with_an_empty_list_removes_them() {
    let mut store = LinkStore::new();
    update_links_for_owner(7, "crews".to_string(), Some(vec![link("web", "https://a.example")]), &mut store)
        .unwrap();
    assert_eq!(update_links_for_owner(7, "crews".to_string(), Some(vec![]), &mut store), Ok(Some(vec![])));
    assert_eq!(store.all(), vec![]);
}

#[test]
fn replace_links_with_none_changes_nothing() {
    let mut store = LinkStore::new();
    update_links_for_owner(7, "crews".to_string(), Some(vec![link("web", "https://a.example")]), &mut store)
        .unwrap();
    let before = store.all();
    assert_eq!(update_links_for_owner(7, "crews".to_string(), None, &mut store), Ok(None));
    assert_eq!(store.all(), before);
    assert_eq!(store.next_row_id(), 2);
}

#[test]
fn links_are_found_by_owner_type() {
    let mut store = LinkStore::new();
    update_links_for_owner(1, "crews".to_string(), Some(vec![link("web", "https://a.example")]), &mut store)
        .unwrap();
    update_links_for_owner(1, "collectives".to_string(), Some(vec![link("web", "https://b.example")]), &mut store)
        .unwrap();
    update_links_for_owner(2, "crews".to_string(), Some(vec![link("web", "https://c.example")]), &mut store)
        .unwrap();
    let found = find_all_links_for_owner_type("crews".to_string(), &store);
    let urls: Vec<&str> = found.iter().map(|l| l.url.as_str()).collect();
    assert_eq!(urls, vec!["https://a.example", "https://c.example"]);
    assert_eq!(find_all_links_for_owner_type("people".to_string(), &store), vec![]);
}

#[test]
fn links_are_grouped_by_owner_in_order() {
    let rows = vec![
        owned(1, 5, "crews", "https://a.example"),
        owned(2, 6, "crews", "https://b.example"),
        owned(3, 5, "crews", "https://c.example"),
    ];
    let grouped = hash_links_by_owner(rows);
    assert_eq!(grouped.len(), 2);
    assert_eq!(
        grouped.get(&5),
        Some(&vec![link("web", "https://a.example"), link("web", "https://c.example")])
    );
    assert_eq!(grouped.get(&6), Some(&vec![link("web", "https://b.example")]));
    assert_eq!(grouped.get(&7), None);
    assert!(hash_links_by_owner(vec![]).is_empty());
}

#[test]
fn crews_come_with_their_links() {
    let crews = CrewStore::from_crews(vec![crew(1, "Kitchen"), crew(2, "Garden")]);
    let mut links = LinkStore::new();
    update_links_for_owner(2, "crews".to_string(), Some(vec![link("web", "https://g.example")]), &mut links)
        .unwrap();
    update_links_for_owner(1, "collectives".to_string(), Some(vec![link("web", "https://x.example")]), &mut links)
        .unwrap();
    let found = find_all_crews_with_links(&crews, &links);
    assert_eq!(
        found,
        vec![
            CrewWithLinks { id: 1, name: "Kitchen".to_string(), description: None, links: Some(vec![]) },
            CrewWithLinks {
                id: 2,
                name: "Garden".to_string(),
                description: None,
                links: Some(vec![link("web", "https://g.example")]),
            },
        ]
    );
}

#[test]
fn update_crew_renames_the_crew_with_that_id() {
    let mut crews = CrewStore::from_crews(vec![crew(1, "Kitchen"), crew(2, "Garden")]);
    let changed = Crew { id: 2, name: "Orchard".to_string(), description: Some("Trees".to_string()) };
    assert_eq!(update_crew(changed.clone(), &mut crews), Ok(changed.clone()));
    assert_eq!(find_all_crews(&crews), vec![crew(1, "Kitchen"), changed]);
    let unknown = crew(9, "Nobody");
    assert_eq!(update_crew(unknown.clone(), &mut crews), Ok(unknown));
    assert_eq!(find_all_crews(&crews).len(), 2);
}

#[test]
fn update_crew_with_links_replaces_both() {
    let mut crews = CrewStore::from_crews(vec![crew(1, "Kitchen")]);
    let mut links = LinkStore::new();
    update_links_for_owner(1, "crews".to_string(), Some(vec![link("web", "https://old.example")]), &mut links)
        .unwrap();
    let view = CrewWithLinks {
        id: 1,
        name: "Galley".to_string(),
        description: Some("Food".to_string()),
        links: Some(vec![link("web", "https://new.example")]),
    };
    assert_eq!(update_crew_with_links(view.clone(), &mut crews, &mut links), Ok(view.clone()));
    assert_eq!(find_all_crews_with_links(&crews, &links), vec![view]);
    let no_links = CrewWithLinks { id: 1, name: "Mess".to_string(), description: None, links: None };
    assert_eq!(update_crew_with_links(no_links.clone(), &mut crews, &mut links), Ok(no_links));
    let found = find_all_crews_with_links(&crews, &links);
    assert_eq!(found[0].name, "Mess");
    assert_eq!(found[0].links, Some(vec![link("web", "https://new.example")]));
}

#[test]
fn replace_links_fails_whole_when_ids_run_out() {
    let kept = owned(4, 7, "crews", "https://old.example");
    let mut store = LinkStore::from_rows(vec![kept.clone()], i64::MAX - 1).unwrap();
    let two = vec![link("web", "https://a.example"), link("web", "https://b.example")];
    let res = update_links_for_owner(7, "crews".to_string(), Some(two), &mut store);
    assert_eq!(res, Err(RepoError::Persistence));
    assert_eq!(store.all(), vec![kept]);
    let one = vec![link("web", "https://a.example")];
    assert_eq!(
        update_links_for_owner(7, "crews".to_string(), Some(one.clone()), &mut store),
        Ok(Some(one))
    );
    assert_eq!(store.next_row_id(), i64::MAX);
    assert_eq!(store.all()[0].id, i64::MAX - 1);
    assert!(LinkStore::from_rows(vec![], 0).is_none());

    let mut crews = CrewStore::from_crews(vec![crew(7, "Kitchen")]);
    let view = CrewWithLinks {
        id: 7,
        name: "Galley".to_string(),
        description: None,
        links: Some(vec![link("web", "https://c.example")]),
    };
    assert_eq!(update_crew_with_links(view, &mut crews, &mut store), Err(RepoError::Persistence));
    assert_eq!(find_all_crews(&crews), vec![crew(7, "Kitchen")]);
    assert_eq!(store.all().len(), 1);
}
