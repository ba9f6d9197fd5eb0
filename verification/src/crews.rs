//! Crews and the views of them that carry their links.

use vstd::prelude::*;
use crate::entities::{Crew, CrewWithLinks, Link};
use crate::links::{
    clone_links, clone_text, find_all_links_for_owner_type, hash_links_by_owner, lemma_filter_both,
    links_of, of_owner, of_type, owned, replaced, update_links_for_owner, LinkStore,
};
use crate::store::RepoError;

verus! {

/// What updating a crew does to each stored crew: the one with the same id
/// becomes `crew`.
pub open spec fn renamed(crew: Crew) -> spec_fn(Crew) -> Crew {
    |c: Crew|
        if c.id == crew.id {
            crew
        } else {
            c
        }
}

/// The crew that a view with links is about.
pub open spec fn crew_of(view: CrewWithLinks) -> Crew {
    Crew { id: view.id, name: view.name, description: view.description }
}

/// `view` shows `crew` together with exactly the links `links`.
pub open spec fn shows(view: CrewWithLinks, crew: Crew, links: Seq<Link>) -> bool {
    &&& crew_of(view) == crew
    &&& view.links.is_some()
    &&& view.links.unwrap()@ == links
}

/// A copy of a crew.
pub fn clone_crew(c: &Crew) -> (out: Crew)
    ensures
        out == *c,
{
    Crew { id: c.id, name: c.name.clone(), description: clone_text(&c.description) }
}

/// The stored crews.
pub struct CrewStore {
    crews: Vec<Crew>,
}

impl CrewStore {
    /// The crews, in stored order.
    pub closed spec fn rows(&self) -> Seq<Crew> {
        self.crews@
    }

    /// A store that holds `crews`.
    pub fn from_crews(crews: Vec<Crew>) -> (s: CrewStore)
        ensures
            s.rows() == crews@,
    {
        CrewStore { crews }
    }
}

/// Every stored crew, in stored order.
pub fn find_all_crews(store: &CrewStore) -> (out: Vec<Crew>)
    ensures
        out@ == store.rows(),
{
    let mut out: Vec<Crew> = Vec::new();
    let mut i: usize = 0;
    while i < store.crews.len()
        invariant
            i <= store.crews.len(),
            out@ == store.crews@.take(i as int),
        decreases store.crews.len() - i,
    {
        out.push(clone_crew(&store.crews[i]));
        assert(store.crews@.take(i + 1) =~= store.crews@.take(i as int).push(
            store.crews@[i as int],
        ));
        i += 1;
    }
    assert(store.crews@.take(store.crews.len() as int) =~= store.crews@);
    out
}

/// Gives the stored crew with `crew`'s id the name and description of
/// `crew`, and hands `crew` back. Where no crew has that id nothing is
/// changed, and the call still succeeds.
pub fn update_crew(crew: Crew, store: &mut CrewStore) -> (res: Result<Crew, RepoError>)
    ensures
        res == Ok::<Crew, RepoError>(crew),
        final(store).rows() == old(store).rows().map_values(renamed(crew)),
{
    let mut out: Vec<Crew> = Vec::new();
    let mut i: usize = 0;
    while i < store.crews.len()
        invariant
            i <= store.crews.len(),
            *store == *old(store),
            out@ == store.crews@.take(i as int).map_values(renamed(crew)),
        decreases store.crews.len() - i,
    {
        let next = if store.crews[i].id == crew.id {
            clone_crew(&crew)
        } else {
            clone_crew(&store.crews[i])
        };
        out.push(next);
        assert(store.crews@.take(i + 1).map_values(renamed(crew)) =~= store.crews@.take(
            i as int,
        ).map_values(renamed(crew)).push(next));
        i += 1;
    }
    assert(store.crews@.take(store.crews.len() as int) =~= store.crews@);
    store.crews = out;
    Ok(crew)
}

/// Every stored crew together with its links: the links stored for the
/// owner kind "crews" under the crew's id, in stored order; an empty list
/// for a crew without links.
pub fn find_all_crews_with_links(crews: &CrewStore, links: &LinkStore) -> (out: Vec<CrewWithLinks>)
    ensures
        out@.len() == crews.rows().len(),
        forall|j: int|
            0 <= j < out@.len() ==> shows(
                #[trigger] out@[j],
                crews.rows()[j],
                links_of(links.rows(), crews.rows()[j].id, "crews"@),
            ),
{
    broadcast use vstd::std_specs::hash::group_hash_axioms;

    let all = find_all_crews(crews);
    let typed = find_all_links_for_owner_type("crews".to_owned(), links);
    let ghost typed_rows = typed@;
    let by_owner = hash_links_by_owner(typed);
    let mut out: Vec<CrewWithLinks> = Vec::new();
    let mut i: usize = 0;
    while i < all.len()
        invariant
            i <= all.len(),
            all@ == crews.rows(),
            out@.len() == i,
            typed_rows == links.rows().filter(of_type("crews"@)),
            forall|o: i64|
                by_owner@.contains_key(o) <==> (#[trigger] crate::links::links_of_owner(
                    typed_rows,
                    o,
                )).len() > 0,
            forall|o: i64|
                by_owner@.contains_key(o) ==> by_owner@[o]@ == #[trigger] crate::links::links_of_owner(
                    typed_rows,
                    o,
                ),
            forall|j: int|
                0 <= j < i ==> shows(
                    #[trigger] out@[j],
                    crews.rows()[j],
                    links_of(links.rows(), crews.rows()[j].id, "crews"@),
                ),
        decreases all.len() - i,
    {
        let crew = clone_crew(&all[i]);
        let id = crew.id;
        proof {
            lemma_filter_both(
                links.rows(),
                of_type("crews"@),
                of_owner(id),
                owned(id, "crews"@),
            );
            assert(crate::links::links_of_owner(typed_rows, id) == links_of(
                links.rows(),
                id,
                "crews"@,
            ));
        }
        let theirs = match by_owner.get(&id) {
            Some(v) => clone_links(v),
            None => Vec::new(),
        };
        assert(theirs@ =~= links_of(links.rows(), id, "crews"@));
        out.push(
            CrewWithLinks {
                id: crew.id,
                name: crew.name,
                description: crew.description,
                links: Some(theirs),
            },
        );
        i += 1;
    }
    out
}

/// Updates a crew and replaces its links, as one change. The crew's name
/// and description are stored under its id; where the view carries links,
/// they replace the links stored for the crew, and where it carries none,
/// the stored links stay. Where the ids do not suffice for the new links,
/// the error is `Persistence` and neither the crew nor its links change.
pub fn update_crew_with_links(crew: CrewWithLinks, crews: &mut CrewStore, links: &mut LinkStore)
    -> (res: Result<CrewWithLinks, RepoError>)
    requires
        old(links).wf(),
    ensures
        final(links).wf(),
        match crew.links {
            Some(new) if old(links).next_id() + new@.len() > i64::MAX => {
                &&& res is Err
                &&& res->Err_0 == RepoError::Persistence
                &&& final(crews).rows() == old(crews).rows()
                &&& final(links).rows() == old(links).rows()
                &&& final(links).next_id() == old(links).next_id()
            },
            Some(new) => {
                &&& res is Ok
                &&& shows(res->Ok_0, crew_of(crew), new@)
                &&& final(crews).rows() == old(crews).rows().map_values(renamed(crew_of(crew)))
                &&& exists|kind: String|
                    kind@ == "crews"@ && final(links).rows() == #[trigger] replaced(
                        old(links).rows(),
                        old(links).next_id(),
                        crew.id,
                        kind,
                        new@,
                    )
                &&& links_of(final(links).rows(), crew.id, "crews"@) == new@
            },
            None => {
                &&& res is Ok
                &&& crew_of(res->Ok_0) == crew_of(crew)
                &&& res->Ok_0.links.is_none()
                &&& final(crews).rows() == old(crews).rows().map_values(renamed(crew_of(crew)))
                &&& final(links).rows() == old(links).rows()
                &&& final(links).next_id() == old(links).next_id()
            },
        },
{
    let kind = "crews".to_owned();
    let ghost owner_kind = kind;
    let stored = match update_links_for_owner(crew.id, kind, crew.links, links) {
        Ok(stored) => stored,
        Err(e) => {
            return Err(e);
        },
    };
    proof {
        if crew.links.is_some() {
            assert(links.rows() == replaced(
                old(links).rows(),
                old(links).next_id(),
                crew.id,
                owner_kind,
                crew.links.unwrap()@,
            ));
        }
    }
    let plain = Crew { id: crew.id, name: crew.name, description: crew.description };
    match update_crew(plain, crews) {
        Ok(updated) => Ok(
            CrewWithLinks {
                id: updated.id,
                name: updated.name,
                description: updated.description,
                links: stored,
            },
        ),
        Err(e) => Err(e),
    }
}

} // verus!
