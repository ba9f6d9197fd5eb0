//! Links that crews and collectives own, kept in one table and told apart
//! by the owner's id and the kind of owner.

use std::collections::HashMap;
use vstd::prelude::*;
use crate::entities::{Link, LinkWithOwner};
use crate::store::{lemma_filter_all, lemma_filter_none, lemma_filter_subset, RepoError};

verus! {

/// Stored links of one owner.
pub open spec fn owned(owner_id: i64, owner_type: Seq<char>) -> spec_fn(LinkWithOwner) -> bool {
    |r: LinkWithOwner| r.owner_id == owner_id && r.owner_type@ == owner_type
}

/// Stored links of every other owner.
pub open spec fn not_owned(owner_id: i64, owner_type: Seq<char>) -> spec_fn(LinkWithOwner) -> bool {
    |r: LinkWithOwner| !(r.owner_id == owner_id && r.owner_type@ == owner_type)
}

/// Stored links of one kind of owner.
pub open spec fn of_type(owner_type: Seq<char>) -> spec_fn(LinkWithOwner) -> bool {
    |r: LinkWithOwner| r.owner_type@ == owner_type
}

/// Stored links whose owner has the id `owner_id`, of whatever kind.
pub open spec fn of_owner(owner_id: i64) -> spec_fn(LinkWithOwner) -> bool {
    |r: LinkWithOwner| r.owner_id == owner_id
}

/// A stored link without its owner.
pub open spec fn as_link() -> spec_fn(LinkWithOwner) -> Link {
    |r: LinkWithOwner| r.link()
}

/// The links of one owner, in stored order.
pub open spec fn links_of(rows: Seq<LinkWithOwner>, owner_id: i64, owner_type: Seq<char>) -> Seq<
    Link,
> {
    rows.filter(owned(owner_id, owner_type)).map_values(as_link())
}

/// The links of the rows with one owner id, in order.
pub open spec fn links_of_owner(rows: Seq<LinkWithOwner>, owner_id: i64) -> Seq<Link> {
    rows.filter(of_owner(owner_id)).map_values(as_link())
}

/// The row under which a link is stored.
pub open spec fn stored_link(l: Link, id: i64, owner_id: i64, owner_type: String) -> LinkWithOwner {
    LinkWithOwner { id, link_type: l.link_type, url: l.url, label: l.label, owner_id, owner_type }
}

/// The rows under which `links` are stored for one owner, with ids from
/// `first_id` on.
pub open spec fn stored_links(links: Seq<Link>, first_id: int, owner_id: i64, owner_type: String)
    -> Seq<LinkWithOwner> {
    Seq::new(
        links.len(),
        |j: int| stored_link(links[j], (first_id + j) as i64, owner_id, owner_type),
    )
}

/// The table after the links of one owner are replaced by `links`: the
/// owner's old rows are gone, the new ones stand at the end.
pub open spec fn replaced(
    rows: Seq<LinkWithOwner>,
    next: int,
    owner_id: i64,
    owner_type: String,
    links: Seq<Link>,
) -> Seq<LinkWithOwner> {
    rows.filter(not_owned(owner_id, owner_type@)) + stored_links(links, next, owner_id, owner_type)
}

/// Filtering by `p` and then by `q` is filtering by both.
pub proof fn lemma_filter_both<A>(
    rows: Seq<A>,
    p: spec_fn(A) -> bool,
    q: spec_fn(A) -> bool,
    both: spec_fn(A) -> bool,
)
    requires
        forall|j: int| 0 <= j < rows.len() ==> both(#[trigger] rows[j]) == (p(rows[j]) && q(rows[j])),
    ensures
        rows.filter(p).filter(q) == rows.filter(both),
    decreases rows.len(),
{
    reveal(Seq::filter);
    if rows.len() > 0 {
        let init = rows.drop_last();
        let last = rows.last();
        assert forall|j: int| 0 <= j < init.len() implies both(#[trigger] init[j]) == (p(init[j])
            && q(init[j])) by {
            assert(init[j] == rows[j]);
        }
        lemma_filter_both(init, p, q, both);
        assert(last == rows[rows.len() - 1]);
        if p(last) {
            init.filter(p).lemma_filter_push(last, q);
        }
    }
}

/// Replacing an owner's links is a full replacement: afterwards the owner
/// has exactly the new links, in the order given.
pub proof fn lemma_replaced_links(
    rows: Seq<LinkWithOwner>,
    next: int,
    owner_id: i64,
    owner_type: String,
    links: Seq<Link>,
)
    ensures
        links_of(replaced(rows, next, owner_id, owner_type, links), owner_id, owner_type@) == links,
{
    let others = rows.filter(not_owned(owner_id, owner_type@));
    let fresh = stored_links(links, next, owner_id, owner_type);
    let mine = owned(owner_id, owner_type@);
    lemma_filter_subset(rows, not_owned(owner_id, owner_type@));
    lemma_filter_none(others, mine);
    lemma_filter_all(fresh, mine);
    Seq::filter_distributes_over_add(others, fresh, mine);
    assert(Seq::<LinkWithOwner>::empty() + fresh =~= fresh);
    assert(fresh.map_values(as_link()) =~= links);
}

/// Replacing an owner's links leaves the links of every other owner as
/// they were.
pub proof fn lemma_replaced_leaves_others(
    rows: Seq<LinkWithOwner>,
    next: int,
    owner_id: i64,
    owner_type: String,
    links: Seq<Link>,
    other_id: i64,
    other_type: Seq<char>,
)
    requires
        other_id != owner_id || other_type != owner_type@,
    ensures
        links_of(replaced(rows, next, owner_id, owner_type, links), other_id, other_type)
            == links_of(rows, other_id, other_type),
{
    let others = rows.filter(not_owned(owner_id, owner_type@));
    let fresh = stored_links(links, next, owner_id, owner_type);
    let theirs = owned(other_id, other_type);
    lemma_filter_both(rows, not_owned(owner_id, owner_type@), theirs, theirs);
    lemma_filter_none(fresh, theirs);
    Seq::filter_distributes_over_add(others, fresh, theirs);
    assert(rows.filter(theirs) + Seq::<LinkWithOwner>::empty() =~= rows.filter(theirs));
}

/// A copy of an optional text.
pub fn clone_text(s: &Option<String>) -> (out: Option<String>)
    ensures
        out == *s,
{
    match s {
        Some(t) => Some(t.clone()),
        None => None,
    }
}

/// A copy of a link.
pub fn clone_link(l: &Link) -> (out: Link)
    ensures
        out == *l,
{
    Link { link_type: l.link_type.clone(), url: l.url.clone(), label: clone_text(&l.label) }
}

/// A copy of a list of links.
pub fn clone_links(links: &Vec<Link>) -> (out: Vec<Link>)
    ensures
        out@ == links@,
{
    let mut out: Vec<Link> = Vec::new();
    let mut i: usize = 0;
    while i < links.len()
        invariant
            i <= links.len(),
            out@ == links@.take(i as int),
        decreases links.len() - i,
    {
        out.push(clone_link(&links[i]));
        assert(links@.take(i + 1) =~= links@.take(i as int).push(links@[i as int]));
        i += 1;
    }
    assert(links@.take(links.len() as int) =~= links@);
    out
}

/// A copy of a stored link.
pub fn clone_link_row(r: &LinkWithOwner) -> (out: LinkWithOwner)
    ensures
        out == *r,
{
    LinkWithOwner {
        id: r.id,
        link_type: r.link_type.clone(),
        url: r.url.clone(),
        label: clone_text(&r.label),
        owner_id: r.owner_id,
        owner_type: r.owner_type.clone(),
    }
}

/// The link that a row stores, copied out of it.
pub fn link_of(r: &LinkWithOwner) -> (out: Link)
    ensures
        out == r.link(),
{
    Link { link_type: r.link_type.clone(), url: r.url.clone(), label: clone_text(&r.label) }
}

/// The stored links.
pub struct LinkStore {
    rows: Vec<LinkWithOwner>,
    next_id: i64,
}

impl LinkStore {
    /// The rows, oldest first.
    pub closed spec fn rows(&self) -> Seq<LinkWithOwner> {
        self.rows@
    }

    /// The id that the next new row gets.
    pub closed spec fn next_id(&self) -> int {
        self.next_id as int
    }

    /// The store's invariant: the ids it hands out are positive.
    pub open spec fn wf(&self) -> bool {
        1 <= self.next_id() <= i64::MAX
    }

    /// An empty store; ids start at 1.
    pub fn new() -> (s: LinkStore)
        ensures
            s.wf(),
            s.rows() == Seq::<LinkWithOwner>::empty(),
            s.next_id() == 1,
    {
        LinkStore { rows: Vec::new(), next_id: 1 }
    }

    /// A store that holds `rows` and hands out ids from `next_id` on;
    /// `None` where `next_id` is not positive.
    pub fn from_rows(rows: Vec<LinkWithOwner>, next_id: i64) -> (s: Option<LinkStore>)
        ensures
            s.is_some() <==> next_id >= 1,
            s.is_some() ==> s.unwrap().wf() && s.unwrap().rows() == rows@ && s.unwrap().next_id()
                == next_id,
    {
        if next_id >= 1 {
            Some(LinkStore { rows, next_id })
        } else {
            None
        }
    }

    /// Every stored row, oldest first.
    pub fn all(&self) -> (out: Vec<LinkWithOwner>)
        ensures
            out@ == self.rows(),
    {
        let mut out: Vec<LinkWithOwner> = Vec::new();
        let mut i: usize = 0;
        while i < self.rows.len()
            invariant
                i <= self.rows.len(),
                out@ == self.rows@.take(i as int),
            decreases self.rows.len() - i,
        {
            out.push(clone_link_row(&self.rows[i]));
            assert(self.rows@.take(i + 1) =~= self.rows@.take(i as int).push(self.rows@[i as int]));
            i += 1;
        }
        assert(self.rows@.take(self.rows.len() as int) =~= self.rows@);
        out
    }

    /// The id that the next new row gets.
    pub fn next_row_id(&self) -> (id: i64)
        ensures
            id == self.next_id(),
    {
        self.next_id
    }
}

/// The stored links of one kind of owner, oldest first.
pub fn find_all_links_for_owner_type(owner_type: String, store: &LinkStore) -> (out: Vec<
    LinkWithOwner,
>)
    ensures
        out@ == store.rows().filter(of_type(owner_type@)),
{
    let mut out: Vec<LinkWithOwner> = Vec::new();
    let mut i: usize = 0;
    assert(store.rows@.take(0).filter(of_type(owner_type@)) =~= Seq::empty()) by {
        reveal(Seq::filter);
    }
    while i < store.rows.len()
        invariant
            i <= store.rows.len(),
            out@ == store.rows@.take(i as int).filter(of_type(owner_type@)),
        decreases store.rows.len() - i,
    {
        proof {
            let r = store.rows@[i as int];
            assert(store.rows@.take(i + 1) =~= store.rows@.take(i as int).push(r));
            store.rows@.take(i as int).lemma_filter_push(r, of_type(owner_type@));
        }
        if store.rows[i].owner_type == owner_type {
            out.push(clone_link_row(&store.rows[i]));
        }
        i += 1;
    }
    assert(store.rows@.take(store.rows.len() as int) =~= store.rows@);
    out
}

/// Groups links by the id of their owner: each owner id that occurs maps
/// to its links, in the order in which they stand in `links`.
pub fn hash_links_by_owner(links: Vec<LinkWithOwner>) -> (by_owner: HashMap<i64, Vec<Link>>)
    ensures
        forall|o: i64|
            by_owner@.contains_key(o) <==> (#[trigger] links_of_owner(links@, o)).len() > 0,
        forall|o: i64|
            by_owner@.contains_key(o) ==> by_owner@[o]@ == #[trigger] links_of_owner(links@, o),
{
    broadcast use vstd::std_specs::hash::group_hash_axioms;

    let mut by_owner: HashMap<i64, Vec<Link>> = HashMap::new();
    let mut i: usize = 0;
    proof {
        assert forall|o: i64| (#[trigger] links_of_owner(links@.take(0), o)).len() == 0 by {
            reveal(Seq::filter);
            assert(links@.take(0).filter(of_owner(o)) =~= Seq::empty());
        }
    }
    while i < links.len()
        invariant
            i <= links.len(),
            forall|o: i64|
                by_owner@.contains_key(o) <==> (#[trigger] links_of_owner(
                    links@.take(i as int),
                    o,
                )).len() > 0,
            forall|o: i64|
                by_owner@.contains_key(o) ==> by_owner@[o]@ == #[trigger] links_of_owner(
                    links@.take(i as int),
                    o,
                ),
        decreases links.len() - i,
    {
        let owner = links[i].owner_id;
        let ghost before = by_owner@;
        let mut theirs = match by_owner.remove(&owner) {
            Some(v) => v,
            None => Vec::new(),
        };
        assert(theirs@ =~= links_of_owner(links@.take(i as int), owner));
        theirs.push(link_of(&links[i]));
        by_owner.insert(owner, theirs);
        proof {
            let r = links@[i as int];
            assert(links@.take(i + 1) =~= links@.take(i as int).push(r));
            assert forall|o: i64|
                #[trigger] links_of_owner(links@.take(i + 1), o) == if o == owner {
                    links_of_owner(links@.take(i as int), o).push(r.link())
                } else {
                    links_of_owner(links@.take(i as int), o)
                } by {
                links@.take(i as int).lemma_filter_push(r, of_owner(o));
                if o == owner {
                    assert(links@.take(i as int).filter(of_owner(o)).push(r).map_values(as_link())
                        =~= links_of_owner(links@.take(i as int), o).push(r.link()));
                }
            }
            assert(by_owner@ =~= before.insert(owner, theirs));
        }
        i += 1;
    }
    assert(links@.take(links.len() as int) =~= links@);
    by_owner
}

/// The rows of `rows` that do not belong to the owner, in order.
pub fn links_of_others(rows: &Vec<LinkWithOwner>, owner_id: i64, owner_type: &String) -> (out: Vec<
    LinkWithOwner,
>)
    ensures
        out@ == rows@.filter(not_owned(owner_id, owner_type@)),
{
    let mut out: Vec<LinkWithOwner> = Vec::new();
    let mut i: usize = 0;
    assert(rows@.take(0).filter(not_owned(owner_id, owner_type@)) =~= Seq::empty()) by {
        reveal(Seq::filter);
    }
    while i < rows.len()
        invariant
            i <= rows.len(),
            out@ == rows@.take(i as int).filter(not_owned(owner_id, owner_type@)),
        decreases rows.len() - i,
    {
        proof {
            let r = rows@[i as int];
            assert(rows@.take(i + 1) =~= rows@.take(i as int).push(r));
            rows@.take(i as int).lemma_filter_push(r, not_owned(owner_id, owner_type@));
        }
        let same_owner = rows[i].owner_id == owner_id && rows[i].owner_type == *owner_type;
        if !same_owner {
            out.push(clone_link_row(&rows[i]));
        }
        i += 1;
    }
    assert(rows@.take(rows.len() as int) =~= rows@);
    out
}

/// Replaces the links of one owner by `links`, as one change: the owner's
/// stored links are deleted and the new ones stored, all of them or none.
/// With `None` nothing is replaced and `None` comes back. Where the ids do
/// not suffice for the new links, the error is `Persistence` and the store
/// is as it was.
pub fn update_links_for_owner(
    owner_id: i64,
    owner_type: String,
    links: Option<Vec<Link>>,
    store: &mut LinkStore,
) -> (res: Result<Option<Vec<Link>>, RepoError>)
    requires
        old(store).wf(),
    ensures
        final(store).wf(),
        match links {
            None => res.is_ok() && res.unwrap().is_none() && final(store).rows() == old(
                store,
            ).rows() && final(store).next_id() == old(store).next_id(),
            Some(new) => if old(store).next_id() + new@.len() <= i64::MAX {
                &&& res.is_ok()
                &&& res.unwrap().is_some()
                &&& res.unwrap().unwrap()@ == new@
                &&& final(store).rows() == replaced(
                    old(store).rows(),
                    old(store).next_id(),
                    owner_id,
                    owner_type,
                    new@,
                )
                &&& final(store).next_id() == old(store).next_id() + new@.len()
                &&& links_of(final(store).rows(), owner_id, owner_type@) == new@
            } else {
                &&& res == Err::<Option<Vec<Link>>, RepoError>(RepoError::Persistence)
                &&& final(store).rows() == old(store).rows()
                &&& final(store).next_id() == old(store).next_id()
            },
        },
{
    match links {
        None => Ok(None),
        Some(new) => {
            let first = store.next_id;
            let room: u64 = (i64::MAX - first) as u64;
            if new.len() as u64 > room {
                return Err(RepoError::Persistence);
            }
            let mut rows = links_of_others(&store.rows, owner_id, &owner_type);
            let ghost others = rows@;
            let mut id: i64 = first;
            let mut j: usize = 0;
            while j < new.len()
                invariant
                    j <= new.len(),
                    id == first + j,
                    first + new@.len() <= i64::MAX,
                    rows@ == others + stored_links(new@.take(j as int), first as int, owner_id, owner_type),
                decreases new.len() - j,
            {
                let l = &new[j];
                let row = LinkWithOwner {
                    id,
                    link_type: l.link_type.clone(),
                    url: l.url.clone(),
                    label: clone_text(&l.label),
                    owner_id,
                    owner_type: owner_type.clone(),
                };
                rows.push(row);
                assert(rows@ =~= others + stored_links(
                    new@.take(j + 1),
                    first as int,
                    owner_id,
                    owner_type,
                ));
                id = id + 1;
                j += 1;
            }
            assert(new@.take(new.len() as int) =~= new@);
            proof {
                lemma_replaced_links(store.rows(), first as int, owner_id, owner_type, new@);
            }
            store.rows = rows;
            store.next_id = id;
            Ok(Some(new))
        },
    }
}

} // verus!
