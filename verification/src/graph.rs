//! The family graph: persons, and the relations between them as pairs of
//! mutually inverse links.
use crate::links::{
    has_link, lemma_kinds_between_contains, lemma_links_wf_grows, lemma_no_links_wf,
    lemma_out_links_contains, lemma_out_links_source, lemma_parent_in_range,
    lemma_with_pair_parents, lemma_with_pair_wf, links_wf, parent_added, parents_of,
    relation_added, targets_of, with_pair,
};
use crate::person::{Kind, KinError, Link, Person, Sex};
use crate::store::{
    add_edge, add_node, all_simple_paths, edges_connecting, edges_from, empty_graph, graph_links,
    graph_persons, is_simple_walk, kinds_between, node_count, node_person, out_links,
};
use std::collections::HashMap;
use vstd::prelude::*;

verus! {

broadcast use vstd::std_specs::hash::group_hash_axioms;

/// A family graph. Persons are known by their position, the order in which
/// they were added; an index leads from a person's id to its position.
pub struct KinGraph {
    graph: petgraph::graph::Graph<Person, Kind, petgraph::Directed, usize>,
    id_indx: HashMap<usize, usize>,
}

impl KinGraph {
    /// The persons of the graph, by position.
    pub closed spec fn persons(&self) -> Seq<Person> {
        graph_persons(&self.graph)
    }

    /// The links of the graph, in the order in which they were added.
    pub closed spec fn links(&self) -> Seq<Link> {
        graph_links(&self.graph)
    }

    /// The index from a person's id to its position.
    pub closed spec fn index(&self) -> Map<usize, usize> {
        self.id_indx@
    }

    /// The links are well formed, and the index leads each id to a person
    /// with that id.
    pub open spec fn wf(&self) -> bool {
        &&& links_wf(self.links(), self.persons().len())
        &&& forall|id: usize| #[trigger]
            self.index().contains_key(id) ==> self.index()[id] < self.persons().len()
                && self.persons()[self.index()[id] as int].spec_id() == id
    }

    /// Whether the index leads to `p`.
    pub open spec fn knows(&self, p: &Person) -> bool {
        self.index().contains_key(p.spec_id())
    }

    /// The position to which the index leads for `p`.
    pub open spec fn position(&self, p: &Person) -> usize {
        self.index()[p.spec_id()]
    }

    /// An empty graph.
    pub fn new() -> (kg: KinGraph)
        ensures
            kg.wf(),
            kg.persons() == Seq::<Person>::empty(),
            kg.links() == Seq::<Link>::empty(),
            kg.index() == Map::<usize, usize>::empty(),
    {
        let kg = KinGraph { graph: empty_graph(), id_indx: HashMap::new() };
        proof {
            lemma_no_links_wf(0);
        }
        kg
    }

    /// The number of persons.
    pub fn person_count(&self) -> (n: usize)
        ensures
            n == self.persons().len(),
    {
        node_count(&self.graph)
    }

    /// The person at position `ix`.
    pub fn px(&self, ix: usize) -> (p: &Person)
        requires
            ix < self.persons().len(),
        ensures
            *p == self.persons()[ix as int],
    {
        node_person(&self.graph, ix)
    }

    /// The position of `p`, if the index leads to it.
    pub fn idx(&self, p: &Person) -> (ix: Option<usize>)
        ensures
            ix == if self.knows(p) {
                Some(self.position(p))
            } else {
                None
            },
    {
        let id: usize = p.get_id();
        match self.id_indx.get(&id) {
            Some(ix) => Some(*ix),
            None => None,
        }
    }

    /// Adds a copy of `p` at the next position and lets the index lead
    /// from its id there.
    pub fn add_person(&mut self, p: &Person)
        requires
            old(self).wf(),
        ensures
            final(self).wf(),
            final(self).persons() == old(self).persons().push(*p),
            final(self).links() == old(self).links(),
            final(self).index() == old(self).index().insert(
                p.spec_id(),
                old(self).persons().len() as usize,
            ),
    {
        let id: usize = p.get_id();
        let ix: usize = add_node(&mut self.graph, p.duplicate());
        self.id_indx.insert(id, ix);
        proof {
            let n = old(self).persons().len();
            lemma_links_wf_grows(self.links(), n, n + 1);
            assert forall|id: usize| #[trigger]
                self.index().contains_key(id) implies self.index()[id] < self.persons().len()
                && self.persons()[self.index()[id] as int].spec_id() == id by {
                if id != p.spec_id() {
                    assert(old(self).index().contains_key(id));
                }
            }
        }
    }

    /// Adds a new person with a random id and the default name.
    pub fn np(&mut self, sex: Sex) -> (p: Person)
        requires
            old(self).wf(),
        ensures
            final(self).wf(),
            p.spec_sex() == sex,
            !p.spec_shadow(),
            p.spec_name() == Person::default_name(),
            final(self).persons() == old(self).persons().push(p),
            final(self).links() == old(self).links(),
            final(self).index() == old(self).index().insert(
                p.spec_id(),
                old(self).persons().len() as usize,
            ),
    {
        let p = Person::new(sex);
        self.add_person(&p);
        p
    }

    /// Adds a new person whose id is its position.
    pub fn np_with_name(&mut self, sex: Sex, name: String) -> (p: Person)
        requires
            old(self).wf(),
        ensures
            final(self).wf(),
            p.spec_sex() == sex,
            !p.spec_shadow(),
            p.spec_name() == name@,
            p.spec_id() == old(self).persons().len(),
            final(self).persons() == old(self).persons().push(p),
            final(self).links() == old(self).links(),
            final(self).index() == old(self).index().insert(
                p.spec_id(),
                old(self).persons().len() as usize,
            ),
    {
        let id: usize = node_count(&self.graph);
        let p = Person::new_with_id(sex, id, name);
        self.add_person(&p);
        p
    }

    /// Adds a copy of each person of `ps`, in order.
    pub fn add_persons(&mut self, ps: &[&Person])
        requires
            old(self).wf(),
        ensures
            final(self).wf(),
            final(self).persons() == old(self).persons() + ps@.map_values(|p: &Person| *p),
            final(self).links() == old(self).links(),
            final(self).index() == index_with(old(self).index(), old(self).persons().len(), ps@),
    {
        let mut i: usize = 0;
        assert(ps@.take(0) =~= Seq::<&Person>::empty());
        assert(old(self).persons() + ps@.take(0).map_values(|p: &Person| *p) =~= old(
            self,
        ).persons());
        while i < ps.len()
            invariant
                i <= ps.len(),
                self.wf(),
                self.persons() == old(self).persons() + ps@.take(i as int).map_values(
                    |p: &Person| *p,
                ),
                self.links() == old(self).links(),
                self.index() == index_with(
                    old(self).index(),
                    old(self).persons().len(),
                    ps@.take(i as int),
                ),
            decreases ps.len() - i,
        {
            let ghost before = self.persons();
            self.add_person(ps[i]);
            proof {
                let done = ps@.take(i as int);
                let next = ps@.take(i + 1);
                assert(next.drop_last() =~= done);
                assert(next.last() == ps@[i as int]);
                assert(next.map_values(|p: &Person| *p) =~= done.map_values(|p: &Person| *p).push(
                    *ps@[i as int],
                ));
                assert(self.persons() =~= old(self).persons() + next.map_values(|p: &Person| *p));
            }
            i = i + 1;
        }
        assert(ps@.take(ps.len() as int) =~= ps@);
    }

    /// The links that leave `a`, the one added last first.
    pub fn links_from(&self, a: usize) -> (v: Vec<Link>)
        ensures
            v@ == out_links(self.links(), a),
    {
        edges_from(&self.graph, a)
    }

    /// The kinds of the links from `a` to `b`, the one added last first.
    pub fn kinds_from_to(&self, a: usize, b: usize) -> (v: Vec<Kind>)
        ensures
            v@ == kinds_between(self.links(), a, b),
    {
        edges_connecting(&self.graph, a, b)
    }

    /// The node sequences of the simple paths from `a` to another person
    /// `b`: each sequence that is returned is one, and each one is returned.
    pub(crate) fn simple_walks(&self, a: usize, b: usize) -> (v: Vec<Vec<usize>>)
        requires
            a != b,
            self.persons().len() > 0,
        ensures
            forall|i: int|
                0 <= i < v.len() ==> is_simple_walk(self.links(), a, b, (#[trigger] v[i])@),
            forall|walk: Seq<usize>|
                is_simple_walk(self.links(), a, b, walk) ==> exists|i: int|
                    0 <= i < v.len() && (#[trigger] v[i])@ == walk,
    {
        all_simple_paths(&self.graph, a, b)
    }

    /// The parents of `c`, the one added last first.
    pub fn parents(&self, c: usize) -> (v: Vec<usize>)
        ensures
            v@ == parents_of(self.links(), c),
    {
        let edges = edges_from(&self.graph, c);
        let mut v: Vec<usize> = Vec::new();
        let mut i: usize = 0;
        assert(edges@.take(0) =~= Seq::<Link>::empty());
        while i < edges.len()
            invariant
                i <= edges.len(),
                v@ == targets_of(edges@.take(i as int), Kind::Child),
            decreases edges.len() - i,
        {
            assert(edges@.take(i + 1).drop_last() =~= edges@.take(i as int));
            if edges[i].kind == Kind::Child {
                v.push(edges[i].target);
            }
            i = i + 1;
        }
        assert(edges@.take(edges.len() as int) =~= edges@);
        v
    }

    /// Whether a link of kind `k` leaves `a` for `b`.
    fn leads(&self, a: usize, k: Kind, b: usize) -> (res: bool)
        ensures
            res == has_link(self.links(), a, k, b),
    {
        let edges = edges_from(&self.graph, a);
        let mut res = false;
        let mut i: usize = 0;
        let ghost wanted = Link { source: a, kind: k, target: b };
        proof {
            lemma_out_links_contains(self.links(), a, wanted);
            lemma_out_links_source(self.links(), a);
        }
        while i < edges.len()
            invariant
                i <= edges.len(),
                wanted == (Link { source: a, kind: k, target: b }),
                forall|j: int| 0 <= j < edges.len() ==> (#[trigger] edges[j]).source == a,
                res == exists|j: int| 0 <= j < i && edges[j] == wanted,
            decreases edges.len() - i,
        {
            if edges[i].kind == k && edges[i].target == b {
                assert(edges[i as int] == wanted);
                res = true;
            }
            i = i + 1;
        }
        res
    }

    /// Checks if `p1` is a parent of `p2`.
    pub fn is_parent(&self, p1: usize, p2: usize) -> (res: bool)
        ensures
            res == has_link(self.links(), p1, Kind::Parent, p2),
    {
        self.leads(p1, Kind::Parent, p2)
    }

    /// Checks if `p1` is a child of `p2`.
    pub fn is_child(&self, p1: usize, p2: usize) -> (res: bool)
        ensures
            res == has_link(self.links(), p1, Kind::Child, p2),
    {
        self.leads(p1, Kind::Child, p2)
    }

    /// Whether a link of kind `k` joins `a` to `b`, looked up among the
    /// links between the two.
    fn joins(&self, a: usize, k: Kind, b: usize) -> (res: bool)
        ensures
            res == has_link(self.links(), a, k, b),
    {
        let between = edges_connecting(&self.graph, a, b);
        let mut res = false;
        let mut i: usize = 0;
        proof {
            lemma_kinds_between_contains(self.links(), a, b, k);
        }
        while i < between.len()
            invariant
                i <= between.len(),
                res == exists|j: int| 0 <= j < i && between[j] == k,
            decreases between.len() - i,
        {
            if between[i] == k {
                res = true;
            }
            i = i + 1;
        }
        res
    }

    /// Checks if `p1` is a reproductive partner of `p2`.
    pub fn is_repart(&self, p1: usize, p2: usize) -> (res: bool)
        ensures
            res == has_link(self.links(), p1, Kind::RP, p2),
    {
        self.joins(p1, Kind::RP, p2)
    }

    /// Checks whether two persons have two parents each, and the same two.
    pub fn b_share_parents(&self, p1: usize, p2: usize) -> (res: bool)
        ensures
            res == shares_parents(self.links(), p1, p2),
    {
        let first = self.parents(p1);
        let second = self.parents(p2);
        if first.len() == 2 && second.len() == 2 {
            (first[0] == second[0] && first[1] == second[1]) || (first[0] == second[1] && first[1]
                == second[0])
        } else {
            false
        }
    }

    /// Adds the link from `p1` to `p2` of kind `kind` and its inverse. A
    /// link to oneself, or one that is there already, adds nothing.
    fn add_edges(&mut self, p1: usize, p2: usize, kind: Kind)
        requires
            old(self).wf(),
            p1 < old(self).persons().len(),
            p2 < old(self).persons().len(),
            kind == Kind::Parent ==> has_link(old(self).links(), p1, kind, p2) || parents_of(
                old(self).links(),
                p2,
            ).len() < 2,
            kind == Kind::Child ==> has_link(old(self).links(), p1, kind, p2) || parents_of(
                old(self).links(),
                p1,
            ).len() < 2,
        ensures
            final(self).wf(),
            final(self).persons() == old(self).persons(),
            final(self).index() == old(self).index(),
            final(self).links() == with_pair(old(self).links(), p1, p2, kind),
    {
        proof {
            lemma_with_pair_wf(self.links(), self.persons().len(), p1, p2, kind);
        }
        if !self.joins(p1, kind, p2) && p1 != p2 {
            match kind {
                Kind::Parent => {
                    add_edge(&mut self.graph, p1, p2, Kind::Parent);
                    add_edge(&mut self.graph, p2, p1, Kind::Child);
                },
                Kind::Child => {
                    add_edge(&mut self.graph, p1, p2, Kind::Child);
                    add_edge(&mut self.graph, p2, p1, Kind::Parent);
                },
                Kind::Sibling => {
                    add_edge(&mut self.graph, p2, p1, Kind::Sibling);
                    add_edge(&mut self.graph, p1, p2, Kind::Sibling);
                },
                Kind::RP => {
                    add_edge(&mut self.graph, p2, p1, Kind::RP);
                    add_edge(&mut self.graph, p1, p2, Kind::RP);
                },
            }
        }
        proof {
            assert(self.index() == old(self).index());
            assert(self.persons() == old(self).persons());
            assert forall|id: usize| #[trigger]
                self.index().contains_key(id) implies self.index()[id] < self.persons().len()
                && self.persons()[self.index()[id] as int].spec_id() == id by {
                assert(old(self).index().contains_key(id));
            }
        }
    }

    /// Makes `p` a parent of `c`. A child with one parent gets the second
    /// with the two parents made partners. Refused, with the graph left as
    /// it is: a person as its own parent (`SelfCycle`), a parent that is
    /// already a child of `c` (`InvalidRelation`), a third parent
    /// (`AlreadyTwoParents`).
    pub fn add_parent(&mut self, p: &Person, c: &Person) -> (res: Result<(), KinError>)
        requires
            old(self).wf(),
            old(self).knows(p),
            old(self).knows(c),
        ensures
            final(self).wf(),
            final(self).persons() == old(self).persons(),
            final(self).index() == old(self).index(),
            match res {
                Ok(()) => parent_added(old(self).links(), old(self).position(p), old(self).position(c))
                    == Ok::<Seq<Link>, KinError>(final(self).links()),
                Err(e) => parent_added(old(self).links(), old(self).position(p), old(self).position(c))
                    == Err::<Seq<Link>, KinError>(e) && final(self).links() == old(self).links(),
            },
    {
        let px: usize = match self.idx(p) {
            Some(ix) => ix,
            None => 0,
        };
        let cx: usize = match self.idx(c) {
            Some(ix) => ix,
            None => 0,
        };
        assert(self.index().contains_key(p.spec_id()));
        assert(self.index().contains_key(c.spec_id()));
        if px == cx {
            return Err(KinError::SelfCycle { index: px });
        }
        let parents = self.parents(cx);
        let plen: usize = parents.len();
        if self.is_parent(cx, px) {
            return Err(KinError::InvalidRelation { p1: px, p2: cx });
        }
        if plen >= 2 {
            return Err(KinError::AlreadyTwoParents { p: cx });
        }
        if plen == 1 {
            let other: usize = parents[0];
            proof {
                lemma_parent_in_range(self.links(), self.persons().len(), cx, 0);
                lemma_with_pair_parents(self.links(), px, other, Kind::RP, cx);
            }
            self.add_edges(px, other, Kind::RP);
        }
        self.add_edges(px, cx, Kind::Parent);
        Ok(())
    }

    /// Makes `p1` and `p2` siblings. Refused for a person and itself.
    pub fn add_sibling(&mut self, p1: &Person, p2: &Person) -> (res: Result<(), KinError>)
        requires
            old(self).wf(),
            old(self).knows(p1),
            old(self).knows(p2),
        ensures
            final(self).wf(),
            final(self).persons() == old(self).persons(),
            final(self).index() == old(self).index(),
            relation_outcome(
                old(self).links(),
                old(self).position(p1),
                old(self).position(p2),
                Kind::Sibling,
                res,
                final(self).links(),
            ),
    {
        self.add_symmetric(p1, p2, Kind::Sibling)
    }

    /// Makes `p1` and `p2` reproductive partners. Refused for a person and
    /// itself.
    pub fn add_repat(&mut self, p1: &Person, p2: &Person) -> (res: Result<(), KinError>)
        requires
            old(self).wf(),
            old(self).knows(p1),
            old(self).knows(p2),
        ensures
            final(self).wf(),
            final(self).persons() == old(self).persons(),
            final(self).index() == old(self).index(),
            relation_outcome(
                old(self).links(),
                old(self).position(p1),
                old(self).position(p2),
                Kind::RP,
                res,
                final(self).links(),
            ),
    {
        self.add_symmetric(p1, p2, Kind::RP)
    }

    fn add_symmetric(&mut self, p1: &Person, p2: &Person, kind: Kind) -> (res: Result<(), KinError>)
        requires
            old(self).wf(),
            old(self).knows(p1),
            old(self).knows(p2),
            kind == Kind::Sibling || kind == Kind::RP,
        ensures
            final(self).wf(),
            final(self).persons() == old(self).persons(),
            final(self).index() == old(self).index(),
            relation_outcome(
                old(self).links(),
                old(self).position(p1),
                old(self).position(p2),
                kind,
                res,
                final(self).links(),
            ),
    {
        let ax: usize = match self.idx(p1) {
            Some(ix) => ix,
            None => 0,
        };
        let bx: usize = match self.idx(p2) {
            Some(ix) => ix,
            None => 0,
        };
        assert(self.index().contains_key(p1.spec_id()));
        assert(self.index().contains_key(p2.spec_id()));
        if ax == bx {
            return Err(KinError::SelfCycle { index: ax });
        }
        self.add_edges(ax, bx, kind);
        Ok(())
    }

    /// Adds a relationship: `p1` is the `kind` of `p2`. On an error the
    /// graph is left as it is.
    pub fn add_relation(&mut self, p1: &Person, p2: &Person, kind: Kind) -> (res: Result<
        (),
        KinError,
    >)
        requires
            old(self).wf(),
            old(self).knows(p1),
            old(self).knows(p2),
        ensures
            final(self).wf(),
            final(self).persons() == old(self).persons(),
            final(self).index() == old(self).index(),
            relation_outcome(
                old(self).links(),
                old(self).position(p1),
                old(self).position(p2),
                kind,
                res,
                final(self).links(),
            ),
            old(self).position(p1) == old(self).position(p2) ==> res == Err::<(), KinError>(
                KinError::SelfCycle { index: old(self).position(p1) },
            ) && final(self).links() == old(self).links(),
    {
        match kind {
            Kind::Parent => self.add_parent(p1, p2),
            Kind::Child => self.add_parent(p2, p1),
            Kind::RP => self.add_repat(p1, p2),
            Kind::Sibling => self.add_sibling(p1, p2),
        }
    }

    /// Makes `c` a child of both `p1` and `p2`: `p1` is added as a parent,
    /// then `p2`. Where the second is refused the first stays.
    pub fn make_child(&mut self, c: &Person, p1: &Person, p2: &Person) -> (res: Result<
        (),
        KinError,
    >)
        requires
            old(self).wf(),
            old(self).knows(c),
            old(self).knows(p1),
            old(self).knows(p2),
        ensures
            final(self).wf(),
            final(self).persons() == old(self).persons(),
            final(self).index() == old(self).index(),
            match parent_added(old(self).links(), old(self).position(p1), old(self).position(c)) {
                Err(e) => res == Err::<(), KinError>(e) && final(self).links() == old(self).links(),
                Ok(mid) => relation_outcome(
                    mid,
                    old(self).position(p2),
                    old(self).position(c),
                    Kind::Parent,
                    res,
                    final(self).links(),
                ),
            },
    {
        match self.add_relation(p1, c, Kind::Parent) {
            Err(e) => Err(e),
            Ok(()) => self.add_relation(p2, c, Kind::Parent),
        }
    }
}

/// The index after the persons of `ps` were added, the first at position
/// `base`.
pub open spec fn index_with(index: Map<usize, usize>, base: nat, ps: Seq<&Person>) -> Map<
    usize,
    usize,
>
    decreases ps.len(),
{
    if ps.len() == 0 {
        index
    } else {
        index_with(index, base, ps.drop_last()).insert(
            ps.last().spec_id(),
            (base + ps.len() - 1) as usize,
        )
    }
}

/// Whether `a` and `b` have two parents each, and the same two.
pub open spec fn shares_parents(links: Seq<Link>, a: usize, b: usize) -> bool {
    let first = parents_of(links, a);
    let second = parents_of(links, b);
    &&& first.len() == 2
    &&& second.len() == 2
    &&& (first[0] == second[0] && first[1] == second[1]) || (first[0] == second[1] && first[1]
        == second[0])
}

/// Whether `res` and `after` are what a request to add the relation `k` from
/// `a` to `b` gives on `before`: the new links, or the error and the links
/// unchanged.
pub open spec fn relation_outcome(
    before: Seq<Link>,
    a: usize,
    b: usize,
    k: Kind,
    res: Result<(), KinError>,
    after: Seq<Link>,
) -> bool {
    match res {
        Ok(()) => relation_added(before, a, b, k) == Ok::<Seq<Link>, KinError>(after),
        Err(e) => relation_added(before, a, b, k) == Err::<Seq<Link>, KinError>(e) && after
            == before,
    }
}

} // verus!
