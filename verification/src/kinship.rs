//! What the graph says of the nearest relatives, for every graph: a parent
//! of a parent is a grand-parent, children of the same two parents are
//! siblings, children of siblings are first cousins, and the child of a
//! sibling is a nephew or niece.
use crate::graph::{shares_parents, KinGraph};
use crate::links::{has_link, lemma_no_self_link, lemma_one_inverse};
use crate::paths::{is_route, valid_hop};
use crate::person::{Kind, Link};
use crate::relate::{lemma_replay, relationships, state_after};
use crate::states::{
    sex_at, NAUState, NChildState, NCsnKState, NNeniState, NParentState, SiblingState, State,
};
use vstd::prelude::*;

verus! {

/// With a link a well-formed graph holds its inverse, and the two ends are
/// different persons of the graph.
proof fn lemma_link(kg: &KinGraph, a: usize, k: Kind, b: usize)
    requires
        kg.wf(),
        has_link(kg.links(), a, k, b),
    ensures
        has_link(kg.links(), b, k.inverse(), a),
        a != b,
        a < kg.persons().len(),
        b < kg.persons().len(),
{
    let l = Link { source: a, kind: k, target: b };
    lemma_no_self_link(kg.links(), kg.persons().len(), l);
    lemma_one_inverse(kg.links(), kg.persons().len(), l);
}

/// A path of two hops that follows links between three different persons
/// is a route.
proof fn lemma_two_hops(kg: &KinGraph, a: usize, k1: Kind, b: usize, k2: Kind, c: usize)
    requires
        kg.wf(),
        has_link(kg.links(), a, k1, b),
        has_link(kg.links(), b, k2, c),
        a != c,
    ensures
        is_route(kg.links(), kg.persons().len(), a, c, seq![(a, k1), (b, k2)]),
{
    let path = seq![(a, k1), (b, k2)];
    lemma_link(kg, a, k1, b);
    lemma_link(kg, b, k2, c);
    assert(valid_hop(kg.links(), path, 0, c));
    assert(valid_hop(kg.links(), path, 1, c));
}

/// A path of three hops that follows links between four different persons
/// is a route.
proof fn lemma_three_hops(
    kg: &KinGraph,
    a: usize,
    k1: Kind,
    b: usize,
    k2: Kind,
    c: usize,
    k3: Kind,
    d: usize,
)
    requires
        kg.wf(),
        has_link(kg.links(), a, k1, b),
        has_link(kg.links(), b, k2, c),
        has_link(kg.links(), c, k3, d),
        a != c,
        a != d,
        b != d,
    ensures
        is_route(kg.links(), kg.persons().len(), a, d, seq![(a, k1), (b, k2), (c, k3)]),
{
    let path = seq![(a, k1), (b, k2), (c, k3)];
    lemma_link(kg, a, k1, b);
    lemma_link(kg, b, k2, c);
    lemma_link(kg, c, k3, d);
    assert(valid_hop(kg.links(), path, 0, d));
    assert(valid_hop(kg.links(), path, 1, d));
    assert(valid_hop(kg.links(), path, 2, d));
}

/// The parent of a parent is a grand-parent, and the child of a child is a
/// grand-child.
pub proof fn lemma_grand_parent(kg: &KinGraph, a: usize, b: usize, c: usize)
    requires
        kg.wf(),
        has_link(kg.links(), a, Kind::Parent, b),
        has_link(kg.links(), b, Kind::Parent, c),
        a != c,
    ensures
        relationships(kg, a, c).contains(
            State::NParent(NParentState { n: 1, sex: sex_at(kg, a) }),
        ),
        relationships(kg, c, a).contains(State::NChild(NChildState { n: 1, sex: sex_at(kg, c) })),
{
    reveal_with_fuel(state_after, 3);
    lemma_link(kg, a, Kind::Parent, b);
    lemma_link(kg, b, Kind::Parent, c);
    let down = seq![(a, Kind::Parent), (b, Kind::Parent)];
    lemma_two_hops(kg, a, Kind::Parent, b, Kind::Parent, c);
    lemma_replay(kg, a, c, down);
    let up = seq![(c, Kind::Child), (b, Kind::Child)];
    lemma_two_hops(kg, c, Kind::Child, b, Kind::Child, a);
    lemma_replay(kg, c, a, up);
}

/// Two persons with a parent in common are siblings: full siblings if they
/// have the same two parents, and half siblings if not.
pub proof fn lemma_siblings(kg: &KinGraph, a: usize, b: usize, p: usize)
    requires
        kg.wf(),
        has_link(kg.links(), a, Kind::Child, p),
        has_link(kg.links(), b, Kind::Child, p),
        a != b,
    ensures
        relationships(kg, a, b).contains(
            State::Sibling(
                SiblingState { is_half: !shares_parents(kg.links(), a, b), sex: sex_at(kg, a) },
            ),
        ),
{
    reveal_with_fuel(state_after, 3);
    lemma_link(kg, a, Kind::Child, p);
    lemma_link(kg, b, Kind::Child, p);
    let path = seq![(a, Kind::Child), (p, Kind::Parent)];
    lemma_two_hops(kg, a, Kind::Child, p, Kind::Parent, b);
    lemma_replay(kg, a, b, path);
}

/// The children of two siblings are first cousins.
pub proof fn lemma_first_cousins(kg: &KinGraph, a: usize, p: usize, q: usize, b: usize)
    requires
        kg.wf(),
        has_link(kg.links(), a, Kind::Child, p),
        has_link(kg.links(), p, Kind::Sibling, q),
        has_link(kg.links(), q, Kind::Parent, b),
        a != q,
        a != b,
        p != b,
    ensures
        relationships(kg, a, b).contains(
            State::NCsnK(NCsnKState { n: 1, k: 1, is_half: false, sex: sex_at(kg, a) }),
        ),
{
    reveal_with_fuel(state_after, 4);
    lemma_link(kg, a, Kind::Child, p);
    let path = seq![(a, Kind::Child), (p, Kind::Sibling), (q, Kind::Parent)];
    lemma_three_hops(kg, a, Kind::Child, p, Kind::Sibling, q, Kind::Parent, b);
    lemma_replay(kg, a, b, path);
}

/// The child of a sibling is a nephew or niece, and the sibling of a
/// parent is an uncle or aunt.
pub proof fn lemma_niece_and_uncle(kg: &KinGraph, a: usize, b: usize, c: usize)
    requires
        kg.wf(),
        has_link(kg.links(), a, Kind::Sibling, b),
        has_link(kg.links(), b, Kind::Parent, c),
        a != c,
    ensures
        relationships(kg, c, a).contains(
            State::NNeni(NNeniState { n: 0, is_half: false, sex: sex_at(kg, c) }),
        ),
        relationships(kg, a, c).contains(
            State::NAU(NAUState { n: 0, is_half: false, sex: sex_at(kg, a) }),
        ),
{
    reveal_with_fuel(state_after, 3);
    lemma_link(kg, a, Kind::Sibling, b);
    lemma_link(kg, b, Kind::Parent, c);
    let up = seq![(c, Kind::Child), (b, Kind::Sibling)];
    lemma_two_hops(kg, c, Kind::Child, b, Kind::Sibling, a);
    lemma_replay(kg, c, a, up);
    let down = seq![(a, Kind::Sibling), (b, Kind::Parent)];
    lemma_two_hops(kg, a, Kind::Sibling, b, Kind::Parent, c);
    lemma_replay(kg, a, c, down);
}

/// The grand-child of a sibling counts as a nephew or niece of the first
/// degree too, and the sibling of a grand-parent as an uncle or aunt.
pub proof fn lemma_grand_niece_and_great_uncle(kg: &KinGraph, a: usize, b: usize, c: usize, d: usize)
    requires
        kg.wf(),
        has_link(kg.links(), a, Kind::Sibling, b),
        has_link(kg.links(), b, Kind::Parent, c),
        has_link(kg.links(), c, Kind::Parent, d),
        a != c,
        a != d,
        b != d,
    ensures
        relationships(kg, d, a).contains(
            State::NNeni(NNeniState { n: 0, is_half: false, sex: sex_at(kg, d) }),
        ),
        relationships(kg, a, d).contains(
            State::NAU(NAUState { n: 0, is_half: false, sex: sex_at(kg, a) }),
        ),
{
    reveal_with_fuel(state_after, 4);
    lemma_link(kg, a, Kind::Sibling, b);
    lemma_link(kg, b, Kind::Parent, c);
    lemma_link(kg, c, Kind::Parent, d);
    let up = seq![(d, Kind::Child), (c, Kind::Child), (b, Kind::Sibling)];
    lemma_three_hops(kg, d, Kind::Child, c, Kind::Child, b, Kind::Sibling, a);
    lemma_replay(kg, d, a, up);
    let down = seq![(a, Kind::Sibling), (b, Kind::Parent), (c, Kind::Parent)];
    lemma_three_hops(kg, a, Kind::Sibling, b, Kind::Parent, c, Kind::Parent, d);
    lemma_replay(kg, a, d, down);
}

} // verus!
