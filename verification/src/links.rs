//! What the links of a graph say, and what holds of every graph that the
//! library builds.
use crate::person::{Kind, KinError, Link};
use crate::store::{kinds_between, out_links};
use vstd::prelude::*;

verus! {

/// Whether a link of kind `k` leads from `a` to `b`.
pub open spec fn has_link(links: Seq<Link>, a: usize, k: Kind, b: usize) -> bool {
    links.contains(Link { source: a, kind: k, target: b })
}

/// The targets of the links of kind `k` among `s`, in the order of `s`.
pub open spec fn targets_of(s: Seq<Link>, k: Kind) -> Seq<usize>
    decreases s.len(),
{
    if s.len() == 0 {
        Seq::empty()
    } else if s.last().kind == k {
        targets_of(s.drop_last(), k).push(s.last().target)
    } else {
        targets_of(s.drop_last(), k)
    }
}

/// The parents of `c`: the targets of the `Child` links that leave `c`, the
/// one added last first.
pub open spec fn parents_of(links: Seq<Link>, c: usize) -> Seq<usize> {
    targets_of(out_links(links, c), Kind::Child)
}

/// What holds of the links of every graph over `n` persons:
/// - a link joins two persons of the graph, and never a person to itself;
/// - no link occurs twice;
/// - with each link the graph holds its inverse;
/// - nobody has more than two parents.
#[verifier::opaque]
pub open spec fn links_wf(links: Seq<Link>, n: nat) -> bool {
    &&& forall|i: int|
        0 <= i < links.len() ==> (#[trigger] links[i]).source < n && links[i].target < n
            && links[i].source != links[i].target
    &&& links.no_duplicates()
    &&& forall|i: int| 0 <= i < links.len() ==> links.contains((#[trigger] links[i]).inverse())
    &&& forall|c: usize| (#[trigger] parents_of(links, c)).len() <= 2
}

/// `links` with the link from `a` to `b` of kind `k` and its inverse, in the
/// order in which they are stored. A link to oneself, or one that is there
/// already, adds nothing.
pub open spec fn with_pair(links: Seq<Link>, a: usize, b: usize, k: Kind) -> Seq<Link> {
    let forth = Link { source: a, kind: k, target: b };
    if a == b || links.contains(forth) {
        links
    } else {
        match k {
            Kind::Parent | Kind::Child => links.push(forth).push(forth.inverse()),
            Kind::Sibling | Kind::RP => links.push(forth.inverse()).push(forth),
        }
    }
}

/// What adding `p` as a parent of `c` does to the links, or why it is
/// refused. A second parent becomes the partner of the first.
pub open spec fn parent_added(links: Seq<Link>, p: usize, c: usize) -> Result<Seq<Link>, KinError> {
    let parents = parents_of(links, c);
    if p == c {
        Err(KinError::SelfCycle { index: p })
    } else if has_link(links, c, Kind::Parent, p) {
        Err(KinError::InvalidRelation { p1: p, p2: c })
    } else if parents.len() >= 2 {
        Err(KinError::AlreadyTwoParents { p: c })
    } else if parents.len() == 1 {
        Ok(with_pair(with_pair(links, p, parents[0], Kind::RP), p, c, Kind::Parent))
    } else {
        Ok(with_pair(links, p, c, Kind::Parent))
    }
}

/// What adding the relation `k` from `a` to `b` does to the links, or why it
/// is refused.
pub open spec fn relation_added(links: Seq<Link>, a: usize, b: usize, k: Kind) -> Result<
    Seq<Link>,
    KinError,
> {
    match k {
        Kind::Parent => parent_added(links, a, b),
        Kind::Child => parent_added(links, b, a),
        Kind::Sibling | Kind::RP => if a == b {
            Err(KinError::SelfCycle { index: a })
        } else {
            Ok(with_pair(links, a, b, k))
        },
    }
}

/// A sequence with one more element holds what it held, and the element.
pub proof fn lemma_push_contains<A>(s: Seq<A>, e: A, v: A)
    ensures
        s.push(e).contains(v) <==> (s.contains(v) || v == e),
{
    if s.contains(v) {
        let i = choose|i: int| 0 <= i < s.len() && s[i] == v;
        assert(s.push(e)[i] == v);
    }
    if v == e {
        assert(s.push(e)[s.len() as int] == v);
    }
}

/// A new link goes in front of the links that leave its source.
pub proof fn lemma_out_links_push(links: Seq<Link>, l: Link, a: usize)
    ensures
        out_links(links.push(l), a) == if l.source == a {
            seq![l] + out_links(links, a)
        } else {
            out_links(links, a)
        },
{
    assert(links.push(l).drop_last() =~= links);
}

/// The links that leave `a` are the links whose source is `a`.
pub proof fn lemma_out_links_contains(links: Seq<Link>, a: usize, l: Link)
    ensures
        out_links(links, a).contains(l) <==> (links.contains(l) && l.source == a),
    decreases links.len(),
{
    if links.len() > 0 {
        let rest = links.drop_last();
        lemma_out_links_contains(rest, a, l);
        assert(rest.push(links.last()) =~= links);
        lemma_push_contains(rest, links.last(), l);
        if links.last().source == a {
            let head = seq![links.last()];
            let tail = out_links(rest, a);
            if (head + tail).contains(l) {
                let i = choose|i: int| 0 <= i < (head + tail).len() && (head + tail)[i] == l;
                if i > 0 {
                    assert(tail[i - 1] == l);
                }
            }
            if tail.contains(l) {
                let i = choose|i: int| 0 <= i < tail.len() && tail[i] == l;
                assert((head + tail)[i + 1] == l);
            }
            if l == links.last() {
                assert((head + tail)[0] == l);
            }
        }
    }
}

/// Every link that leaves `a` has `a` as its source.
pub proof fn lemma_out_links_source(links: Seq<Link>, a: usize)
    ensures
        forall|i: int|
            0 <= i < out_links(links, a).len() ==> (#[trigger] out_links(links, a)[i]).source == a
                && links.contains(out_links(links, a)[i]),
{
    assert forall|i: int| 0 <= i < out_links(links, a).len() implies (#[trigger] out_links(
        links,
        a,
    )[i]).source == a && links.contains(out_links(links, a)[i]) by {
        let l = out_links(links, a)[i];
        assert(out_links(links, a).contains(l));
        lemma_out_links_contains(links, a, l);
    }
}

/// The kinds between `a` and `b` are the kinds of the links from `a` to `b`.
pub proof fn lemma_kinds_between_contains(links: Seq<Link>, a: usize, b: usize, k: Kind)
    ensures
        kinds_between(links, a, b).contains(k) <==> has_link(links, a, k, b),
    decreases links.len(),
{
    let l = Link { source: a, kind: k, target: b };
    if links.len() > 0 {
        let rest = links.drop_last();
        lemma_kinds_between_contains(rest, a, b, k);
        assert(rest.push(links.last()) =~= links);
        lemma_push_contains(rest, links.last(), l);
        if links.last().source == a && links.last().target == b {
            let head = seq![links.last().kind];
            let tail = kinds_between(rest, a, b);
            if (head + tail).contains(k) {
                let i = choose|i: int| 0 <= i < (head + tail).len() && (head + tail)[i] == k;
                if i > 0 {
                    assert(tail[i - 1] == k);
                }
            }
            if tail.contains(k) {
                let i = choose|i: int| 0 <= i < tail.len() && tail[i] == k;
                assert((head + tail)[i + 1] == k);
            }
            if l == links.last() {
                assert((head + tail)[0] == k);
            }
        }
    }
}

/// The targets among two stretches of links are those of the first, then
/// those of the second.
pub proof fn lemma_targets_of_concat(s: Seq<Link>, t: Seq<Link>, k: Kind)
    ensures
        targets_of(s + t, k) == targets_of(s, k) + targets_of(t, k),
    decreases t.len(),
{
    if t.len() == 0 {
        assert(s + t =~= s);
        assert(targets_of(s, k) + targets_of(t, k) =~= targets_of(s, k));
    } else {
        lemma_targets_of_concat(s, t.drop_last(), k);
        assert((s + t).drop_last() =~= s + t.drop_last());
        assert((s + t).last() == t.last());
        if t.last().kind == k {
            assert(targets_of(s, k) + targets_of(t.drop_last(), k).push(t.last().target) =~= (
            targets_of(s, k) + targets_of(t.drop_last(), k)).push(t.last().target));
        }
    }
}

/// The targets of kind `k` among one link: its target, if it has that kind.
pub proof fn lemma_targets_of_one(l: Link, k: Kind)
    ensures
        targets_of(seq![l], k) == if l.kind == k {
            seq![l.target]
        } else {
            Seq::<usize>::empty()
        },
{
    let s = seq![l];
    assert(s.drop_last() =~= Seq::<Link>::empty());
    assert(targets_of(s.drop_last(), k) =~= Seq::<usize>::empty());
    if l.kind == k {
        assert(targets_of(s, k) =~= seq![l.target]);
    }
}

/// The targets of kind `k` among `s` are the targets of its links of that
/// kind.
pub proof fn lemma_targets_of_contains(s: Seq<Link>, k: Kind, t: usize)
    ensures
        targets_of(s, k).contains(t) <==> exists|i: int|
            0 <= i < s.len() && (#[trigger] s[i]).kind == k && s[i].target == t,
    decreases s.len(),
{
    if s.len() > 0 {
        let rest = s.drop_last();
        lemma_targets_of_contains(rest, k, t);
        if s.last().kind == k {
            lemma_push_contains(targets_of(rest, k), s.last().target, t);
        }
        if targets_of(s, k).contains(t) {
            if s.last().kind == k && s.last().target == t {
                assert(s[s.len() - 1].kind == k);
            } else {
                let i = choose|i: int|
                    0 <= i < rest.len() && (#[trigger] rest[i]).kind == k && rest[i].target == t;
                assert(s[i] == rest[i]);
            }
        }
        if exists|i: int| 0 <= i < s.len() && (#[trigger] s[i]).kind == k && s[i].target == t {
            let i = choose|i: int| 0 <= i < s.len() && (#[trigger] s[i]).kind == k && s[i].target == t;
            if i < s.len() - 1 {
                assert(rest[i] == s[i]);
            }
        }
    }
}

/// `p` is among the parents of `c` exactly if a `Child` link leads from `c`
/// to `p`.
pub proof fn lemma_parents_of_contains(links: Seq<Link>, c: usize, p: usize)
    ensures
        parents_of(links, c).contains(p) <==> has_link(links, c, Kind::Child, p),
{
    let out = out_links(links, c);
    let l = Link { source: c, kind: Kind::Child, target: p };
    lemma_targets_of_contains(out, Kind::Child, p);
    lemma_out_links_contains(links, c, l);
    lemma_out_links_source(links, c);
    if parents_of(links, c).contains(p) {
        let i = choose|i: int|
            0 <= i < out.len() && (#[trigger] out[i]).kind == Kind::Child && out[i].target == p;
        assert(out[i] == l);
        assert(out.contains(l));
    }
    if has_link(links, c, Kind::Child, p) {
        let i = choose|i: int| 0 <= i < out.len() && out[i] == l;
        assert(out[i].kind == Kind::Child);
    }
}

/// Adding a link changes the parents of its source only, and only if it is
/// a `Child` link, which puts its target in front.
pub proof fn lemma_parents_of_push(links: Seq<Link>, l: Link, c: usize)
    ensures
        parents_of(links.push(l), c) == if l.source == c && l.kind == Kind::Child {
            seq![l.target] + parents_of(links, c)
        } else {
            parents_of(links, c)
        },
{
    lemma_out_links_push(links, l, c);
    if l.source == c {
        lemma_targets_of_concat(seq![l], out_links(links, c), Kind::Child);
        lemma_targets_of_one(l, Kind::Child);
        if l.kind != Kind::Child {
            assert(Seq::<usize>::empty() + parents_of(links, c) =~= parents_of(links, c));
        }
    }
}

/// A sequence without duplicates stays so with a new element at its end.
pub proof fn lemma_push_no_duplicates<A>(s: Seq<A>, e: A)
    requires
        s.no_duplicates(),
        !s.contains(e),
    ensures
        s.push(e).no_duplicates(),
{
    assert forall|i: int, j: int|
        0 <= i < s.push(e).len() && 0 <= j < s.push(e).len() && i != j implies s.push(e)[i]
        != s.push(e)[j] by {
        if i < s.len() && j < s.len() {
        } else if i < s.len() {
            assert(s.contains(s[i]));
        } else {
            assert(s.contains(s[j]));
        }
    }
}

/// The inverse of the inverse of a link is the link.
pub proof fn lemma_inverse_twice(l: Link)
    ensures
        l.inverse().inverse() == l,
{
}

/// Adding one link keeps the first three clauses of `links_wf`, given that
/// the inverse is there or is the link added next.
proof fn lemma_pair_pushed(links: Seq<Link>, n: nat, x: Link)
    requires
        links_wf(links, n),
        x.source < n,
        x.target < n,
        x.source != x.target,
        !links.contains(x),
    ensures
        ({
            let both = links.push(x).push(x.inverse());
            &&& forall|i: int|
                0 <= i < both.len() ==> (#[trigger] both[i]).source < n && both[i].target < n
                    && both[i].source != both[i].target
            &&& both.no_duplicates()
            &&& forall|i: int| 0 <= i < both.len() ==> both.contains((#[trigger] both[i]).inverse())
        }),
{
    reveal(links_wf);
    let y = x.inverse();
    let one = links.push(x);
    let both = one.push(y);
    lemma_inverse_twice(x);
    if links.contains(y) {
        let i = choose|i: int| 0 <= i < links.len() && links[i] == y;
        assert(links.contains(links[i].inverse()));
    }
    lemma_push_no_duplicates(links, x);
    lemma_push_contains(links, x, y);
    lemma_push_no_duplicates(one, y);
    assert forall|i: int| 0 <= i < both.len() implies both.contains((#[trigger] both[i]).inverse()) by {
        let inv = both[i].inverse();
        lemma_push_contains(links, x, inv);
        lemma_push_contains(one, y, inv);
        if i < links.len() {
            assert(links.contains(links[i].inverse()));
        }
    }
}

/// A graph stays well formed when a pair of links is added, as long as the
/// pair gives nobody a third parent.
pub proof fn lemma_with_pair_wf(links: Seq<Link>, n: nat, a: usize, b: usize, k: Kind)
    requires
        links_wf(links, n),
        a < n,
        b < n,
        k == Kind::Parent ==> has_link(links, a, k, b) || parents_of(links, b).len() < 2,
        k == Kind::Child ==> has_link(links, a, k, b) || parents_of(links, a).len() < 2,
    ensures
        links_wf(with_pair(links, a, b, k), n),
{
    reveal(links_wf);
    let forth = Link { source: a, kind: k, target: b };
    let back = forth.inverse();
    if a == b || links.contains(forth) {
    } else {
        lemma_inverse_twice(forth);
        if links.contains(back) {
            let i = choose|i: int| 0 <= i < links.len() && links[i] == back;
            assert(links.contains(links[i].inverse()));
        }
        let first = match k {
            Kind::Parent | Kind::Child => forth,
            Kind::Sibling | Kind::RP => back,
        };
        let both = links.push(first).push(first.inverse());
        assert(both == with_pair(links, a, b, k));
        lemma_pair_pushed(links, n, first);
        assert forall|c: usize| (#[trigger] parents_of(both, c)).len() <= 2 by {
            lemma_parents_of_push(links, first, c);
            lemma_parents_of_push(links.push(first), first.inverse(), c);
            assert(parents_of(links, c).len() <= 2);
        }
    }
}

/// Adding a pair of links changes nobody's parents, unless it is a
/// `Parent` or `Child` pair that is new: then the child gets the parent in
/// front of the others.
pub proof fn lemma_with_pair_parents(links: Seq<Link>, a: usize, b: usize, k: Kind, c: usize)
    ensures
        parents_of(with_pair(links, a, b, k), c) == if a != b && !has_link(links, a, k, b) && (
        k == Kind::Parent && c == b || k == Kind::Child && c == a) {
            seq![if k == Kind::Parent { a } else { b }] + parents_of(links, c)
        } else {
            parents_of(links, c)
        },
{
    let forth = Link { source: a, kind: k, target: b };
    if a == b || links.contains(forth) {
    } else {
        let first = match k {
            Kind::Parent | Kind::Child => forth,
            Kind::Sibling | Kind::RP => forth.inverse(),
        };
        lemma_inverse_twice(forth);
        lemma_parents_of_push(links, first, c);
        lemma_parents_of_push(links.push(first), first.inverse(), c);
    }
}

/// Adding a pair of links to a graph that holds the inverse of each link
/// keeps every link that was there, and adds the link and its inverse,
/// unless it is a link to oneself.
pub proof fn lemma_with_pair_contains(links: Seq<Link>, a: usize, b: usize, k: Kind, l: Link)
    requires
        forall|i: int| 0 <= i < links.len() ==> links.contains((#[trigger] links[i]).inverse()),
    ensures
        with_pair(links, a, b, k).contains(l) <==> (links.contains(l) || (a != b && (l == Link {
            source: a,
            kind: k,
            target: b,
        } || l == Link { source: b, kind: k.inverse(), target: a }))),
{
    let forth = Link { source: a, kind: k, target: b };
    if links.contains(forth) {
        let i = choose|i: int| 0 <= i < links.len() && links[i] == forth;
        assert(links.contains(links[i].inverse()));
    }
    let first = match k {
        Kind::Parent | Kind::Child => forth,
        Kind::Sibling | Kind::RP => forth.inverse(),
    };
    lemma_inverse_twice(forth);
    lemma_push_contains(links, first, l);
    lemma_push_contains(links.push(first), first.inverse(), l);
}

/// A parent is a person of the graph, and not the child itself.
pub proof fn lemma_parent_in_range(links: Seq<Link>, n: nat, c: usize, i: int)
    requires
        links_wf(links, n),
        0 <= i < parents_of(links, c).len(),
    ensures
        parents_of(links, c)[i] < n,
        parents_of(links, c)[i] != c,
        has_link(links, c, Kind::Child, parents_of(links, c)[i]),
{
    reveal(links_wf);
    let other = parents_of(links, c)[i];
    assert(parents_of(links, c).contains(other));
    lemma_parents_of_contains(links, c, other);
    let l = Link { source: c, kind: Kind::Child, target: other };
    let j = choose|j: int| 0 <= j < links.len() && links[j] == l;
    assert(links[j].target < n);
}

/// A graph without links is well formed.
pub proof fn lemma_no_links_wf(n: nat)
    ensures
        links_wf(Seq::<Link>::empty(), n),
{
    reveal(links_wf);
    let links = Seq::<Link>::empty();
    assert forall|c: usize| (#[trigger] parents_of(links, c)).len() <= 2 by {
        assert(out_links(links, c) =~= Seq::<Link>::empty());
    }
}

/// A well-formed graph stays so when persons are added.
pub proof fn lemma_links_wf_grows(links: Seq<Link>, n: nat, m: nat)
    requires
        links_wf(links, n),
        n <= m,
    ensures
        links_wf(links, m),
{
    reveal(links_wf);
}

/// Whatever a well-formed graph does on a request to add a parent, it stays
/// well formed.
pub proof fn lemma_parent_added_wf(links: Seq<Link>, n: nat, p: usize, c: usize)
    requires
        links_wf(links, n),
        p < n,
        c < n,
    ensures
        parent_added(links, p, c) matches Ok(after) ==> links_wf(after, n),
{
    let parents = parents_of(links, c);
    if parent_added(links, p, c) is Ok {
        if parents.len() == 1 {
            let other = parents[0];
            lemma_parent_in_range(links, n, c, 0);
            lemma_with_pair_wf(links, n, p, other, Kind::RP);
            let mid = with_pair(links, p, other, Kind::RP);
            lemma_with_pair_parents(links, p, other, Kind::RP, c);
            lemma_with_pair_wf(mid, n, p, c, Kind::Parent);
        } else {
            lemma_with_pair_wf(links, n, p, c, Kind::Parent);
        }
    }
}

/// Whatever a well-formed graph does on a request to add a relation, it
/// stays well formed.
pub proof fn lemma_relation_added_wf(links: Seq<Link>, n: nat, a: usize, b: usize, k: Kind)
    requires
        links_wf(links, n),
        a < n,
        b < n,
    ensures
        relation_added(links, a, b, k) matches Ok(after) ==> links_wf(after, n),
{
    match k {
        Kind::Parent => lemma_parent_added_wf(links, n, a, b),
        Kind::Child => lemma_parent_added_wf(links, n, b, a),
        Kind::Sibling | Kind::RP => {
            if a != b {
                lemma_with_pair_wf(links, n, a, b, k);
            }
        },
    }
}

/// Whether `l` is in `links` at exactly one place.
pub open spec fn occurs_once(links: Seq<Link>, l: Link) -> bool {
    exists|j: int|
        0 <= j < links.len() && #[trigger] links[j] == l && forall|m: int|
            0 <= m < links.len() && #[trigger] links[m] == l ==> m == j
}

/// No link joins a person to itself, and every link joins persons of the
/// graph.
pub proof fn lemma_no_self_link(links: Seq<Link>, n: nat, l: Link)
    requires
        links_wf(links, n),
        links.contains(l),
    ensures
        l.source != l.target,
        l.source < n,
        l.target < n,
{
    reveal(links_wf);
    let i = choose|i: int| 0 <= i < links.len() && links[i] == l;
    assert(links[i].source != links[i].target);
}

/// A relation of a person to itself is refused, whatever its kind.
pub proof fn lemma_self_relation_refused(links: Seq<Link>, a: usize, k: Kind)
    ensures
        relation_added(links, a, a, k) == Err::<Seq<Link>, KinError>(
            KinError::SelfCycle { index: a },
        ),
{
}

/// Nobody has more than two parents.
pub proof fn lemma_at_most_two_parents(links: Seq<Link>, n: nat, c: usize)
    requires
        links_wf(links, n),
    ensures
        parents_of(links, c).len() <= 2,
{
    reveal(links_wf);
}

/// For every link the graph holds exactly one inverse link, and the link
/// itself once.
pub proof fn lemma_one_inverse(links: Seq<Link>, n: nat, l: Link)
    requires
        links_wf(links, n),
        links.contains(l),
    ensures
        occurs_once(links, l),
        occurs_once(links, l.inverse()),
{
    reveal(links_wf);
    let i = choose|i: int| 0 <= i < links.len() && links[i] == l;
    assert(links.contains(links[i].inverse()));
    let j = choose|j: int| 0 <= j < links.len() && links[j] == l.inverse();
    assert(links[j] == l.inverse());
    assert(links[i] == l);
}

/// Making two persons siblings, or partners, a second time changes
/// nothing: after the first time the graph holds the link once in each
/// direction, and the second time leaves it as it is.
pub proof fn lemma_symmetric_twice(links: Seq<Link>, n: nat, a: usize, b: usize, k: Kind)
    requires
        links_wf(links, n),
        a < n,
        b < n,
        a != b,
        k == Kind::Sibling || k == Kind::RP,
    ensures
        relation_added(links, a, b, k) matches Ok(once) && relation_added(once, a, b, k) == Ok::<
            Seq<Link>,
            KinError,
        >(once) && occurs_once(once, Link { source: a, kind: k, target: b }) && occurs_once(
            once,
            Link { source: b, kind: k, target: a },
        ),
{
    let once = with_pair(links, a, b, k);
    let forth = Link { source: a, kind: k, target: b };
    lemma_with_pair_wf(links, n, a, b, k);
    assert(forall|i: int| 0 <= i < links.len() ==> links.contains((#[trigger] links[i]).inverse()))
        by {
        reveal(links_wf);
    }
    lemma_with_pair_contains(links, a, b, k, forth);
    lemma_one_inverse(once, n, forth);
}

} // verus!
