//! The routes between two persons: every path along the links on which no
//! person occurs twice.
//!
//! A route is written as its hops: each person visited, with the kind of
//! the link taken from there. The person that the last hop reaches is the
//! goal and is not written. A route over a graph of `n` persons has at most
//! `n - 1` hops.
use crate::graph::KinGraph;
use crate::links::{has_link, lemma_out_links_contains, lemma_out_links_source, links_wf};
use crate::person::{Kind, Link, Person};
use crate::store::out_links;
use vstd::prelude::*;

verus! {

/// The routes that a list of paths holds.
pub open spec fn routes_view(paths: Seq<Vec<(usize, Kind)>>) -> Seq<Seq<(usize, Kind)>> {
    paths.map_values(|p: Vec<(usize, Kind)>| p@)
}

/// Whether `trail` visits `x`.
pub open spec fn visits(trail: Seq<(usize, Kind)>, x: usize) -> bool {
    exists|i: int| 0 <= i < trail.len() && (#[trigger] trail[i]).0 == x
}

/// The routes to `goal` that begin with `trail` and go on from `at` over
/// one of `edges`, links that leave `at`: in the order of the edges, and
/// for each edge in the order of the links that leave its target. An edge
/// to the goal ends a route. Another edge is followed unless it leads back
/// to a person of the trail, or the route would get longer than `n - 1`
/// hops.
pub open spec fn routes_over(
    links: Seq<Link>,
    n: nat,
    trail: Seq<(usize, Kind)>,
    at: usize,
    goal: usize,
    edges: Seq<Link>,
) -> Seq<Seq<(usize, Kind)>>
    decreases n - trail.len(), 1nat, edges.len(),
{
    if edges.len() == 0 {
        Seq::empty()
    } else {
        routes_by(links, n, trail, at, goal, edges[0]) + routes_over(
            links,
            n,
            trail,
            at,
            goal,
            edges.skip(1),
        )
    }
}

/// The routes to `goal` that begin with `trail` and go on from `at` over
/// the link `e`.
pub open spec fn routes_by(
    links: Seq<Link>,
    n: nat,
    trail: Seq<(usize, Kind)>,
    at: usize,
    goal: usize,
    e: Link,
) -> Seq<Seq<(usize, Kind)>>
    decreases n - trail.len(), 0nat, 0nat,
{
    let step = trail.push((at, e.kind));
    if step.len() >= n {
        Seq::empty()
    } else if e.target == goal {
        seq![step]
    } else if e.target == at || visits(trail, e.target) || step.len() + 1 >= n {
        Seq::empty()
    } else {
        routes_over(links, n, step, e.target, goal, out_links(links, e.target))
    }
}

/// The routes from `a` to `b` over a graph of `n` persons. From a person to
/// itself there is one route, without a hop.
pub open spec fn all_routes(links: Seq<Link>, n: nat, a: usize, b: usize) -> Seq<
    Seq<(usize, Kind)>,
> {
    if a == b {
        seq![Seq::empty()]
    } else {
        routes_over(links, n, Seq::empty(), a, b, out_links(links, a))
    }
}

/// Whether `trail` visits `x`.
fn visited(trail: &Vec<(usize, Kind)>, x: usize) -> (res: bool)
    ensures
        res == visits(trail@, x),
{
    let mut i: usize = 0;
    while i < trail.len()
        invariant
            i <= trail.len(),
            forall|j: int| 0 <= j < i ==> (#[trigger] trail[j]).0 != x,
        decreases trail.len() - i,
    {
        if trail[i].0 == x {
            return true;
        }
        i = i + 1;
    }
    false
}

/// A copy of `trail` with one more hop.
fn extended(trail: &Vec<(usize, Kind)>, at: usize, kind: Kind) -> (step: Vec<(usize, Kind)>)
    ensures
        step@ == trail@.push((at, kind)),
{
    let mut step: Vec<(usize, Kind)> = Vec::new();
    let mut i: usize = 0;
    while i < trail.len()
        invariant
            i <= trail.len(),
            step@ == trail@.take(i as int),
        decreases trail.len() - i,
    {
        step.push(trail[i]);
        assert(trail@.take(i + 1) =~= trail@.take(i as int).push(trail[i as int]));
        i = i + 1;
    }
    assert(trail@.take(trail.len() as int) =~= trail@);
    step.push((at, kind));
    step
}

impl KinGraph {
    /// The routes to `goal` that begin with `trail` and go on from `at`.
    fn routes_onward(&self, n: usize, trail: &Vec<(usize, Kind)>, at: usize, goal: usize) -> (out:
        Vec<Vec<(usize, Kind)>>)
        requires
            trail.len() < n,
        ensures
            routes_view(out@) == routes_over(
                self.links(),
                n as nat,
                trail@,
                at,
                goal,
                out_links(self.links(), at),
            ),
        decreases n - trail.len(),
    {
        let edges = self.links_from(at);
        let mut out: Vec<Vec<(usize, Kind)>> = Vec::new();
        let mut i: usize = 0;
        let ghost links = self.links();
        assert(edges@.skip(0) =~= edges@);
        assert(routes_view(out@) =~= Seq::<Seq<(usize, Kind)>>::empty());
        assert(routes_view(out@) + routes_over(links, n as nat, trail@, at, goal, edges@)
            =~= routes_over(links, n as nat, trail@, at, goal, edges@));
        while i < edges.len()
            invariant
                i <= edges.len(),
                trail.len() < n,
                links == self.links(),
                routes_view(out@) + routes_over(
                    links,
                    n as nat,
                    trail@,
                    at,
                    goal,
                    edges@.skip(i as int),
                ) == routes_over(links, n as nat, trail@, at, goal, edges@),
            decreases edges.len() - i,
        {
            let e = edges[i];
            let ghost before = routes_view(out@);
            let ghost rest = routes_over(links, n as nat, trail@, at, goal, edges@.skip(i + 1));
            let ghost found = routes_by(links, n as nat, trail@, at, goal, e);
            proof {
                assert(edges@.skip(i as int)[0] == e);
                assert(edges@.skip(i as int).skip(1) =~= edges@.skip(i + 1));
                assert(routes_over(links, n as nat, trail@, at, goal, edges@.skip(i as int))
                    == found + rest);
            }
            let step = extended(trail, at, e.kind);
            if e.target == goal {
                if step.len() < n {
                    out.push(step);
                    assert(routes_view(out@) =~= before + seq![step@]);
                }
            } else if e.target == at || visited(trail, e.target) || step.len() >= n - 1 {
            } else {
                let mut more = self.routes_onward(n, &step, e.target, goal);
                let ghost added = routes_view(more@);
                out.append(&mut more);
                assert(routes_view(out@) =~= before + added);
            }
            proof {
                assert(routes_view(out@) == before + found);
                assert((before + found) + rest =~= before + (found + rest));
            }
            i = i + 1;
        }
        assert(edges@.skip(edges.len() as int) =~= Seq::<Link>::empty());
        assert(routes_view(out@) + Seq::<Seq<(usize, Kind)>>::empty() =~= routes_view(out@));
        out
    }

    /// The routes from the person at `a` to the person at `b`.
    pub fn find_all_paths_at(&self, a: usize, b: usize) -> (paths: Vec<Vec<(usize, Kind)>>)
        ensures
            routes_view(paths@) == all_routes(self.links(), self.persons().len(), a, b),
            a == b ==> routes_view(paths@) == seq![Seq::<(usize, Kind)>::empty()],
            a != b ==> forall|path: Seq<(usize, Kind)>| #[trigger]
                routes_view(paths@).contains(path) <==> is_route(
                    self.links(),
                    self.persons().len(),
                    a,
                    b,
                    path,
                ),
            self.wf() ==> routes_view(paths@).no_duplicates(),
    {
        proof {
            if self.wf() {
                reveal(links_wf);
                lemma_all_routes_distinct(self.links(), self.persons().len(), a, b);
            }
        }
        let mut paths: Vec<Vec<(usize, Kind)>> = Vec::new();
        if a == b {
            paths.push(Vec::new());
            assert(routes_view(paths@) =~= seq![Seq::<(usize, Kind)>::empty()]);
            return paths;
        }
        proof {
            assert forall|path: Seq<(usize, Kind)>|
                (#[trigger] all_routes(self.links(), self.persons().len(), a, b).contains(path))
                    == is_route(self.links(), self.persons().len(), a, b, path) by {
                lemma_all_routes(self.links(), self.persons().len(), a, b, path);
            }
        }
        let n: usize = self.person_count();
        if n == 0 {
            assert(routes_view(paths@) =~= Seq::<Seq<(usize, Kind)>>::empty());
            proof {
                lemma_no_routes_without_room(
                    self.links(),
                    Seq::empty(),
                    a,
                    b,
                    out_links(self.links(), a),
                );
            }
            return paths;
        }
        let trail: Vec<(usize, Kind)> = Vec::new();
        let paths = self.routes_onward(n, &trail, a, b);
        assert(routes_view(paths@) == all_routes(self.links(), self.persons().len(), a, b));
        paths
    }

    /// Finds all routes between two persons.
    pub fn find_all_paths(&self, p1: &Person, p2: &Person) -> (paths: Vec<Vec<(usize, Kind)>>)
        requires
            self.knows(p1),
            self.knows(p2),
        ensures
            routes_view(paths@) == all_routes(
                self.links(),
                self.persons().len(),
                self.position(p1),
                self.position(p2),
            ),
            self.position(p1) == self.position(p2) ==> routes_view(paths@) == seq![
                Seq::<(usize, Kind)>::empty(),
            ],
            self.position(p1) != self.position(p2) ==> forall|path: Seq<(usize, Kind)>| #[trigger]
                routes_view(paths@).contains(path) <==> is_route(
                    self.links(),
                    self.persons().len(),
                    self.position(p1),
                    self.position(p2),
                    path,
                ),
            self.wf() ==> routes_view(paths@).no_duplicates(),
    {
        let a: usize = match self.idx(p1) {
            Some(ix) => ix,
            None => 0,
        };
        let b: usize = match self.idx(p2) {
            Some(ix) => ix,
            None => 0,
        };
        self.find_all_paths_at(a, b)
    }
}

/// Over a graph without persons there is no route.
proof fn lemma_no_routes_without_room(
    links: Seq<Link>,
    trail: Seq<(usize, Kind)>,
    at: usize,
    goal: usize,
    edges: Seq<Link>,
)
    ensures
        routes_over(links, 0, trail, at, goal, edges) == Seq::<Seq<(usize, Kind)>>::empty(),
    decreases edges.len(),
{
    if edges.len() > 0 {
        lemma_no_routes_without_room(links, trail, at, goal, edges.skip(1));
        assert(routes_by(links, 0, trail, at, goal, edges[0]) =~= Seq::<
            Seq<(usize, Kind)>,
        >::empty());
    }
}

/// The person that hop `i` of `path` leads to: the person of the next hop,
/// and `goal` for the last hop.
pub open spec fn hop_target(path: Seq<(usize, Kind)>, i: int, goal: usize) -> usize {
    if i + 1 < path.len() {
        path[i + 1].0
    } else {
        goal
    }
}

/// Whether hop `i` of `path` follows a link of the graph.
pub open spec fn valid_hop(links: Seq<Link>, path: Seq<(usize, Kind)>, i: int, goal: usize) -> bool {
    has_link(links, path[i].0, path[i].1, hop_target(path, i, goal))
}

/// Whether `path` has fewer than `n` hops, visits no person twice and does
/// not visit `goal`, and follows a link with each hop from hop `from` on.
pub open spec fn route_tail(
    links: Seq<Link>,
    n: nat,
    goal: usize,
    path: Seq<(usize, Kind)>,
    from: int,
) -> bool {
    &&& path.len() < n
    &&& forall|i: int| from <= i < path.len() ==> #[trigger] valid_hop(links, path, i, goal)
    &&& forall|i: int, j: int|
        0 <= i < j < path.len() ==> (#[trigger] path[i]).0 != (#[trigger] path[j]).0
    &&& forall|i: int| 0 <= i < path.len() ==> (#[trigger] path[i]).0 != goal
}

/// Whether `path` is a route from `a` to `b`: it starts at `a`, follows a
/// link with each hop, the last of them to `b`, visits no person twice, and
/// has fewer than `n` hops.
pub open spec fn is_route(links: Seq<Link>, n: nat, a: usize, b: usize, path: Seq<(usize, Kind)>) -> bool {
    &&& path.len() > 0
    &&& path[0].0 == a
    &&& route_tail(links, n, b, path, 0)
}

/// Whether `path` begins with `trail`, goes on from `at`, and is a route
/// from there on.
pub open spec fn continues(
    links: Seq<Link>,
    n: nat,
    trail: Seq<(usize, Kind)>,
    at: usize,
    goal: usize,
    path: Seq<(usize, Kind)>,
) -> bool {
    &&& path.len() > trail.len()
    &&& path.take(trail.len() as int) == trail
    &&& path[trail.len() as int].0 == at
    &&& route_tail(links, n, goal, path, trail.len() as int)
}

/// Whether a search that has come along `trail` to `at` is on a route: the
/// trail visits no person twice, and neither `at` nor `goal`.
pub open spec fn on_route(trail: Seq<(usize, Kind)>, at: usize, goal: usize) -> bool {
    &&& forall|i: int, j: int|
        0 <= i < j < trail.len() ==> (#[trigger] trail[i]).0 != (#[trigger] trail[j]).0
    &&& !visits(trail, at)
    &&& !visits(trail, goal)
    &&& at != goal
}

proof fn lemma_concat_contains<A>(s: Seq<A>, t: Seq<A>, v: A)
    ensures
        (s + t).contains(v) <==> (s.contains(v) || t.contains(v)),
{
    if s.contains(v) {
        let i = choose|i: int| 0 <= i < s.len() && s[i] == v;
        assert((s + t)[i] == v);
    }
    if t.contains(v) {
        let i = choose|i: int| 0 <= i < t.len() && t[i] == v;
        assert((s + t)[s.len() + i] == v);
    }
    if (s + t).contains(v) {
        let i = choose|i: int| 0 <= i < (s + t).len() && (s + t)[i] == v;
        if i < s.len() {
            assert(s[i] == v);
        } else {
            assert(t[i - s.len()] == v);
        }
    }
}

/// One hop further on a route, the search is on a route still.
proof fn lemma_on_route_step(trail: Seq<(usize, Kind)>, at: usize, goal: usize, k: Kind, to: usize)
    requires
        on_route(trail, at, goal),
        to != goal,
        to != at,
        !visits(trail, to),
    ensures
        on_route(trail.push((at, k)), to, goal),
{
    let step = trail.push((at, k));
    assert forall|i: int, j: int| 0 <= i < j < step.len() implies (#[trigger] step[i]).0 != (
    #[trigger] step[j]).0 by {
        if j == trail.len() {
            assert(trail[i].0 != at);
        } else {
            assert(trail[i].0 != trail[j].0);
        }
    }
    assert forall|i: int| 0 <= i < step.len() implies (#[trigger] step[i]).0 != to && step[i].0
        != goal by {
        if i < trail.len() {
            assert(trail[i].0 != to);
            assert(trail[i].0 != goal);
        }
    }
}

/// Every path that the search finds is a route.
proof fn lemma_routes_sound(
    links: Seq<Link>,
    n: nat,
    trail: Seq<(usize, Kind)>,
    at: usize,
    goal: usize,
    edges: Seq<Link>,
    path: Seq<(usize, Kind)>,
)
    requires
        on_route(trail, at, goal),
        forall|i: int| 0 <= i < edges.len() ==> (#[trigger] edges[i]).source == at && links.contains(edges[i]),
        routes_over(links, n, trail, at, goal, edges).contains(path),
    ensures
        continues(links, n, trail, at, goal, path),
    decreases n - trail.len(), edges.len(),
{
    let e = edges[0];
    let first = routes_by(links, n, trail, at, goal, e);
    let rest = routes_over(links, n, trail, at, goal, edges.skip(1));
    lemma_concat_contains(first, rest, path);
    if first.contains(path) {
        let step = trail.push((at, e.kind));
        assert(links.contains(e));
        assert(e == Link { source: at, kind: e.kind, target: e.target });
        if e.target == goal {
            assert(path == step);
            assert(path.take(trail.len() as int) =~= trail);
            assert forall|i: int| trail.len() <= i < path.len() implies #[trigger] valid_hop(
                links,
                path,
                i,
                goal,
            ) by {}
            assert forall|i: int, j: int| 0 <= i < j < path.len() implies (#[trigger] path[i]).0
                != (#[trigger] path[j]).0 by {
                if j == trail.len() {
                    assert(trail[i].0 != at);
                } else {
                    assert(trail[i].0 != trail[j].0);
                }
            }
            assert forall|i: int| 0 <= i < path.len() implies (#[trigger] path[i]).0 != goal by {
                if i < trail.len() {
                    assert(trail[i].0 != goal);
                }
            }
        } else {
            lemma_on_route_step(trail, at, goal, e.kind, e.target);
            lemma_out_links_source(links, e.target);
            lemma_routes_sound(links, n, step, e.target, goal, out_links(links, e.target), path);
            assert(path.take(trail.len() as int) =~= path.take(step.len() as int).take(
                trail.len() as int,
            ));
            assert(step.take(trail.len() as int) =~= trail);
            assert(path[trail.len() as int] == path.take(step.len() as int)[trail.len() as int]);
            assert forall|i: int| trail.len() <= i < path.len() implies #[trigger] valid_hop(
                links,
                path,
                i,
                goal,
            ) by {
                if i == trail.len() {
                    assert(hop_target(path, i, goal) == e.target);
                }
            }
        }
    } else {
        assert forall|i: int| 0 <= i < edges.skip(1).len() implies (#[trigger] edges.skip(
            1,
        )[i]).source == at && links.contains(edges.skip(1)[i]) by {
            assert(edges.skip(1)[i] == edges[i + 1]);
        }
        lemma_routes_sound(links, n, trail, at, goal, edges.skip(1), path);
    }
}

/// The search finds every route.
proof fn lemma_routes_complete(
    links: Seq<Link>,
    n: nat,
    trail: Seq<(usize, Kind)>,
    at: usize,
    goal: usize,
    edges: Seq<Link>,
    path: Seq<(usize, Kind)>,
)
    requires
        continues(links, n, trail, at, goal, path),
        edges.contains(
            Link {
                source: at,
                kind: path[trail.len() as int].1,
                target: hop_target(path, trail.len() as int, goal),
            },
        ),
    ensures
        routes_over(links, n, trail, at, goal, edges).contains(path),
    decreases n - trail.len(), edges.len(),
{
    let m = trail.len() as int;
    let k = path[m].1;
    let to = hop_target(path, m, goal);
    let l = Link { source: at, kind: k, target: to };
    let e = edges[0];
    let first = routes_by(links, n, trail, at, goal, e);
    let rest = routes_over(links, n, trail, at, goal, edges.skip(1));
    lemma_concat_contains(first, rest, path);
    if e == l {
        let step = trail.push((at, k));
        assert(step =~= path.take(m + 1)) by {
            assert(path.take(m) == trail);
            assert forall|i: int| 0 <= i < m + 1 implies step[i] == path[i] by {
                if i < m {
                    assert(path.take(m)[i] == path[i]);
                }
            }
        }
        if m + 1 == path.len() {
            assert(path.take(m + 1) =~= path);
            assert(first[0] == path);
        } else {
            assert(path[m + 1].0 != goal);
            assert(path[m].0 != path[m + 1].0);
            assert(!visits(trail, to)) by {
                if visits(trail, to) {
                    let i = choose|i: int| 0 <= i < trail.len() && (#[trigger] trail[i]).0 == to;
                    assert(path.take(m)[i] == path[i]);
                    assert(path[i].0 != path[m + 1].0);
                }
            }
            assert(valid_hop(links, path, m + 1, goal));
            lemma_out_links_contains(
                links,
                to,
                Link {
                    source: to,
                    kind: path[m + 1].1,
                    target: hop_target(path, m + 1, goal),
                },
            );
            lemma_routes_complete(links, n, step, to, goal, out_links(links, to), path);
        }
    } else {
        let i = choose|i: int| 0 <= i < edges.len() && edges[i] == l;
        assert(edges.skip(1)[i - 1] == l);
        lemma_routes_complete(links, n, trail, at, goal, edges.skip(1), path);
    }
}

/// The routes that the search finds between two different persons are the
/// routes of the graph: each path found is a route, and each route is
/// found.
pub proof fn lemma_all_routes(links: Seq<Link>, n: nat, a: usize, b: usize, path: Seq<(usize, Kind)>)
    requires
        a != b,
    ensures
        all_routes(links, n, a, b).contains(path) <==> is_route(links, n, a, b, path),
{
    let none = Seq::<(usize, Kind)>::empty();
    assert(on_route(none, a, b));
    if all_routes(links, n, a, b).contains(path) {
        lemma_out_links_source(links, a);
        lemma_routes_sound(links, n, none, a, b, out_links(links, a), path);
    }
    if is_route(links, n, a, b, path) {
        assert(path.take(0) =~= none);
        assert(valid_hop(links, path, 0, b));
        lemma_out_links_contains(
            links,
            a,
            Link { source: a, kind: path[0].1, target: hop_target(path, 0, b) },
        );
        lemma_routes_complete(links, n, none, a, b, out_links(links, a), path);
    }
}

/// The persons on a route of a well-formed graph are persons of the graph.
pub proof fn lemma_route_in_range(links: Seq<Link>, n: nat, a: usize, b: usize, path: Seq<(usize, Kind)>)
    requires
        links_wf(links, n),
        is_route(links, n, a, b, path),
    ensures
        a < n,
        b < n,
        forall|i: int| 0 <= i < path.len() ==> (#[trigger] path[i]).0 < n,
{
    reveal(links_wf);
    assert forall|i: int| 0 <= i < path.len() implies (#[trigger] path[i]).0 < n && hop_target(
        path,
        i,
        b,
    ) < n by {
        assert(valid_hop(links, path, i, b));
        let l = Link { source: path[i].0, kind: path[i].1, target: hop_target(path, i, b) };
        let j = choose|j: int| 0 <= j < links.len() && links[j] == l;
        assert(links[j].source < n);
    }
    assert(path[0].0 < n);
    assert(path[path.len() - 1].0 < n);
}

/// The links that leave a person are different links, if the links of the
/// graph are.
proof fn lemma_out_links_distinct(links: Seq<Link>, a: usize)
    requires
        links.no_duplicates(),
    ensures
        out_links(links, a).no_duplicates(),
    decreases links.len(),
{
    if links.len() > 0 {
        let rest = links.drop_last();
        let last = links.last();
        lemma_out_links_distinct(rest, a);
        if last.source == a {
            let tail = out_links(rest, a);
            let all = seq![last] + tail;
            assert forall|i: int, j: int| 0 <= i < all.len() && 0 <= j < all.len() && i != j implies all[i]
                != all[j] by {
                if i > 0 && j > 0 {
                    assert(tail[i - 1] != tail[j - 1]);
                } else {
                    let m = if i == 0 {
                        j
                    } else {
                        i
                    };
                    assert(tail.contains(tail[m - 1]));
                    lemma_out_links_contains(rest, a, tail[m - 1]);
                    let at = choose|at: int| 0 <= at < rest.len() && rest[at] == tail[m - 1];
                    assert(links[at] != links[links.len() - 1]);
                }
            }
        }
    }
}

/// A route that the search finds over one of `edges` is found over it.
proof fn lemma_routes_over_member(
    links: Seq<Link>,
    n: nat,
    trail: Seq<(usize, Kind)>,
    at: usize,
    goal: usize,
    edges: Seq<Link>,
    path: Seq<(usize, Kind)>,
) -> (j: int)
    requires
        routes_over(links, n, trail, at, goal, edges).contains(path),
    ensures
        0 <= j < edges.len(),
        routes_by(links, n, trail, at, goal, edges[j]).contains(path),
    decreases edges.len(),
{
    let first = routes_by(links, n, trail, at, goal, edges[0]);
    let rest = routes_over(links, n, trail, at, goal, edges.skip(1));
    lemma_concat_contains(first, rest, path);
    if first.contains(path) {
        0
    } else {
        let j = lemma_routes_over_member(links, n, trail, at, goal, edges.skip(1), path);
        assert(edges.skip(1)[j] == edges[j + 1]);
        j + 1
    }
}

/// A route that the search finds over `e` goes on with `e`.
proof fn lemma_routes_by_shape(
    links: Seq<Link>,
    n: nat,
    trail: Seq<(usize, Kind)>,
    at: usize,
    goal: usize,
    e: Link,
    path: Seq<(usize, Kind)>,
)
    requires
        on_route(trail, at, goal),
        routes_by(links, n, trail, at, goal, e).contains(path),
    ensures
        path.len() > trail.len(),
        path[trail.len() as int].1 == e.kind,
        hop_target(path, trail.len() as int, goal) == e.target,
{
    let step = trail.push((at, e.kind));
    if e.target == goal {
        assert(path == step);
    } else {
        lemma_on_route_step(trail, at, goal, e.kind, e.target);
        lemma_out_links_source(links, e.target);
        lemma_routes_sound(links, n, step, e.target, goal, out_links(links, e.target), path);
        assert(path.take(step.len() as int)[trail.len() as int] == path[trail.len() as int]);
    }
}

/// The search finds no route twice.
proof fn lemma_routes_distinct(
    links: Seq<Link>,
    n: nat,
    trail: Seq<(usize, Kind)>,
    at: usize,
    goal: usize,
    edges: Seq<Link>,
)
    requires
        on_route(trail, at, goal),
        links.no_duplicates(),
        edges.no_duplicates(),
        forall|i: int| 0 <= i < edges.len() ==> (#[trigger] edges[i]).source == at,
    ensures
        routes_over(links, n, trail, at, goal, edges).no_duplicates(),
    decreases n - trail.len(), edges.len(),
{
    if edges.len() > 0 {
        let e = edges[0];
        let later = edges.skip(1);
        let first = routes_by(links, n, trail, at, goal, e);
        let rest = routes_over(links, n, trail, at, goal, later);
        let step = trail.push((at, e.kind));
        if !(step.len() >= n || e.target == goal || e.target == at || visits(trail, e.target)
            || step.len() + 1 >= n) {
            lemma_on_route_step(trail, at, goal, e.kind, e.target);
            lemma_out_links_distinct(links, e.target);
            lemma_out_links_source(links, e.target);
            lemma_routes_distinct(links, n, step, e.target, goal, out_links(links, e.target));
        }
        assert forall|i: int| 0 <= i < later.len() implies (#[trigger] later[i]).source == at by {
            assert(later[i] == edges[i + 1]);
        }
        assert(later.no_duplicates()) by {
            assert forall|i: int, j: int|
                0 <= i < later.len() && 0 <= j < later.len() && i != j implies later[i]
                != later[j] by {
                assert(edges[i + 1] != edges[j + 1]);
            }
        }
        lemma_routes_distinct(links, n, trail, at, goal, later);
        let all = first + rest;
        assert forall|i: int, j: int| 0 <= i < all.len() && 0 <= j < all.len() && i != j implies all[i]
            != all[j] by {
            if i < first.len() && j < first.len() {
            } else if i >= first.len() && j >= first.len() {
                assert(rest[i - first.len()] != rest[j - first.len()]);
            } else {
                let (x, y) = if i < first.len() {
                    (i, j - first.len())
                } else {
                    (j, i - first.len())
                };
                if first[x] == rest[y] {
                    let path = first[x];
                    assert(first.contains(path));
                    assert(rest.contains(path));
                    lemma_routes_by_shape(links, n, trail, at, goal, e, path);
                    let m = lemma_routes_over_member(links, n, trail, at, goal, later, path);
                    lemma_routes_by_shape(links, n, trail, at, goal, later[m], path);
                    assert(later[m] == edges[m + 1]);
                    assert(edges[m + 1] == edges[0]);
                }
            }
        }
    }
}

/// No route between two persons is found twice, if no link of the graph
/// occurs twice.
pub proof fn lemma_all_routes_distinct(links: Seq<Link>, n: nat, a: usize, b: usize)
    requires
        links.no_duplicates(),
    ensures
        all_routes(links, n, a, b).no_duplicates(),
{
    if a != b {
        let none = Seq::<(usize, Kind)>::empty();
        assert(on_route(none, a, b));
        lemma_out_links_distinct(links, a);
        lemma_out_links_source(links, a);
        lemma_routes_distinct(links, n, none, a, b, out_links(links, a));
    }
}

} // verus!
