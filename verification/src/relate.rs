//! From routes to kinship terms: each route between two persons is read by
//! the state machine, and the states reached are collected.
use crate::graph::KinGraph;
use crate::paths::{
    all_routes, hop_target, is_route, lemma_all_routes, lemma_route_in_range, routes_view,
};
use crate::person::{Kind, Person};
use crate::states::{stop, State, StateMachine, StopState, MAX_RANK};
use vstd::prelude::*;

verus! {

/// Hop `i` of `path` as the state machine reads it: the person visited
/// before the hop's own (`origin` on the first hop), the kind of the hop,
/// and the person that it leads to.
pub open spec fn hop_of(path: Seq<(usize, Kind)>, i: int, origin: usize, goal: usize) -> (
    usize,
    Kind,
    usize,
) {
    (
        if i == 0 {
            origin
        } else {
            path[i - 1].0
        },
        path[i].1,
        hop_target(path, i, goal),
    )
}

/// The state of a fresh machine after the first `hops` hops of `path`.
pub open spec fn state_after(
    kg: &KinGraph,
    origin: usize,
    goal: usize,
    path: Seq<(usize, Kind)>,
    hops: nat,
) -> Option<State>
    decreases hops,
{
    if hops == 0 {
        None
    } else {
        Some(
            StateMachine::after(
                state_after(kg, origin, goal, path, (hops - 1) as nat),
                hop_of(path, hops - 1, origin, goal),
                kg,
            ),
        )
    }
}

/// The state that a fresh machine reaches over `path`.
pub open spec fn route_state(kg: &KinGraph, origin: usize, goal: usize, path: Seq<(usize, Kind)>) -> State {
    state_after(kg, origin, goal, path, path.len()).unwrap()
}

/// The states reached over `routes`, each once, in the order in which they
/// first occur, and without `Stop`.
pub open spec fn terms_of(
    kg: &KinGraph,
    origin: usize,
    goal: usize,
    routes: Seq<Seq<(usize, Kind)>>,
) -> Seq<State>
    decreases routes.len(),
{
    if routes.len() == 0 {
        Seq::empty()
    } else {
        let before = terms_of(kg, origin, goal, routes.drop_last());
        let s = route_state(kg, origin, goal, routes.last());
        if s == stop() || before.contains(s) {
            before
        } else {
            before.push(s)
        }
    }
}

/// What the person at `a` is to the person at `b`: `Stop` alone for a
/// person and itself and for two persons that no route joins, and else the
/// states reached over the routes from `a` to `b`.
pub open spec fn relationships(kg: &KinGraph, a: usize, b: usize) -> Seq<State> {
    let routes = all_routes(kg.links(), kg.persons().len(), a, b);
    if a == b || routes.len() == 0 {
        seq![stop()]
    } else {
        terms_of(kg, a, b, routes)
    }
}

/// Once a machine is in `Stop` it stays there.
proof fn lemma_stop_stays(
    kg: &KinGraph,
    origin: usize,
    goal: usize,
    path: Seq<(usize, Kind)>,
    at: nat,
    hops: nat,
)
    requires
        at <= hops,
        state_after(kg, origin, goal, path, at) == Some(stop()),
    ensures
        state_after(kg, origin, goal, path, hops) == Some(stop()),
    decreases hops,
{
    if at < hops {
        lemma_stop_stays(kg, origin, goal, path, at, (hops - 1) as nat);
    }
}

/// Whether `states` holds `s`.
fn holds(states: &Vec<State>, s: State) -> (res: bool)
    ensures
        res == states@.contains(s),
{
    let mut i: usize = 0;
    while i < states.len()
        invariant
            i <= states.len(),
            forall|j: int| 0 <= j < i ==> states[j] != s,
        decreases states.len() - i,
    {
        if states[i] == s {
            return true;
        }
        i = i + 1;
    }
    false
}

impl KinGraph {
    /// Reads `path`, a path from the person at `p1` to the person at `p2`,
    /// with a fresh state machine and returns the state reached.
    pub fn calculate_cr_single_path(&self, p1: usize, path: &Vec<(usize, Kind)>, p2: usize) -> (s:
        State)
        requires
            self.wf(),
            0 < path.len() <= MAX_RANK + 1,
            p1 < self.persons().len(),
            forall|i: int| 0 <= i < path.len() ==> (#[trigger] path[i]).0 < self.persons().len(),
        ensures
            s == route_state(self, p1, p2, path@),
    {
        let mut sm = StateMachine::new();
        let mut cur_idx: usize = p1;
        let mut i: usize = 0;
        while i < path.len()
            invariant
                i <= path.len(),
                0 < path.len() <= MAX_RANK + 1,
                self.wf(),
                p1 < self.persons().len(),
                forall|j: int| 0 <= j < path.len() ==> (#[trigger] path[j]).0 < self.persons().len(),
                cur_idx == hop_of(path@, i as int, p1, p2).0,
                sm.state() == state_after(self, p1, p2, path@, i as nat),
                i > 0 ==> sm.state().unwrap().rank() < i,
            decreases path.len() - i,
        {
            let node: usize = path[i].0;
            let kind = path[i].1;
            let to: usize = if i + 1 < path.len() {
                path[i + 1].0
            } else {
                p2
            };
            assert((cur_idx, kind, to) == hop_of(path@, i as int, p1, p2));
            assert(cur_idx < self.persons().len()) by {
                if i > 0 {
                    assert(path[i - 1].0 < self.persons().len());
                }
            }
            if sm.transition((cur_idx, kind, to), self).is_some() {
                cur_idx = node;
            } else {
                proof {
                    lemma_stop_stays(self, p1, p2, path@, i as nat, path.len() as nat);
                }
                return sm.get_current_state();
            }
            i = i + 1;
        }
        sm.get_current_state()
    }

    /// Calculates the relationships between two persons: what `p1` is to
    /// `p2`.
    pub fn get_canonical_relationships(&self, p1: &Person, p2: &Person) -> (names: Vec<State>)
        requires
            self.wf(),
            self.knows(p1),
            self.knows(p2),
            self.persons().len() <= MAX_RANK + 2,
        ensures
            names@ == relationships(self, self.position(p1), self.position(p2)),
            p1.spec_id() == p2.spec_id() ==> names@ == seq![stop()],
    {
        let a: usize = match self.idx(p1) {
            Some(ix) => ix,
            None => 0,
        };
        let b: usize = match self.idx(p2) {
            Some(ix) => ix,
            None => 0,
        };
        assert(self.index().contains_key(p1.spec_id()));
        let mut names: Vec<State> = Vec::new();
        if a == b {
            names.push(State::Stop(StopState {  }));
            assert(names@ =~= seq![stop()]);
            return names;
        }
        let paths = self.find_all_paths_at(a, b);
        if paths.len() == 0 {
            names.push(State::Stop(StopState {  }));
            assert(names@ =~= seq![stop()]);
            return names;
        }
        let ghost routes = routes_view(paths@);
        let mut i: usize = 0;
        assert(routes.take(0) =~= Seq::<Seq<(usize, Kind)>>::empty());
        while i < paths.len()
            invariant
                i <= paths.len(),
                self.wf(),
                a != b,
                a < self.persons().len(),
                self.persons().len() <= MAX_RANK + 2,
                routes == routes_view(paths@),
                routes == all_routes(self.links(), self.persons().len(), a, b),
                names@ == terms_of(self, a, b, routes.take(i as int)),
            decreases paths.len() - i,
        {
            let path = &paths[i];
            proof {
                assert(routes[i as int] == path@);
                assert(routes.contains(path@));
                lemma_all_routes(self.links(), self.persons().len(), a, b, path@);
                lemma_route_in_range(self.links(), self.persons().len(), a, b, path@);
                assert(routes.take(i + 1).drop_last() =~= routes.take(i as int));
                assert(routes.take(i + 1).last() == path@);
            }
            let s = self.calculate_cr_single_path(a, path, b);
            if !s.is_stop() && !holds(&names, s) {
                names.push(s);
            }
            i = i + 1;
        }
        assert(routes.take(paths.len() as int) =~= routes);
        names
    }
}

/// The states collected from routes are the states reached over them, but
/// for `Stop`, and none of them is collected twice.
pub proof fn lemma_terms_of(
    kg: &KinGraph,
    origin: usize,
    goal: usize,
    routes: Seq<Seq<(usize, Kind)>>,
    s: State,
)
    ensures
        terms_of(kg, origin, goal, routes).no_duplicates(),
        terms_of(kg, origin, goal, routes).contains(s) <==> s != stop() && exists|i: int|
            0 <= i < routes.len() && route_state(kg, origin, goal, #[trigger] routes[i]) == s,
    decreases routes.len(),
{
    if routes.len() > 0 {
        let shorter = routes.drop_last();
        let before = terms_of(kg, origin, goal, shorter);
        let last = route_state(kg, origin, goal, routes.last());
        lemma_terms_of(kg, origin, goal, shorter, s);
        let found = exists|i: int|
            0 <= i < routes.len() && route_state(kg, origin, goal, #[trigger] routes[i]) == s;
        if before.contains(s) {
            let i = choose|i: int|
                0 <= i < shorter.len() && route_state(kg, origin, goal, #[trigger] shorter[i]) == s;
            assert(routes[i] == shorter[i]);
        }
        if found && s != last {
            let i = choose|i: int|
                0 <= i < routes.len() && route_state(kg, origin, goal, #[trigger] routes[i]) == s;
            assert(shorter[i] == routes[i]);
        }
        if last == s {
            assert(routes[routes.len() - 1] == routes.last());
        }
        if !(last == stop() || before.contains(last)) {
            crate::links::lemma_push_no_duplicates(before, last);
            crate::links::lemma_push_contains(before, last, s);
        }
    }
}

/// Reading a route again gives the state that was collected for it: the
/// state reached over a route from `a` to another person `b` is `Stop`, or
/// it is among their relationships.
pub proof fn lemma_replay(kg: &KinGraph, a: usize, b: usize, path: Seq<(usize, Kind)>)
    requires
        a != b,
        is_route(kg.links(), kg.persons().len(), a, b, path),
    ensures
        route_state(kg, a, b, path) == stop() || relationships(kg, a, b).contains(
            route_state(kg, a, b, path),
        ),
{
    let routes = all_routes(kg.links(), kg.persons().len(), a, b);
    lemma_all_routes(kg.links(), kg.persons().len(), a, b, path);
    let i = choose|i: int| 0 <= i < routes.len() && routes[i] == path;
    lemma_terms_of(kg, a, b, routes, route_state(kg, a, b, path));
}

} // verus!
