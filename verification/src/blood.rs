//! Blood relation: whether some simple path between two persons is a pure
//! chain of ancestors or of descendants.
//!
//! Each hop of a path weighs a prime: the prime of `Parent`, the prime of
//! `Child`, nothing for `Sibling`, and a third prime for a hop that only
//! partners connect. A sum of equal primes is a multiple of that prime, and
//! no path of a realistic length mixes kinds into such a multiple.
use crate::graph::KinGraph;
use crate::links::links_wf;
use crate::person::{Kind, Link, Person, CPRIME, PPRIME, RPRIME};
use crate::store::{is_simple_walk, joined, kinds_between, tuple_windows};
use vstd::prelude::*;

verus! {

/// The weight of the first kind among `kinds` that is not `RP`, and the
/// weight of `RP` where there is none.
pub open spec fn first_blood_weight(kinds: Seq<Kind>) -> nat
    decreases kinds.len(),
{
    if kinds.len() == 0 {
        RPRIME as nat
    } else if kinds[0] != Kind::RP {
        kinds[0].prime()
    } else {
        first_blood_weight(kinds.skip(1))
    }
}

/// The weight of the hop from `a` to `b`: that of the newest link between
/// them that is not a partnership.
pub open spec fn hop_weight(links: Seq<Link>, a: usize, b: usize) -> nat {
    first_blood_weight(kinds_between(links, a, b))
}

/// The sum of the weights of the first `hops` hops of `walk`.
pub open spec fn walk_weight(links: Seq<Link>, walk: Seq<usize>, hops: nat) -> nat
    decreases hops,
{
    if hops == 0 {
        0
    } else {
        walk_weight(links, walk, (hops - 1) as nat) + hop_weight(
            links,
            walk[hops - 1],
            walk[hops as int],
        )
    }
}

/// Whether a sum of weights is that of a pure chain of ancestors or of
/// descendants.
pub open spec fn pure_sum(sum: nat) -> bool {
    sum % (PPRIME as nat) == 0 || sum % (CPRIME as nat) == 0
}

/// Whether `walk` is a pure chain of ancestors or of descendants.
pub open spec fn pure_chain(links: Seq<Link>, walk: Seq<usize>) -> bool {
    pure_sum(walk_weight(links, walk, (walk.len() - 1) as nat))
}

/// Whether `a` and `b` are the same person, or some simple path between
/// them is a pure chain.
pub open spec fn blood_related(links: Seq<Link>, a: usize, b: usize) -> bool {
    a == b || exists|walk: Seq<usize>| #[trigger]
        is_simple_walk(links, a, b, walk) && pure_chain(links, walk)
}

impl KinGraph {
    /// The weight of the hop from `a` to `b`.
    fn hop_prime(&self, a: usize, b: usize) -> (w: usize)
        ensures
            w == hop_weight(self.links(), a, b),
            w <= RPRIME,
    {
        let between = self.kinds_from_to(a, b);
        let mut i: usize = 0;
        assert(between@.skip(0) =~= between@);
        while i < between.len()
            invariant
                i <= between.len(),
                between@ == kinds_between(self.links(), a, b),
                first_blood_weight(between@) == first_blood_weight(between@.skip(i as int)),
            decreases between.len() - i,
        {
            assert(between@.skip(i as int).skip(1) =~= between@.skip(i + 1));
            if between[i] != Kind::RP {
                assert(between@.skip(i as int)[0] == between[i as int]);
                return between[i].get_prime();
            }
            i = i + 1;
        }
        RPRIME
    }

    /// The sum of the weights of the hops of `walk`.
    fn chain_weight(&self, walk: &Vec<usize>) -> (sum: u128)
        requires
            walk.len() >= 1,
        ensures
            sum == walk_weight(self.links(), walk@, (walk.len() - 1) as nat),
    {
        let pairs = tuple_windows(walk);
        let mut sum: u128 = 0;
        let mut i: usize = 0;
        while i < pairs.len()
            invariant
                i <= pairs.len(),
                pairs.len() == walk.len() - 1,
                forall|j: int| 0 <= j < pairs.len() ==> #[trigger] pairs[j] == (walk[j], walk[j + 1]),
                sum == walk_weight(self.links(), walk@, i as nat),
                sum <= i * RPRIME,
            decreases pairs.len() - i,
        {
            let pair = pairs[i];
            let w: usize = self.hop_prime(pair.0, pair.1);
            sum = sum + w as u128;
            i = i + 1;
        }
        sum
    }

    /// Whether the persons at `a` and `b` are related by blood.
    pub fn is_rbb_at(&self, a: usize, b: usize) -> (res: bool)
        requires
            self.wf(),
        ensures
            res == blood_related(self.links(), a, b),
    {
        if a == b {
            return true;
        }
        if self.person_count() == 0 {
            proof {
                reveal(links_wf);
                assert forall|walk: Seq<usize>| !#[trigger] is_simple_walk(
                    self.links(),
                    a,
                    b,
                    walk,
                ) by {
                    if is_simple_walk(self.links(), a, b, walk) {
                        assert(joined(self.links(), walk[0], walk[0int + 1]));
                        let k = choose|k: Kind| #[trigger]
                            self.links().contains(
                                Link { source: walk[0], kind: k, target: walk[0int + 1] },
                            );
                        let l = Link { source: walk[0], kind: k, target: walk[0int + 1] };
                        let i = choose|i: int| 0 <= i < self.links().len() && self.links()[i] == l;
                        assert(self.links()[i].source < 0);
                    }
                }
            }
            return false;
        }
        let walks = self.simple_walks(a, b);
        let mut i: usize = 0;
        while i < walks.len()
            invariant
                i <= walks.len(),
                forall|j: int|
                    0 <= j < walks.len() ==> is_simple_walk(self.links(), a, b, (#[trigger] walks[j])@),
                forall|j: int| 0 <= j < i ==> !pure_chain(self.links(), (#[trigger] walks[j])@),
            decreases walks.len() - i,
        {
            assert(is_simple_walk(self.links(), a, b, walks[i as int]@));
            let sum: u128 = self.chain_weight(&walks[i]);
            if sum % (PPRIME as u128) == 0 || sum % (CPRIME as u128) == 0 {
                return true;
            }
            i = i + 1;
        }
        proof {
            assert forall|walk: Seq<usize>| #[trigger]
                is_simple_walk(self.links(), a, b, walk) implies !pure_chain(self.links(), walk) by {
                let j = choose|j: int| 0 <= j < walks.len() && (#[trigger] walks[j])@ == walk;
                assert(!pure_chain(self.links(), walks[j]@));
            }
        }
        false
    }

    /// Finds whether a person is related by blood to another.
    pub fn is_rbb(&self, p1: &Person, p2: &Person) -> (res: bool)
        requires
            self.wf(),
            self.knows(p1),
            self.knows(p2),
        ensures
            res == blood_related(self.links(), self.position(p1), self.position(p2)),
    {
        let a: usize = match self.idx(p1) {
            Some(ix) => ix,
            None => 0,
        };
        let b: usize = match self.idx(p2) {
            Some(ix) => ix,
            None => 0,
        };
        self.is_rbb_at(a, b)
    }
}

} // verus!
