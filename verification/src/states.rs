//! The kinship states and their transitions.
//!
//! A route from one person to another is read hop by hop. Before the first
//! hop there is no state; the first hop gives the base state of its kind,
//! and every further hop takes the state to the next one. A state says what
//! the person at the start of the route is to the person reached so far.
//!
//! A hop is given as `(from, kind, to)`: `kind` is the kind of the link
//! taken, `to` is the person that the link leads to, and `from` is the
//! person visited before the one that the link leaves (on the first hop,
//! the person at the start of the route). So where a route goes up to a
//! parent and down again, `from` and `to` are the two children.
use crate::blood::blood_related;
use crate::graph::{shares_parents, KinGraph};
use crate::links::has_link;
use crate::person::{Kind, Sex};
use vstd::prelude::*;

verus! {

/// The kinds of state by their short names.
#[derive(Clone, Copy, PartialEq, Eq, Hash, Debug, Structural)]
pub enum ETransitionStates {
    /// Initial parent
    P,
    /// Initial child
    C,
    /// The nth parent of a node
    NP,
    /// The nth child of a node
    NC,
    /// Sibling
    S,
    /// Sibling-in-law
    SinL,
    /// Reproductive partner
    RP,
    /// The nth parent-in-law of a node
    NPinL,
    /// The nth child-in-law of a node
    NCinL,
    /// Niece/Nephew
    NN,
    /// Aunt/uncle
    AU,
    /// The stop state. Indicates that there is no more relationship.
    STOP,
}

/// The largest value that a counter of a state may have before a
/// transition: the counters of the cousin state are 32 bits wide.
pub const MAX_RANK: usize = 0x7fff_fffe;

/// An nth level parent: parent, grand-parent, great-grand-parent, ...
#[derive(Clone, Copy, PartialEq, Eq, Hash, Debug, Structural)]
pub struct NParentState {
    pub n: usize,
    pub sex: Sex,
}

/// An nth level parent in law.
#[derive(Clone, Copy, PartialEq, Eq, Hash, Debug, Structural)]
pub struct NPinLState {
    pub n: usize,
    pub sex: Sex,
}

/// An nth level child: child, grand-child, great-grand-child, ...
#[derive(Clone, Copy, PartialEq, Eq, Hash, Debug, Structural)]
pub struct NChildState {
    pub n: usize,
    pub sex: Sex,
}

/// An nth level child in law.
#[derive(Clone, Copy, PartialEq, Eq, Hash, Debug, Structural)]
pub struct NCinLState {
    pub n: usize,
    pub sex: Sex,
}

/// An nth cousin, removed `|n - |k||` times.
#[derive(Clone, Copy, PartialEq, Eq, Hash, Debug, Structural)]
pub struct NCsnKState {
    pub n: usize,
    pub k: i32,
    pub is_half: bool,
    pub sex: Sex,
}

#[derive(Clone, Copy, PartialEq, Eq, Hash, Debug, Structural)]
pub struct SiblingState {
    pub is_half: bool,
    pub sex: Sex,
}

/// A reproductive partner.
#[derive(Clone, Copy, PartialEq, Eq, Hash, Debug, Structural)]
pub struct RPState {
    pub sex: Sex,
}

/// A sibling in law.
#[derive(Clone, Copy, PartialEq, Eq, Hash, Debug, Structural)]
pub struct SinLState {
    pub is_half: bool,
    pub sex: Sex,
}

/// A nephew or niece.
#[derive(Clone, Copy, PartialEq, Eq, Hash, Debug, Structural)]
pub struct NNeniState {
    pub n: usize,
    pub is_half: bool,
    pub sex: Sex,
}

/// A nephew or niece in law.
#[derive(Clone, Copy, PartialEq, Eq, Hash, Debug, Structural)]
pub struct NNNinLState {
    pub n: usize,
    pub is_half: bool,
    pub sex: Sex,
}

/// An aunt or uncle.
#[derive(Clone, Copy, PartialEq, Eq, Hash, Debug, Structural)]
pub struct NAUState {
    pub n: usize,
    pub is_half: bool,
    pub sex: Sex,
}

/// An aunt or uncle in law.
#[derive(Clone, Copy, PartialEq, Eq, Hash, Debug, Structural)]
pub struct NAUinLState {
    pub n: usize,
    pub is_half: bool,
    pub sex: Sex,
}

/// No further relationship. It also stands for a person's relation to
/// itself, and for two persons that no route joins.
#[derive(Clone, Copy, PartialEq, Eq, Hash, Debug, Structural)]
pub struct StopState {}

/// A kinship state: one of the thirteen, with its counters and the sex of
/// the person that it describes.
#[derive(Clone, Copy, PartialEq, Eq, Hash, Debug, Structural)]
pub enum State {
    NParent(NParentState),
    NPinL(NPinLState),
    NChild(NChildState),
    NCinL(NCinLState),
    NCsnK(NCsnKState),
    Sibling(SiblingState),
    RP(RPState),
    SinL(SinLState),
    NNeni(NNeniState),
    NNNinL(NNNinLState),
    NAU(NAUState),
    NAUinL(NAUinLState),
    Stop(StopState),
}

/// The sex of the person at position `ix`.
pub open spec fn sex_at(kg: &KinGraph, ix: usize) -> Sex {
    kg.persons()[ix as int].spec_sex()
}

/// What a transition asks of the graph and of the hop: a well-formed graph,
/// and a hop that comes from a person of the graph.
pub open spec fn hop_ok(kg: &KinGraph, hop: (usize, Kind, usize)) -> bool {
    kg.wf() && hop.0 < kg.persons().len()
}

/// The `Stop` state.
pub open spec fn stop() -> State {
    State::Stop(StopState {  })
}

impl NParentState {
    pub open spec fn next(self, hop: (usize, Kind, usize), kg: &KinGraph) -> State {
        let sex = self.sex;
        if self.n == 0 {
            match hop.1 {
                Kind::Parent => State::NParent(NParentState { n: 1, sex }),
                Kind::Child => State::RP(RPState { sex }),
                Kind::RP => State::NPinL(NPinLState { n: 0, sex }),
                Kind::Sibling => State::NParent(NParentState { n: 0, sex }),
            }
        } else {
            match hop.1 {
                Kind::Parent => State::NParent(NParentState { n: (self.n + 1) as usize, sex }),
                Kind::Child => State::NPinL(NPinLState { n: (self.n - 1) as usize, sex }),
                Kind::RP => State::NPinL(NPinLState { n: (self.n + 1) as usize, sex }),
                Kind::Sibling => State::NParent(NParentState { n: self.n, sex }),
            }
        }
    }

    pub fn transition(&self, kind: (usize, Kind, usize), kg: &KinGraph) -> (res: Option<State>)
        requires
            hop_ok(kg, kind),
            self.n <= MAX_RANK,
        ensures
            res == Some(self.next(kind, kg)),
    {
        let sex = self.sex;
        let res = if self.n == 0 {
            match kind.1 {
                Kind::Parent => State::NParent(NParentState { n: 1, sex }),
                Kind::Child => State::RP(RPState { sex }),
                Kind::RP => State::NPinL(NPinLState { n: 0, sex }),
                Kind::Sibling => State::NParent(NParentState { n: 0, sex }),
            }
        } else {
            match kind.1 {
                Kind::Parent => State::NParent(NParentState { n: self.n + 1, sex }),
                Kind::Child => State::NPinL(NPinLState { n: self.n - 1, sex }),
                Kind::RP => State::NPinL(NPinLState { n: self.n + 1, sex }),
                Kind::Sibling => State::NParent(NParentState { n: self.n, sex }),
            }
        };
        Some(res)
    }
}

impl NPinLState {
    pub open spec fn next(self, hop: (usize, Kind, usize), kg: &KinGraph) -> State {
        let sex = self.sex;
        match hop.1 {
            Kind::Parent => State::NParent(NParentState { n: (self.n + 1) as usize, sex }),
            Kind::Child => stop(),
            Kind::RP => State::NPinL(NPinLState { n: self.n, sex }),
            Kind::Sibling => State::NParent(NParentState { n: self.n, sex }),
        }
    }

    pub fn transition(&self, kind: (usize, Kind, usize), kg: &KinGraph) -> (res: Option<State>)
        requires
            hop_ok(kg, kind),
            self.n <= MAX_RANK,
        ensures
            res == Some(self.next(kind, kg)),
    {
        let sex = self.sex;
        let res = match kind.1 {
            Kind::Parent => State::NParent(NParentState { n: self.n + 1, sex }),
            Kind::Child => State::Stop(StopState {  }),
            Kind::RP => State::NPinL(NPinLState { n: self.n, sex }),
            Kind::Sibling => State::NParent(NParentState { n: self.n, sex }),
        };
        Some(res)
    }
}

impl NChildState {
    /// Going down to another child of the parent just reached tells full
    /// from half siblings by their parents. Further up, a full sibling of
    /// the child that the route came from is an uncle or aunt, and the
    /// route stays a line of descent otherwise. A partner of the person
    /// reached continues the line only as a parent of the person before.
    pub open spec fn next(self, hop: (usize, Kind, usize), kg: &KinGraph) -> State {
        let sex = self.sex;
        let links = kg.links();
        if self.n != 0 {
            match hop.1 {
                Kind::Parent => if shares_parents(links, hop.0, hop.2) {
                    State::NNeni(NNeniState { n: (self.n - 1) as usize, is_half: false, sex })
                } else {
                    State::NChild(NChildState { n: self.n, sex })
                },
                Kind::Child => State::NChild(NChildState { n: (self.n + 1) as usize, sex }),
                Kind::Sibling => State::NNeni(
                    NNeniState { n: (self.n - 1) as usize, is_half: false, sex },
                ),
                Kind::RP => if has_link(links, hop.0, Kind::Parent, hop.2) {
                    State::NChild(NChildState { n: (self.n + 1) as usize, sex })
                } else {
                    stop()
                },
            }
        } else {
            match hop.1 {
                Kind::Parent => State::Sibling(
                    SiblingState { is_half: !shares_parents(links, hop.0, hop.2), sex },
                ),
                Kind::Child => State::NChild(NChildState { n: 1, sex }),
                Kind::RP => if has_link(links, hop.0, Kind::Parent, hop.2) {
                    State::NChild(NChildState { n: 1, sex })
                } else {
                    stop()
                },
                Kind::Sibling => State::NNeni(NNeniState { n: 0, is_half: false, sex }),
            }
        }
    }

    pub fn transition(&self, kind: (usize, Kind, usize), kg: &KinGraph) -> (res: Option<State>)
        requires
            hop_ok(kg, kind),
            self.n <= MAX_RANK,
        ensures
            res == Some(self.next(kind, kg)),
    {
        let sex = self.sex;
        let res = if self.n != 0 {
            match kind.1 {
                Kind::Parent => {
                    if kg.b_share_parents(kind.0, kind.2) {
                        State::NNeni(NNeniState { n: self.n - 1, is_half: false, sex })
                    } else {
                        State::NChild(NChildState { n: self.n, sex })
                    }
                },
                Kind::Child => State::NChild(NChildState { n: self.n + 1, sex }),
                Kind::Sibling => State::NNeni(NNeniState { n: self.n - 1, is_half: false, sex }),
                Kind::RP => {
                    if kg.is_parent(kind.0, kind.2) {
                        State::NChild(NChildState { n: self.n + 1, sex })
                    } else {
                        State::Stop(StopState {  })
                    }
                },
            }
        } else {
            match kind.1 {
                Kind::Parent => {
                    if kg.b_share_parents(kind.0, kind.2) {
                        State::Sibling(SiblingState { is_half: false, sex })
                    } else {
                        State::Sibling(SiblingState { is_half: true, sex })
                    }
                },
                Kind::Child => State::NChild(NChildState { n: 1, sex }),
                Kind::RP => {
                    if kg.is_parent(kind.0, kind.2) {
                        State::NChild(NChildState { n: 1, sex })
                    } else {
                        State::Stop(StopState {  })
                    }
                },
                Kind::Sibling => State::NNeni(NNeniState { n: 0, is_half: false, sex }),
            }
        };
        Some(res)
    }
}

impl NCinLState {
    /// A partner continues the line only as a partner of the person before.
    pub open spec fn next(self, hop: (usize, Kind, usize), kg: &KinGraph) -> State {
        let sex = self.sex;
        match hop.1 {
            Kind::Parent => stop(),
            Kind::Child => State::NCinL(NCinLState { n: (self.n + 1) as usize, sex }),
            Kind::RP => if has_link(kg.links(), hop.0, Kind::RP, hop.2) {
                State::NCinL(NCinLState { n: self.n, sex })
            } else {
                stop()
            },
            Kind::Sibling => State::NNNinL(NNNinLState { n: self.n, is_half: false, sex }),
        }
    }

    pub fn transition(&self, kind: (usize, Kind, usize), kg: &KinGraph) -> (res: Option<State>)
        requires
            hop_ok(kg, kind),
            self.n <= MAX_RANK,
        ensures
            res == Some(self.next(kind, kg)),
    {
        let sex = self.sex;
        let res = match kind.1 {
            Kind::Parent => State::Stop(StopState {  }),
            Kind::Child => State::NCinL(NCinLState { n: self.n + 1, sex }),
            Kind::RP => {
                if kg.is_repart(kind.0, kind.2) {
                    State::NCinL(NCinLState { n: self.n, sex })
                } else {
                    State::Stop(StopState {  })
                }
            },
            Kind::Sibling => State::NNNinL(NNNinLState { n: self.n, is_half: false, sex }),
        };
        Some(res)
    }
}

impl NCsnKState {
    pub open spec fn next(self, hop: (usize, Kind, usize), kg: &KinGraph) -> State {
        let sex = self.sex;
        match hop.1 {
            Kind::Parent => State::NCsnK(
                NCsnKState { n: self.n, k: (self.k + 1) as i32, is_half: false, sex },
            ),
            Kind::Child => if self.n == self.k {
                State::NNeni(NNeniState { n: self.n, is_half: self.is_half, sex })
            } else {
                State::NCsnK(NCsnKState { n: self.n, k: (self.k - 1) as i32, is_half: false, sex })
            },
            Kind::RP => stop(),
            Kind::Sibling => State::NCsnK(self),
        }
    }

    pub fn transition(&self, kind: (usize, Kind, usize), kg: &KinGraph) -> (res: Option<State>)
        requires
            hop_ok(kg, kind),
            -MAX_RANK <= self.k <= MAX_RANK,
        ensures
            res == Some(self.next(kind, kg)),
    {
        let sex = self.sex;
        let res = match kind.1 {
            Kind::Parent => State::NCsnK(
                NCsnKState { n: self.n, k: self.k + 1, is_half: false, sex },
            ),
            Kind::Child => {
                if self.k >= 0 && self.n == self.k as usize {
                    State::NNeni(NNeniState { n: self.n, is_half: self.is_half, sex })
                } else {
                    State::NCsnK(NCsnKState { n: self.n, k: self.k - 1, is_half: false, sex })
                }
            },
            Kind::RP => State::Stop(StopState {  }),
            Kind::Sibling => State::NCsnK(
                NCsnKState { n: self.n, k: self.k, is_half: self.is_half, sex },
            ),
        };
        Some(res)
    }
}

impl SiblingState {
    /// The child of a sibling has the person before as its uncle or aunt.
    pub open spec fn next(self, hop: (usize, Kind, usize), kg: &KinGraph) -> State {
        let sex = self.sex;
        match hop.1 {
            Kind::Parent => State::NAU(
                NAUState { n: 0, is_half: self.is_half, sex: sex_at(kg, hop.0) },
            ),
            Kind::Child => State::NChild(NChildState { n: 0, sex }),
            Kind::RP => State::SinL(SinLState { is_half: self.is_half, sex }),
            Kind::Sibling => State::Sibling(self),
        }
    }

    pub fn transition(&self, kind: (usize, Kind, usize), kg: &KinGraph) -> (res: Option<State>)
        requires
            hop_ok(kg, kind),
        ensures
            res == Some(self.next(kind, kg)),
    {
        let sex = self.sex;
        let res = match kind.1 {
            Kind::Parent => State::NAU(
                NAUState { n: 0, is_half: self.is_half, sex: kg.px(kind.0).get_sex() },
            ),
            Kind::Child => State::NChild(NChildState { n: 0, sex }),
            Kind::RP => State::SinL(SinLState { is_half: self.is_half, sex }),
            Kind::Sibling => State::Sibling(SiblingState { is_half: self.is_half, sex }),
        };
        Some(res)
    }
}

impl RPState {
    pub open spec fn next(self, hop: (usize, Kind, usize), kg: &KinGraph) -> State {
        let sex = self.sex;
        match hop.1 {
            Kind::Parent => stop(),
            Kind::Child => State::NCinL(NCinLState { n: 0, sex }),
            Kind::RP => stop(),
            Kind::Sibling => State::SinL(SinLState { is_half: false, sex }),
        }
    }

    pub fn transition(&self, kind: (usize, Kind, usize), kg: &KinGraph) -> (res: Option<State>)
        requires
            hop_ok(kg, kind),
        ensures
            res == Some(self.next(kind, kg)),
    {
        let sex = self.sex;
        let res = match kind.1 {
            Kind::Parent => State::Stop(StopState {  }),
            Kind::Child => State::NCinL(NCinLState { n: 0, sex }),
            Kind::RP => State::Stop(StopState {  }),
            Kind::Sibling => State::SinL(SinLState { is_half: false, sex }),
        };
        Some(res)
    }
}

impl SinLState {
    pub open spec fn next(self, hop: (usize, Kind, usize), kg: &KinGraph) -> State {
        let sex = self.sex;
        match hop.1 {
            Kind::Parent => State::NAUinL(
                NAUinLState { n: 0, is_half: self.is_half, sex: sex_at(kg, hop.0) },
            ),
            Kind::Child => State::RP(RPState { sex }),
            Kind::RP => stop(),
            Kind::Sibling => State::SinL(self),
        }
    }

    pub fn transition(&self, kind: (usize, Kind, usize), kg: &KinGraph) -> (res: Option<State>)
        requires
            hop_ok(kg, kind),
        ensures
            res == Some(self.next(kind, kg)),
    {
        let sex = self.sex;
        let res = match kind.1 {
            Kind::Parent => State::NAUinL(
                NAUinLState { n: 0, is_half: self.is_half, sex: kg.px(kind.0).get_sex() },
            ),
            Kind::Child => State::RP(RPState { sex }),
            Kind::RP => State::Stop(StopState {  }),
            Kind::Sibling => State::SinL(SinLState { is_half: self.is_half, sex }),
        };
        Some(res)
    }
}

impl NNeniState {
    /// The child of an uncle or aunt is a cousin, one degree further than
    /// the nephew or niece.
    pub open spec fn next(self, hop: (usize, Kind, usize), kg: &KinGraph) -> State {
        let sex = self.sex;
        match hop.1 {
            Kind::Parent => State::NCsnK(
                NCsnKState {
                    n: (self.n + 1) as usize,
                    k: (self.n + 1) as i32,
                    is_half: self.is_half,
                    sex,
                },
            ),
            Kind::Child => stop(),
            Kind::RP => stop(),
            Kind::Sibling => State::NNeni(self),
        }
    }

    pub fn transition(&self, kind: (usize, Kind, usize), kg: &KinGraph) -> (res: Option<State>)
        requires
            hop_ok(kg, kind),
            self.n <= MAX_RANK,
        ensures
            res == Some(self.next(kind, kg)),
    {
        let sex = self.sex;
        let res = match kind.1 {
            Kind::Parent => State::NCsnK(
                NCsnKState {
                    n: self.n + 1,
                    k: (self.n + 1) as i32,
                    is_half: self.is_half,
                    sex,
                },
            ),
            Kind::Child => State::Stop(StopState {  }),
            Kind::RP => State::Stop(StopState {  }),
            Kind::Sibling => State::NNeni(NNeniState { n: self.n, is_half: self.is_half, sex }),
        };
        Some(res)
    }
}

impl NNNinLState {
    pub open spec fn next(self, hop: (usize, Kind, usize), kg: &KinGraph) -> State {
        let sex = self.sex;
        match hop.1 {
            Kind::Parent => State::NCsnK(
                NCsnKState { n: self.n, k: self.n as i32, is_half: self.is_half, sex },
            ),
            Kind::Child => stop(),
            Kind::RP => stop(),
            Kind::Sibling => State::NNeni(NNeniState { n: self.n, is_half: self.is_half, sex }),
        }
    }

    pub fn transition(&self, kind: (usize, Kind, usize), kg: &KinGraph) -> (res: Option<State>)
        requires
            hop_ok(kg, kind),
            self.n <= MAX_RANK,
        ensures
            res == Some(self.next(kind, kg)),
    {
        let sex = self.sex;
        let res = match kind.1 {
            Kind::Parent => State::NCsnK(
                NCsnKState { n: self.n, k: self.n as i32, is_half: self.is_half, sex },
            ),
            Kind::Child => State::Stop(StopState {  }),
            Kind::RP => State::Stop(StopState {  }),
            Kind::Sibling => State::NNeni(NNeniState { n: self.n, is_half: self.is_half, sex }),
        };
        Some(res)
    }
}

impl NAUState {
    pub open spec fn next(self, hop: (usize, Kind, usize), kg: &KinGraph) -> State {
        let sex = self.sex;
        let is_half = self.is_half;
        if self.n == 0 {
            match hop.1 {
                Kind::Parent => State::NAU(NAUState { n: 0, is_half: false, sex }),
                Kind::Child => State::SinL(SinLState { is_half, sex }),
                Kind::RP => State::NAUinL(NAUinLState { n: 0, is_half, sex }),
                Kind::Sibling => State::NAU(self),
            }
        } else {
            match hop.1 {
                Kind::Parent => State::NAU(
                    NAUState { n: (self.n + 1) as usize, is_half: false, sex: sex_at(kg, hop.0) },
                ),
                Kind::Child => State::NAUinL(
                    NAUinLState { n: (self.n - 1) as usize, is_half, sex: sex_at(kg, hop.0) },
                ),
                Kind::RP => State::NAUinL(NAUinLState { n: self.n, is_half, sex }),
                Kind::Sibling => State::NAU(self),
            }
        }
    }

    pub fn transition(&self, kind: (usize, Kind, usize), kg: &KinGraph) -> (res: Option<State>)
        requires
            hop_ok(kg, kind),
            self.n <= MAX_RANK,
        ensures
            res == Some(self.next(kind, kg)),
    {
        let sex = self.sex;
        let is_half = self.is_half;
        let res = if self.n == 0 {
            match kind.1 {
                Kind::Parent => State::NAU(NAUState { n: self.n, is_half: false, sex }),
                Kind::Child => State::SinL(SinLState { is_half, sex }),
                Kind::RP => State::NAUinL(NAUinLState { n: self.n, is_half, sex }),
                Kind::Sibling => State::NAU(NAUState { n: self.n, is_half, sex }),
            }
        } else {
            match kind.1 {
                Kind::Parent => State::NAU(
                    NAUState { n: self.n + 1, is_half: false, sex: kg.px(kind.0).get_sex() },
                ),
                Kind::Child => State::NAUinL(
                    NAUinLState { n: self.n - 1, is_half, sex: kg.px(kind.0).get_sex() },
                ),
                Kind::RP => State::NAUinL(NAUinLState { n: self.n, is_half, sex }),
                Kind::Sibling => State::NAU(NAUState { n: self.n, is_half, sex }),
            }
        };
        Some(res)
    }
}

impl NAUinLState {
    /// Going down to a child continues the line only where that child is a
    /// blood relative of the person before.
    pub open spec fn next(self, hop: (usize, Kind, usize), kg: &KinGraph) -> State {
        let sex = self.sex;
        let is_half = self.is_half;
        match hop.1 {
            Kind::Parent => if blood_related(kg.links(), hop.0, hop.2) {
                State::NAU(NAUState { n: (self.n + 1) as usize, is_half, sex })
            } else {
                stop()
            },
            Kind::Child => stop(),
            Kind::RP => stop(),
            Kind::Sibling => State::NAUinL(
                NAUinLState { n: self.n, is_half, sex: sex_at(kg, hop.0) },
            ),
        }
    }

    pub fn transition(&self, kind: (usize, Kind, usize), kg: &KinGraph) -> (res: Option<State>)
        requires
            hop_ok(kg, kind),
            self.n <= MAX_RANK,
        ensures
            res == Some(self.next(kind, kg)),
    {
        let sex = self.sex;
        let is_half = self.is_half;
        let res = match kind.1 {
            Kind::Parent => {
                if !kg.is_rbb_at(kind.0, kind.2) {
                    State::Stop(StopState {  })
                } else {
                    State::NAU(NAUState { n: self.n + 1, is_half, sex })
                }
            },
            Kind::Child => State::Stop(StopState {  }),
            Kind::RP => State::Stop(StopState {  }),
            Kind::Sibling => State::NAUinL(
                NAUinLState { n: self.n, is_half, sex: kg.px(kind.0).get_sex() },
            ),
        };
        Some(res)
    }
}

impl StopState {
    /// Nothing leads on from `Stop`.
    pub fn transition(&self, kind: (usize, Kind, usize), kg: &KinGraph) -> (res: Option<State>)
        ensures
            res.is_none(),
    {
        None
    }
}

impl Kind {
    /// The state after a first hop of this kind, for a person of sex `sex`.
    pub open spec fn base_state(self, sex: Sex) -> State {
        match self {
            Kind::Parent => State::NParent(NParentState { n: 0, sex }),
            Kind::Child => State::NChild(NChildState { n: 0, sex }),
            Kind::Sibling => State::Sibling(SiblingState { is_half: false, sex }),
            Kind::RP => State::RP(RPState { sex }),
        }
    }

    pub fn into_base_state(self, sex: Sex) -> (res: State)
        ensures
            res == self.base_state(sex),
            res.rank() == 0,
    {
        match self {
            Kind::Parent => State::NParent(NParentState { n: 0, sex }),
            Kind::Child => State::NChild(NChildState { n: 0, sex }),
            Kind::Sibling => State::Sibling(SiblingState { is_half: false, sex }),
            Kind::RP => State::RP(RPState { sex }),
        }
    }
}

impl State {
    /// The largest counter of the state, by absolute value.
    pub open spec fn rank(self) -> int {
        match self {
            State::NParent(s) => s.n as int,
            State::NPinL(s) => s.n as int,
            State::NChild(s) => s.n as int,
            State::NCinL(s) => s.n as int,
            State::NCsnK(s) => {
                let k = if s.k < 0 {
                    -(s.k as int)
                } else {
                    s.k as int
                };
                if k < s.n {
                    s.n as int
                } else {
                    k
                }
            },
            State::NNeni(s) => s.n as int,
            State::NNNinL(s) => s.n as int,
            State::NAU(s) => s.n as int,
            State::NAUinL(s) => s.n as int,
            State::Sibling(_) | State::RP(_) | State::SinL(_) | State::Stop(_) => 0,
        }
    }

    /// The state after `hop`, and `None` after `Stop`.
    pub open spec fn next(self, hop: (usize, Kind, usize), kg: &KinGraph) -> Option<State> {
        match self {
            State::NParent(s) => Some(s.next(hop, kg)),
            State::NPinL(s) => Some(s.next(hop, kg)),
            State::NChild(s) => Some(s.next(hop, kg)),
            State::NCinL(s) => Some(s.next(hop, kg)),
            State::NCsnK(s) => Some(s.next(hop, kg)),
            State::Sibling(s) => Some(s.next(hop, kg)),
            State::RP(s) => Some(s.next(hop, kg)),
            State::SinL(s) => Some(s.next(hop, kg)),
            State::NNeni(s) => Some(s.next(hop, kg)),
            State::NNNinL(s) => Some(s.next(hop, kg)),
            State::NAU(s) => Some(s.next(hop, kg)),
            State::NAUinL(s) => Some(s.next(hop, kg)),
            State::Stop(_) => None,
        }
    }

    /// Whether the state is `Stop`.
    pub fn is_stop(&self) -> (res: bool)
        ensures
            res == (*self == stop()),
    {
        match self {
            State::Stop(_) => true,
            _ => false,
        }
    }

    /// Takes the state over `kind`. Every state but `Stop` has a next one;
    /// a counter grows by one at most.
    pub fn transition(&self, kind: (usize, Kind, usize), kg: &KinGraph) -> (res: Option<State>)
        requires
            hop_ok(kg, kind),
            self.rank() <= MAX_RANK,
        ensures
            res == self.next(kind, kg),
            res matches Some(s) ==> s.rank() <= self.rank() + 1,
    {
        match self {
            State::NParent(s) => s.transition(kind, kg),
            State::NPinL(s) => s.transition(kind, kg),
            State::NChild(s) => s.transition(kind, kg),
            State::NCinL(s) => s.transition(kind, kg),
            State::NCsnK(s) => s.transition(kind, kg),
            State::Sibling(s) => s.transition(kind, kg),
            State::RP(s) => s.transition(kind, kg),
            State::SinL(s) => s.transition(kind, kg),
            State::NNeni(s) => s.transition(kind, kg),
            State::NNNinL(s) => s.transition(kind, kg),
            State::NAU(s) => s.transition(kind, kg),
            State::NAUinL(s) => s.transition(kind, kg),
            State::Stop(s) => s.transition(kind, kg),
        }
    }
}

/// Reads a route hop by hop.
pub struct StateMachine {
    current_state: Option<State>,
}

impl StateMachine {
    /// The state reached so far, if a hop was read.
    pub closed spec fn state(&self) -> Option<State> {
        self.current_state
    }

    /// What a machine in state `state` is in after `hop`: the base state of
    /// the hop if it was in none, the next state if there is one, and the
    /// same state after `Stop`.
    pub open spec fn after(state: Option<State>, hop: (usize, Kind, usize), kg: &KinGraph) -> State {
        match state {
            None => hop.1.base_state(sex_at(kg, hop.0)),
            Some(s) => match s.next(hop, kg) {
                Some(next) => next,
                None => s,
            },
        }
    }

    pub fn new() -> (sm: StateMachine)
        ensures
            sm.state().is_none(),
    {
        StateMachine { current_state: None }
    }

    /// Changes the state according to the hop. `None` says that the machine
    /// was in `Stop`, which it does not leave.
    pub fn transition(&mut self, kind: (usize, Kind, usize), kg: &KinGraph) -> (res: Option<()>)
        requires
            hop_ok(kg, kind),
            old(self).state() matches Some(s) ==> s.rank() <= MAX_RANK,
        ensures
            final(self).state() == Some(StateMachine::after(old(self).state(), kind, kg)),
            res.is_none() <==> old(self).state() == Some(stop()),
            final(self).state().unwrap().rank() <= match old(self).state() {
                Some(s) => s.rank() + 1,
                None => 0,
            },
    {
        match self.current_state {
            None => {
                self.current_state = Some(kind.1.into_base_state(kg.px(kind.0).get_sex()));
                Some(())
            },
            Some(s) => {
                match s.transition(kind, kg) {
                    None => None,
                    Some(next) => {
                        self.current_state = Some(next);
                        Some(())
                    },
                }
            },
        }
    }

    /// The state reached, for a machine that has read a hop.
    pub fn get_current_state(&self) -> (s: State)
        requires
            self.state().is_some(),
        ensures
            Some(s) == self.state(),
    {
        match self.current_state {
            Some(s) => s,
            None => State::Stop(StopState {  }),
        }
    }
}

} // verus!
