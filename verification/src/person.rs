//! Persons, the four fundamental kinds of relation, and the errors of the
//! graph.
use vstd::prelude::*;
use vstd::string::*;

verus! {

/// Weight of a `Parent` link in the blood-relation sums.
pub const PPRIME: usize = 2_000_003;

/// Weight of a `Child` link in the blood-relation sums.
pub const CPRIME: usize = 2_000_029;

/// Weight of a hop that only partners connect.
pub const RPRIME: usize = 2_000_039;

#[derive(Clone, Copy, PartialEq, Eq, Hash, PartialOrd, Ord, Debug, Structural)]
pub enum Sex {
    Male,
    Female,
}

/// The fundamental kinds of relation; every other relationship is a chain of
/// these.
#[derive(Clone, Copy, PartialEq, Eq, Hash, Debug, Structural)]
pub enum Kind {
    Parent,
    /// The inverse of `Parent`.
    Child,
    /// Symmetric.
    Sibling,
    /// Reproductive partner, symmetric.
    RP,
}

impl Kind {
    /// The kind of the link that runs the other way.
    pub open spec fn inverse(self) -> Kind {
        match self {
            Kind::Parent => Kind::Child,
            Kind::Child => Kind::Parent,
            Kind::Sibling => Kind::Sibling,
            Kind::RP => Kind::RP,
        }
    }

    /// The weight that a link of this kind adds to a blood-relation sum.
    pub open spec fn prime(self) -> nat {
        match self {
            Kind::Parent => PPRIME as nat,
            Kind::Child => CPRIME as nat,
            Kind::Sibling => 0,
            Kind::RP => RPRIME as nat,
        }
    }

    /// Whether a link of this kind joins blood relatives.
    pub open spec fn blood(self) -> bool {
        self != Kind::RP
    }

    /// The number of the kind: 1 for `Parent` and for `Sibling`, 3 for
    /// `Child`, 0 for `RP`.
    pub open spec fn value(self) -> nat {
        match self {
            Kind::Parent => 1,
            Kind::Child => 3,
            Kind::Sibling => 1,
            Kind::RP => 0,
        }
    }

    pub fn get_value(&self) -> (v: u32)
        ensures
            v == self.value(),
    {
        match self {
            Kind::Parent => 1,
            Kind::Child => 3,
            Kind::Sibling => 1,
            Kind::RP => 0,
        }
    }

    /// The length of a link on a route: one, whatever its kind.
    pub fn get_cost(&self) -> (c: u32)
        ensures
            c == 1,
    {
        match self {
            Kind::Parent => 1,
            Kind::Child => 1,
            Kind::Sibling => 1,
            Kind::RP => 1,
        }
    }

    pub fn get_inverse(&self) -> (k: Kind)
        ensures
            k == self.inverse(),
            k.inverse() == *self,
    {
        match self {
            Kind::Parent => Kind::Child,
            Kind::Child => Kind::Parent,
            Kind::Sibling => Kind::Sibling,
            Kind::RP => Kind::RP,
        }
    }

    pub fn get_prime(&self) -> (w: usize)
        ensures
            w == self.prime(),
            w <= RPRIME,
    {
        match self {
            Kind::Parent => PPRIME,
            Kind::Child => CPRIME,
            Kind::Sibling => 0,
            Kind::RP => RPRIME,
        }
    }

    pub fn is_blood_kind(&self) -> (b: bool)
        ensures
            b == self.blood(),
    {
        match self {
            Kind::Parent => true,
            Kind::Child => true,
            Kind::Sibling => true,
            Kind::RP => false,
        }
    }

    /// The one-letter label of the kind: `P`, `C`, `S` or `R`.
    pub open spec fn label(self) -> Seq<char> {
        match self {
            Kind::Parent => seq!['P'],
            Kind::Child => seq!['C'],
            Kind::Sibling => seq!['S'],
            Kind::RP => seq!['R'],
        }
    }

    pub fn to_string(&self) -> (s: String)
        ensures
            s@ == self.label(),
    {
        proof {
            reveal_strlit("P");
            reveal_strlit("C");
            reveal_strlit("S");
            reveal_strlit("R");
        }
        let s = match self {
            Kind::Parent => String::from_str("P"),
            Kind::Child => String::from_str("C"),
            Kind::Sibling => String::from_str("S"),
            Kind::RP => String::from_str("R"),
        };
        assert(s@ =~= self.label());
        s
    }
}

/// A directed, single-kind link between two positions of the graph.
#[derive(Clone, Copy, PartialEq, Eq, Hash, Debug, Structural)]
pub struct Link {
    pub source: usize,
    pub kind: Kind,
    pub target: usize,
}

impl Link {
    /// The link that the graph stores together with this one.
    pub open spec fn inverse(self) -> Link {
        Link { source: self.target, kind: self.kind.inverse(), target: self.source }
    }
}

/// Why a relation was not added.
#[derive(Clone, Copy, PartialEq, Eq, Debug, Structural)]
pub enum KinError {
    /// A person cannot be related to themselves.
    SelfCycle { index: usize },
    /// The child is already a parent of the would-be parent.
    InvalidRelation { p1: usize, p2: usize },
    /// Reserved: partners of the same sex are not rejected.
    SameSexError { p1: usize, p2: usize },
    /// The child already has two parents.
    AlreadyTwoParents { p: usize },
    Unknown,
}

/// A person: an id, a name, and a sex. Persons are told apart by their id.
#[derive(Hash, PartialEq, Eq, Clone, PartialOrd, Ord, Debug)]
pub struct Person {
    id: usize,
    name: String,
    sex: Sex,
    /// Set on placeholder persons; no operation of the graph reads it.
    is_shadow: bool,
}

/// A fresh 64-bit identifier, taken from `uuid::Uuid::new_v4`. The value is
/// random, so nothing is claimed of it.
#[verifier::external_body]
pub fn gen_64() -> u64 {
    uuid::Uuid::new_v4().as_u128() as u64
}

impl Person {
    /// The id of the person.
    pub closed spec fn spec_id(&self) -> usize {
        self.id
    }

    /// The name of the person.
    pub closed spec fn spec_name(&self) -> Seq<char> {
        self.name@
    }

    /// The sex of the person.
    pub closed spec fn spec_sex(&self) -> Sex {
        self.sex
    }

    /// Whether the person is a placeholder.
    pub closed spec fn spec_shadow(&self) -> bool {
        self.is_shadow
    }

    /// The name of a person created without one.
    pub open spec fn default_name() -> Seq<char> {
        seq!['u', 'n', 'k', 'n']
    }

    /// A person with a random identity and the default name.
    pub fn new(sex: Sex) -> (p: Person)
        ensures
            p.spec_sex() == sex,
            !p.spec_shadow(),
            p.spec_name() == Person::default_name(),
    {
        let id: u64 = gen_64();
        proof {
            reveal_strlit("unkn");
        }
        let name = String::from_str("unkn");
        assert(name@ =~= Person::default_name());
        Person { id: #[verifier::truncate] (id as usize), sex, is_shadow: false, name }
    }

    /// A person with the id and the name given.
    pub fn new_with_id(sex: Sex, id: usize, name: String) -> (p: Person)
        ensures
            p.spec_id() == id,
            p.spec_sex() == sex,
            p.spec_name() == name@,
            !p.spec_shadow(),
    {
        Person { id, sex, is_shadow: false, name }
    }

    #[verifier::when_used_as_spec(spec_id)]
    pub fn get_id(&self) -> (id: usize)
        ensures
            id == self.spec_id(),
    {
        self.id
    }

    #[verifier::when_used_as_spec(spec_sex)]
    pub fn get_sex(&self) -> (sex: Sex)
        ensures
            sex == self.spec_sex(),
    {
        self.sex
    }

    #[verifier::when_used_as_spec(spec_shadow)]
    pub fn is_shadow(&self) -> (b: bool)
        ensures
            b == self.spec_shadow(),
    {
        self.is_shadow
    }

    pub fn get_name(&self) -> (name: String)
        ensures
            name@ == self.spec_name(),
    {
        self.name.clone()
    }

    /// A copy of the person, equal in every field.
    pub fn duplicate(&self) -> (p: Person)
        ensures
            p == *self,
    {
        Person { id: self.id, name: self.name.clone(), sex: self.sex, is_shadow: self.is_shadow }
    }
}

} // verus!
