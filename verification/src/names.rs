//! The English terms of the kinship states.
use crate::dsl::DslError;
use crate::location::Location;
use crate::person::{KinError, Sex};
use crate::states::{
    NAUState, NAUinLState, NCinLState, NChildState, NCsnKState, NNNinLState, NNeniState,
    NParentState, NPinLState, RPState, SiblingState, SinLState, State, StateMachine, StopState,
};
use vstd::prelude::*;
use vstd::string::*;

verus! {

/// `great-`, `n` times.
pub open spec fn greats(n: nat) -> Seq<char>
    decreases n,
{
    if n == 0 {
        Seq::empty()
    } else {
        greats((n - 1) as nat) + "great-"@
    }
}

/// The prefix of generation `n`: nothing for 0, `one` for 1, and for more
/// `great-` for each generation after the first, then `more`.
pub open spec fn generation(n: nat, one: Seq<char>, more: Seq<char>) -> Seq<char> {
    if n == 0 {
        Seq::empty()
    } else if n == 1 {
        one
    } else {
        greats((n - 1) as nat) + more
    }
}

/// The decimal digit `d`.
pub open spec fn digit(d: nat) -> Seq<char> {
    if d == 0 {
        "0"@
    } else if d == 1 {
        "1"@
    } else if d == 2 {
        "2"@
    } else if d == 3 {
        "3"@
    } else if d == 4 {
        "4"@
    } else if d == 5 {
        "5"@
    } else if d == 6 {
        "6"@
    } else if d == 7 {
        "7"@
    } else if d == 8 {
        "8"@
    } else {
        "9"@
    }
}

/// `n` in decimal digits.
pub open spec fn decimal(n: nat) -> Seq<char>
    decreases n,
{
    if n < 10 {
        digit(n)
    } else {
        decimal(n / 10) + digit(n % 10)
    }
}

/// The degree of a cousin: `1st`, `2nd`, `3rd`, and `th` after any other
/// number.
pub open spec fn ordinal(n: nat) -> Seq<char> {
    if n == 1 {
        "1st"@
    } else if n == 2 {
        "2nd"@
    } else if n == 3 {
        "3rd"@
    } else {
        decimal(n) + "th"@
    }
}

/// How often a cousin is removed, in words.
pub open spec fn removal(times: nat) -> Seq<char> {
    if times == 0 {
        Seq::empty()
    } else if times == 1 {
        " once removed"@
    } else if times == 2 {
        " twice removed"@
    } else {
        " "@ + decimal(times) + "-times removed"@
    }
}

/// The distance between `n` and the absolute value of `k`.
pub open spec fn removed(n: nat, k: int) -> nat {
    let depth = if k < 0 {
        -k
    } else {
        k
    };
    if n >= depth {
        (n - depth) as nat
    } else {
        (depth - n) as nat
    }
}

/// The word for `sex`: `male` for `Male`, `female` for `Female`.
pub open spec fn by_sex(sex: Sex, male: Seq<char>, female: Seq<char>) -> Seq<char> {
    match sex {
        Sex::Male => male,
        Sex::Female => female,
    }
}

/// `half-` for a half relation.
pub open spec fn half(is_half: bool) -> Seq<char> {
    if is_half {
        "half-"@
    } else {
        Seq::empty()
    }
}

fn render_generation(n: usize, one: &str, more: &str) -> (s: String)
    ensures
        s@ == generation(n as nat, one@, more@),
{
    if n == 0 {
        String::new()
    } else if n == 1 {
        String::from_str(one)
    } else {
        let mut s = String::new();
        let mut i: usize = 0;
        while i < n - 1
            invariant
                n >= 2,
                i <= n - 1,
                s@ == greats(i as nat),
            decreases n - 1 - i,
        {
            s.append("great-");
            i = i + 1;
        }
        s.append(more);
        s
    }
}

fn render_digit(d: u64) -> (s: &'static str)
    requires
        d < 10,
    ensures
        s@ == digit(d as nat),
{
    if d == 0 {
        "0"
    } else if d == 1 {
        "1"
    } else if d == 2 {
        "2"
    } else if d == 3 {
        "3"
    } else if d == 4 {
        "4"
    } else if d == 5 {
        "5"
    } else if d == 6 {
        "6"
    } else if d == 7 {
        "7"
    } else if d == 8 {
        "8"
    } else {
        "9"
    }
}

/// Appends `n` in decimal digits.
fn append_decimal(s: &mut String, n: u64)
    ensures
        final(s)@ == old(s)@ + decimal(n as nat),
    decreases n,
{
    if n < 10 {
        s.append(render_digit(n));
    } else {
        append_decimal(s, n / 10);
        s.append(render_digit(n % 10));
        assert(old(s)@ + decimal((n / 10) as nat) + digit((n % 10) as nat) =~= old(s)@ + (decimal(
            (n / 10) as nat,
        ) + digit((n % 10) as nat)));
    }
}

fn render_by_sex(sex: Sex, male: &'static str, female: &'static str) -> (s: &'static str)
    ensures
        s@ == by_sex(sex, male@, female@),
{
    match sex {
        Sex::Male => male,
        Sex::Female => female,
    }
}

fn render_half(is_half: bool) -> (s: &'static str)
    ensures
        s@ == half(is_half),
{
    if is_half {
        "half-"
    } else {
        proof {
            reveal_strlit("");
        }
        let s = "";
        assert(s@ =~= Seq::<char>::empty());
        s
    }
}

impl NParentState {
    /// `mother` or `father`; `grand-father`; `great-grand-father`; ...
    pub open spec fn name(self) -> Seq<char> {
        let parent = by_sex(self.sex, "father"@, "mother"@);
        if self.n == 0 {
            parent
        } else {
            generation(self.n as nat, "grand"@, "grand"@) + "-"@ + parent
        }
    }

    pub fn print_canonical_name(&self) -> (s: String)
        ensures
            s@ == self.name(),
    {
        let parent = render_by_sex(self.sex, "father", "mother");
        if self.n == 0 {
            String::from_str(parent)
        } else {
            let mut s = render_generation(self.n, "grand", "grand");
            s.append("-");
            s.append(parent);
            s
        }
    }
}

impl NPinLState {
    /// `-father in law`; `grand-father in law`; `great-grand-father in law`;
    /// ...
    pub open spec fn name(self) -> Seq<char> {
        generation(self.n as nat, "grand"@, "grand"@) + "-"@ + by_sex(
            self.sex,
            "father"@,
            "mother"@,
        ) + " in law"@
    }

    pub fn print_canonical_name(&self) -> (s: String)
        ensures
            s@ == self.name(),
    {
        let mut s = render_generation(self.n, "grand", "grand");
        s.append("-");
        s.append(render_by_sex(self.sex, "father", "mother"));
        s.append(" in law");
        s
    }
}

impl NChildState {
    /// `son` or `daughter`; `grand-son`; `great-grand-son`; ...
    pub open spec fn name(self) -> Seq<char> {
        generation(self.n as nat, "grand-"@, "grand-"@) + by_sex(self.sex, "son"@, "daughter"@)
    }

    pub fn print_canonical_name(&self) -> (s: String)
        ensures
            s@ == self.name(),
    {
        let mut s = render_generation(self.n, "grand-", "grand-");
        s.append(render_by_sex(self.sex, "son", "daughter"));
        s
    }
}

impl NCinLState {
    /// `son in law`; `greatson in law`; `great-great-son in law`; ...
    pub open spec fn name(self) -> Seq<char> {
        generation(self.n as nat, "great"@, "great-"@) + by_sex(self.sex, "son"@, "daughter"@)
            + " in law"@
    }

    pub fn print_canonical_name(&self) -> (s: String)
        ensures
            s@ == self.name(),
    {
        let mut s = render_generation(self.n, "great", "great-");
        s.append(render_by_sex(self.sex, "son", "daughter"));
        s.append(" in law");
        s
    }
}

impl NCsnKState {
    /// `1st cousin`; `2nd half-cousin`; `2nd cousin once removed`; ...
    pub open spec fn name(self) -> Seq<char> {
        ordinal(self.n as nat) + " "@ + half(self.is_half) + "cousin"@ + removal(
            removed(self.n as nat, self.k as int),
        )
    }

    pub fn print_canonical_name(&self) -> (s: String)
        ensures
            s@ == self.name(),
    {
        let n: u64 = self.n as u64;
        let depth: u64 = if self.k < 0 {
            (-(self.k as i64)) as u64
        } else {
            self.k as u64
        };
        let rmv: u64 = if n >= depth {
            n - depth
        } else {
            depth - n
        };
        assert(rmv == removed(self.n as nat, self.k as int));
        let mut s = String::new();
        if n == 1 {
            s.append("1st");
        } else if n == 2 {
            s.append("2nd");
        } else if n == 3 {
            s.append("3rd");
        } else {
            append_decimal(&mut s, n);
            s.append("th");
        }
        assert(s@ =~= ordinal(self.n as nat));
        s.append(" ");
        s.append(render_half(self.is_half));
        s.append("cousin");
        let ghost stem = s@;
        if rmv == 0 {
        } else if rmv == 1 {
            s.append(" once removed");
        } else if rmv == 2 {
            s.append(" twice removed");
        } else {
            s.append(" ");
            append_decimal(&mut s, rmv);
            s.append("-times removed");
        }
        assert(s@ =~= stem + removal(rmv as nat));
        s
    }
}

impl SiblingState {
    /// `brother`, `sister`, `half-brother`, `half-sister`.
    pub open spec fn name(self) -> Seq<char> {
        half(self.is_half) + by_sex(self.sex, "brother"@, "sister"@)
    }

    pub fn print_canonical_name(&self) -> (s: String)
        ensures
            s@ == self.name(),
    {
        let mut s = String::from_str(render_half(self.is_half));
        s.append(render_by_sex(self.sex, "brother", "sister"));
        s
    }
}

impl RPState {
    pub open spec fn name(self) -> Seq<char> {
        by_sex(self.sex, "male reproductive partner"@, "female reproductive partner"@)
    }

    pub fn print_canonical_name(&self) -> (s: String)
        ensures
            s@ == self.name(),
    {
        String::from_str(
            render_by_sex(self.sex, "male reproductive partner", "female reproductive partner"),
        )
    }
}

impl SinLState {
    /// `brother in law`, `sister in law`; for a half relation `half-` comes
    /// after the word: `brotherhalf- in law`.
    pub open spec fn name(self) -> Seq<char> {
        by_sex(self.sex, "brother"@, "sister"@) + half(self.is_half) + " in law"@
    }

    pub fn print_canonical_name(&self) -> (s: String)
        ensures
            s@ == self.name(),
    {
        let mut s = String::from_str(render_by_sex(self.sex, "brother", "sister"));
        s.append(render_half(self.is_half));
        s.append(" in law");
        s
    }
}

impl NNeniState {
    /// `nephew` or `niece`; `grandnephew`; `great-great-nephew`; ...
    pub open spec fn name(self) -> Seq<char> {
        generation(self.n as nat, "grand"@, "great-"@) + by_sex(self.sex, "nephew"@, "niece"@)
    }

    pub fn print_canonical_name(&self) -> (s: String)
        ensures
            s@ == self.name(),
    {
        let mut s = render_generation(self.n, "grand", "great-");
        s.append(render_by_sex(self.sex, "nephew", "niece"));
        s
    }
}

impl NNNinLState {
    /// `-nephew in law`; `great-nephew in law`; `great-great-nephew in law`;
    /// ...
    pub open spec fn name(self) -> Seq<char> {
        generation(self.n as nat, "great"@, "great"@) + "-"@ + by_sex(
            self.sex,
            "nephew"@,
            "niece"@,
        ) + " in law"@
    }

    pub fn print_canonical_name(&self) -> (s: String)
        ensures
            s@ == self.name(),
    {
        let mut s = render_generation(self.n, "great", "great");
        s.append("-");
        s.append(render_by_sex(self.sex, "nephew", "niece"));
        s.append(" in law");
        s
    }
}

impl NAUState {
    /// `uncle` or `aunt`; `granduncle`; `great-great-uncle`; ...
    pub open spec fn name(self) -> Seq<char> {
        generation(self.n as nat, "grand"@, "great-"@) + by_sex(self.sex, "uncle"@, "aunt"@)
    }

    pub fn print_canonical_name(&self) -> (s: String)
        ensures
            s@ == self.name(),
    {
        let mut s = render_generation(self.n, "grand", "great-");
        s.append(render_by_sex(self.sex, "uncle", "aunt"));
        s
    }
}

impl NAUinLState {
    /// `-uncle in law`; `great-uncle in law`; `great-great-uncle in law`;
    /// ...
    pub open spec fn name(self) -> Seq<char> {
        generation(self.n as nat, "great"@, "great"@) + "-"@ + by_sex(self.sex, "uncle"@, "aunt"@)
            + " in law"@
    }

    pub fn print_canonical_name(&self) -> (s: String)
        ensures
            s@ == self.name(),
    {
        let mut s = render_generation(self.n, "great", "great");
        s.append("-");
        s.append(render_by_sex(self.sex, "uncle", "aunt"));
        s.append(" in law");
        s
    }
}

impl StopState {
    pub open spec fn name(self) -> Seq<char> {
        "Stop"@
    }

    pub fn print_canonical_name(&self) -> (s: String)
        ensures
            s@ == self.name(),
    {
        String::from_str("Stop")
    }
}

impl State {
    /// The English term of the state.
    pub open spec fn name(self) -> Seq<char> {
        match self {
            State::NParent(s) => s.name(),
            State::NPinL(s) => s.name(),
            State::NChild(s) => s.name(),
            State::NCinL(s) => s.name(),
            State::NCsnK(s) => s.name(),
            State::Sibling(s) => s.name(),
            State::RP(s) => s.name(),
            State::SinL(s) => s.name(),
            State::NNeni(s) => s.name(),
            State::NNNinL(s) => s.name(),
            State::NAU(s) => s.name(),
            State::NAUinL(s) => s.name(),
            State::Stop(s) => s.name(),
        }
    }

    pub fn print_canonical_name(&self) -> (s: String)
        ensures
            s@ == self.name(),
    {
        match self {
            State::NParent(s) => s.print_canonical_name(),
            State::NPinL(s) => s.print_canonical_name(),
            State::NChild(s) => s.print_canonical_name(),
            State::NCinL(s) => s.print_canonical_name(),
            State::NCsnK(s) => s.print_canonical_name(),
            State::Sibling(s) => s.print_canonical_name(),
            State::RP(s) => s.print_canonical_name(),
            State::SinL(s) => s.print_canonical_name(),
            State::NNeni(s) => s.print_canonical_name(),
            State::NNNinL(s) => s.print_canonical_name(),
            State::NAU(s) => s.print_canonical_name(),
            State::NAUinL(s) => s.print_canonical_name(),
            State::Stop(s) => s.print_canonical_name(),
        }
    }

    /// The English term of the state.
    pub fn to_string(&self) -> (s: String)
        ensures
            s@ == self.name(),
    {
        self.print_canonical_name()
    }
}

impl StateMachine {
    /// The English term of the state reached, for a machine that has read a
    /// hop.
    pub fn print_state_name(&self) -> (s: String)
        requires
            self.state().is_some(),
        ensures
            s@ == self.state().unwrap().name(),
    {
        self.get_current_state().print_canonical_name()
    }
}

impl KinError {
    /// The error in words.
    pub open spec fn message(self) -> Seq<char> {
        match self {
            KinError::SelfCycle { index } => "Person "@ + decimal(index as nat)
                + " can not be related themselves!"@,
            KinError::InvalidRelation { p1, p2 } => "Person "@ + decimal(p1 as nat)
                + " and Person "@ + decimal(p2 as nat)
                + " have an invalid Parent/Child or Sibling relation."@,
            KinError::SameSexError { p1, p2 } => "Person "@ + decimal(p1 as nat) + " and Person"@
                + decimal(p2 as nat) + " have Reproductive partners of the same sex"@,
            KinError::AlreadyTwoParents { p } => "Parent not added. Person "@ + decimal(p as nat)
                + " already has two parents"@,
            KinError::Unknown => "An unknown error occured"@,
        }
    }

    pub fn to_string(&self) -> (s: String)
        ensures
            s@ == self.message(),
    {
        match self {
            KinError::SelfCycle { index } => {
                let mut s = String::from_str("Person ");
                append_decimal(&mut s, *index as u64);
                s.append(" can not be related themselves!");
                s
            },
            KinError::InvalidRelation { p1, p2 } => {
                let mut s = String::from_str("Person ");
                append_decimal(&mut s, *p1 as u64);
                s.append(" and Person ");
                append_decimal(&mut s, *p2 as u64);
                s.append(" have an invalid Parent/Child or Sibling relation.");
                s
            },
            KinError::SameSexError { p1, p2 } => {
                let mut s = String::from_str("Person ");
                append_decimal(&mut s, *p1 as u64);
                s.append(" and Person");
                append_decimal(&mut s, *p2 as u64);
                s.append(" have Reproductive partners of the same sex");
                s
            },
            KinError::AlreadyTwoParents { p } => {
                let mut s = String::from_str("Parent not added. Person ");
                append_decimal(&mut s, *p as u64);
                s.append(" already has two parents");
                s
            },
            KinError::Unknown => String::from_str("An unknown error occured"),
        }
    }
}

impl DslError {
    /// The error in words.
    pub open spec fn message(self) -> Seq<char> {
        match self {
            DslError::InvalidDsl => "Invalid DSL"@,
            DslError::Malformed => "Invalid DSL: a line is too short"@,
            DslError::InvalidSex => "Invalid sex"@,
            DslError::InvalidRelationship => "Invalid relationship"@,
            DslError::PersonNotFound => "Person not found"@,
            DslError::Relation(e) => e.message(),
        }
    }

    pub fn to_string(&self) -> (s: String)
        ensures
            s@ == self.message(),
    {
        match self {
            DslError::InvalidDsl => String::from_str("Invalid DSL"),
            DslError::Malformed => String::from_str("Invalid DSL: a line is too short"),
            DslError::InvalidSex => String::from_str("Invalid sex"),
            DslError::InvalidRelationship => String::from_str("Invalid relationship"),
            DslError::PersonNotFound => String::from_str("Person not found"),
            DslError::Relation(e) => e.to_string(),
        }
    }
}

/// `x` in decimal digits, with `-` in front of a negative number.
pub open spec fn signed_decimal(x: int) -> Seq<char> {
    if x < 0 {
        "-"@ + decimal((-x) as nat)
    } else {
        decimal(x as nat)
    }
}

/// Appends `x` in decimal digits, with its sign if it is negative.
fn append_signed(s: &mut String, x: i32)
    ensures
        final(s)@ == old(s)@ + signed_decimal(x as int),
{
    if x < 0 {
        s.append("-");
        append_decimal(s, (-(x as i64)) as u64);
        assert(old(s)@ + "-"@ + decimal((-x) as nat) =~= old(s)@ + ("-"@ + decimal((-x) as nat)));
    } else {
        append_decimal(s, x as u64);
    }
}

impl Location {
    /// The location in words: `(d: 2,w: -3)`.
    pub open spec fn name(self) -> Seq<char> {
        "(d: "@ + signed_decimal(self.depth()) + ",w: "@ + signed_decimal(self.width()) + ")"@
    }

    pub fn to_string(&self) -> (s: String)
        ensures
            s@ == self.name(),
    {
        let mut s = String::from_str("(d: ");
        append_signed(&mut s, self.get_depth());
        s.append(",w: ");
        append_signed(&mut s, self.get_width());
        s.append(")");
        s
    }
}

} // verus!
