use kingraph::{
    DslError, KinError, Kind, Location, NAUState, NAUinLState, NCinLState, NChildState, NCsnKState, NNNinLState, NNeniState,
    NParentState, NPinLState, RPState, Sex, SiblingState, SinLState, State, StopState,
};

#[test]
fn parent_names() {
    assert_eq!(NParentState { n: 0, sex: Sex::Female }.print_canonical_name(), "mother");
    assert_eq!(NParentState { n: 0, sex: Sex::Male }.print_canonical_name(), "father");
    assert_eq!(NParentState { n: 1, sex: Sex::Male }.print_canonical_name(), "grand-father");
    assert_eq!(NParentState { n: 2, sex: Sex::Female }.print_canonical_name(), "great-grand-mother");
    assert_eq!(
        NParentState { n: 3, sex: Sex::Female }.print_canonical_name(),
        "great-great-grand-mother"
    );
}

#[test]
fn parent_in_law_names() {
    assert_eq!(NPinLState { n: 0, sex: Sex::Male }.print_canonical_name(), "-father in law");
    assert_eq!(NPinLState { n: 1, sex: Sex::Female }.print_canonical_name(), "grand-mother in law");
    assert_eq!(
        NPinLState { n: 2, sex: Sex::Female }.print_canonical_name(),
        "great-grand-mother in law"
    );
}

#[test]
fn child_names() {
    assert_eq!(NChildState { n: 0, sex: Sex::Male }.print_canonical_name(), "son");
    assert_eq!(NChildState { n: 0, sex: Sex::Female }.print_canonical_name(), "daughter");
    assert_eq!(NChildState { n: 1, sex: Sex::Female }.print_canonical_name(), "grand-daughter");
    assert_eq!(NChildState { n: 3, sex: Sex::Male }.print_canonical_name(), "great-great-grand-son");
}

#[test]
fn child_in_law_names() {
    assert_eq!(NCinLState { n: 0, sex: Sex::Male }.print_canonical_name(), "son in law");
    assert_eq!(NCinLState { n: 1, sex: Sex::Male }.print_canonical_name(), "greatson in law");
    assert_eq!(
        NCinLState { n: 2, sex: Sex::Female }.print_canonical_name(),
        "great-great-daughter in law"
    );
}

#[test]
fn cousin_names() {
    let first = NCsnKState { n: 1, k: 1, is_half: false, sex: Sex::Male };
    assert_eq!(first.print_canonical_name(), "1st cousin");
    let second = NCsnKState { n: 2, k: 1, is_half: false, sex: Sex::Male };
    assert_eq!(second.print_canonical_name(), "2nd cousin once removed");
    let third = NCsnKState { n: 3, k: -1, is_half: true, sex: Sex::Female };
    assert_eq!(third.print_canonical_name(), "3rd half-cousin twice removed");
    let far = NCsnKState { n: 14, k: -2, is_half: false, sex: Sex::Female };
    assert_eq!(far.print_canonical_name(), "14th cousin 12-times removed");
    let none = NCsnKState { n: 0, k: 3, is_half: false, sex: Sex::Female };
    assert_eq!(none.print_canonical_name(), "0th cousin 3-times removed");
    let deep = NCsnKState { n: 1, k: i32::MIN, is_half: false, sex: Sex::Female };
    assert_eq!(deep.print_canonical_name(), "1st cousin 2147483647-times removed");
}

#[test]
fn sibling_and_partner_names() {
    assert_eq!(SiblingState { is_half: false, sex: Sex::Male }.print_canonical_name(), "brother");
    assert_eq!(SiblingState { is_half: true, sex: Sex::Female }.print_canonical_name(), "half-sister");
    assert_eq!(RPState { sex: Sex::Female }.print_canonical_name(), "female reproductive partner");
    assert_eq!(RPState { sex: Sex::Male }.print_canonical_name(), "male reproductive partner");
    assert_eq!(SinLState { is_half: false, sex: Sex::Female }.print_canonical_name(), "sister in law");
    assert_eq!(
        SinLState { is_half: true, sex: Sex::Male }.print_canonical_name(),
        "brotherhalf- in law"
    );
}

#[test]
fn niece_and_uncle_names() {
    assert_eq!(NNeniState { n: 0, is_half: false, sex: Sex::Female }.print_canonical_name(), "niece");
    assert_eq!(
        NNeniState { n: 1, is_half: false, sex: Sex::Male }.print_canonical_name(),
        "grandnephew"
    );
    assert_eq!(
        NNeniState { n: 2, is_half: false, sex: Sex::Male }.print_canonical_name(),
        "great-great-nephew"
    );
    assert_eq!(
        NNNinLState { n: 0, is_half: false, sex: Sex::Male }.print_canonical_name(),
        "-nephew in law"
    );
    assert_eq!(
        NNNinLState { n: 1, is_half: false, sex: Sex::Female }.print_canonical_name(),
        "great-niece in law"
    );
    assert_eq!(
        NNNinLState { n: 3, is_half: false, sex: Sex::Female }.print_canonical_name(),
        "great-great-great-niece in law"
    );
    assert_eq!(NAUState { n: 0, is_half: false, sex: Sex::Male }.print_canonical_name(), "uncle");
    assert_eq!(NAUState { n: 1, is_half: true, sex: Sex::Female }.print_canonical_name(), "grandaunt");
    assert_eq!(
        NAUState { n: 2, is_half: false, sex: Sex::Female }.print_canonical_name(),
        "great-great-aunt"
    );
    assert_eq!(
        NAUinLState { n: 0, is_half: false, sex: Sex::Female }.print_canonical_name(),
        "-aunt in law"
    );
    assert_eq!(
        NAUinLState { n: 2, is_half: false, sex: Sex::Male }.print_canonical_name(),
        "great-great-uncle in law"
    );
}

#[test]
fn stop_and_state_names() {
    assert_eq!(StopState {}.print_canonical_name(), "Stop");
    let s = State::NParent(NParentState { n: 1, sex: Sex::Female });
    assert_eq!(s.print_canonical_name(), "grand-mother");
    assert_eq!(s.to_string(), "grand-mother");
    assert_eq!(State::Stop(StopState {}).to_string(), "Stop");
}

#[test]
fn kind_labels() {
    assert_eq!(Kind::Parent.to_string(), "P");
    assert_eq!(Kind::Child.to_string(), "C");
    assert_eq!(Kind::Sibling.to_string(), "S");
    assert_eq!(Kind::RP.to_string(), "R");
}

#[test]
fn error_messages() {
    assert_eq!(
        KinError::SelfCycle { index: 3 }.to_string(),
        "Person 3 can not be related themselves!"
    );
    assert_eq!(
        KinError::InvalidRelation { p1: 10, p2: 0 }.to_string(),
        "Person 10 and Person 0 have an invalid Parent/Child or Sibling relation."
    );
    assert_eq!(
        KinError::SameSexError { p1: 1, p2: 25 }.to_string(),
        "Person 1 and Person25 have Reproductive partners of the same sex"
    );
    assert_eq!(
        KinError::AlreadyTwoParents { p: 907 }.to_string(),
        "Parent not added. Person 907 already has two parents"
    );
    assert_eq!(KinError::Unknown.to_string(), "An unknown error occured");
    assert_eq!(DslError::InvalidDsl.to_string(), "Invalid DSL");
    assert_eq!(DslError::Malformed.to_string(), "Invalid DSL: a line is too short");
    assert_eq!(DslError::InvalidSex.to_string(), "Invalid sex");
    assert_eq!(DslError::InvalidRelationship.to_string(), "Invalid relationship");
    assert_eq!(DslError::PersonNotFound.to_string(), "Person not found");
    assert_eq!(
        DslError::Relation(KinError::AlreadyTwoParents { p: 1 }).to_string(),
        "Parent not added. Person 1 already has two parents"
    );
}

#[test]
fn location_in_words() {
    assert_eq!(Location::new(2, -3).to_string(), "(d: 2,w: -3)");
    assert_eq!(Location::new(0, 0).to_string(), "(d: 0,w: 0)");
    assert_eq!(Location::new(i32::MIN, i32::MAX).to_string(), "(d: -2147483648,w: 2147483647)");
}
