use kingraph::{
    parse_relations_from_dsl, query_kin, DslError, KinError, KinGraph, Kind, Link, NChildState,
    NParentState, Sex, SiblingState, State, StopState,
};

#[test]
fn statements_add_persons_in_order_of_first_mention() {
    let mut kg = KinGraph::new();
    let res = parse_relations_from_dsl("Ann F PARENT Bob M\nCid M CHILD Ann F\nBob M SIBLING Cid F", &mut kg);
    assert_eq!(res, Ok(()));
    assert_eq!(kg.person_count(), 3);
    assert_eq!(kg.px(0).get_name(), "Ann");
    assert_eq!(kg.px(1).get_name(), "Bob");
    assert_eq!(kg.px(2).get_name(), "Cid");
    assert_eq!(kg.px(0).get_sex(), Sex::Female);
    assert_eq!(kg.px(1).get_sex(), Sex::Male);
    assert_eq!(kg.px(2).get_sex(), Sex::Male);
    assert_eq!(kg.px(2).get_id(), 2);
    assert_eq!(kg.idx(kg.px(2)), Some(2));
    assert_eq!(kg.parents(1), vec![0]);
    assert_eq!(kg.parents(2), vec![0]);
    assert_eq!(
        kg.links_from(1),
        vec![
            Link { source: 1, kind: Kind::Sibling, target: 2 },
            Link { source: 1, kind: Kind::Child, target: 0 },
        ]
    );
}

#[test]
fn words_are_cut_at_any_white_space() {
    let mut kg = KinGraph::new();
    let text = "\n\n \tAnn\tF   PARENT \t Bob  M \r\n  :QUERY now\n Bob    TO\tAnn  \n\t\n";
    let res = query_kin(text, &mut kg);
    assert_eq!(res, Ok(vec![State::NChild(NChildState { n: 0, sex: Sex::Male })]));
    assert_eq!(kg.px(0).get_name(), "Ann");
    assert_eq!(kg.px(1).get_name(), "Bob");
}

#[test]
fn names_may_hold_any_characters() {
    let mut kg = KinGraph::new();
    let res = query_kin("Zoë F SIBLING José M\n:QUERY\nJosé TO Zoë", &mut kg);
    assert_eq!(res, Ok(vec![State::Sibling(SiblingState { is_half: false, sex: Sex::Male })]));
    assert_eq!(kg.px(0).get_name(), "Zoë");
}

#[test]
fn queries_are_answered_in_order() {
    let mut kg = KinGraph::new();
    let text = "A F PARENT B M\nB M PARENT C F\n:QUERY\nA TO C\nC TO A\nA TO A\nB TO A";
    let res = query_kin(text, &mut kg).unwrap();
    assert_eq!(
        res,
        vec![
            State::NParent(NParentState { n: 1, sex: Sex::Female }),
            State::NChild(NChildState { n: 1, sex: Sex::Female }),
            State::Stop(StopState {}),
            State::NChild(NChildState { n: 0, sex: Sex::Male }),
        ]
    );
}

#[test]
fn empty_script_does_nothing() {
    let mut kg = KinGraph::new();
    assert_eq!(query_kin("", &mut kg), Ok(vec![]));
    assert_eq!(query_kin("  \n \n", &mut kg), Ok(vec![]));
    assert_eq!(query_kin(":QUERY", &mut kg), Ok(vec![]));
    assert_eq!(parse_relations_from_dsl("", &mut kg), Ok(()));
    assert_eq!(kg.person_count(), 0);
}

#[test]
fn queries_are_skipped_by_parse() {
    let mut kg = KinGraph::new();
    let res = parse_relations_from_dsl("A F RP B M\n:QUERY\nnobody TO nobody\nbad", &mut kg);
    assert_eq!(res, Ok(()));
    assert_eq!(kg.person_count(), 2);
}

#[test]
fn second_query_marker_is_refused_before_anything_is_added() {
    let mut kg = KinGraph::new();
    let text = "A F RP B M\n:QUERY\nA TO B\n:QUERYING\nB TO A";
    assert_eq!(query_kin(text, &mut kg), Err(DslError::InvalidDsl));
    assert_eq!(kg.person_count(), 0);
    assert_eq!(parse_relations_from_dsl(text, &mut kg), Err(DslError::InvalidDsl));
    assert_eq!(kg.person_count(), 0);
}

#[test]
fn invalid_sex_is_refused() {
    let mut kg = KinGraph::new();
    assert_eq!(parse_relations_from_dsl("A X RP B M", &mut kg), Err(DslError::InvalidSex));
    assert_eq!(kg.person_count(), 0);
    assert_eq!(parse_relations_from_dsl("A F RP B male", &mut kg), Err(DslError::InvalidSex));
    assert_eq!(kg.person_count(), 1);
    assert_eq!(kg.px(0).get_name(), "A");
}

#[test]
fn invalid_relationship_is_refused() {
    let mut kg = KinGraph::new();
    assert_eq!(
        parse_relations_from_dsl("A F COUSIN B M", &mut kg),
        Err(DslError::InvalidRelationship)
    );
    assert_eq!(kg.person_count(), 1);
    assert_eq!(
        parse_relations_from_dsl("A F parent B M", &mut kg),
        Err(DslError::InvalidRelationship)
    );
}

#[test]
fn short_lines_are_malformed() {
    let mut kg = KinGraph::new();
    assert_eq!(parse_relations_from_dsl("A", &mut kg), Err(DslError::Malformed));
    assert_eq!(parse_relations_from_dsl("A F", &mut kg), Err(DslError::Malformed));
    assert_eq!(parse_relations_from_dsl("A F RP B", &mut kg), Err(DslError::Malformed));
    assert_eq!(parse_relations_from_dsl("A F RP B M\n\nC F RP D M", &mut kg), Err(DslError::Malformed));
    assert_eq!(query_kin("A F RP B M\n:QUERY\nA TO", &mut kg), Err(DslError::Malformed));
}

#[test]
fn unknown_person_in_query() {
    let mut kg = KinGraph::new();
    assert_eq!(query_kin("A F RP B M\n:QUERY\nA TO C", &mut kg), Err(DslError::PersonNotFound));
    assert_eq!(query_kin("A F RP B M\n:QUERY\nC TO A", &mut kg), Err(DslError::PersonNotFound));
}

#[test]
fn names_are_known_within_one_script_only() {
    let mut kg = KinGraph::new();
    assert_eq!(parse_relations_from_dsl("A F RP B M", &mut kg), Ok(()));
    assert_eq!(query_kin(":QUERY\nA TO B", &mut kg), Err(DslError::PersonNotFound));
    assert_eq!(parse_relations_from_dsl("A F RP B M", &mut kg), Ok(()));
    assert_eq!(kg.person_count(), 4);
    assert_eq!(kg.px(2).get_name(), "A");
    assert_eq!(kg.px(2).get_id(), 2);
}

#[test]
fn graph_errors_come_through() {
    let mut kg = KinGraph::new();
    assert_eq!(
        parse_relations_from_dsl("A F SIBLING A F", &mut kg),
        Err(DslError::Relation(KinError::SelfCycle { index: 0 }))
    );
    let text = "C M CHILD P F\nC M CHILD Q M\nR M PARENT C M\nX F RP Y M";
    assert_eq!(
        parse_relations_from_dsl(text, &mut kg),
        Err(DslError::Relation(KinError::AlreadyTwoParents { p: 1 }))
    );
    assert_eq!(kg.person_count(), 5);
    assert_eq!(kg.parents(1), vec![3, 2]);
}

#[test]
fn first_sex_given_stays() {
    let mut kg = KinGraph::new();
    let res = query_kin("A F PARENT B M\nA M PARENT C F\n:QUERY\nA TO C", &mut kg);
    assert_eq!(res, Ok(vec![State::NParent(NParentState { n: 0, sex: Sex::Female })]));
}
