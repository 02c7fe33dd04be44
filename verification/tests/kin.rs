use kingraph::{
    parse_relations_from_dsl, query_kin, DslError, KinError, KinGraph, Kind, NAUState, NChildState,
    NCsnKState, NNeniState, NParentState, Person, RPState, Sex, SiblingState, State, StopState,
};

fn setup_cousins() -> Result<KinGraph, KinError> {
    let mut kg = KinGraph::new();
    let p0 = kg.np(Sex::Male);
    let p1 = kg.np(Sex::Female);
    let p2 = kg.np(Sex::Male);
    let p3 = kg.np(Sex::Female);
    let p4 = kg.np(Sex::Male);
    let p5 = kg.np(Sex::Female);
    let p6 = kg.np(Sex::Male);
    let p7 = kg.np(Sex::Female);
    kg.make_child(&p2, &p0, &p1)?;
    kg.make_child(&p3, &p0, &p1)?;
    kg.make_child(&p6, &p2, &p5)?;
    kg.make_child(&p7, &p3, &p4)?;
    Ok(kg)
}

fn setup_half_siblings() -> Result<KinGraph, KinError> {
    let mut kg = KinGraph::new();
    let p0 = kg.np(Sex::Male);
    let p1 = kg.np(Sex::Female);
    let p2 = kg.np(Sex::Male);
    let p3 = kg.np(Sex::Female);
    let p4 = kg.np(Sex::Male);
    kg.make_child(&p3, &p0, &p1)?;
    kg.make_child(&p4, &p1, &p2)?;
    Ok(kg)
}

fn setup_nn_au() -> Result<KinGraph, KinError> {
    let mut kg = KinGraph::new();
    let p0 = Person::new(Sex::Female);
    let p1 = Person::new(Sex::Female);
    let p2 = Person::new(Sex::Male);
    let p3 = Person::new(Sex::Male);
    let p4 = Person::new(Sex::Female);
    kg.add_persons(&[&p0, &p1, &p2, &p3, &p4]);
    kg.add_sibling(&p0, &p1)?;
    kg.add_parent(&p1, &p2)?;
    kg.add_parent(&p2, &p3)?;
    Ok(kg)
}

fn setup_basic_kg() -> Result<KinGraph, KinError> {
    let mut kg = KinGraph::new();
    let p0 = Person::new(Sex::Female);
    let p1 = Person::new(Sex::Female);
    let p2 = Person::new(Sex::Male);
    let p3 = Person::new(Sex::Male);
    let p4 = Person::new(Sex::Female);
    let p5 = Person::new(Sex::Female);
    let p6 = Person::new(Sex::Male);
    let p7 = Person::new(Sex::Male);
    let p8 = Person::new(Sex::Female);
    let p9 = Person::new(Sex::Female);
    kg.add_person(&p0);
    kg.add_person(&p1);
    kg.add_person(&p2);
    kg.add_person(&p3);
    kg.add_person(&p4);
    kg.add_person(&p5);
    kg.add_person(&p6);
    kg.add_person(&p7);
    kg.add_person(&p8);
    kg.add_person(&p9);

    kg.add_relation(&p0, &p1, Kind::Parent)?;
    kg.add_relation(&p2, &p1, Kind::Parent)?;
    kg.add_relation(&p1, &p3, Kind::Parent).unwrap();
    kg.add_relation(&p1, &p4, Kind::RP).unwrap();
    kg.add_relation(&p3, &p7, Kind::Parent).unwrap();
    kg.add_relation(&p7, &p8, Kind::Parent).unwrap();
    kg.add_relation(&p4, &p3, Kind::Parent).unwrap();
    kg.add_relation(&p5, &p3, Kind::Sibling).unwrap();
    kg.add_relation(&p5, &p6, Kind::Parent).unwrap();
    Ok(kg)
}

#[test]
fn test_rrb() {
    let kg = setup_basic_kg().unwrap();
    assert!(!kg.is_rbb(kg.px(0), kg.px(2)));
    assert!(kg.is_rbb(kg.px(0), kg.px(1)));
    assert!(kg.is_rbb(kg.px(0), kg.px(6)));
}

#[test]
fn cousins() {
    let cousin_dsl = r#"
    Me M CHILD Sean M
    John M SIBLING Sean M
    Quinn M CHILD John M
    :QUERY
    Me TO Quinn
    "#;
    let mut kg = KinGraph::new();
    let states = query_kin(&cousin_dsl, &mut kg).unwrap();
    let res = states.iter().any(|s| {
        *s == State::NCsnK(NCsnKState { n: 1, k: 1, is_half: false, sex: Sex::Male })
    });
    assert!(res);
}

#[test]
fn half_siblings() {
    let kg = setup_half_siblings().unwrap();
    let states = kg.get_canonical_relationships(kg.px(3), kg.px(4));
    let res = states
        .iter()
        .any(|s| *s == State::Sibling(SiblingState { is_half: true, sex: Sex::Female }));
    assert!(res);
}

#[test]
fn nn_au() {
    let kg = setup_nn_au().unwrap();
    let nn_states = kg.get_canonical_relationships(kg.px(2), kg.px(0));
    println!("NN_AU TEST: {:?}", nn_states);
    let res = nn_states.iter().any(|s| {
        *s == State::NNeni(NNeniState { n: 0, is_half: false, sex: kg.px(2).get_sex() })
    });
    assert!(res);

    let au_states = kg.get_canonical_relationships(kg.px(0), kg.px(2));
    println!("AU_NN TEST: {:?}", au_states);
    let res = au_states.iter().any(|s| {
        *s == State::NAU(NAUState { n: 0, is_half: false, sex: kg.px(0).get_sex() })
    });
    assert!(res);
}

#[test]
fn test_main() {
    let kg = setup_basic_kg().unwrap();
    let states = kg.get_canonical_relationships(kg.px(4), kg.px(0));
    println!("{:?}", states);
    assert!(!states.is_empty());
    assert!(!states.contains(&State::Stop(StopState {})));
}

#[test]
fn test_child_parent_of_parent() {
    let dsl = r#"
    Izy F PARENT Mary F
    Mary F PARENT Izy F
    "#;
    let mut kg = KinGraph::new();
    let res = parse_relations_from_dsl(&dsl, &mut kg);
    println!("{:?}", res);
    assert!(res.is_err());
    assert_eq!(res, Err(DslError::Relation(KinError::InvalidRelation { p1: 1, p2: 0 })));
}

#[test]
fn test_incest() {
    let dsl = r#"
    Izy F PARENT John M
    Izy F RP John M
    "#;
    let mut kg = KinGraph::new();
    let res = parse_relations_from_dsl(&dsl, &mut kg);
    println!("{:?}", res);
    assert_eq!(res, Ok(()));
    let rel = kg.get_canonical_relationships(kg.px(0), kg.px(1));
    println!("Relationships are {:?}", rel);
    assert_eq!(
        rel,
        vec![
            State::RP(RPState { sex: Sex::Female }),
            State::NParent(NParentState { n: 0, sex: Sex::Female }),
        ]
    );
}

#[test]
fn test_is_parent() {
    let mut kg = KinGraph::new();
    let p0 = Person::new(Sex::Female);
    let p1 = Person::new(Sex::Female);
    kg.add_person(&p0);
    kg.add_person(&p1);
    kg.add_relation(&p0, &p1, Kind::Parent).unwrap();
    let res = kg.is_parent(kg.idx(&p0).unwrap(), kg.idx(&p1).unwrap());
    assert!(res);
    let is_child = kg.is_child(kg.idx(&p1).unwrap(), kg.idx(&p0).unwrap());
    assert!(is_child);
}

#[test]
fn find_multiple_paths() {
    let mut kg = KinGraph::new();
    let dsl = r#"
    Izy F PARENT Mary F
    Izy F RP Mary F"#;
    let res = parse_relations_from_dsl(&dsl, &mut kg);
    println!("{:?}", res);
    assert_eq!(res, Ok(()));
    let rels = kg.find_all_paths(kg.px(0), kg.px(1));
    println!("{:?}", rels);
    assert_eq!(rels, vec![vec![(0, Kind::RP)], vec![(0, Kind::Parent)]]);
}

#[test]
fn test_basic_dsl() {
    let dsl = r#"
    Izy F PARENT Mary F
    Solomon M CHILD Mary F
    :QUERY
    Izy TO Solomon
    "#;
    let mut kg = KinGraph::new();
    let res = query_kin(dsl, &mut kg).unwrap();
    assert_eq!(res, vec![State::NParent(NParentState { n: 1, sex: Sex::Female })]);
}

#[test]
fn grandparent_and_grandchild() {
    let mut kg = KinGraph::new();
    let a = kg.np(Sex::Female);
    let b = kg.np(Sex::Male);
    let c = kg.np(Sex::Male);
    kg.add_relation(&a, &b, Kind::Parent).unwrap();
    kg.add_relation(&b, &c, Kind::Parent).unwrap();
    let down = kg.get_canonical_relationships(&a, &c);
    assert_eq!(down, vec![State::NParent(NParentState { n: 1, sex: Sex::Female })]);
    let up = kg.get_canonical_relationships(&c, &a);
    assert_eq!(up, vec![State::NChild(NChildState { n: 1, sex: Sex::Male })]);
}

#[test]
fn full_siblings_share_both_parents() {
    let kg = setup_cousins().unwrap();
    let states = kg.get_canonical_relationships(kg.px(2), kg.px(3));
    assert!(states.contains(&State::Sibling(SiblingState { is_half: false, sex: Sex::Male })));
    assert!(kg.b_share_parents(2, 3));
    assert!(!kg.b_share_parents(2, 6));
}

#[test]
fn first_cousins_through_grandparents() {
    let kg = setup_cousins().unwrap();
    let states = kg.get_canonical_relationships(kg.px(6), kg.px(7));
    assert!(states.contains(&State::NCsnK(NCsnKState {
        n: 1,
        k: 1,
        is_half: false,
        sex: Sex::Male
    })));
}

#[test]
fn grand_niece_and_great_uncle() {
    let kg = setup_nn_au().unwrap();
    let down = kg.get_canonical_relationships(kg.px(3), kg.px(0));
    assert!(down.contains(&State::NNeni(NNeniState { n: 0, is_half: false, sex: Sex::Male })));
    let up = kg.get_canonical_relationships(kg.px(0), kg.px(3));
    assert!(up.contains(&State::NAU(NAUState { n: 0, is_half: false, sex: Sex::Female })));
}
