use kingraph::{
    gen_64, KinError, KinGraph, Kind, Link, Location, Person, Sex, CPRIME, PPRIME, RPRIME,
};

fn family(n: usize) -> (KinGraph, Vec<Person>) {
    let mut kg = KinGraph::new();
    let mut ps = Vec::new();
    for i in 0..n {
        let sex = if i % 2 == 0 { Sex::Female } else { Sex::Male };
        ps.push(kg.np_with_name(sex, format!("p{}", i)));
    }
    (kg, ps)
}

fn all_links(kg: &KinGraph) -> Vec<Link> {
    let mut out = Vec::new();
    for i in 0..kg.person_count() {
        out.extend(kg.links_from(i));
    }
    out
}

#[test]
fn persons_get_their_position() {
    let (kg, ps) = family(3);
    assert_eq!(kg.person_count(), 3);
    assert_eq!(ps[2].get_id(), 2);
    assert_eq!(ps[1].get_sex(), Sex::Male);
    assert!(!ps[1].is_shadow());
    assert_eq!(ps[1].get_name(), "p1");
    assert_eq!(kg.idx(&ps[2]), Some(2));
    assert_eq!(kg.px(1), &ps[1]);
    let stranger = Person::new_with_id(Sex::Male, 77, "x".to_string());
    assert_eq!(kg.idx(&stranger), None);
    assert_eq!(stranger.duplicate(), stranger);
}

#[test]
fn new_person_has_default_name() {
    let p = Person::new(Sex::Female);
    assert_eq!(p.get_name(), "unkn");
    assert_eq!(p.get_sex(), Sex::Female);
    assert!(!p.is_shadow());
    let mut kg = KinGraph::new();
    let q = kg.np(Sex::Male);
    assert_eq!(kg.idx(&q), Some(0));
    assert_eq!(kg.px(0), &q);
}

#[test]
fn identifiers_differ() {
    let a = gen_64();
    let b = gen_64();
    let c = gen_64();
    assert!(a != b || b != c);
}

#[test]
fn self_relation_leaves_graph_unchanged() {
    let (mut kg, ps) = family(2);
    kg.add_relation(&ps[0], &ps[1], Kind::Parent).unwrap();
    let before = all_links(&kg);
    for kind in [Kind::Parent, Kind::Child, Kind::Sibling, Kind::RP] {
        assert_eq!(kg.add_relation(&ps[1], &ps[1], kind), Err(KinError::SelfCycle { index: 1 }));
        assert_eq!(all_links(&kg), before);
    }
    assert_eq!(kg.add_sibling(&ps[0], &ps[0]), Err(KinError::SelfCycle { index: 0 }));
    assert_eq!(kg.add_repat(&ps[0], &ps[0]), Err(KinError::SelfCycle { index: 0 }));
    assert_eq!(kg.add_parent(&ps[0], &ps[0]), Err(KinError::SelfCycle { index: 0 }));
    assert_eq!(all_links(&kg), before);
}

#[test]
fn third_parent_is_refused() {
    let (mut kg, ps) = family(4);
    kg.make_child(&ps[0], &ps[1], &ps[2]).unwrap();
    let before = all_links(&kg);
    assert_eq!(
        kg.add_relation(&ps[3], &ps[0], Kind::Parent),
        Err(KinError::AlreadyTwoParents { p: 0 })
    );
    assert_eq!(
        kg.add_relation(&ps[0], &ps[3], Kind::Child),
        Err(KinError::AlreadyTwoParents { p: 0 })
    );
    assert_eq!(all_links(&kg), before);
    assert_eq!(kg.parents(0), vec![2, 1]);
}

#[test]
fn parent_of_own_parent_is_refused() {
    let (mut kg, ps) = family(2);
    kg.add_relation(&ps[0], &ps[1], Kind::Parent).unwrap();
    let before = all_links(&kg);
    assert_eq!(
        kg.add_relation(&ps[1], &ps[0], Kind::Parent),
        Err(KinError::InvalidRelation { p1: 1, p2: 0 })
    );
    assert_eq!(all_links(&kg), before);
}

#[test]
fn make_child_keeps_first_parent_when_second_is_refused() {
    let (mut kg, ps) = family(3);
    kg.add_relation(&ps[0], &ps[2], Kind::Parent).unwrap();
    assert_eq!(
        kg.make_child(&ps[0], &ps[1], &ps[2]),
        Err(KinError::InvalidRelation { p1: 2, p2: 0 })
    );
    assert_eq!(kg.parents(0), vec![1]);
    assert_eq!(kg.make_child(&ps[1], &ps[1], &ps[2]), Err(KinError::SelfCycle { index: 1 }));
    assert_eq!(kg.parents(1), Vec::<usize>::new());
}

#[test]
fn sibling_twice_gives_one_pair() {
    let (mut kg, ps) = family(2);
    assert_eq!(kg.add_relation(&ps[0], &ps[1], Kind::Sibling), Ok(()));
    assert_eq!(kg.add_relation(&ps[0], &ps[1], Kind::Sibling), Ok(()));
    assert_eq!(kg.add_relation(&ps[1], &ps[0], Kind::Sibling), Ok(()));
    assert_eq!(
        all_links(&kg),
        vec![
            Link { source: 0, kind: Kind::Sibling, target: 1 },
            Link { source: 1, kind: Kind::Sibling, target: 0 },
        ]
    );
    assert_eq!(kg.kinds_from_to(0, 1), vec![Kind::Sibling]);
}

#[test]
fn every_link_has_one_inverse() {
    let (mut kg, ps) = family(5);
    kg.make_child(&ps[2], &ps[0], &ps[1]).unwrap();
    kg.make_child(&ps[3], &ps[0], &ps[1]).unwrap();
    kg.add_relation(&ps[2], &ps[3], Kind::Sibling).unwrap();
    kg.add_relation(&ps[4], &ps[3], Kind::RP).unwrap();
    kg.add_relation(&ps[2], &ps[3], Kind::RP).unwrap();
    let links = all_links(&kg);
    assert_eq!(links.len(), 16);
    for l in &links {
        assert!(l.source != l.target);
        let inverse = Link { source: l.target, kind: l.kind.get_inverse(), target: l.source };
        assert_eq!(links.iter().filter(|m| **m == inverse).count(), 1);
        assert_eq!(links.iter().filter(|m| *m == l).count(), 1);
    }
    for c in 0..5 {
        assert!(kg.parents(c).len() <= 2);
    }
}

#[test]
fn second_parent_becomes_partner_of_first() {
    let (mut kg, ps) = family(3);
    kg.add_relation(&ps[0], &ps[2], Kind::Parent).unwrap();
    assert!(!kg.is_repart(1, 0));
    kg.add_relation(&ps[2], &ps[1], Kind::Child).unwrap();
    assert!(kg.is_repart(1, 0));
    assert!(kg.is_repart(0, 1));
    assert!(kg.is_parent(1, 2));
    assert!(kg.is_child(2, 0));
    assert!(!kg.is_parent(2, 1));
    assert_eq!(kg.parents(2), vec![1, 0]);
    assert_eq!(
        kg.links_from(2),
        vec![
            Link { source: 2, kind: Kind::Child, target: 1 },
            Link { source: 2, kind: Kind::Child, target: 0 },
        ]
    );
    assert_eq!(
        kg.links_from(1),
        vec![
            Link { source: 1, kind: Kind::Parent, target: 2 },
            Link { source: 1, kind: Kind::RP, target: 0 },
        ]
    );
}

#[test]
fn share_parents_in_either_order() {
    let (mut kg, ps) = family(5);
    kg.make_child(&ps[2], &ps[0], &ps[1]).unwrap();
    kg.make_child(&ps[3], &ps[1], &ps[0]).unwrap();
    kg.add_relation(&ps[0], &ps[4], Kind::Parent).unwrap();
    assert!(kg.b_share_parents(2, 3));
    assert!(kg.b_share_parents(3, 2));
    assert!(!kg.b_share_parents(2, 4));
    assert!(!kg.b_share_parents(0, 1));
}

#[test]
fn kinds_and_their_primes() {
    assert_eq!(Kind::Parent.get_inverse(), Kind::Child);
    assert_eq!(Kind::Child.get_inverse(), Kind::Parent);
    assert_eq!(Kind::Sibling.get_inverse(), Kind::Sibling);
    assert_eq!(Kind::RP.get_inverse(), Kind::RP);
    assert_eq!(Kind::Parent.get_prime(), 2_000_003);
    assert_eq!(Kind::Child.get_prime(), 2_000_029);
    assert_eq!(Kind::Sibling.get_prime(), 0);
    assert_eq!(Kind::RP.get_prime(), 2_000_039);
    assert_eq!((PPRIME, CPRIME, RPRIME), (2_000_003, 2_000_029, 2_000_039));
    assert!(Kind::Sibling.is_blood_kind());
    assert!(!Kind::RP.is_blood_kind());
    for kind in [Kind::Parent, Kind::Child, Kind::Sibling, Kind::RP] {
        assert_eq!(kind.get_cost(), 1);
    }
    assert_eq!(Kind::Parent.get_value(), 1);
    assert_eq!(Kind::Child.get_value(), 3);
    assert_eq!(Kind::Sibling.get_value(), 1);
    assert_eq!(Kind::RP.get_value(), 0);
}

#[test]
fn blood_relation_follows_pure_chains() {
    let (mut kg, ps) = family(6);
    kg.add_relation(&ps[0], &ps[1], Kind::Parent).unwrap();
    kg.add_relation(&ps[1], &ps[2], Kind::Parent).unwrap();
    kg.add_relation(&ps[2], &ps[3], Kind::RP).unwrap();
    kg.add_relation(&ps[4], &ps[2], Kind::Sibling).unwrap();
    assert!(kg.is_rbb(&ps[0], &ps[2]));
    assert!(kg.is_rbb(&ps[2], &ps[0]));
    assert!(kg.is_rbb(&ps[0], &ps[4]));
    assert!(!kg.is_rbb(&ps[0], &ps[3]));
    assert!(!kg.is_rbb(&ps[2], &ps[3]));
    assert!(!kg.is_rbb(&ps[0], &ps[5]));
    assert!(kg.is_rbb(&ps[5], &ps[5]));
    assert!(kg.is_rbb_at(1, 1));
    assert!(!kg.is_rbb_at(1, 3));
}

#[test]
fn mixed_chain_is_not_blood() {
    let (mut kg, ps) = family(3);
    kg.add_relation(&ps[0], &ps[1], Kind::Parent).unwrap();
    kg.add_relation(&ps[2], &ps[1], Kind::Parent).unwrap();
    assert!(!kg.is_rbb(&ps[0], &ps[2]));
    assert!(kg.is_rbb(&ps[0], &ps[1]));
}

#[test]
fn paths_between_persons() {
    let (mut kg, ps) = family(4);
    kg.make_child(&ps[2], &ps[0], &ps[1]).unwrap();
    kg.make_child(&ps[3], &ps[0], &ps[1]).unwrap();
    let paths = kg.find_all_paths(&ps[2], &ps[3]);
    assert_eq!(
        paths,
        vec![
            vec![(2, Kind::Child), (1, Kind::Parent)],
            vec![(2, Kind::Child), (1, Kind::RP), (0, Kind::Parent)],
            vec![(2, Kind::Child), (0, Kind::Parent)],
            vec![(2, Kind::Child), (0, Kind::RP), (1, Kind::Parent)],
        ]
    );
    assert_eq!(kg.find_all_paths(&ps[2], &ps[2]), vec![Vec::<(usize, Kind)>::new()]);
    assert_eq!(kg.find_all_paths_at(1, 1), vec![Vec::<(usize, Kind)>::new()]);
}

#[test]
fn no_path_gives_empty_list() {
    let (mut kg, ps) = family(3);
    kg.add_relation(&ps[0], &ps[1], Kind::Sibling).unwrap();
    assert_eq!(kg.find_all_paths(&ps[0], &ps[2]), Vec::<Vec<(usize, Kind)>>::new());
    let empty = KinGraph::new();
    assert_eq!(empty.find_all_paths_at(0, 1), Vec::<Vec<(usize, Kind)>>::new());
    assert!(!empty.is_rbb_at(0, 1));
}

#[test]
fn add_persons_in_order() {
    let a = Person::new_with_id(Sex::Male, 10, "a".to_string());
    let b = Person::new_with_id(Sex::Female, 20, "b".to_string());
    let mut kg = KinGraph::new();
    kg.add_persons(&[&a, &b]);
    assert_eq!(kg.person_count(), 2);
    assert_eq!(kg.idx(&a), Some(0));
    assert_eq!(kg.idx(&b), Some(1));
    assert_eq!(kg.px(1), &b);
}

#[test]
fn blood_relation_is_decided_by_the_sum_alone() {
    let (mut kg, ps) = family(19);
    for i in 0..5 {
        kg.add_relation(&ps[i], &ps[i + 1], Kind::Parent).unwrap();
    }
    for i in 5..17 {
        kg.add_relation(&ps[i], &ps[i + 1], Kind::RP).unwrap();
    }
    assert!(kg.is_rbb(&ps[0], &ps[5]));
    assert!(!kg.is_rbb(&ps[0], &ps[17]));
    kg.add_relation(&ps[17], &ps[18], Kind::RP).unwrap();
    assert_eq!(5 * PPRIME + 13 * RPRIME, 18 * CPRIME);
    assert!(kg.is_rbb(&ps[0], &ps[18]));
}

#[test]
fn locations_add_and_subtract() {
    let a = Location::new(2, -3);
    let b = Location::new(5, 7);
    assert_eq!(a + b, Location::new(7, 4));
    assert_eq!(a - b, Location::new(-3, -10));
    assert_eq!(a.dot(b), 2 * 7 + (-3) * 5);
    assert_eq!((a + b).get_depth(), 7);
    assert_eq!((a - b).get_width(), -10);
    assert!(a < b);
}
