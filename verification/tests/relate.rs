use kingraph::{
    KinGraph, Kind, NAUState, NAUinLState, NCinLState, NChildState, NCsnKState, NNNinLState,
    NNeniState, NParentState, NPinLState, Person, RPState, Sex, SiblingState, SinLState, State,
    StateMachine, StopState,
};

fn family(n: usize) -> (KinGraph, Vec<Person>) {
    let mut kg = KinGraph::new();
    let mut ps = Vec::new();
    for i in 0..n {
        let sex = if i % 2 == 0 { Sex::Female } else { Sex::Male };
        ps.push(kg.np_with_name(sex, format!("p{}", i)));
    }
    (kg, ps)
}

fn stop() -> State {
    State::Stop(StopState {})
}

#[test]
fn self_is_stop() {
    let (kg, ps) = family(2);
    assert_eq!(kg.get_canonical_relationships(&ps[0], &ps[0]), vec![stop()]);
    assert_eq!(kg.get_canonical_relationships(&ps[1], &ps[1]), vec![stop()]);
}

#[test]
fn unrelated_is_stop() {
    let (kg, ps) = family(2);
    assert_eq!(kg.get_canonical_relationships(&ps[0], &ps[1]), vec![stop()]);
}

#[test]
fn stop_results_are_filtered() {
    let (mut kg, ps) = family(3);
    kg.add_relation(&ps[0], &ps[1], Kind::RP).unwrap();
    kg.add_relation(&ps[1], &ps[2], Kind::RP).unwrap();
    assert_eq!(kg.get_canonical_relationships(&ps[0], &ps[2]), Vec::<State>::new());
}

#[test]
fn equal_states_collapse() {
    let (mut kg, ps) = family(4);
    kg.make_child(&ps[2], &ps[0], &ps[1]).unwrap();
    kg.make_child(&ps[3], &ps[0], &ps[1]).unwrap();
    assert_eq!(kg.find_all_paths(&ps[2], &ps[3]).len(), 4);
    assert_eq!(
        kg.get_canonical_relationships(&ps[2], &ps[3]),
        vec![State::Sibling(SiblingState { is_half: false, sex: Sex::Female })]
    );
}

#[test]
fn replaying_a_path_gives_the_collected_state() {
    let (mut kg, ps) = family(6);
    kg.make_child(&ps[2], &ps[0], &ps[1]).unwrap();
    kg.make_child(&ps[3], &ps[0], &ps[1]).unwrap();
    kg.add_relation(&ps[2], &ps[4], Kind::Parent).unwrap();
    kg.add_relation(&ps[3], &ps[5], Kind::Parent).unwrap();
    let collected = kg.get_canonical_relationships(&ps[4], &ps[5]);
    let paths = kg.find_all_paths(&ps[4], &ps[5]);
    assert!(!paths.is_empty());
    for path in &paths {
        let again = kg.calculate_cr_single_path(4, path, 5);
        assert_eq!(again, kg.calculate_cr_single_path(4, path, 5));
        assert!(again == stop() || collected.contains(&again));
    }
    assert!(collected.contains(&State::NCsnK(NCsnKState {
        n: 1,
        k: 1,
        is_half: false,
        sex: Sex::Female
    })));
}

#[test]
fn machine_starts_with_base_state() {
    let (mut kg, ps) = family(2);
    kg.add_relation(&ps[0], &ps[1], Kind::Parent).unwrap();
    for (kind, base) in [
        (Kind::Parent, State::NParent(NParentState { n: 0, sex: Sex::Female })),
        (Kind::Child, State::NChild(NChildState { n: 0, sex: Sex::Female })),
        (Kind::Sibling, State::Sibling(SiblingState { is_half: false, sex: Sex::Female })),
        (Kind::RP, State::RP(RPState { sex: Sex::Female })),
    ] {
        let mut sm = StateMachine::new();
        assert_eq!(sm.transition((0, kind, 1), &kg), Some(()));
        assert_eq!(sm.get_current_state(), base);
        assert_eq!(kind.into_base_state(Sex::Female), base);
        assert_eq!(sm.print_state_name(), base.print_canonical_name());
    }
}

#[test]
fn machine_stays_in_stop() {
    let (kg, _) = family(2);
    let mut sm = StateMachine::new();
    assert_eq!(sm.transition((0, Kind::RP, 1), &kg), Some(()));
    assert_eq!(sm.transition((0, Kind::RP, 1), &kg), Some(()));
    assert_eq!(sm.get_current_state(), stop());
    assert_eq!(sm.transition((0, Kind::Parent, 1), &kg), None);
    assert_eq!(sm.get_current_state(), stop());
    assert!(sm.get_current_state().is_stop());
    assert_eq!(StopState {}.transition((0, Kind::Parent, 1), &kg), None);
    assert_eq!(stop().transition((0, Kind::Child, 1), &kg), None);
}

fn next(s: State, kind: Kind, kg: &KinGraph) -> State {
    s.transition((0, kind, 1), kg).unwrap()
}

#[test]
fn parent_transitions() {
    let (kg, _) = family(2);
    let sex = Sex::Male;
    let p0 = State::NParent(NParentState { n: 0, sex });
    assert_eq!(next(p0, Kind::Parent, &kg), State::NParent(NParentState { n: 1, sex }));
    assert_eq!(next(p0, Kind::Child, &kg), State::RP(RPState { sex }));
    assert_eq!(next(p0, Kind::RP, &kg), State::NPinL(NPinLState { n: 0, sex }));
    assert_eq!(next(p0, Kind::Sibling, &kg), p0);
    let p2 = State::NParent(NParentState { n: 2, sex });
    assert_eq!(next(p2, Kind::Parent, &kg), State::NParent(NParentState { n: 3, sex }));
    assert_eq!(next(p2, Kind::Child, &kg), State::NPinL(NPinLState { n: 1, sex }));
    assert_eq!(next(p2, Kind::RP, &kg), State::NPinL(NPinLState { n: 3, sex }));
    assert_eq!(next(p2, Kind::Sibling, &kg), p2);
    let l1 = State::NPinL(NPinLState { n: 1, sex });
    assert_eq!(next(l1, Kind::Parent, &kg), State::NParent(NParentState { n: 2, sex }));
    assert_eq!(next(l1, Kind::Child, &kg), stop());
    assert_eq!(next(l1, Kind::RP, &kg), l1);
    assert_eq!(next(l1, Kind::Sibling, &kg), State::NParent(NParentState { n: 1, sex }));
}

#[test]
fn child_transitions() {
    let (mut kg, ps) = family(4);
    let sex = Sex::Male;
    let c0 = State::NChild(NChildState { n: 0, sex });
    let c2 = State::NChild(NChildState { n: 2, sex });
    assert_eq!(next(c0, Kind::Parent, &kg), State::Sibling(SiblingState { is_half: true, sex }));
    assert_eq!(next(c0, Kind::Child, &kg), State::NChild(NChildState { n: 1, sex }));
    assert_eq!(next(c0, Kind::RP, &kg), stop());
    assert_eq!(next(c0, Kind::Sibling, &kg), State::NNeni(NNeniState { n: 0, is_half: false, sex }));
    assert_eq!(next(c2, Kind::Parent, &kg), c2);
    assert_eq!(next(c2, Kind::Child, &kg), State::NChild(NChildState { n: 3, sex }));
    assert_eq!(next(c2, Kind::RP, &kg), stop());
    assert_eq!(next(c2, Kind::Sibling, &kg), State::NNeni(NNeniState { n: 1, is_half: false, sex }));
    kg.make_child(&ps[0], &ps[2], &ps[3]).unwrap();
    kg.make_child(&ps[1], &ps[2], &ps[3]).unwrap();
    assert_eq!(next(c0, Kind::Parent, &kg), State::Sibling(SiblingState { is_half: false, sex }));
    assert_eq!(next(c2, Kind::Parent, &kg), State::NNeni(NNeniState { n: 1, is_half: false, sex }));
    let up = c0.transition((2, Kind::RP, 0), &kg).unwrap();
    assert_eq!(up, State::NChild(NChildState { n: 1, sex }));
    let up = c2.transition((2, Kind::RP, 0), &kg).unwrap();
    assert_eq!(up, State::NChild(NChildState { n: 3, sex }));
}

#[test]
fn in_law_transitions() {
    let (mut kg, ps) = family(2);
    let sex = Sex::Female;
    let c1 = State::NCinL(NCinLState { n: 1, sex });
    assert_eq!(next(c1, Kind::Parent, &kg), stop());
    assert_eq!(next(c1, Kind::Child, &kg), State::NCinL(NCinLState { n: 2, sex }));
    assert_eq!(next(c1, Kind::RP, &kg), stop());
    assert_eq!(
        next(c1, Kind::Sibling, &kg),
        State::NNNinL(NNNinLState { n: 1, is_half: false, sex })
    );
    kg.add_relation(&ps[0], &ps[1], Kind::RP).unwrap();
    assert_eq!(next(c1, Kind::RP, &kg), c1);
    let rp = State::RP(RPState { sex });
    assert_eq!(next(rp, Kind::Parent, &kg), stop());
    assert_eq!(next(rp, Kind::Child, &kg), State::NCinL(NCinLState { n: 0, sex }));
    assert_eq!(next(rp, Kind::RP, &kg), stop());
    assert_eq!(next(rp, Kind::Sibling, &kg), State::SinL(SinLState { is_half: false, sex }));
    let sl = State::SinL(SinLState { is_half: true, sex: Sex::Male });
    assert_eq!(
        next(sl, Kind::Parent, &kg),
        State::NAUinL(NAUinLState { n: 0, is_half: true, sex: Sex::Female })
    );
    assert_eq!(next(sl, Kind::Child, &kg), State::RP(RPState { sex: Sex::Male }));
    assert_eq!(next(sl, Kind::RP, &kg), stop());
    assert_eq!(next(sl, Kind::Sibling, &kg), sl);
}

#[test]
fn cousin_transitions() {
    let (kg, _) = family(2);
    let sex = Sex::Male;
    let c = State::NCsnK(NCsnKState { n: 2, k: 1, is_half: true, sex });
    assert_eq!(
        next(c, Kind::Parent, &kg),
        State::NCsnK(NCsnKState { n: 2, k: 2, is_half: false, sex })
    );
    assert_eq!(
        next(c, Kind::Child, &kg),
        State::NCsnK(NCsnKState { n: 2, k: 0, is_half: false, sex })
    );
    assert_eq!(next(c, Kind::RP, &kg), stop());
    assert_eq!(next(c, Kind::Sibling, &kg), c);
    let even = State::NCsnK(NCsnKState { n: 2, k: 2, is_half: true, sex });
    assert_eq!(next(even, Kind::Child, &kg), State::NNeni(NNeniState { n: 2, is_half: true, sex }));
    let below = State::NCsnK(NCsnKState { n: 0, k: -1, is_half: false, sex });
    assert_eq!(
        next(below, Kind::Child, &kg),
        State::NCsnK(NCsnKState { n: 0, k: -2, is_half: false, sex })
    );
}

#[test]
fn sibling_transitions() {
    let (kg, _) = family(2);
    let s = State::Sibling(SiblingState { is_half: true, sex: Sex::Male });
    assert_eq!(
        next(s, Kind::Parent, &kg),
        State::NAU(NAUState { n: 0, is_half: true, sex: Sex::Female })
    );
    assert_eq!(next(s, Kind::Child, &kg), State::NChild(NChildState { n: 0, sex: Sex::Male }));
    assert_eq!(next(s, Kind::RP, &kg), State::SinL(SinLState { is_half: true, sex: Sex::Male }));
    assert_eq!(next(s, Kind::Sibling, &kg), s);
}

#[test]
fn niece_transitions() {
    let (kg, _) = family(2);
    let sex = Sex::Female;
    let n1 = State::NNeni(NNeniState { n: 1, is_half: true, sex });
    assert_eq!(
        next(n1, Kind::Parent, &kg),
        State::NCsnK(NCsnKState { n: 2, k: 2, is_half: true, sex })
    );
    assert_eq!(next(n1, Kind::Child, &kg), stop());
    assert_eq!(next(n1, Kind::RP, &kg), stop());
    assert_eq!(next(n1, Kind::Sibling, &kg), n1);
    let l1 = State::NNNinL(NNNinLState { n: 1, is_half: true, sex });
    assert_eq!(
        next(l1, Kind::Parent, &kg),
        State::NCsnK(NCsnKState { n: 1, k: 1, is_half: true, sex })
    );
    assert_eq!(next(l1, Kind::Child, &kg), stop());
    assert_eq!(next(l1, Kind::RP, &kg), stop());
    assert_eq!(next(l1, Kind::Sibling, &kg), n1);
}

#[test]
fn uncle_transitions() {
    let (mut kg, ps) = family(3);
    let sex = Sex::Male;
    let from = Sex::Female;
    let u0 = State::NAU(NAUState { n: 0, is_half: true, sex });
    assert_eq!(next(u0, Kind::Parent, &kg), State::NAU(NAUState { n: 0, is_half: false, sex }));
    assert_eq!(next(u0, Kind::Child, &kg), State::SinL(SinLState { is_half: true, sex }));
    assert_eq!(next(u0, Kind::RP, &kg), State::NAUinL(NAUinLState { n: 0, is_half: true, sex }));
    assert_eq!(next(u0, Kind::Sibling, &kg), u0);
    let u2 = State::NAU(NAUState { n: 2, is_half: true, sex });
    assert_eq!(
        next(u2, Kind::Parent, &kg),
        State::NAU(NAUState { n: 3, is_half: false, sex: from })
    );
    assert_eq!(
        next(u2, Kind::Child, &kg),
        State::NAUinL(NAUinLState { n: 1, is_half: true, sex: from })
    );
    assert_eq!(next(u2, Kind::RP, &kg), State::NAUinL(NAUinLState { n: 2, is_half: true, sex }));
    assert_eq!(next(u2, Kind::Sibling, &kg), u2);
    let l1 = State::NAUinL(NAUinLState { n: 1, is_half: true, sex });
    assert_eq!(next(l1, Kind::Parent, &kg), stop());
    assert_eq!(next(l1, Kind::Child, &kg), stop());
    assert_eq!(next(l1, Kind::RP, &kg), stop());
    assert_eq!(
        next(l1, Kind::Sibling, &kg),
        State::NAUinL(NAUinLState { n: 1, is_half: true, sex: from })
    );
    kg.add_relation(&ps[0], &ps[2], Kind::Parent).unwrap();
    kg.add_relation(&ps[2], &ps[1], Kind::Parent).unwrap();
    assert_eq!(next(l1, Kind::Parent, &kg), State::NAU(NAUState { n: 2, is_half: true, sex }));
}
