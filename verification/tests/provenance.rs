use agent_bridle_core::{
    decide_admission, empty_closure, relate, AdmissionDecision, AdmissionReject, Caveats,
    ConfinedAxis, ResolvedAuthority, ResolvedScope, Scope, ScopeRelation,
};

fn only(items: &[&str]) -> Scope<String> {
    Scope::only(items.iter().map(|s| s.to_string()).collect())
}

fn concrete(items: &[&str]) -> ResolvedScope {
    ResolvedScope::concrete(items.iter().map(|s| s.to_string()).collect())
}


#[test]
fn empty_is_the_union_identity() {
    let x = concrete(&["a", "b"])
        .union(&ResolvedScope::class("cls".to_string()));
    assert_eq!(ResolvedScope::empty().union(&x), x);
    assert_eq!(x.union(&ResolvedScope::empty()), x);
}

#[test]
fn union_is_commutative_associative_idempotent() {
    let a = concrete(&["a"]);
    let b = concrete(&["b"]).union(&ResolvedScope::class("k".to_string()));
    let c = concrete(&["c"]);
    assert_eq!(a.union(&b), b.union(&a));
    assert_eq!(a.union(&b).union(&c), a.union(&b.union(&c)));
    assert_eq!(a.union(&a), a);
}

#[test]
fn unknown_propagates_and_unbounded_absorbs() {
    let a = concrete(&["a"]);
    assert_eq!(ResolvedScope::Unknown.union(&a), ResolvedScope::Unknown);
    assert_eq!(a.union(&ResolvedScope::Unknown), ResolvedScope::Unknown);
    assert_eq!(ResolvedScope::Unbounded.union(&a), ResolvedScope::Unbounded);
}

#[test]
fn from_scope_lifts_the_delegated_lattice() {
    assert_eq!(
        ResolvedScope::from_scope(&Scope::<String>::All),
        ResolvedScope::Unbounded
    );
    assert_eq!(
        ResolvedScope::from_scope(&only(&["sh"])),
        concrete(&["sh"])
    );
}


#[test]
fn relate_classifies_equal_subset_superset() {
    let narrow = concrete(&["sh"]);
    let wide = concrete(&["sh", "bash"]);
    assert_eq!(relate(&narrow, &narrow), ScopeRelation::Equal);
    assert_eq!(relate(&narrow, &wide), ScopeRelation::Subset);
    assert_eq!(relate(&wide, &narrow), ScopeRelation::Superset);
}

#[test]
fn relate_distinguishes_incomparable_from_superset() {
    let a = concrete(&["a"]);
    let b = concrete(&["b"]);
    assert_eq!(relate(&a, &b), ScopeRelation::Incomparable);
}

#[test]
fn relate_is_unknown_on_either_unknown_operand() {
    let a = concrete(&["a"]);
    assert_eq!(relate(&a, &ResolvedScope::Unknown), ScopeRelation::Unknown);
    assert_eq!(relate(&ResolvedScope::Unknown, &a), ScopeRelation::Unknown);
}

#[test]
fn a_concrete_grant_is_not_covered_by_a_class() {
    let resolved = concrete(&["127.0.0.1"]).union(&ResolvedScope::class("loopback-interface".to_string()));
    let bound = concrete(&["127.0.0.1"]);
    assert_eq!(relate(&resolved, &bound), ScopeRelation::Superset);
}


fn exec_only(programs: &[&str]) -> Caveats {
    Caveats {
        exec: only(programs),
        ..Caveats::top()
    }
}

fn exec_authority(scope: ResolvedScope) -> ResolvedAuthority {
    let mut authority = empty_closure();
    authority.exec = scope;
    authority
}

#[test]
fn sh_to_bash_launcher_widening_is_refused_without_a_closure() {
    let delegated = exec_only(&["sh"]);
    let mut resolved = ResolvedAuthority::from_delegated(&delegated);
    resolved.exec = concrete(&["sh", "bash"]);
    match decide_admission(&resolved, &delegated, &empty_closure()) {
        AdmissionDecision::Reject(AdmissionReject { axis, relation }) => {
            assert_eq!(axis, ConfinedAxis::Exec);
            assert_eq!(relation, ScopeRelation::Superset);
        }
        AdmissionDecision::Admit => panic!("a silent exec widening must refuse"),
    }
}

#[test]
fn extra_authority_is_admitted_only_via_an_explicit_closure() {
    let delegated = exec_only(&["sh"]);
    let mut resolved = ResolvedAuthority::from_delegated(&delegated);
    resolved.exec = concrete(&["sh", "bash"]);
    let closure = exec_authority(concrete(&["bash"]));
    assert!(matches!(
        decide_admission(&resolved, &delegated, &closure),
        AdmissionDecision::Admit
    ));
}

#[test]
fn an_undeclared_variant_still_refuses_under_the_declared_closure() {
    let delegated = exec_only(&["sh"]);
    let mut resolved = ResolvedAuthority::from_delegated(&delegated);
    resolved.exec = concrete(&["sh", "bash", "zsh"]);
    let closure = exec_authority(concrete(&["bash"]));
    assert!(matches!(
        decide_admission(&resolved, &delegated, &closure),
        AdmissionDecision::Reject(AdmissionReject {
            axis: ConfinedAxis::Exec,
            relation: ScopeRelation::Superset,
        })
    ));
}

#[test]
fn an_unknown_resolution_fails_closed_even_under_top_delegation() {
    let delegated = Caveats::top();
    let mut resolved = ResolvedAuthority::from_delegated(&delegated);
    resolved.net = ResolvedScope::Unknown;
    assert!(matches!(
        decide_admission(&resolved, &delegated, &empty_closure()),
        AdmissionDecision::Reject(AdmissionReject {
            axis: ConfinedAxis::Net,
            relation: ScopeRelation::Unknown,
        })
    ));
}

#[test]
fn an_unbounded_fence_over_a_bounded_grant_is_refused() {
    let delegated = exec_only(&["git"]);
    let mut resolved = ResolvedAuthority::from_delegated(&delegated);
    resolved.exec = ResolvedScope::Unbounded;
    assert!(matches!(
        decide_admission(&resolved, &delegated, &empty_closure()),
        AdmissionDecision::Reject(AdmissionReject {
            axis: ConfinedAxis::Exec,
            relation: ScopeRelation::Superset,
        })
    ));
}

#[test]
fn a_fence_matching_the_delegated_grant_is_admitted() {
    let delegated = exec_only(&["sh"]);
    let resolved = ResolvedAuthority::from_delegated(&delegated);
    assert!(matches!(
        decide_admission(&resolved, &delegated, &empty_closure()),
        AdmissionDecision::Admit
    ));
}

#[test]
fn loopback_full_interface_widening_is_refused_without_a_closure() {
    let delegated = Caveats {
        net: only(&["127.0.0.1"]),
        ..Caveats::top()
    };
    let mut resolved = ResolvedAuthority::from_delegated(&delegated);
    resolved.net = concrete(&["127.0.0.1"]).union(&ResolvedScope::class("loopback-interface".to_string()));
    assert!(matches!(
        decide_admission(&resolved, &delegated, &empty_closure()),
        AdmissionDecision::Reject(AdmissionReject {
            axis: ConfinedAxis::Net,
            relation: ScopeRelation::Superset,
        })
    ));
    let mut closure = empty_closure();
    closure.net = ResolvedScope::class("loopback-interface".to_string());
    assert!(matches!(
        decide_admission(&resolved, &delegated, &closure),
        AdmissionDecision::Admit
    ));
}

#[test]
fn relations_have_names_and_two_of_them_stay_within() {
    let all = [
        (ScopeRelation::Equal, "Equal", true),
        (ScopeRelation::Subset, "Subset", true),
        (ScopeRelation::Superset, "Superset", false),
        (ScopeRelation::Incomparable, "Incomparable", false),
        (ScopeRelation::Unknown, "Unknown", false),
    ];
    for (relation, name, within) in all {
        assert_eq!(relation.name(), name);
        assert_eq!(relation.stays_within(), within);
    }
}

#[test]
fn an_unbounded_bound_covers_all_that_is_known() {
    assert_eq!(
        relate(&concrete(&["a"]), &ResolvedScope::Unbounded),
        ScopeRelation::Subset
    );
    assert_eq!(
        relate(&ResolvedScope::Unbounded, &ResolvedScope::Unbounded),
        ScopeRelation::Equal
    );
    assert_eq!(
        relate(&ResolvedScope::Unbounded, &concrete(&["a"])),
        ScopeRelation::Superset
    );
}
