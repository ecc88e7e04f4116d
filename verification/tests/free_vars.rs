use tyck_core::free::{
    clone_free_kind, fresh_param_name, fresh_varname, Constraint, Cyclicity, FreeKind, FreeVars,
    FreshNameGen,
};
use tyck_core::ty::{mono, type_eq, Type};

fn untyped() -> Constraint {
    Constraint::new_sandwiched(Type::Never, Type::Obj, Cyclicity::Not)
}

#[test]
fn combine_is_commutative_and_idempotent() {
    let tags = [Cyclicity::Sub, Cyclicity::Super, Cyclicity::Both, Cyclicity::Not];
    for &a in &tags {
        assert_eq!(a.combine(a), a);
        for &b in &tags {
            assert_eq!(a.combine(b), b.combine(a));
        }
    }
}

#[test]
fn combine_not_is_identity_and_mixed_gives_both() {
    assert_eq!(Cyclicity::Sub.combine(Cyclicity::Not), Cyclicity::Sub);
    assert_eq!(Cyclicity::Not.combine(Cyclicity::Super), Cyclicity::Super);
    assert_eq!(Cyclicity::Sub.combine(Cyclicity::Super), Cyclicity::Both);
    assert_eq!(Cyclicity::Super.combine(Cyclicity::Sub), Cyclicity::Both);
    assert_eq!(Cyclicity::Both.combine(Cyclicity::Sub), Cyclicity::Both);
}

#[test]
fn cyclicity_predicates() {
    assert!(Cyclicity::Sub.is_cyclic());
    assert!(Cyclicity::Super.is_cyclic());
    assert!(Cyclicity::Both.is_cyclic());
    assert!(!Cyclicity::Not.is_cyclic());
    assert!(Cyclicity::Super.is_super_cyclic());
    assert!(Cyclicity::Both.is_super_cyclic());
    assert!(!Cyclicity::Sub.is_super_cyclic());
}

#[test]
fn type_of_the_kind_of_types_becomes_bounds() {
    let c = Constraint::new_type_of(Type::Type);
    match c {
        Constraint::Sandwiched { sub, sup, cyclicity } => {
            assert!(matches!(sub, Type::Never));
            assert!(matches!(sup, Type::Obj));
            assert_eq!(cyclicity, Cyclicity::Not);
        }
        _ => panic!("expected a bounds pair"),
    }
    let c2 = Constraint::new_type_of(mono("Int"));
    assert!(matches!(c2, Constraint::TypeOf(_)));
}

#[test]
fn constraint_getters() {
    let c = Constraint::new_sandwiched(mono("Nat"), mono("Int"), Cyclicity::Not);
    assert!(type_eq(c.get_sub().unwrap(), &mono("Nat")));
    assert!(type_eq(c.get_super().unwrap(), &mono("Int")));
    let (sub, sup) = c.get_sub_sup().unwrap();
    assert!(type_eq(sub, &mono("Nat")));
    assert!(type_eq(sup, &mono("Int")));
    assert!(!c.is_uninited());
    assert!(Constraint::Uninited.is_uninited());
    assert_eq!(c.cyclicicty(), Cyclicity::Not);
    assert!(type_eq(untyped().get_type().unwrap(), &Type::Type));
    assert!(Constraint::new_type_of(mono("Int")).get_type().is_some());
}

#[test]
fn get_super_mut_rewrites_the_upper_bound() {
    let mut c = Constraint::new_sandwiched(Type::Never, mono("Obj"), Cyclicity::Not);
    if let Some(sup) = c.get_super_mut() {
        *sup = mono("Int");
    }
    assert!(type_eq(c.get_super().unwrap(), &mono("Int")));
    let mut t = Constraint::new_type_of(mono("Int"));
    assert!(t.get_super_mut().is_none());
}

#[test]
fn update_cyclicity_joins() {
    let mut c = Constraint::new_sandwiched(Type::Never, Type::Obj, Cyclicity::Sub);
    c.update_cyclicity(Cyclicity::Super);
    assert_eq!(c.cyclicicty(), Cyclicity::Both);
}

#[test]
fn fresh_names_count_up() {
    let mut g = FreshNameGen::new();
    assert_eq!(fresh_varname(&mut g), "%v1");
    assert_eq!(fresh_varname(&mut g), "%v2");
    assert_eq!(fresh_param_name(&mut g), "%p3");
    let mut g2 = FreshNameGen::new();
    assert_eq!(fresh_param_name(&mut g2), "%p1");
}

#[test]
fn fresh_ids_are_the_next_index() {
    let mut vars = FreeVars::new();
    let a = vars.new_unbound(0, untyped());
    let b = vars.new_named_unbound("T".to_string(), 0, untyped());
    assert_eq!(a, 0);
    assert_eq!(b, 1);
    assert_eq!(vars.len(), 2);
    assert!(vars.is_unbound(a));
    assert!(!vars.is_linked(a));
    assert_eq!(vars.get_unbound_name(b).unwrap(), "T");
    assert!(vars.get_unbound_name(a).is_none());
    assert_eq!(vars.unbound_name(a).unwrap(), "%0");
    assert_eq!(vars.unbound_name(b).unwrap(), "T");
}

#[test]
fn linking_resolves_for_every_holder() {
    let mut vars = FreeVars::new();
    let v = vars.new_unbound(0, untyped());
    vars.link(v, &mono("Int"));
    assert!(vars.is_linked(v));
    assert!(type_eq(vars.crack(v), &mono("Int")));
    assert!(type_eq(&vars.unwrap_linked(v), &mono("Int")));
}

// Recording a reversible link and rolling it back restores the previous
// state exactly.
#[test]
fn undo_round_trip_restores_the_cell() {
    let mut vars = FreeVars::new();
    let v = vars.new_unbound(7, Constraint::new_supertype_of(mono("Nat"), Cyclicity::Not));
    let before = vars.clone_inner(v);
    vars.undoable_link(v, &mono("Int"));
    assert!(vars.is_linked(v));
    assert!(type_eq(vars.crack(v), &mono("Int")));
    vars.undo(v);
    let after = vars.clone_inner(v);
    match (&before, &after) {
        (
            FreeKind::Unbound { id: i1, lev: l1, constraint: c1 },
            FreeKind::Unbound { id: i2, lev: l2, constraint: c2 },
        ) => {
            assert_eq!(i1, i2);
            assert_eq!(l1, l2);
            assert!(type_eq(c1.get_sub().unwrap(), c2.get_sub().unwrap()));
            assert!(type_eq(c1.get_super().unwrap(), c2.get_super().unwrap()));
        }
        _ => panic!("state not restored"),
    }
}

#[test]
fn undo_round_trip_through_a_previous_link() {
    let mut vars = FreeVars::new();
    let v = vars.new_linked(mono("Nat"));
    vars.undoable_link(v, &mono("Int"));
    vars.undo(v);
    assert!(type_eq(vars.crack(v), &mono("Nat")));
}

// update_level never raises a stored level, and a larger level is a no-op.
#[test]
fn update_level_only_lowers() {
    let mut vars = FreeVars::new();
    let v = vars.new_unbound(5, untyped());
    vars.update_level(v, 3, 8);
    assert_eq!(vars.level(v), Some(3));
    vars.update_level(v, 10, 8);
    assert_eq!(vars.level(v), Some(3));
    vars.update_level(v, 3, 8);
    assert_eq!(vars.level(v), Some(3));
}

#[test]
fn update_level_follows_links() {
    let mut vars = FreeVars::new();
    let inner = vars.new_unbound(9, untyped());
    let outer = vars.new_linked(Type::FreeVar(inner));
    vars.update_level(outer, 2, 8);
    assert_eq!(vars.level(inner), Some(2));
}

#[test]
fn lift_raises_levels() {
    let mut vars = FreeVars::new();
    let v = vars.new_unbound(4, untyped());
    vars.lift(v, 8);
    assert_eq!(vars.level(v), Some(5));
}

#[test]
fn lift_reaches_bound_types() {
    let mut vars = FreeVars::new();
    let inner = vars.new_unbound(3, untyped());
    let v = vars.new_unbound(
        3,
        Constraint::new_subtype_of(Type::FreeVar(inner), Cyclicity::Not),
    );
    vars.lift(v, 8);
    assert_eq!(vars.level(v), Some(4));
    assert_eq!(vars.level(inner), Some(4));
}

#[test]
fn update_constraint_replaces_only_the_constraint() {
    let mut vars = FreeVars::new();
    let v = vars.new_unbound(2, untyped());
    vars.update_constraint(v, Constraint::new_supertype_of(mono("Nat"), Cyclicity::Not));
    assert_eq!(vars.level(v), Some(2));
    let (sub, sup) = vars.get_bound_types(v).unwrap();
    assert!(type_eq(&sub, &mono("Nat")));
    assert!(type_eq(&sup, &Type::Obj));
    assert!(vars.constraint_is_sandwiched(v));
    assert!(!vars.constraint_is_typeof(v));
}

#[test]
fn replace_and_borrow() {
    let mut vars = FreeVars::new();
    let v = vars.new_unbound(0, untyped());
    let k = clone_free_kind(vars.borrow(v));
    vars.replace(v, k);
    assert!(vars.is_unbound(v));
    let (name, lev, _c) = vars.unwrap_unbound(v);
    assert!(name.is_none());
    assert_eq!(lev, 0);
}
