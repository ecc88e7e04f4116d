use tyck_core::context::{Context, ContextKind, Contexts, CtxId, Mutability, Visibility};
use tyck_core::error::TyCheckError;
use tyck_core::free::{Constraint, Cyclicity, FreeVars};
use tyck_core::solver::{
    instantiate, occurs, related, sub_unify, subtype_of, supertype_of, union, GENERIC_LEVEL,
};
use tyck_core::ty::{anon, func, kw, mono, poly, record, type_eq, Type};

const FUEL: usize = 32;

fn untyped() -> Constraint {
    Constraint::new_sandwiched(Type::Never, Type::Obj, Cyclicity::Not)
}

/// The standard numeric and object hierarchy: Nat below Int below Obj,
/// Str below Obj.
fn std_hierarchy() -> (Contexts, CtxId) {
    let mut cs = Contexts::new();
    let root = cs.add(Context::new("<builtins>".to_string(), ContextKind::Module, None));
    cs.set_builtins(root);
    let obj_scope = cs.add(Context::new("Obj".to_string(), ContextKind::Class, Some(root)));
    cs.register_mono_type(root, mono("Obj"), obj_scope, Visibility::Public, Mutability::Immutable);
    let int_scope = cs.add(Context::new("Int".to_string(), ContextKind::Class, Some(root)));
    cs.register_superclass(int_scope, mono("Obj"), obj_scope);
    cs.register_mono_type(root, mono("Int"), int_scope, Visibility::Public, Mutability::Immutable);
    let nat_scope = cs.add(Context::new("Nat".to_string(), ContextKind::Class, Some(root)));
    cs.register_superclass(nat_scope, mono("Int"), int_scope);
    cs.register_mono_type(root, mono("Nat"), nat_scope, Visibility::Public, Mutability::Immutable);
    let str_scope = cs.add(Context::new("Str".to_string(), ContextKind::Class, Some(root)));
    cs.register_superclass(str_scope, mono("Obj"), obj_scope);
    cs.register_mono_type(root, mono("Str"), str_scope, Visibility::Public, Mutability::Immutable);
    (cs, root)
}

#[test]
fn occurs_finds_the_variable_through_structure() {
    let mut vars = FreeVars::new();
    let v = vars.new_unbound(0, untyped());
    let w = vars.new_unbound(0, untyped());
    let t = poly("List", vec![Type::FreeVar(v)]);
    assert!(occurs(&vars, v, &t, FUEL));
    assert!(!occurs(&vars, w, &t, FUEL));
    assert!(!occurs(&vars, v, &mono("Int"), FUEL));
}

#[test]
fn occurs_follows_links() {
    let mut vars = FreeVars::new();
    let v = vars.new_unbound(0, untyped());
    let mid = vars.new_linked(poly("List", vec![Type::FreeVar(v)]));
    assert!(occurs(&vars, v, &Type::FreeVar(mid), FUEL));
}

#[test]
fn nominal_subtyping_follows_registered_supers() {
    let (cs, root) = std_hierarchy();
    let vars = FreeVars::new();
    assert!(subtype_of(&cs, &vars, root, &mono("Nat"), &mono("Int"), FUEL));
    assert!(subtype_of(&cs, &vars, root, &mono("Nat"), &mono("Obj"), FUEL));
    assert!(subtype_of(&cs, &vars, root, &mono("Int"), &mono("Obj"), FUEL));
    assert!(!subtype_of(&cs, &vars, root, &mono("Int"), &mono("Nat"), FUEL));
    assert!(!subtype_of(&cs, &vars, root, &mono("Str"), &mono("Int"), FUEL));
    assert!(subtype_of(&cs, &vars, root, &Type::Never, &mono("Nat"), FUEL));
    assert!(supertype_of(&cs, &vars, root, &mono("Obj"), &mono("Str"), FUEL));
    assert!(related(&cs, &vars, root, &mono("Nat"), &mono("Obj"), FUEL));
    assert!(!related(&cs, &vars, root, &mono("Nat"), &mono("Str"), FUEL));
}

#[test]
fn record_subtyping_is_width_and_depth() {
    let (cs, root) = std_hierarchy();
    let vars = FreeVars::new();
    let wide = record(vec![
        ("x".to_string(), mono("Nat")),
        ("y".to_string(), mono("Str")),
    ]);
    let narrow = record(vec![("x".to_string(), mono("Int"))]);
    assert!(subtype_of(&cs, &vars, root, &wide, &narrow, FUEL));
    assert!(!subtype_of(&cs, &vars, root, &narrow, &wide, FUEL));
}

#[test]
fn subroutine_subtyping_is_contravariant_in_parameters() {
    let (cs, root) = std_hierarchy();
    let vars = FreeVars::new();
    let take_int_give_nat = func(vec![anon(mono("Int"))], None, vec![], mono("Nat"));
    let take_nat_give_int = func(vec![anon(mono("Nat"))], None, vec![], mono("Int"));
    assert!(subtype_of(&cs, &vars, root, &take_int_give_nat, &take_nat_give_int, FUEL));
    assert!(!subtype_of(&cs, &vars, root, &take_nat_give_int, &take_int_give_nat, FUEL));
}

#[test]
fn union_picks_the_common_supertype() {
    let (cs, root) = std_hierarchy();
    let vars = FreeVars::new();
    let u = union(&cs, &vars, root, &mono("Nat"), &mono("Int"), FUEL);
    assert!(type_eq(&u, &mono("Int")));
    let u2 = union(&cs, &vars, root, &mono("Int"), &mono("Nat"), FUEL);
    assert!(type_eq(&u2, &mono("Int")));
    let u3 = union(&cs, &vars, root, &mono("Int"), &mono("Str"), FUEL);
    assert!(matches!(u3, Type::Or(..)));
}

// A variable bounded by a structure that contains it is never linked
// silently: the bound is recorded together with a cyclicity tag.
#[test]
fn occurs_check_records_cyclicity() {
    let (cs, root) = std_hierarchy();
    let mut vars = FreeVars::new();
    let v = vars.new_unbound(1, untyped());
    let t = poly("List", vec![Type::FreeVar(v)]);
    let r = sub_unify(&cs, &mut vars, root, &Type::FreeVar(v), &t, FUEL);
    assert!(r.is_ok());
    assert!(vars.cyclicity(v).is_cyclic());
    assert!(vars.is_unbound(v));
}

#[test]
fn occurs_check_records_sub_cyclicity_on_the_lower_bound() {
    let (cs, root) = std_hierarchy();
    let mut vars = FreeVars::new();
    let v = vars.new_unbound(1, untyped());
    let t = poly("List", vec![Type::FreeVar(v)]);
    let r = sub_unify(&cs, &mut vars, root, &t, &Type::FreeVar(v), FUEL);
    assert!(r.is_ok());
    assert!(vars.cyclicity(v).is_cyclic());
}

#[test]
fn sub_unify_tightens_bounds_instead_of_linking() {
    let (cs, root) = std_hierarchy();
    let mut vars = FreeVars::new();
    let v = vars.new_unbound(1, untyped());
    sub_unify(&cs, &mut vars, root, &mono("Nat"), &Type::FreeVar(v), FUEL).unwrap();
    let (sub, sup) = vars.get_bound_types(v).unwrap();
    assert!(type_eq(&sub, &mono("Nat")));
    assert!(type_eq(&sup, &Type::Obj));
}

#[test]
fn sub_unify_rejects_unrelated_concrete_types() {
    let (cs, root) = std_hierarchy();
    let mut vars = FreeVars::new();
    let r = sub_unify(&cs, &mut vars, root, &mono("Str"), &mono("Int"), FUEL);
    assert!(matches!(r, Err(TyCheckError::TypeMismatch { .. })));
}

#[test]
fn sub_unify_accepts_subtypes() {
    let (cs, root) = std_hierarchy();
    let mut vars = FreeVars::new();
    assert!(sub_unify(&cs, &mut vars, root, &mono("Nat"), &mono("Int"), FUEL).is_ok());
}

#[test]
fn instantiate_shares_one_fresh_variable_per_parameter() {
    let mut vars = FreeVars::new();
    let tv = vars.new_named_unbound("T".to_string(), GENERIC_LEVEL, untyped());
    let q = Type::Quantified(Box::new(func(
        vec![kw("a", Type::FreeVar(tv)), kw("b", Type::FreeVar(tv))],
        None,
        vec![],
        Type::FreeVar(tv),
    )));
    let before = vars.len();
    let inst = instantiate(&mut vars, &q, 1, FUEL);
    assert_eq!(vars.len(), before + 1);
    match inst {
        Type::Subr(subr) => {
            let a = &subr.non_default_params[0].t;
            let b = &subr.non_default_params[1].t;
            let r = &*subr.return_t;
            match (a, b, r) {
                (Type::FreeVar(x), Type::FreeVar(y), Type::FreeVar(z)) => {
                    assert_eq!(x, y);
                    assert_eq!(y, z);
                    assert_eq!(*x, before);
                }
                _ => panic!("parameters should share one fresh variable"),
            }
        }
        _ => panic!("expected a subroutine type"),
    }
}

#[test]
fn instantiate_leaves_local_variables_alone() {
    let mut vars = FreeVars::new();
    let local = vars.new_unbound(3, untyped());
    let t = func(vec![anon(Type::FreeVar(local))], None, vec![], mono("Int"));
    let inst = instantiate(&mut vars, &t, 1, FUEL);
    match inst {
        Type::Subr(subr) => match &subr.non_default_params[0].t {
            Type::FreeVar(x) => assert_eq!(*x, local),
            _ => panic!("local variable must stay"),
        },
        _ => panic!("expected a subroutine type"),
    }
}
