use tyck_core::context::{Context, ContextKind, Contexts, CtxId, Mutability, Visibility};
use tyck_core::error::TyCheckError;
use tyck_core::free::{Constraint, Cyclicity, FreeVars};
use tyck_core::inquire::{Expr, Variance};
use tyck_core::solver::{intersection, occurs, sub_unify, subtype_of};
use tyck_core::ty::{anon, func, kw, mono, poly, record, type_eq, Type};

const FUEL: usize = 32;

fn untyped() -> Constraint {
    Constraint::new_sandwiched(Type::Never, Type::Obj, Cyclicity::Not)
}

fn std_hierarchy() -> (Contexts, CtxId) {
    let mut cs = Contexts::new();
    let root = cs.add(Context::new("<builtins>".to_string(), ContextKind::Module, None));
    cs.set_builtins(root);
    let obj_scope = cs.add(Context::new("Obj".to_string(), ContextKind::Class, Some(root)));
    cs.register_mono_type(root, mono("Obj"), obj_scope, Visibility::Public, Mutability::Immutable);
    let int_scope = cs.add(Context::new("Int".to_string(), ContextKind::Class, Some(root)));
    cs.register_superclass(int_scope, mono("Obj"), obj_scope);
    cs.register_mono_type(root, mono("Int"), int_scope, Visibility::Public, Mutability::Immutable);
    let nat_scope = cs.add(Context::new("Nat".to_string(), ContextKind::Class, Some(root)));
    cs.register_superclass(nat_scope, mono("Int"), int_scope);
    cs.register_mono_type(root, mono("Nat"), nat_scope, Visibility::Public, Mutability::Immutable);
    let str_scope = cs.add(Context::new("Str".to_string(), ContextKind::Class, Some(root)));
    cs.register_superclass(str_scope, mono("Obj"), obj_scope);
    cs.register_mono_type(root, mono("Str"), str_scope, Visibility::Public, Mutability::Immutable);
    (cs, root)
}

#[test]
fn poly_registration_and_lookup() {
    let (mut cs, root) = std_hierarchy();
    let list_scope = cs.add(Context::new("List".to_string(), ContextKind::Class, Some(root)));
    let list_t = poly("List", vec![mono("Int")]);
    cs.register_poly_type(root, list_t, list_scope, Visibility::Public, Mutability::Immutable);
    let found = cs.rec_get_poly_type(root, &"List".to_string(), FUEL);
    assert!(found.is_some());
    assert_eq!(found.unwrap().1, list_scope);
}

#[test]
fn poly_registration_merges_method_blocks() {
    let (mut cs, root) = std_hierarchy();
    let list_scope = cs.add(Context::new("List".to_string(), ContextKind::Class, Some(root)));
    cs.register_poly_type(
        root,
        poly("List", vec![mono("Int")]),
        list_scope,
        Visibility::Public,
        Mutability::Immutable,
    );
    let extra = cs.add(Context::new("List::more".to_string(), ContextKind::MethodDefs, Some(root)));
    cs.register_poly_type(
        root,
        poly("List", vec![mono("Int")]),
        extra,
        Visibility::Public,
        Mutability::Immutable,
    );
    assert_eq!(cs.arr[list_scope].methods_list, vec![extra]);
}

#[test]
fn poly_subtyping_is_invariant_in_parameters() {
    let (cs, root) = std_hierarchy();
    let vars = FreeVars::new();
    let l_int = poly("List", vec![mono("Int")]);
    let l_nat = poly("List", vec![mono("Nat")]);
    assert!(subtype_of(&cs, &vars, root, &l_int, &l_int, FUEL));
    assert!(!subtype_of(&cs, &vars, root, &l_nat, &l_int, FUEL));
}

#[test]
fn combinator_subtyping() {
    let (cs, root) = std_hierarchy();
    let vars = FreeVars::new();
    let both = Type::And(Box::new(mono("Nat")), Box::new(mono("Str")));
    let either = Type::Or(Box::new(mono("Nat")), Box::new(mono("Str")));
    assert!(subtype_of(&cs, &vars, root, &both, &mono("Int"), FUEL));
    assert!(subtype_of(&cs, &vars, root, &either, &mono("Obj"), FUEL));
    assert!(!subtype_of(&cs, &vars, root, &either, &mono("Int"), FUEL));
    assert!(subtype_of(&cs, &vars, root, &mono("Nat"), &either, FUEL));
}

#[test]
fn intersection_picks_the_common_subtype() {
    let (cs, root) = std_hierarchy();
    let vars = FreeVars::new();
    let m = intersection(&cs, &vars, root, &mono("Nat"), &mono("Int"), FUEL);
    assert!(type_eq(&m, &mono("Nat")));
    let m2 = intersection(&cs, &vars, root, &mono("Int"), &mono("Str"), FUEL);
    assert!(matches!(m2, Type::And(..)));
}

#[test]
fn refinement_subtyping_uses_the_base() {
    let (cs, root) = std_hierarchy();
    let vars = FreeVars::new();
    let refined = Type::Refinement { var: "n".to_string(), t: Box::new(mono("Nat")) };
    assert!(subtype_of(&cs, &vars, root, &refined, &mono("Int"), FUEL));
}

#[test]
fn occurs_reaches_records_and_subroutines() {
    let mut vars = FreeVars::new();
    let v = vars.new_unbound(0, untyped());
    let in_record = record(vec![("f".to_string(), Type::FreeVar(v))]);
    assert!(occurs(&vars, v, &in_record, FUEL));
    let in_return = func(vec![anon(mono("Int"))], None, vec![], Type::FreeVar(v));
    assert!(occurs(&vars, v, &in_return, FUEL));
    let in_param = func(vec![anon(Type::FreeVar(v))], None, vec![], mono("Int"));
    assert!(occurs(&vars, v, &in_param, FUEL));
}

#[test]
fn linked_variables_compare_through_their_target() {
    let (cs, root) = std_hierarchy();
    let mut vars = FreeVars::new();
    let v = vars.new_linked(mono("Nat"));
    assert!(subtype_of(&cs, &vars, root, &Type::FreeVar(v), &mono("Int"), FUEL));
    assert!(!subtype_of(&cs, &vars, root, &mono("Str"), &Type::FreeVar(v), FUEL));
}

#[test]
fn unbound_variables_compare_through_their_bounds() {
    let (cs, root) = std_hierarchy();
    let mut vars = FreeVars::new();
    let v = vars.new_unbound(
        0,
        Constraint::new_sandwiched(mono("Nat"), mono("Int"), Cyclicity::Not),
    );
    assert!(subtype_of(&cs, &vars, root, &Type::FreeVar(v), &mono("Obj"), FUEL));
    assert!(subtype_of(&cs, &vars, root, &Type::Never, &Type::FreeVar(v), FUEL));
}

#[test]
fn var_to_var_unification_links_them() {
    let (cs, root) = std_hierarchy();
    let mut vars = FreeVars::new();
    let a = vars.new_unbound(1, untyped());
    let b = vars.new_unbound(1, untyped());
    sub_unify(&cs, &mut vars, root, &Type::FreeVar(a), &Type::FreeVar(b), FUEL).unwrap();
    assert!(vars.is_linked(b));
    sub_unify(&cs, &mut vars, root, &mono("Nat"), &Type::FreeVar(b), FUEL).unwrap();
    let (sub, _sup) = vars.get_bound_types(a).unwrap();
    assert!(type_eq(&sub, &mono("Nat")));
}

#[test]
fn bound_collapse_resolves_the_variable() {
    let (cs, root) = std_hierarchy();
    let mut vars = FreeVars::new();
    let v = vars.new_unbound(
        1,
        Constraint::new_sandwiched(mono("Int"), mono("Int"), Cyclicity::Not),
    );
    sub_unify(&cs, &mut vars, root, &Type::FreeVar(v), &mono("Int"), FUEL).unwrap();
    assert!(vars.is_linked(v));
    assert!(type_eq(vars.crack(v), &mono("Int")));
}

#[test]
fn cyclicity_walker_tags_variables_in_structures() {
    let mut vars = FreeVars::new();
    let v = vars.new_unbound(0, untyped());
    let t = poly("Pair", vec![Type::FreeVar(v), mono("Int")]);
    vars.update_cyclicity_type(&t, Cyclicity::Sub, FUEL);
    assert_eq!(vars.cyclicity(v), Cyclicity::Sub);
    vars.update_cyclicity_type(&t, Cyclicity::Super, FUEL);
    assert_eq!(vars.cyclicity(v), Cyclicity::Both);
}

#[test]
fn variance_reads_input_and_output_supertraits() {
    let mut cs = Contexts::new();
    let root = cs.add(Context::new("<builtins>".to_string(), ContextKind::Module, None));
    cs.set_builtins(root);
    let k = cs.add(Context::new("K".to_string(), ContextKind::Class, Some(root)));
    cs.arr[k].params.push((
        Some("T".to_string()),
        tyck_core::context::VarInfo::new(Type::Type, Mutability::Immutable, Visibility::Public),
    ));
    cs.arr[k].params.push((
        Some("U".to_string()),
        tyck_core::context::VarInfo::new(Type::Type, Mutability::Immutable, Visibility::Public),
    ));
    cs.arr[k].super_traits.push(poly("Input", vec![mono("T")]));
    cs.arr[k].super_traits.push(poly("Output", vec![mono("U")]));
    let vs = cs.type_params_variance(k);
    assert_eq!(vs, vec![Variance::Contravariant, Variance::Covariant]);
}

#[test]
fn bounds_list_named_parameters() {
    let mut cs = Contexts::new();
    let root = cs.add(Context::new("<builtins>".to_string(), ContextKind::Module, None));
    cs.set_builtins(root);
    cs.arr[root].params.push((
        Some("T".to_string()),
        tyck_core::context::VarInfo::new(Type::Type, Mutability::Immutable, Visibility::Public),
    ));
    cs.arr[root].params.push((
        None,
        tyck_core::context::VarInfo::new(mono("Int"), Mutability::Immutable, Visibility::Public),
    ));
    let bs = cs.bounds(root);
    assert_eq!(bs.len(), 1);
    assert_eq!(bs[0].name, "T");
    assert!(type_eq(&bs[0].t, &Type::Type));
    assert_eq!(cs.type_params_bounds(root).len(), 1);
}

#[test]
fn signature_validation_unifies_against_the_declared_type() {
    let (cs, root) = std_hierarchy();
    let mut vars = FreeVars::new();
    assert!(cs
        .validate_var_sig_t(&mut vars, root, &Some(mono("Int")), &mono("Nat"), FUEL)
        .is_ok());
    assert!(cs.validate_var_sig_t(&mut vars, root, &None, &mono("Str"), FUEL).is_ok());
    let r = cs.validate_var_sig_t(&mut vars, root, &Some(mono("Nat")), &mono("Str"), FUEL);
    assert!(matches!(r, Err(TyCheckError::TypeMismatch { .. })));
}

#[test]
fn projection_candidates_come_from_trait_implementations() {
    let mut cs = Contexts::new();
    let root = cs.add(Context::new("<builtins>".to_string(), ContextKind::Module, None));
    cs.set_builtins(root);
    let add_scope = cs.add(Context::new("Add".to_string(), ContextKind::Trait, Some(root)));
    cs.register_mono_type(root, mono("Add"), add_scope, Visibility::Public, Mutability::Immutable);
    let int_scope = cs.add(Context::new("Int".to_string(), ContextKind::Class, Some(root)));
    cs.register_supertrait(int_scope, mono("Add"), add_scope);
    cs.register_mono_type(root, mono("Int"), int_scope, Visibility::Public, Mutability::Immutable);
    let mut vars = FreeVars::new();
    let v = vars.new_unbound(1, Constraint::new_subtype_of(mono("Add"), Cyclicity::Not));
    let cands = cs.get_proj_candidates(&vars, root, &Type::FreeVar(v), &"Output".to_string(), FUEL);
    assert_eq!(cands.len(), 1);
    match &cands[0] {
        Type::Proj { lhs, rhs } => {
            assert!(type_eq(lhs, &mono("Int")));
            assert_eq!(rhs, "Output");
        }
        _ => panic!("expected a projection candidate"),
    }
}

#[test]
fn receiver_type_is_found_from_method_scopes() {
    let (mut cs, root) = std_hierarchy();
    let int_scope = cs.rec_get_mono_type(root, &"Int".to_string(), FUEL).unwrap().1;
    let block = cs.add(Context::new("Int".to_string(), ContextKind::MethodDefs, Some(int_scope)));
    let t = cs.rec_get_self_t(block, FUEL);
    assert!(t.is_some());
    assert!(type_eq(&t.unwrap(), &mono("Int")));
}

#[test]
fn operator_calls_resolve_through_dunder_names() {
    let (mut cs, root) = std_hierarchy();
    let mut vars = FreeVars::new();
    cs.register_builtin_impl(
        root,
        "__add__".to_string(),
        func(
            vec![kw("a", mono("Int")), kw("b", mono("Int"))],
            None,
            vec![],
            mono("Int"),
        ),
        Mutability::Immutable,
        Visibility::Private,
    );
    let args = vec![Expr::Lit { t: mono("Nat") }, Expr::Lit { t: mono("Int") }];
    let ns = "<builtins>".to_string();
    let t = cs
        .get_binop_t(&mut vars, root, &"+".to_string(), &args, &ns, 1, FUEL)
        .unwrap();
    assert!(type_eq(&t, &mono("Int")));
    cs.register_builtin_impl(
        root,
        "__neg__".to_string(),
        func(vec![kw("a", mono("Int"))], None, vec![], mono("Int")),
        Mutability::Immutable,
        Visibility::Private,
    );
    let one = vec![Expr::Lit { t: mono("Nat") }];
    let t2 = cs
        .get_unaryop_t(&mut vars, root, &"-".to_string(), &one, &ns, 1, FUEL)
        .unwrap();
    assert!(type_eq(&t2, &mono("Int")));
}

#[test]
fn match_dispatches_from_the_call_entry_point() {
    let (cs, root) = std_hierarchy();
    let mut vars = FreeVars::new();
    let target = Expr::Lit { t: mono("Nat") };
    let arm = Expr::Lambda {
        params: vec![anon(mono("Int"))],
        t: func(vec![anon(mono("Int"))], None, vec![], mono("Str")),
    };
    let obj = Expr::Ident {
        name: "match".to_string(),
        vis: Visibility::Private,
        t: Type::Uninited,
    };
    let ns = "<builtins>".to_string();
    let t = cs
        .get_call_t(&mut vars, root, &obj, &None, &vec![target, arm], &vec![], &ns, 1, FUEL)
        .unwrap();
    match t {
        Type::Subr(subr) => assert!(type_eq(&subr.return_t, &mono("Str"))),
        _ => panic!("expected a function type"),
    }
}

#[test]
fn mutation_effects_skip_unaddressable_callees() {
    let (cs, root) = std_hierarchy();
    let mut vars = FreeVars::new();
    let method_t = func(
        vec![kw(
            "self",
            Type::RefMut {
                before: Box::new(mono("Int")),
                after: Some(Box::new(Type::Never)),
            },
        )],
        None,
        vec![],
        Type::Uninited,
    );
    // a literal is not an addressable binding: nothing to rewrite, and
    // the unrelated after-type must not surface as an error
    let callee = Expr::Lit { t: mono("Obj") };
    let before = vars.len();
    let r = cs.propagate(&mut vars, root, &method_t, &callee, FUEL);
    assert!(r.is_ok());
    assert_eq!(vars.len(), before);
}

#[test]
fn mutation_effects_propagate_to_the_callee() {
    let (cs, root) = std_hierarchy();
    let mut vars = FreeVars::new();
    let v = vars.new_unbound(1, untyped());
    let method_t = func(
        vec![kw(
            "self",
            Type::RefMut {
                before: Box::new(mono("Int")),
                after: Some(Box::new(mono("Str"))),
            },
        )],
        None,
        vec![],
        Type::Uninited,
    );
    let callee = Expr::Ident {
        name: "x".to_string(),
        vis: Visibility::Private,
        t: Type::FreeVar(v),
    };
    cs.propagate(&mut vars, root, &method_t, &callee, FUEL).unwrap();
    assert!(vars.is_linked(v));
    assert!(type_eq(vars.crack(v), &mono("Str")));
}

#[test]
fn sorting_handles_empty_and_singleton_lists() {
    let (cs, root) = std_hierarchy();
    let vars = FreeVars::new();
    assert_eq!(cs.sort_types(&vars, root, &vec![], FUEL).len(), 0);
    let one = cs.sort_types(&vars, root, &vec![mono("Int")], FUEL);
    assert_eq!(one.len(), 1);
    assert!(type_eq(&one[0], &mono("Int")));
}

#[test]
fn sorting_keeps_duplicates() {
    let (cs, root) = std_hierarchy();
    let vars = FreeVars::new();
    let input = vec![mono("Obj"), mono("Nat"), mono("Obj")];
    let sorted = cs.sort_types(&vars, root, &input, FUEL);
    assert_eq!(sorted.len(), 3);
    let objs = sorted.iter().filter(|t| type_eq(t, &mono("Obj"))).count();
    assert_eq!(objs, 2);
    let nat_pos = sorted.iter().position(|t| type_eq(t, &mono("Nat"))).unwrap();
    let first_obj = sorted.iter().position(|t| type_eq(t, &mono("Obj"))).unwrap();
    assert!(nat_pos < first_obj);
}

#[test]
fn resolving_links_follows_chains() {
    let (cs, _root) = std_hierarchy();
    let mut vars = FreeVars::new();
    let a = vars.new_linked(mono("Int"));
    let b = vars.new_linked(Type::FreeVar(a));
    let r = cs.resolve_links(&vars, &Type::FreeVar(b), FUEL);
    assert!(type_eq(&r, &mono("Int")));
}

#[test]
fn similar_name_threshold_suppresses_far_suggestions() {
    let mut cs = Contexts::new();
    let root = cs.add(Context::new("<builtins>".to_string(), ContextKind::Module, None));
    cs.set_builtins(root);
    cs.register_builtin_impl(
        root,
        "alpha".to_string(),
        mono("Int"),
        Mutability::Immutable,
        Visibility::Public,
    );
    assert_eq!(cs.get_similar_name(root, &"alphq".to_string()), Some("alpha".to_string()));
    assert_eq!(cs.get_similar_name(root, &"zz".to_string()), None);
}

#[test]
fn super_lists_read_off_the_nominal_scope() {
    let (cs, root) = std_hierarchy();
    let vars = FreeVars::new();
    let sups = cs.get_super_classes(&vars, root, &mono("Nat"), FUEL).unwrap();
    assert_eq!(sups.len(), 2);
    assert!(type_eq(&sups[0], &mono("Int")));
    assert!(type_eq(&sups[1], &mono("Obj")));
    let refined = Type::Refinement { var: "n".to_string(), t: Box::new(mono("Nat")) };
    let rsups = cs.get_super_classes(&vars, root, &refined, FUEL).unwrap();
    assert!(type_eq(&rsups[0], &mono("Nat")));
    assert!(cs.get_super_traits(&vars, root, &mono("Int"), FUEL).unwrap().is_empty());
}

#[test]
fn union_of_unresolved_branches_uses_their_upper_bounds() {
    let (cs, root) = std_hierarchy();
    let mut vars = FreeVars::new();
    let a = vars.new_unbound(1, Constraint::new_subtype_of(mono("Nat"), Cyclicity::Not));
    let b = vars.new_unbound(1, Constraint::new_subtype_of(mono("Int"), Cyclicity::Not));
    let either = Type::Or(Box::new(Type::FreeVar(a)), Box::new(Type::FreeVar(b)));
    let ctxs = cs.get_nominal_super_type_ctxs(&vars, root, &either, FUEL).unwrap();
    // the union of the bounds is Int, whose scope leads the list
    let int_scope = cs.rec_get_mono_type(root, &"Int".to_string(), FUEL).unwrap().1;
    assert_eq!(ctxs[0], int_scope);
}

#[test]
fn superclass_registration_keeps_first_occurrence_order() {
    let mut cs = Contexts::new();
    let root = cs.add(Context::new("<builtins>".to_string(), ContextKind::Module, None));
    cs.set_builtins(root);
    let a = cs.add(Context::new("A".to_string(), ContextKind::Class, Some(root)));
    let b = cs.add(Context::new("B".to_string(), ContextKind::Class, Some(root)));
    cs.register_superclass(b, mono("A"), a);
    let c = cs.add(Context::new("C".to_string(), ContextKind::Class, Some(root)));
    cs.register_superclass(c, mono("B"), b);
    let supers = &cs.arr[c].super_classes;
    assert_eq!(supers.len(), 2);
    assert!(type_eq(&supers[0], &mono("B")));
    assert!(type_eq(&supers[1], &mono("A")));
}

#[test]
fn lifting_an_unconstrained_variable_raises_exactly_one() {
    let mut vars = FreeVars::new();
    let v = vars.new_unbound(4, Constraint::Uninited);
    vars.lift(v, FUEL);
    assert_eq!(vars.level(v), Some(5));
}

#[test]
fn trait_impls_intersect_over_the_implementing_type() {
    let mut cs = Contexts::new();
    let root = cs.add(Context::new("<builtins>".to_string(), ContextKind::Module, None));
    cs.set_builtins(root);
    let add_scope = cs.add(Context::new("Add".to_string(), ContextKind::Trait, Some(root)));
    cs.register_mono_type(root, mono("Add"), add_scope, Visibility::Public, Mutability::Immutable);
    let sub_scope = cs.add(Context::new("Sub".to_string(), ContextKind::Trait, Some(root)));
    cs.register_mono_type(root, mono("Sub"), sub_scope, Visibility::Public, Mutability::Immutable);
    let int_scope = cs.add(Context::new("Int".to_string(), ContextKind::Class, Some(root)));
    cs.register_supertrait(int_scope, mono("Add"), add_scope);
    cs.register_supertrait(int_scope, mono("Sub"), sub_scope);
    cs.register_mono_type(root, mono("Int"), int_scope, Visibility::Public, Mutability::Immutable);
    let vars = FreeVars::new();
    let both = Type::And(Box::new(mono("Add")), Box::new(mono("Sub")));
    let impls = cs.get_trait_impls(&vars, root, &both, FUEL);
    // Int implements both, so the intersection keeps it with the met traits
    assert_eq!(impls.len(), 1);
    assert!(type_eq(&impls[0].sub_type, &mono("Int")));
    assert!(matches!(&impls[0].sup_trait, Type::And(..)));
}
