use tyck_core::context::{Context, ContextKind, Contexts, CtxId, Mutability, Visibility};
use tyck_core::error::TyCheckError;
use tyck_core::free::{Constraint, Cyclicity, FreeVars};
use tyck_core::inquire::{substitute_call, Expr};
use tyck_core::solver::{instantiate, GENERIC_LEVEL};
use tyck_core::ty::{anon, func, kw, kw_default, mono, type_eq, Type};

const FUEL: usize = 32;

fn untyped() -> Constraint {
    Constraint::new_sandwiched(Type::Never, Type::Obj, Cyclicity::Not)
}

fn std_hierarchy() -> (Contexts, CtxId) {
    let mut cs = Contexts::new();
    let root = cs.add(Context::new("<builtins>".to_string(), ContextKind::Module, None));
    cs.set_builtins(root);
    let obj_scope = cs.add(Context::new("Obj".to_string(), ContextKind::Class, Some(root)));
    cs.register_mono_type(root, mono("Obj"), obj_scope, Visibility::Public, Mutability::Immutable);
    let int_scope = cs.add(Context::new("Int".to_string(), ContextKind::Class, Some(root)));
    cs.register_superclass(int_scope, mono("Obj"), obj_scope);
    cs.register_mono_type(root, mono("Int"), int_scope, Visibility::Public, Mutability::Immutable);
    let nat_scope = cs.add(Context::new("Nat".to_string(), ContextKind::Class, Some(root)));
    cs.register_superclass(nat_scope, mono("Int"), int_scope);
    cs.register_mono_type(root, mono("Nat"), nat_scope, Visibility::Public, Mutability::Immutable);
    let str_scope = cs.add(Context::new("Str".to_string(), ContextKind::Class, Some(root)));
    cs.register_superclass(str_scope, mono("Obj"), obj_scope);
    cs.register_mono_type(root, mono("Str"), str_scope, Visibility::Public, Mutability::Immutable);
    (cs, root)
}

fn int_arg() -> Expr {
    Expr::Lit { t: mono("Int") }
}

/// A signature with two named non-default parameters and one named
/// default parameter, all integers.
fn two_plus_one_default() -> Type {
    func(
        vec![kw("a", mono("Int")), kw("b", mono("Int"))],
        None,
        vec![kw_default("c", mono("Int"), mono("Int"))],
        mono("Int"),
    )
}

fn bind(
    instance: &Type,
    pos: Vec<Expr>,
    kws: Vec<(String, Expr)>,
) -> Result<(), TyCheckError> {
    let (cs, root) = std_hierarchy();
    let mut vars = FreeVars::new();
    let obj = Expr::Other { t: Type::Uninited };
    substitute_call(&cs, &mut vars, root, &obj, &None, instance, &pos, &kws, 1, FUEL)
}

// Fewer positional arguments than non-default parameters: a missing-
// arguments error naming how many are unbound.
#[test]
fn too_few_positional_arguments_are_missing() {
    let sig = two_plus_one_default();
    match bind(&sig, vec![int_arg()], vec![]) {
        Err(TyCheckError::MissingArguments { missing_len, missing }) => {
            assert_eq!(missing_len, 1);
            assert_eq!(missing, vec!["b".to_string()]);
        }
        other => panic!("expected missing arguments, got {:?}", other.is_ok()),
    }
    assert!(matches!(
        bind(&sig, vec![], vec![]),
        Err(TyCheckError::MissingArguments { missing_len: 2, .. })
    ));
}

// More arguments than parameters without a variadic parameter: a
// too-many-arguments error with the counts.
#[test]
fn too_many_positional_arguments_are_rejected() {
    let sig = two_plus_one_default();
    match bind(&sig, vec![int_arg(), int_arg(), int_arg(), int_arg()], vec![]) {
        Err(TyCheckError::TooManyArguments { expected, given }) => {
            assert_eq!(expected, 3);
            assert_eq!(given, 4);
        }
        other => panic!("expected too many arguments, got {:?}", other.is_ok()),
    }
}

#[test]
fn exact_arity_binds() {
    let sig = two_plus_one_default();
    assert!(bind(&sig, vec![int_arg(), int_arg()], vec![]).is_ok());
    assert!(bind(&sig, vec![int_arg(), int_arg(), int_arg()], vec![]).is_ok());
}

#[test]
fn variadic_signatures_take_any_surplus() {
    let sig = func(
        vec![kw("a", mono("Int"))],
        Some(anon(mono("Int"))),
        vec![],
        mono("Int"),
    );
    assert!(bind(&sig, vec![int_arg(), int_arg(), int_arg(), int_arg()], vec![]).is_ok());
    assert!(matches!(
        bind(&sig, vec![], vec![]),
        Err(TyCheckError::MissingArguments { .. })
    ));
}

// One named parameter bound both positionally and by keyword always
// fails as a duplicate argument.
#[test]
fn duplicate_positional_and_keyword_binding_is_rejected() {
    let sig = func(
        vec![kw("a", mono("Int"))],
        None,
        vec![kw_default("b", mono("Int"), mono("Int"))],
        mono("Int"),
    );
    match bind(&sig, vec![int_arg()], vec![("a".to_string(), int_arg())]) {
        Err(TyCheckError::DuplicateArgument { name }) => assert_eq!(name, "a"),
        other => panic!("expected a duplicate argument, got {:?}", other.is_ok()),
    }
}

#[test]
fn duplicate_keyword_binding_is_rejected() {
    let sig = func(
        vec![],
        None,
        vec![
            kw_default("b", mono("Int"), mono("Int")),
            kw_default("c", mono("Int"), mono("Int")),
        ],
        mono("Int"),
    );
    let r = bind(
        &sig,
        vec![],
        vec![("b".to_string(), int_arg()), ("b".to_string(), int_arg())],
    );
    assert!(matches!(r, Err(TyCheckError::DuplicateArgument { .. })));
}

#[test]
fn unknown_keyword_is_rejected() {
    let sig = two_plus_one_default();
    let r = bind(
        &sig,
        vec![int_arg(), int_arg()],
        vec![("zz".to_string(), int_arg())],
    );
    assert!(matches!(r, Err(TyCheckError::UnexpectedKeywordArgument { .. })));
}

#[test]
fn argument_types_must_fit_the_parameters() {
    let sig = two_plus_one_default();
    let r = bind(&sig, vec![Expr::Lit { t: mono("Str") }, int_arg()], vec![]);
    assert!(matches!(r, Err(TyCheckError::TypeMismatch { .. })));
}

#[test]
fn an_uncallable_type_is_rejected() {
    let r = bind(&mono("Int"), vec![], vec![]);
    assert!(matches!(r, Err(TyCheckError::NotCallable { .. })));
}

#[test]
fn an_unresolved_callee_becomes_a_function_of_the_arguments() {
    let (cs, root) = std_hierarchy();
    let mut vars = FreeVars::new();
    let v = vars.new_unbound(1, untyped());
    let obj = Expr::Ident { name: "f".to_string(), vis: Visibility::Private, t: Type::FreeVar(v) };
    let r = substitute_call(
        &cs,
        &mut vars,
        root,
        &obj,
        &None,
        &Type::FreeVar(v),
        &vec![int_arg()],
        &vec![],
        1,
        FUEL,
    );
    assert!(r.is_ok());
    assert!(vars.is_linked(v));
    match vars.crack(v) {
        Type::Subr(subr) => {
            assert_eq!(subr.non_default_params.len(), 1);
            assert!(type_eq(&subr.non_default_params[0].t, &mono("Int")));
        }
        _ => panic!("the callee should have been resolved to a subroutine"),
    }
}

// A generic two-parameter function declared over one quantified variable,
// bound against a natural and an integer, unifies the variable to the
// common supertype rather than failing or keeping the narrower type.
#[test]
fn generic_call_unifies_to_the_common_supertype() {
    let (cs, root) = std_hierarchy();
    let mut vars = FreeVars::new();
    let tv = vars.new_named_unbound("T".to_string(), GENERIC_LEVEL, untyped());
    let declared = Type::Quantified(Box::new(func(
        vec![kw("a", Type::FreeVar(tv)), kw("b", Type::FreeVar(tv))],
        None,
        vec![],
        Type::FreeVar(tv),
    )));
    let fresh = vars.len();
    let instance = instantiate(&mut vars, &declared, 1, FUEL);
    let obj = Expr::Other { t: Type::Uninited };
    let pos = vec![Expr::Lit { t: mono("Nat") }, Expr::Lit { t: mono("Int") }];
    let r = substitute_call(&cs, &mut vars, root, &obj, &None, &instance, &pos, &vec![], 1, FUEL);
    assert!(r.is_ok());
    let (sub, _sup) = vars.get_bound_types(fresh).unwrap();
    assert!(type_eq(&sub, &mono("Int")));
    assert!(!type_eq(&sub, &mono("Nat")));
}

#[test]
fn match_call_requires_covering_arms() {
    let (cs, root) = std_hierarchy();
    let mut vars = FreeVars::new();
    let arm = Expr::Lambda {
        params: vec![anon(mono("Int"))],
        t: func(vec![anon(mono("Int"))], None, vec![], mono("Str")),
    };
    let target = Expr::Lit { t: mono("Nat") };
    let r = cs.get_match_call_t(&mut vars, root, &vec![target, arm], &vec![], FUEL);
    match r {
        Ok(t) => match t {
            Type::Subr(subr) => assert!(type_eq(&subr.return_t, &mono("Str"))),
            _ => panic!("expected a function type"),
        },
        Err(_) => panic!("covering arm should be accepted"),
    }
}

#[test]
fn match_call_rejects_uncovered_targets() {
    let (cs, root) = std_hierarchy();
    let mut vars = FreeVars::new();
    let arm = Expr::Lambda {
        params: vec![anon(mono("Nat"))],
        t: func(vec![anon(mono("Nat"))], None, vec![], mono("Str")),
    };
    let target = Expr::Lit { t: mono("Str") };
    let r = cs.get_match_call_t(&mut vars, root, &vec![target, arm], &vec![], FUEL);
    assert!(matches!(r, Err(TyCheckError::MatchArmMismatch { .. })));
}

#[test]
fn match_call_arms_must_be_anonymous_functions() {
    let (cs, root) = std_hierarchy();
    let mut vars = FreeVars::new();
    let target = Expr::Lit { t: mono("Int") };
    let not_a_lambda = Expr::Lit { t: mono("Int") };
    let r = cs.get_match_call_t(&mut vars, root, &vec![target, not_a_lambda], &vec![], FUEL);
    assert!(matches!(r, Err(TyCheckError::TypeMismatch { .. })));
}

#[test]
fn method_call_binds_the_receiver_first() {
    let (cs, root) = std_hierarchy();
    let mut vars = FreeVars::new();
    let sig = func(
        vec![kw("self", mono("Int")), kw("x", mono("Int"))],
        None,
        vec![],
        mono("Int"),
    );
    let obj = Expr::Lit { t: mono("Nat") };
    let r = substitute_call(
        &cs,
        &mut vars,
        root,
        &obj,
        &Some("plus".to_string()),
        &sig,
        &vec![int_arg()],
        &vec![],
        1,
        FUEL,
    );
    assert!(r.is_ok());
    let bad = Expr::Lit { t: mono("Str") };
    let r2 = substitute_call(
        &cs,
        &mut vars,
        root,
        &bad,
        &Some("plus".to_string()),
        &sig,
        &vec![int_arg()],
        &vec![],
        1,
        FUEL,
    );
    assert!(matches!(r2, Err(TyCheckError::TypeMismatch { .. })));
}

#[test]
fn unbound_defaults_are_checked_against_their_parameter() {
    let sig = func(
        vec![],
        None,
        vec![kw_default("c", mono("Int"), mono("Str"))],
        mono("Int"),
    );
    let r = bind(&sig, vec![], vec![]);
    assert!(matches!(r, Err(TyCheckError::TypeMismatch { .. })));
}

// A keyword argument repeating a parameter that the positional phase
// already bound is a duplicate-argument error naming it, even when a
// free default parameter could still take a keyword.
#[test]
fn keyword_repeating_a_positional_binding_is_a_duplicate() {
    let sig = two_plus_one_default();
    match bind(
        &sig,
        vec![int_arg(), int_arg()],
        vec![("b".to_string(), int_arg())],
    ) {
        Err(TyCheckError::DuplicateArgument { name }) => assert_eq!(name, "b"),
        other => panic!("expected a duplicate argument, got {:?}", other.is_ok()),
    }
}

// A default parameter nobody bound has its declared default's type
// checked against the parameter's own type: a fitting default passes, a
// clashing one is a type mismatch.
#[test]
fn unbound_defaults_are_sanity_checked() {
    let fitting = func(
        vec![],
        None,
        vec![kw_default("c", mono("Int"), mono("Nat"))],
        mono("Int"),
    );
    assert!(bind(&fitting, vec![], vec![]).is_ok());
    let clashing = func(
        vec![],
        None,
        vec![kw_default("c", mono("Int"), mono("Str"))],
        mono("Int"),
    );
    assert!(matches!(
        bind(&clashing, vec![], vec![]),
        Err(TyCheckError::TypeMismatch { .. })
    ));
}
