use tyck_core::context::{
    Context, ContextKind, Contexts, CtxId, MethodType, Mutability, VarInfo, Visibility,
};
use tyck_core::error::TyCheckError;
use tyck_core::free::FreeVars;
use tyck_core::inquire::{AccessKind, Expr};
use tyck_core::names::{contains_str, edit_distance};
use tyck_core::ty::{func, kw, mono, record, type_eq, Type};

const FUEL: usize = 32;

fn std_hierarchy() -> (Contexts, CtxId) {
    let mut cs = Contexts::new();
    let root = cs.add(Context::new("<builtins>".to_string(), ContextKind::Module, None));
    cs.set_builtins(root);
    let obj_scope = cs.add(Context::new("Obj".to_string(), ContextKind::Class, Some(root)));
    cs.register_mono_type(root, mono("Obj"), obj_scope, Visibility::Public, Mutability::Immutable);
    let int_scope = cs.add(Context::new("Int".to_string(), ContextKind::Class, Some(root)));
    cs.register_superclass(int_scope, mono("Obj"), obj_scope);
    cs.register_mono_type(root, mono("Int"), int_scope, Visibility::Public, Mutability::Immutable);
    let nat_scope = cs.add(Context::new("Nat".to_string(), ContextKind::Class, Some(root)));
    cs.register_superclass(nat_scope, mono("Int"), int_scope);
    cs.register_mono_type(root, mono("Nat"), nat_scope, Visibility::Public, Mutability::Immutable);
    let str_scope = cs.add(Context::new("Str".to_string(), ContextKind::Class, Some(root)));
    cs.register_superclass(str_scope, mono("Obj"), obj_scope);
    cs.register_mono_type(root, mono("Str"), str_scope, Visibility::Public, Mutability::Immutable);
    (cs, root)
}

#[test]
fn edit_distance_exact_values() {
    assert_eq!(edit_distance("kitten", "sitting"), 3);
    assert_eq!(edit_distance("", "abc"), 3);
    assert_eq!(edit_distance("abc", "abc"), 0);
    assert_eq!(edit_distance("count", "countt"), 1);
}

#[test]
fn substring_containment() {
    let hay = "module::inner".to_string();
    assert!(contains_str(&hay, &"inner".to_string()));
    assert!(contains_str(&hay, &"module".to_string()));
    assert!(!contains_str(&hay, &"outer".to_string()));
    assert!(contains_str(&hay, &"".to_string()));
}

#[test]
fn registration_fills_the_tables() {
    let (cs, root) = std_hierarchy();
    let vars = FreeVars::new();
    let found = cs.rec_get_mono_type(root, &"Nat".to_string(), FUEL);
    assert!(found.is_some());
    let (t, scope) = found.unwrap();
    assert!(type_eq(t, &mono("Nat")));
    assert!(scope < cs.len());
    assert!(cs.rec_get_mono_type(root, &"Missing".to_string(), FUEL).is_none());
    assert!(cs.get_nominal_type_ctx(&vars, root, &mono("Int"), FUEL).is_some());
    assert!(cs.get_nominal_type_ctx(&vars, root, &mono("Missing"), FUEL).is_none());
}

#[test]
fn superclass_registration_inherits_and_deduplicates() {
    let mut cs = Contexts::new();
    let root = cs.add(Context::new("<builtins>".to_string(), ContextKind::Module, None));
    cs.set_builtins(root);
    let a = cs.add(Context::new("A".to_string(), ContextKind::Class, Some(root)));
    let b = cs.add(Context::new("B".to_string(), ContextKind::Class, Some(root)));
    cs.register_superclass(b, mono("A"), a);
    let c = cs.add(Context::new("C".to_string(), ContextKind::Class, Some(root)));
    cs.register_superclass(c, mono("B"), b);
    cs.register_superclass(c, mono("B"), b);
    let supers = &cs.arr[c].super_classes;
    assert_eq!(supers.len(), 2);
    assert!(supers.iter().any(|t| type_eq(t, &mono("A"))));
    assert!(supers.iter().any(|t| type_eq(t, &mono("B"))));
}

#[test]
fn supertrait_registration_indexes_implementations() {
    let mut cs = Contexts::new();
    let root = cs.add(Context::new("<builtins>".to_string(), ContextKind::Module, None));
    cs.set_builtins(root);
    let eq_scope = cs.add(Context::new("Eq".to_string(), ContextKind::Trait, Some(root)));
    cs.register_mono_type(root, mono("Eq"), eq_scope, Visibility::Public, Mutability::Immutable);
    let int_scope = cs.add(Context::new("Int".to_string(), ContextKind::Class, Some(root)));
    cs.register_supertrait(int_scope, mono("Eq"), eq_scope);
    cs.register_mono_type(root, mono("Int"), int_scope, Visibility::Public, Mutability::Immutable);
    let vars = FreeVars::new();
    let impls = cs.get_trait_impls(&vars, root, &mono("Eq"), FUEL);
    assert_eq!(impls.len(), 1);
    assert!(type_eq(&impls[0].sub_type, &mono("Int")));
    assert!(type_eq(&impls[0].sup_trait, &mono("Eq")));
}

#[test]
fn trait_implementations_accumulate_across_scopes() {
    let mut cs = Contexts::new();
    let root = cs.add(Context::new("<builtins>".to_string(), ContextKind::Module, None));
    cs.set_builtins(root);
    let eq_scope = cs.add(Context::new("Eq".to_string(), ContextKind::Trait, Some(root)));
    cs.register_mono_type(root, mono("Eq"), eq_scope, Visibility::Public, Mutability::Immutable);
    let int_scope = cs.add(Context::new("Int".to_string(), ContextKind::Class, Some(root)));
    cs.register_supertrait(int_scope, mono("Eq"), eq_scope);
    cs.register_mono_type(root, mono("Int"), int_scope, Visibility::Public, Mutability::Immutable);
    let module = cs.add(Context::new("main".to_string(), ContextKind::Module, Some(root)));
    let str_scope = cs.add(Context::new("Str".to_string(), ContextKind::Class, Some(module)));
    cs.register_supertrait(str_scope, mono("Eq"), eq_scope);
    cs.register_mono_type(
        module,
        mono("Str"),
        str_scope,
        Visibility::Public,
        Mutability::Immutable,
    );
    let vars = FreeVars::new();
    let impls = cs.get_trait_impls(&vars, module, &mono("Eq"), FUEL);
    assert_eq!(impls.len(), 2);
}

#[test]
fn variable_lookup_walks_outward() {
    let (mut cs, root) = std_hierarchy();
    cs.register_builtin_impl(
        root,
        "answer".to_string(),
        mono("Int"),
        Mutability::Immutable,
        Visibility::Private,
    );
    let module = cs.add(Context::new("<builtins>::main".to_string(), ContextKind::Module, Some(root)));
    let ns = "<builtins>::main".to_string();
    let t = cs
        .rec_get_var_t(module, &"answer".to_string(), Visibility::Private, AccessKind::Name, &ns, FUEL)
        .unwrap();
    assert!(type_eq(&t, &mono("Int")));
    let missing = cs.rec_get_var_t(
        module,
        &"answerr".to_string(),
        Visibility::Private,
        AccessKind::Name,
        &ns,
        FUEL,
    );
    assert!(matches!(missing, Err(TyCheckError::NoSuchVariable { .. })));
}

#[test]
fn visibility_violations_surface_for_attribute_access() {
    let mut cs = Contexts::new();
    let root = cs.add(Context::new("<builtins>".to_string(), ContextKind::Module, None));
    cs.set_builtins(root);
    let secret = cs.add(Context::new("vault".to_string(), ContextKind::Module, Some(root)));
    cs.register_builtin_impl(
        secret,
        "hidden".to_string(),
        mono("Int"),
        Mutability::Immutable,
        Visibility::Private,
    );
    let ns = "elsewhere".to_string();
    let r = cs.rec_get_var_t(
        secret,
        &"hidden".to_string(),
        Visibility::Private,
        AccessKind::Attr,
        &ns,
        FUEL,
    );
    assert!(matches!(r, Err(TyCheckError::VisibilityViolation { .. })));
    let inside = "vault::inner".to_string();
    let ok = cs.rec_get_var_t(
        secret,
        &"hidden".to_string(),
        Visibility::Private,
        AccessKind::Attr,
        &inside,
        FUEL,
    );
    assert!(ok.is_ok());
    let wrong_vis = cs.rec_get_var_t(
        secret,
        &"hidden".to_string(),
        Visibility::Public,
        AccessKind::Attr,
        &inside,
        FUEL,
    );
    assert!(matches!(wrong_vis, Err(TyCheckError::VisibilityViolation { .. })));
    // the builtin root namespace reaches every private binding
    let from_root = "<builtins>".to_string();
    let ok_root = cs.rec_get_var_t(
        secret,
        &"hidden".to_string(),
        Visibility::Private,
        AccessKind::Attr,
        &from_root,
        FUEL,
    );
    assert!(ok_root.is_ok());
}

// Attribute lookup on a record: a present field gives its type; an
// absent one fails with a suggestion only within the edit-distance
// threshold.
#[test]
fn record_attribute_lookup() {
    let (cs, _root) = std_hierarchy();
    let vars = FreeVars::new();
    let rec = record(vec![
        ("x".to_string(), mono("Int")),
        ("y".to_string(), mono("Str")),
    ]);
    let y = cs.get_attr_t_from_attributive(&vars, &rec, &"y".to_string(), FUEL);
    assert!(type_eq(&y.unwrap().unwrap(), &mono("Str")));
    let z = cs.get_attr_t_from_attributive(&vars, &rec, &"z".to_string(), FUEL);
    match z {
        Err(TyCheckError::NoSuchAttribute { name, similar }) => {
            assert_eq!(name, "z");
            assert!(similar.is_none());
        }
        _ => panic!("expected a missing attribute"),
    }
}

#[test]
fn record_attribute_suggestions_respect_the_threshold() {
    let (cs, _root) = std_hierarchy();
    let vars = FreeVars::new();
    let rec = record(vec![("count".to_string(), mono("Int"))]);
    let r = cs.get_attr_t_from_attributive(&vars, &rec, &"countt".to_string(), FUEL);
    match r {
        Err(TyCheckError::NoSuchAttribute { similar, .. }) => {
            assert_eq!(similar, Some("count".to_string()));
        }
        _ => panic!("expected a missing attribute"),
    }
}

#[test]
fn attribute_resolution_tries_the_structure_first() {
    let (cs, root) = std_hierarchy();
    let vars = FreeVars::new();
    let rec = record(vec![("x".to_string(), mono("Int"))]);
    let obj = Expr::Other { t: rec };
    let ns = "<builtins>".to_string();
    let t = cs.rec_get_attr_t(&vars, root, &obj, &"x".to_string(), &ns, FUEL).unwrap();
    assert!(type_eq(&t, &mono("Int")));
}

#[test]
fn attribute_resolution_reaches_nominal_scopes() {
    let (mut cs, root) = std_hierarchy();
    let int_scope = cs.rec_get_mono_type(root, &"Int".to_string(), FUEL).unwrap().1;
    cs.register_builtin_impl(
        int_scope,
        "abs".to_string(),
        func(vec![kw("self", mono("Int"))], None, vec![], mono("Nat")),
        Mutability::Immutable,
        Visibility::Public,
    );
    let vars = FreeVars::new();
    let obj = Expr::Lit { t: mono("Int") };
    let ns = "<builtins>".to_string();
    let t = cs.rec_get_attr_t(&vars, root, &obj, &"abs".to_string(), &ns, FUEL).unwrap();
    assert!(matches!(t, Type::Subr(_)));
}

#[test]
fn similar_name_corrects_common_renamings() {
    let (cs, root) = std_hierarchy();
    assert_eq!(cs.get_similar_name(root, &"int".to_string()), Some("Int".to_string()));
    assert_eq!(cs.get_similar_name(root, &"true".to_string()), Some("True".to_string()));
}

#[test]
fn ambiguous_method_names_are_an_error() {
    let mut cs = Contexts::new();
    let root = cs.add(Context::new("<builtins>".to_string(), ContextKind::Module, None));
    cs.set_builtins(root);
    cs.arr[root].method_to_classes.push((
        "size".to_string(),
        MethodType::new(mono("Int"), func(vec![], None, vec![], mono("Int"))),
    ));
    cs.arr[root].method_to_classes.push((
        "size".to_string(),
        MethodType::new(mono("Str"), func(vec![], None, vec![], mono("Str"))),
    ));
    let r = cs.get_method_type_by_name(root, &"size".to_string(), FUEL);
    assert!(matches!(r, Err(TyCheckError::AmbiguousMethod { .. })));
}

#[test]
fn agreeing_method_definers_resolve() {
    let mut cs = Contexts::new();
    let root = cs.add(Context::new("<builtins>".to_string(), ContextKind::Module, None));
    cs.set_builtins(root);
    let sig = func(vec![], None, vec![], mono("Int"));
    cs.arr[root].method_to_classes.push((
        "size".to_string(),
        MethodType::new(mono("Int"), func(vec![], None, vec![], mono("Int"))),
    ));
    cs.arr[root].method_to_classes.push((
        "size".to_string(),
        MethodType::new(mono("Str"), func(vec![], None, vec![], mono("Int"))),
    ));
    let r = cs.get_method_type_by_name(root, &"size".to_string(), FUEL).unwrap();
    assert!(type_eq(&r.method_type, &sig));
}

// Under the standard hierarchy, the specificity order puts Nat before
// Int before Obj, and Str outside the numeric bucket but before Obj.
#[test]
fn sort_types_orders_by_specificity() {
    let (cs, root) = std_hierarchy();
    let vars = FreeVars::new();
    let input = vec![mono("Int"), mono("Str"), mono("Nat"), mono("Obj")];
    let sorted = cs.sort_types(&vars, root, &input, FUEL);
    assert_eq!(sorted.len(), 4);
    let pos = |t: &Type| sorted.iter().position(|s| type_eq(s, t)).unwrap();
    assert!(pos(&mono("Nat")) < pos(&mono("Int")));
    assert!(pos(&mono("Int")) < pos(&mono("Obj")));
    assert!(pos(&mono("Str")) < pos(&mono("Obj")));
}

// Sorting an already sorted list changes nothing.
#[test]
fn sort_types_is_idempotent_on_the_standard_hierarchy() {
    let (cs, root) = std_hierarchy();
    let vars = FreeVars::new();
    let input = vec![mono("Int"), mono("Str"), mono("Nat"), mono("Obj")];
    let once = cs.sort_types(&vars, root, &input, FUEL);
    let twice = cs.sort_types(&vars, root, &once, FUEL);
    assert_eq!(once.len(), twice.len());
    for (a, b) in once.iter().zip(twice.iter()) {
        assert!(type_eq(a, b));
    }
}

#[test]
fn call_resolution_end_to_end() {
    let (mut cs, root) = std_hierarchy();
    let mut vars = FreeVars::new();
    cs.register_builtin_impl(
        root,
        "incr".to_string(),
        func(vec![kw("n", mono("Int"))], None, vec![], mono("Int")),
        Mutability::Immutable,
        Visibility::Private,
    );
    let callee_t = cs
        .rec_get_var_t(
            root,
            &"incr".to_string(),
            Visibility::Private,
            AccessKind::Name,
            &"<builtins>".to_string(),
            FUEL,
        )
        .unwrap();
    let obj = Expr::Ident { name: "incr".to_string(), vis: Visibility::Private, t: callee_t };
    let args = vec![Expr::Lit { t: mono("Nat") }];
    let r = cs
        .get_call_t(
            &mut vars,
            root,
            &obj,
            &None,
            &args,
            &vec![],
            &"<builtins>".to_string(),
            1,
            FUEL,
        )
        .unwrap();
    assert!(type_eq(&r, &mono("Int")));
}

#[test]
fn singular_paths_resolve_to_type_scopes() {
    let (cs, root) = std_hierarchy();
    let obj = Expr::Ident { name: "Int".to_string(), vis: Visibility::Public, t: Type::ClassType };
    let ns = "<builtins>".to_string();
    let sctx = cs.get_singular_ctx(root, &obj, &ns, FUEL).unwrap();
    assert_eq!(cs.arr[sctx].name, "Int");
    let missing = Expr::Ident {
        name: "Unknown".to_string(),
        vis: Visibility::Public,
        t: Type::ClassType,
    };
    assert!(matches!(
        cs.get_singular_ctx(root, &missing, &ns, FUEL),
        Err(TyCheckError::NoSuchVariable { .. })
    ));
}

#[test]
fn patch_registration_indexes_methods() {
    let mut cs = Contexts::new();
    let root = cs.add(Context::new("<builtins>".to_string(), ContextKind::Module, None));
    cs.set_builtins(root);
    let patch = cs.add(Context::new("IntPatch".to_string(), ContextKind::Patch, Some(root)));
    cs.register_builtin_impl(
        patch,
        "doubled".to_string(),
        func(vec![kw("self", mono("Int"))], None, vec![], mono("Int")),
        Mutability::Immutable,
        Visibility::Public,
    );
    cs.register_builtin_patch(root, "IntPatch".to_string(), patch);
    assert_eq!(cs.rec_get_patch(root, &"IntPatch".to_string(), FUEL), Some(patch));
    assert_eq!(cs.arr[root].method_impl_patches.len(), 1);
    assert_eq!(cs.arr[root].method_impl_patches[0].0, "doubled");
    assert_eq!(cs.arr[root].method_impl_patches[0].1, "IntPatch");
}

#[test]
fn declarations_resolve_like_variables() {
    let mut cs = Contexts::new();
    let root = cs.add(Context::new("<builtins>".to_string(), ContextKind::Module, None));
    cs.set_builtins(root);
    cs.register_builtin_decl(root, "declared".to_string(), mono("Str"), Visibility::Public);
    let t = cs
        .rec_get_decl_t(
            root,
            &"declared".to_string(),
            Visibility::Public,
            AccessKind::Name,
            &"<builtins>".to_string(),
            FUEL,
        )
        .unwrap();
    assert!(type_eq(&t, &mono("Str")));
}

#[test]
fn scope_var_lookup_searches_method_blocks() {
    let mut cs = Contexts::new();
    let root = cs.add(Context::new("<builtins>".to_string(), ContextKind::Module, None));
    cs.set_builtins(root);
    let block = cs.add(Context::new("Int::methods".to_string(), ContextKind::MethodDefs, Some(root)));
    cs.register_builtin_impl(
        block,
        "inside".to_string(),
        mono("Int"),
        Mutability::Immutable,
        Visibility::Public,
    );
    cs.arr[root].methods_list.push(block);
    let vi: Option<VarInfo> = cs.get_current_scope_var(root, &"inside".to_string(), FUEL);
    assert!(vi.is_some());
    assert!(type_eq(&vi.unwrap().t, &mono("Int")));
}

#[test]
fn kind_predicates() {
    assert!(ContextKind::Class.is_class());
    assert!(ContextKind::Trait.is_trait());
    assert!(ContextKind::MethodDefs.is_method_def());
    assert!(ContextKind::Class.is_type());
    assert!(!ContextKind::Module.is_type());
}

#[test]
fn class_and_trait_queries_use_the_registered_kind() {
    let (mut cs, root) = std_hierarchy();
    let vars = FreeVars::new();
    assert!(cs.is_class(&vars, root, &mono("Int"), FUEL));
    assert!(!cs.is_trait(&vars, root, &mono("Int"), FUEL));
    let ord_scope = cs.add(Context::new("Ord".to_string(), ContextKind::Trait, Some(root)));
    cs.register_mono_type(root, mono("Ord"), ord_scope, Visibility::Public, Mutability::Immutable);
    assert!(cs.is_trait(&vars, root, &mono("Ord"), FUEL));
    assert!(!cs.is_class(&vars, root, &mono("Ord"), FUEL));
    assert!(cs.is_class(&vars, root, &Type::Never, FUEL));
}
