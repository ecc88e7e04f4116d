//! The constraint solver: occurs checking, the subtype relation over the
//! type graph, bound tightening by subtype-directed unification, and
//! instantiation of quantified types.
//!
//! Every recursion that can follow a resolved variable's link carries an
//! explicit `fuel` budget: the variable graph may contain intentional
//! cycles, and the budget turns a would-be infinite walk into a
//! conservative answer.

use vstd::prelude::*;

use crate::context::Contexts;
use crate::error::TyCheckError;
use crate::free::Constraint;
use crate::free::ConstraintModel;
use crate::free::Cyclicity;
use crate::free::FreeKindModel;
use crate::free::FreeVars;
use crate::free::constraint_of;
use crate::free::lev_of;
use crate::free::spec_combine;
use crate::free::linked_target;
use crate::ty::ParamTy;
use crate::ty::SubrType;
use crate::ty::Type;
use crate::ty::TypeModel;
use crate::ty::clone_type;
use crate::ty::lemma_model_variants;
use crate::ty::lemma_poly_model;
use crate::ty::lemma_record_model;
use crate::ty::lemma_subr_model;
use crate::ty::models_of;
use crate::ty::param_models_of;

verus! {

/// Whether the variable `v` occurs structurally in `t`: directly, in a
/// child position, or inside the resolution of a resolved variable
/// reachable in fewer than `fuel` link steps.
pub open spec fn occurs_spec(m: Seq<FreeKindModel>, v: int, t: TypeModel, fuel: nat) -> bool
    decreases fuel, t,
{
    match t {
        TypeModel::FreeVar { id } => {
            if id == v {
                true
            } else if 0 <= id < m.len() && fuel > 0 {
                match linked_target(m[id]) {
                    Option::Some(target) => occurs_spec(m, v, target, (fuel - 1) as nat),
                    Option::None => false,
                }
            } else {
                false
            }
        },
        TypeModel::Poly { params, .. } => occurs_list_spec(m, v, params, fuel),
        TypeModel::Record { fields } => occurs_fields_spec(m, v, fields, fuel),
        TypeModel::Ref { t: inner } => occurs_spec(m, v, *inner, fuel),
        TypeModel::RefMut { before, after } => occurs_spec(m, v, *before, fuel) || (match after {
            Option::Some(a) => occurs_spec(m, v, *a, fuel),
            Option::None => false,
        }),
        TypeModel::Refinement { t: base, .. } => occurs_spec(m, v, *base, fuel),
        TypeModel::And { lhs, rhs } => occurs_spec(m, v, *lhs, fuel) || occurs_spec(
            m,
            v,
            *rhs,
            fuel,
        ),
        TypeModel::Or { lhs, rhs } => occurs_spec(m, v, *lhs, fuel) || occurs_spec(
            m,
            v,
            *rhs,
            fuel,
        ),
        TypeModel::Proj { lhs, .. } => occurs_spec(m, v, *lhs, fuel),
        TypeModel::Quantified { t: inner } => occurs_spec(m, v, *inner, fuel),
        TypeModel::Subr { subr } => occurs_subr_spec(m, v, *subr, fuel),
        _ => false,
    }
}

/// Whether `v` occurs in any type of the list.
pub open spec fn occurs_list_spec(m: Seq<FreeKindModel>, v: int, ts: Seq<TypeModel>, fuel: nat) -> bool
    decreases fuel, ts, 0nat,
{
    if ts.len() == 0 {
        false
    } else {
        occurs_spec(m, v, ts[0], fuel) || occurs_list_spec(
            m,
            v,
            ts.subrange(1, ts.len() as int),
            fuel,
        )
    }
}

/// Whether `v` occurs in any field type of the list.
pub open spec fn occurs_fields_spec(
    m: Seq<FreeKindModel>,
    v: int,
    fs: Seq<(Seq<char>, TypeModel)>,
    fuel: nat,
) -> bool
    decreases fuel, fs, 0nat,
{
    if fs.len() == 0 {
        false
    } else {
        occurs_spec(m, v, fs[0].1, fuel) || occurs_fields_spec(
            m,
            v,
            fs.subrange(1, fs.len() as int),
            fuel,
        )
    }
}

/// Whether `v` occurs in any parameter of the list.
pub open spec fn occurs_plist_spec(
    m: Seq<FreeKindModel>,
    v: int,
    ps: Seq<crate::ty::ParamModel>,
    fuel: nat,
) -> bool
    decreases fuel, ps, 0nat,
{
    if ps.len() == 0 {
        false
    } else {
        occurs_param_spec(m, v, ps[0], fuel) || occurs_plist_spec(
            m,
            v,
            ps.subrange(1, ps.len() as int),
            fuel,
        )
    }
}

/// Whether `v` occurs in any parameter or the return type of a
/// subroutine type.
pub open spec fn occurs_subr_spec(m: Seq<FreeKindModel>, v: int, s: crate::ty::SubrModel, fuel: nat) -> bool
    decreases fuel, s,
{
    ||| occurs_plist_spec(m, v, s.non_default_params, fuel)
    ||| (match s.var_params {
        Option::Some(p) => occurs_param_spec(m, v, *p, fuel),
        Option::None => false,
    })
    ||| occurs_plist_spec(m, v, s.default_params, fuel)
    ||| occurs_spec(m, v, *s.return_t, fuel)
}

/// Whether `v` occurs in a parameter's type or declared default type.
pub open spec fn occurs_param_spec(m: Seq<FreeKindModel>, v: int, p: crate::ty::ParamModel, fuel: nat) -> bool
    decreases fuel, p,
{
    occurs_spec(m, v, *p.t, fuel) || (match p.default_t {
        Option::Some(d) => occurs_spec(m, v, *d, fuel),
        Option::None => false,
    })
}

/// Decides [`occurs_spec`]: whether `v` occurs structurally in `t`,
/// following resolved links at most `fuel` steps deep.
#[verifier::loop_isolation(false)]
pub fn occurs(vars: &FreeVars, v: usize, t: &Type, fuel: usize) -> (r: bool)
    ensures
        r == occurs_spec(vars.model(), v as int, t.model(), fuel as nat),
    decreases fuel, *t,
{
    proof {
        lemma_model_variants(*t);
    }
    match t {
        Type::FreeVar(id) => {
            if *id == v {
                true
            } else if *id < vars.len() && fuel > 0 {
                if vars.is_linked(*id) {
                    let target = clone_type(vars.crack(*id));
                    occurs(vars, v, &target, fuel - 1)
                } else {
                    false
                }
            } else {
                false
            }
        },
        Type::Poly { name, params } => {
            proof {
                assert(*t == Type::Poly { name: *name, params: *params });
                lemma_poly_model(*name, *params);
            }
            let ghost all = models_of(params@);
            let n = params.len();
            proof {
                assert(all.subrange(0, n as int) =~= all);
            }
            let mut i: usize = 0;
            while i < n
                invariant
                    i <= n,
                    occurs_list_spec(vars.model(), v as int, all, fuel as nat)
                        == occurs_list_spec(
                        vars.model(),
                        v as int,
                        all.subrange(i as int, n as int),
                        fuel as nat,
                    ),
                decreases n - i,
            {
                proof {
                    assert(all.subrange(i as int, n as int)[0] == all[i as int]);
                    assert(all.subrange(i as int, n as int).subrange(1, (n - i) as int)
                        =~= all.subrange(i as int + 1, n as int));
                }
                if occurs(vars, v, &params[i], fuel) {
                    return true;
                }
                i += 1;
            }
            proof {
                assert(all.subrange(n as int, n as int) =~= Seq::<TypeModel>::empty());
            }
            false
        },
        Type::Record(fields) => {
            proof {
                assert(*t == Type::Record(*fields));
                lemma_record_model(*fields);
            }
            let ghost all = crate::ty::field_models_of(fields@);
            let n = fields.len();
            proof {
                assert(all.subrange(0, n as int) =~= all);
            }
            let mut i: usize = 0;
            while i < n
                invariant
                    i <= n,
                    occurs_fields_spec(vars.model(), v as int, all, fuel as nat)
                        == occurs_fields_spec(
                        vars.model(),
                        v as int,
                        all.subrange(i as int, n as int),
                        fuel as nat,
                    ),
                decreases n - i,
            {
                proof {
                    assert(all.subrange(i as int, n as int)[0] == all[i as int]);
                    assert(all.subrange(i as int, n as int).subrange(1, (n - i) as int)
                        =~= all.subrange(i as int + 1, n as int));
                }
                if occurs(vars, v, &fields[i].1, fuel) {
                    return true;
                }
                i += 1;
            }
            proof {
                assert(all.subrange(n as int, n as int) =~= Seq::<(Seq<char>, TypeModel)>::empty());
            }
            false
        },
        Type::Ref(inner) => occurs(vars, v, inner, fuel),
        Type::RefMut { before, after } => {
            if occurs(vars, v, before, fuel) {
                true
            } else {
                match after {
                    Option::Some(a) => occurs(vars, v, a, fuel),
                    Option::None => false,
                }
            }
        },
        Type::Refinement { t: base, .. } => occurs(vars, v, base, fuel),
        Type::And(l, r) => occurs(vars, v, l, fuel) || occurs(vars, v, r, fuel),
        Type::Or(l, r) => occurs(vars, v, l, fuel) || occurs(vars, v, r, fuel),
        Type::Proj { lhs, .. } => occurs(vars, v, lhs, fuel),
        Type::Quantified(inner) => occurs(vars, v, inner, fuel),
        Type::Subr(subr) => occurs_subr(vars, v, subr, fuel),
        _ => false,
    }
}

/// Decides [`occurs_param_spec`].
fn occurs_param(vars: &FreeVars, v: usize, p: &ParamTy, fuel: usize) -> (r: bool)
    ensures
        r == occurs_param_spec(vars.model(), v as int, p.model(), fuel as nat),
    decreases fuel, *p,
{
    if occurs(vars, v, &p.t, fuel) {
        true
    } else {
        match &p.default_t {
            Option::Some(d) => occurs(vars, v, d, fuel),
            Option::None => false,
        }
    }
}

/// Decides occurrence over a parameter list.
#[verifier::loop_isolation(false)]
fn occurs_params(vars: &FreeVars, v: usize, ps: &Vec<ParamTy>, fuel: usize) -> (r: bool)
    ensures
        r == occurs_plist_spec(vars.model(), v as int, param_models_of(ps@), fuel as nat),
    decreases fuel, *ps,
{
    let ghost all = param_models_of(ps@);
    let n = ps.len();
    proof {
        assert(all.subrange(0, n as int) =~= all);
    }
    let mut i: usize = 0;
    while i < n
        invariant
            i <= n,
            occurs_plist_spec(vars.model(), v as int, all, fuel as nat) == occurs_plist_spec(
                vars.model(),
                v as int,
                all.subrange(i as int, n as int),
                fuel as nat,
            ),
        decreases n - i,
    {
        proof {
            assert(all.subrange(i as int, n as int)[0] == all[i as int]);
            assert(all.subrange(i as int, n as int).subrange(1, (n - i) as int) =~= all.subrange(
                i as int + 1,
                n as int,
            ));
        }
        if occurs_param(vars, v, &ps[i], fuel) {
            return true;
        }
        i += 1;
    }
    proof {
        assert(all.subrange(n as int, n as int) =~= Seq::<crate::ty::ParamModel>::empty());
    }
    false
}

/// Decides [`occurs_subr_spec`].
fn occurs_subr(vars: &FreeVars, v: usize, s: &SubrType, fuel: usize) -> (r: bool)
    ensures
        r == occurs_subr_spec(vars.model(), v as int, s.model(), fuel as nat),
    decreases fuel, *s,
{
    proof {
        lemma_subr_model(*s);
    }
    if occurs_params(vars, v, &s.non_default_params, fuel) {
        return true;
    }
    if let Option::Some(p) = &s.var_params {
        if occurs_param(vars, v, p, fuel) {
            return true;
        }
    }
    if occurs_params(vars, v, &s.default_params, fuel) {
        return true;
    }
    occurs(vars, v, &s.return_t, fuel)
}

/// The first field of the list whose name reads `name`.
pub open spec fn field_type_lookup(
    fs: Seq<(Seq<char>, TypeModel)>,
    name: Seq<char>,
) -> Option<TypeModel>
    decreases fs.len(),
{
    if fs.len() == 0 {
        Option::None
    } else if fs[0].0 == name {
        Option::Some(fs[0].1)
    } else {
        field_type_lookup(fs.subrange(1, fs.len() as int), name)
    }
}

/// Whether `a` is a subtype of `b`, with `a` first freed of a resolved
/// variable at its head: links are dereferenced before any structural
/// comparison.
pub open spec fn subtype_spec(
    cs: Contexts,
    m: Seq<FreeKindModel>,
    c: int,
    a: TypeModel,
    b: TypeModel,
    fuel: nat,
) -> bool
    decreases fuel, 3nat, 0nat,
{
    if fuel == 0 {
        false
    } else {
        match a {
            TypeModel::FreeVar { id } => {
                if 0 <= id < m.len() && linked_target(m[id]) is Some {
                    subtype_spec(cs, m, c, linked_target(m[id]).unwrap(), b, (fuel - 1) as nat)
                } else {
                    subtype_spec_r(cs, m, c, a, b, fuel)
                }
            },
            _ => subtype_spec_r(cs, m, c, a, b, fuel),
        }
    }
}

/// Like [`subtype_spec`], with `b` also freed of a resolved variable at
/// its head.
pub open spec fn subtype_spec_r(
    cs: Contexts,
    m: Seq<FreeKindModel>,
    c: int,
    a: TypeModel,
    b: TypeModel,
    fuel: nat,
) -> bool
    decreases fuel, 2nat, 0nat,
{
    if fuel == 0 {
        false
    } else {
        match b {
            TypeModel::FreeVar { id } => {
                if 0 <= id < m.len() && linked_target(m[id]) is Some {
                    subtype_spec(cs, m, c, a, linked_target(m[id]).unwrap(), (fuel - 1) as nat)
                } else {
                    subtype_core(cs, m, c, a, b, fuel)
                }
            },
            _ => subtype_core(cs, m, c, a, b, fuel),
        }
    }
}

/// The structural and nominal subtype rules, for two sides free of
/// resolved variables at their heads: `Obj` is the top and `Never` the
/// bottom; an unresolved variable is compared through its bounds;
/// refinements compare by their base; intersections and unions
/// decompose; subroutines compare with contravariant parameters and
/// covariant return; records compare by width and depth; a nominal type
/// is below everything any of its registered superclasses or supertraits
/// is below; and the class and trait kinds are kinds of types.
pub open spec fn subtype_core(
    cs: Contexts,
    m: Seq<FreeKindModel>,
    c: int,
    a: TypeModel,
    b: TypeModel,
    fuel: nat,
) -> bool
    decreases fuel, 1nat, 0nat,
{
    if fuel == 0 {
        false
    } else {
        let f = (fuel - 1) as nat;
        if a == b {
            true
        } else if b is Obj {
            true
        } else if a is Never {
            true
        } else if a is FreeVar {
            a matches TypeModel::FreeVar { id } && 0 <= id < m.len() && (match constraint_of(
                m[id],
            ) {
                Option::Some(ConstraintModel::Sandwiched { sup, .. }) => subtype_spec(
                    cs,
                    m,
                    c,
                    sup,
                    b,
                    f,
                ),
                _ => false,
            })
        } else if b is FreeVar {
            b matches TypeModel::FreeVar { id } && 0 <= id < m.len() && (match constraint_of(
                m[id],
            ) {
                Option::Some(ConstraintModel::Sandwiched { sub, .. }) => subtype_spec(
                    cs,
                    m,
                    c,
                    a,
                    sub,
                    f,
                ),
                _ => false,
            })
        } else if a is Refinement {
            a matches TypeModel::Refinement { t, .. } && subtype_spec(cs, m, c, *t, b, f)
        } else if a is And {
            a matches TypeModel::And { lhs, rhs } && (subtype_spec(cs, m, c, *lhs, b, f)
                || subtype_spec(cs, m, c, *rhs, b, f))
        } else if b is And {
            b matches TypeModel::And { lhs, rhs } && (subtype_spec(cs, m, c, a, *lhs, f)
                && subtype_spec(cs, m, c, a, *rhs, f))
        } else if a is Or {
            a matches TypeModel::Or { lhs, rhs } && (subtype_spec(cs, m, c, *lhs, b, f)
                && subtype_spec(cs, m, c, *rhs, b, f))
        } else if b is Or {
            b matches TypeModel::Or { lhs, rhs } && (subtype_spec(cs, m, c, a, *lhs, f)
                || subtype_spec(cs, m, c, a, *rhs, f))
        } else if a is Ref && b is Ref {
            a matches TypeModel::Ref { t: ia } && b matches TypeModel::Ref { t: ib }
                && subtype_spec(cs, m, c, *ia, *ib, f)
        } else if a is RefMut && b is RefMut {
            a matches TypeModel::RefMut { before: ba, .. } && b matches TypeModel::RefMut {
                before: bb,
                ..
            } && *ba == *bb
        } else if a is Subr && b is Subr {
            a matches TypeModel::Subr { subr: s1 } && b matches TypeModel::Subr { subr: s2 } && {
                &&& s1.kind == s2.kind
                &&& s1.non_default_params.len() == s2.non_default_params.len()
                &&& params_contra_spec(cs, m, c, s1.non_default_params, s2.non_default_params, f)
                &&& s1.default_params.len() == s2.default_params.len()
                &&& params_contra_spec(cs, m, c, s1.default_params, s2.default_params, f)
                &&& (match (s1.var_params, s2.var_params) {
                    (Option::Some(p1), Option::Some(p2)) => subtype_spec(
                        cs,
                        m,
                        c,
                        *p2.t,
                        *p1.t,
                        f,
                    ),
                    (Option::None, Option::None) => true,
                    _ => false,
                })
                &&& subtype_spec(cs, m, c, *s1.return_t, *s2.return_t, f)
            }
        } else if a is Record && b is Record {
            a matches TypeModel::Record { fields: f1 } && b matches TypeModel::Record {
                fields: f2,
            } && record_sub_spec(cs, m, c, f1, f2, f)
        } else if (a is ClassType || a is TraitType) && b is Type {
            true
        } else if a is Poly && b is Poly && crate::ty::local_name_spec(a)
            == crate::ty::local_name_spec(b) {
            a matches TypeModel::Poly { params: p1, .. } && b matches TypeModel::Poly {
                params: p2,
                ..
            } && p1 == p2
        } else if a is Mono || a is Poly {
            match cs.rec_type_spec(c, crate::ty::local_name_spec(a).unwrap(), fuel) {
                Option::Some(e) => {
                    let cid = e.1 as int;
                    0 <= cid < cs.arr@.len() && (supers_any_spec(
                        cs,
                        m,
                        c,
                        cs.arr@[cid].super_classes@,
                        b,
                        f,
                    ) || supers_any_spec(cs, m, c, cs.arr@[cid].super_traits@, b, f))
                },
                Option::None => false,
            }
        } else {
            false
        }
    }
}

/// Whether any type of the list is a subtype of `b`.
pub open spec fn supers_any_spec(
    cs: Contexts,
    m: Seq<FreeKindModel>,
    c: int,
    ss: Seq<Type>,
    b: TypeModel,
    fuel: nat,
) -> bool
    decreases fuel, 4nat, ss.len(),
{
    if ss.len() == 0 {
        false
    } else {
        subtype_spec(cs, m, c, ss[0].model(), b, fuel) || supers_any_spec(
            cs,
            m,
            c,
            ss.subrange(1, ss.len() as int),
            b,
            fuel,
        )
    }
}

/// Whether each parameter of `ps2` accepts at least what the matching
/// parameter of `ps1` accepts: parameters compare contravariantly.
pub open spec fn params_contra_spec(
    cs: Contexts,
    m: Seq<FreeKindModel>,
    c: int,
    ps1: Seq<crate::ty::ParamModel>,
    ps2: Seq<crate::ty::ParamModel>,
    fuel: nat,
) -> bool
    decreases fuel, 4nat, ps1.len(),
{
    if ps1.len() == 0 || ps2.len() == 0 {
        true
    } else {
        subtype_spec(cs, m, c, *ps2[0].t, *ps1[0].t, fuel) && params_contra_spec(
            cs,
            m,
            c,
            ps1.subrange(1, ps1.len() as int),
            ps2.subrange(1, ps2.len() as int),
            fuel,
        )
    }
}

/// Whether the fields `have` provide every field `need` asks for, each
/// with a subtype of the asked type.
pub open spec fn record_sub_spec(
    cs: Contexts,
    m: Seq<FreeKindModel>,
    c: int,
    have: Seq<(Seq<char>, TypeModel)>,
    need: Seq<(Seq<char>, TypeModel)>,
    fuel: nat,
) -> bool
    decreases fuel, 4nat, need.len(),
{
    if need.len() == 0 {
        true
    } else {
        match field_type_lookup(have, need[0].0) {
            Option::Some(t) => subtype_spec(cs, m, c, t, need[0].1, fuel) && record_sub_spec(
                cs,
                m,
                c,
                have,
                need.subrange(1, need.len() as int),
                fuel,
            ),
            Option::None => false,
        }
    }
}

/// Decides [`subtype_spec`]: whether `a` is a subtype of `b` in scope
/// `c`, spending at most `fuel` recursion steps.
pub fn subtype_of(cs: &Contexts, vars: &FreeVars, c: usize, a: &Type, b: &Type, fuel: usize) -> (r:
    bool)
    ensures
        r == subtype_spec(*cs, vars.model(), c as int, a.model(), b.model(), fuel as nat),
    decreases fuel, 3nat, 0nat,
{
    if fuel == 0 {
        return false;
    }
    proof {
        lemma_model_variants(*a);
    }
    match a {
        Type::FreeVar(id) => {
            if *id < vars.len() && vars.is_linked(*id) {
                let target = clone_type(vars.crack(*id));
                subtype_of(cs, vars, c, &target, b, fuel - 1)
            } else {
                subtype_of_r(cs, vars, c, a, b, fuel)
            }
        },
        _ => subtype_of_r(cs, vars, c, a, b, fuel),
    }
}

/// Decides [`subtype_spec_r`].
fn subtype_of_r(cs: &Contexts, vars: &FreeVars, c: usize, a: &Type, b: &Type, fuel: usize) -> (r:
    bool)
    requires
        fuel >= 1,
    ensures
        r == subtype_spec_r(*cs, vars.model(), c as int, a.model(), b.model(), fuel as nat),
    decreases fuel, 2nat, 0nat,
{
    proof {
        lemma_model_variants(*b);
    }
    match b {
        Type::FreeVar(id) => {
            if *id < vars.len() && vars.is_linked(*id) {
                let target = clone_type(vars.crack(*id));
                subtype_of(cs, vars, c, a, &target, fuel - 1)
            } else {
                subtype_exec_core(cs, vars, c, a, b, fuel)
            }
        },
        _ => subtype_exec_core(cs, vars, c, a, b, fuel),
    }
}

/// Decides [`subtype_core`].
#[verifier::rlimit(100)]
fn subtype_exec_core(cs: &Contexts, vars: &FreeVars, c: usize, a: &Type, b: &Type, fuel: usize) -> (r:
    bool)
    requires
        fuel >= 1,
    ensures
        r == subtype_core(*cs, vars.model(), c as int, a.model(), b.model(), fuel as nat),
    decreases fuel, 1nat, 0nat,
{
    proof {
        lemma_model_variants(*a);
        lemma_model_variants(*b);
    }
    let f = fuel - 1;
    if crate::ty::type_eq(a, b) {
        return true;
    }
    if matches!(b, Type::Obj) {
        return true;
    }
    if matches!(a, Type::Never) {
        return true;
    }
    match a {
        Type::FreeVar(id) => {
            return *id < vars.len() && {
                match vars.borrow(*id).constraint() {
                    Option::Some(con) => match con.get_super() {
                        Option::Some(sup) => subtype_of(cs, vars, c, sup, b, f),
                        Option::None => false,
                    },
                    Option::None => false,
                }
            };
        },
        _ => {},
    }
    match b {
        Type::FreeVar(id) => {
            return *id < vars.len() && {
                match vars.borrow(*id).constraint() {
                    Option::Some(con) => match con.get_sub() {
                        Option::Some(sub) => subtype_of(cs, vars, c, a, sub, f),
                        Option::None => false,
                    },
                    Option::None => false,
                }
            };
        },
        _ => {},
    }
    match a {
        Type::Refinement { t, .. } => {
            return subtype_of(cs, vars, c, t, b, f);
        },
        Type::And(l, r) => {
            return subtype_of(cs, vars, c, l, b, f) || subtype_of(cs, vars, c, r, b, f);
        },
        _ => {},
    }
    match b {
        Type::And(l, r) => {
            return subtype_of(cs, vars, c, a, l, f) && subtype_of(cs, vars, c, a, r, f);
        },
        _ => {},
    }
    match a {
        Type::Or(l, r) => {
            return subtype_of(cs, vars, c, l, b, f) && subtype_of(cs, vars, c, r, b, f);
        },
        _ => {},
    }
    match b {
        Type::Or(l, r) => {
            return subtype_of(cs, vars, c, a, l, f) || subtype_of(cs, vars, c, a, r, f);
        },
        _ => {},
    }
    match (a, b) {
        (Type::Ref(ia), Type::Ref(ib)) => {
            return subtype_of(cs, vars, c, ia, ib, f);
        },
        (Type::RefMut { before: ba, .. }, Type::RefMut { before: bb, .. }) => {
            return crate::ty::type_eq(ba, bb);
        },
        (Type::Subr(s1), Type::Subr(s2)) => {
            proof {
                lemma_subr_model(*s1);
                lemma_subr_model(*s2);
            }
            if !(s1.kind == s2.kind) {
                return false;
            }
            if s1.non_default_params.len() != s2.non_default_params.len() {
                return false;
            }
            if !params_contra(cs, vars, c, &s1.non_default_params, &s2.non_default_params, f) {
                return false;
            }
            if s1.default_params.len() != s2.default_params.len() {
                return false;
            }
            if !params_contra(cs, vars, c, &s1.default_params, &s2.default_params, f) {
                return false;
            }
            let vp_ok = match (&s1.var_params, &s2.var_params) {
                (Option::Some(p1), Option::Some(p2)) => subtype_of(cs, vars, c, &p2.t, &p1.t, f),
                (Option::None, Option::None) => true,
                _ => false,
            };
            if !vp_ok {
                return false;
            }
            return subtype_of(cs, vars, c, &s1.return_t, &s2.return_t, f);
        },
        (Type::Record(f1), Type::Record(f2)) => {
            proof {
                lemma_record_model(*f1);
                lemma_record_model(*f2);
            }
            return record_sub(cs, vars, c, f1, f2, f);
        },
        _ => {},
    }
    if matches!(a, Type::ClassType | Type::TraitType) && matches!(b, Type::Type) {
        return true;
    }
    match (a, b) {
        (Type::Poly { name: n1, params: p1 }, Type::Poly { name: n2, params: p2 }) => {
            if crate::ty::string_eq(n1, n2) {
                proof {
                    lemma_poly_model(*n1, *p1);
                    lemma_poly_model(*n2, *p2);
                }
                return crate::ty::type_list_eq(p1, p2);
            }
        },
        _ => {},
    }
    let name = match crate::ty::local_name(a) {
        Option::Some(n) => n.clone(),
        Option::None => {
            return false;
        },
    };
    if c >= cs.len() {
        proof {
            assert(cs.rec_type_spec(c as int, name@, fuel as nat) is None);
        }
        return false;
    }
    match cs.rec_get_type(c, &name, fuel) {
        Option::Some((_t0, cid)) => {
            if cid < cs.len() {
                supers_any(cs, vars, c, cid, true, b, f) || supers_any(cs, vars, c, cid, false, b, f)
            } else {
                false
            }
        },
        Option::None => false,
    }
}

/// Decides [`supers_any_spec`] over the superclass (`classes` true) or
/// supertrait list of scope `cid`.
#[verifier::loop_isolation(false)]
fn supers_any(cs: &Contexts, vars: &FreeVars, c: usize, cid: usize, classes: bool, b: &Type, fuel: usize) -> (r: bool)
    requires
        cid < cs.arr@.len(),
    ensures
        classes ==> r == supers_any_spec(
            *cs,
            vars.model(),
            c as int,
            cs.arr@[cid as int].super_classes@,
            b.model(),
            fuel as nat,
        ),
        !classes ==> r == supers_any_spec(
            *cs,
            vars.model(),
            c as int,
            cs.arr@[cid as int].super_traits@,
            b.model(),
            fuel as nat,
        ),
    decreases fuel, 4nat, 0nat,
{
    let ss = if classes {
        &cs.arr[cid].super_classes
    } else {
        &cs.arr[cid].super_traits
    };
    let n = ss.len();
    proof {
        assert(ss@.subrange(0, n as int) =~= ss@);
    }
    let mut i: usize = 0;
    while i < n
        invariant
            i <= n,
            supers_any_spec(*cs, vars.model(), c as int, ss@, b.model(), fuel as nat)
                == supers_any_spec(
                *cs,
                vars.model(),
                c as int,
                ss@.subrange(i as int, n as int),
                b.model(),
                fuel as nat,
            ),
        decreases n - i,
    {
        proof {
            assert(ss@.subrange(i as int, n as int)[0] == ss@[i as int]);
            assert(ss@.subrange(i as int, n as int).subrange(1, (n - i) as int) =~= ss@.subrange(
                i as int + 1,
                n as int,
            ));
        }
        if subtype_of(cs, vars, c, &ss[i], b, fuel) {
            return true;
        }
        i += 1;
    }
    proof {
        assert(ss@.subrange(n as int, n as int) =~= Seq::<Type>::empty());
    }
    false
}

/// Decides [`params_contra_spec`].
#[verifier::loop_isolation(false)]
fn params_contra(
    cs: &Contexts,
    vars: &FreeVars,
    c: usize,
    ps1: &Vec<ParamTy>,
    ps2: &Vec<ParamTy>,
    fuel: usize,
) -> (r: bool)
    requires
        ps1@.len() == ps2@.len(),
    ensures
        r == params_contra_spec(
            *cs,
            vars.model(),
            c as int,
            param_models_of(ps1@),
            param_models_of(ps2@),
            fuel as nat,
        ),
    decreases fuel, 4nat, 0nat,
{
    let ghost m1 = param_models_of(ps1@);
    let ghost m2 = param_models_of(ps2@);
    let n = ps1.len();
    proof {
        assert(m1.subrange(0, n as int) =~= m1);
        assert(m2.subrange(0, n as int) =~= m2);
    }
    let mut i: usize = 0;
    while i < n
        invariant
            i <= n,
            params_contra_spec(*cs, vars.model(), c as int, m1, m2, fuel as nat)
                == params_contra_spec(
                *cs,
                vars.model(),
                c as int,
                m1.subrange(i as int, n as int),
                m2.subrange(i as int, n as int),
                fuel as nat,
            ),
        decreases n - i,
    {
        proof {
            assert(m1.subrange(i as int, n as int)[0] == m1[i as int]);
            assert(m2.subrange(i as int, n as int)[0] == m2[i as int]);
            assert(m1.subrange(i as int, n as int).subrange(1, (n - i) as int) =~= m1.subrange(
                i as int + 1,
                n as int,
            ));
            assert(m2.subrange(i as int, n as int).subrange(1, (n - i) as int) =~= m2.subrange(
                i as int + 1,
                n as int,
            ));
        }
        if !subtype_of(cs, vars, c, &ps2[i].t, &ps1[i].t, fuel) {
            return false;
        }
        i += 1;
    }
    proof {
        assert(m1.subrange(n as int, n as int) =~= Seq::<crate::ty::ParamModel>::empty());
    }
    true
}

/// The type of the first field whose name reads `name`.
#[verifier::loop_isolation(false)]
pub fn record_field_get<'a>(fields: &'a Vec<(String, Type)>, name: &String) -> (r: Option<&'a Type>)
    ensures
        match r {
            Option::Some(t) => field_type_lookup(crate::ty::field_models_of(fields@), name@)
                == Option::Some(t.model()),
            Option::None => field_type_lookup(crate::ty::field_models_of(fields@), name@)
                is None,
        },
{
    let ghost fm = crate::ty::field_models_of(fields@);
    let n = fields.len();
    proof {
        assert(fm.subrange(0, n as int) =~= fm);
    }
    let mut i: usize = 0;
    while i < n
        invariant
            i <= n,
            field_type_lookup(fm, name@) == field_type_lookup(
                fm.subrange(i as int, n as int),
                name@,
            ),
        decreases n - i,
    {
        proof {
            assert(fm.subrange(i as int, n as int)[0] == fm[i as int]);
            assert(fm.subrange(i as int, n as int).subrange(1, (n - i) as int) =~= fm.subrange(
                i as int + 1,
                n as int,
            ));
        }
        if crate::ty::string_eq(&fields[i].0, name) {
            return Option::Some(&fields[i].1);
        }
        i += 1;
    }
    proof {
        assert(fm.subrange(n as int, n as int) =~= Seq::<(Seq<char>, TypeModel)>::empty());
    }
    Option::None
}

/// Decides [`record_sub_spec`].
#[verifier::loop_isolation(false)]
fn record_sub(
    cs: &Contexts,
    vars: &FreeVars,
    c: usize,
    have: &Vec<(String, Type)>,
    need: &Vec<(String, Type)>,
    fuel: usize,
) -> (r: bool)
    ensures
        r == record_sub_spec(
            *cs,
            vars.model(),
            c as int,
            crate::ty::field_models_of(have@),
            crate::ty::field_models_of(need@),
            fuel as nat,
        ),
    decreases fuel, 4nat, 0nat,
{
    let ghost hm = crate::ty::field_models_of(have@);
    let ghost nm = crate::ty::field_models_of(need@);
    let n = need.len();
    proof {
        assert(nm.subrange(0, n as int) =~= nm);
    }
    let mut i: usize = 0;
    while i < n
        invariant
            i <= n,
            record_sub_spec(*cs, vars.model(), c as int, hm, nm, fuel as nat)
                == record_sub_spec(
                *cs,
                vars.model(),
                c as int,
                hm,
                nm.subrange(i as int, n as int),
                fuel as nat,
            ),
        decreases n - i,
    {
        proof {
            assert(nm.subrange(i as int, n as int)[0] == nm[i as int]);
            assert(nm.subrange(i as int, n as int).subrange(1, (n - i) as int) =~= nm.subrange(
                i as int + 1,
                n as int,
            ));
        }
        match record_field_get(have, &need[i].0) {
            Option::Some(t) => {
                if !subtype_of(cs, vars, c, t, &need[i].1, fuel) {
                    return false;
                }
            },
            Option::None => {
                return false;
            },
        }
        i += 1;
    }
    proof {
        assert(nm.subrange(n as int, n as int) =~= Seq::<(Seq<char>, TypeModel)>::empty());
    }
    true
}

/// Whether `a` is a supertype of `b` in scope `c`.
pub fn supertype_of(cs: &Contexts, vars: &FreeVars, c: usize, a: &Type, b: &Type, fuel: usize) -> (r: bool)
    ensures
        r == subtype_spec(*cs, vars.model(), c as int, b.model(), a.model(), fuel as nat),
{
    subtype_of(cs, vars, c, b, a, fuel)
}

/// Whether the two types are related: one is a subtype of the other.
pub fn related(cs: &Contexts, vars: &FreeVars, c: usize, a: &Type, b: &Type, fuel: usize) -> (r: bool)
    ensures
        r == (subtype_spec(*cs, vars.model(), c as int, a.model(), b.model(), fuel as nat)
            || subtype_spec(*cs, vars.model(), c as int, b.model(), a.model(), fuel as nat)),
{
    subtype_of(cs, vars, c, a, b, fuel) || subtype_of(cs, vars, c, b, a, fuel)
}

/// The join of two types: the greater of related types, else their
/// union combinator.
pub open spec fn join_spec(
    cs: Contexts,
    m: Seq<FreeKindModel>,
    c: int,
    a: TypeModel,
    b: TypeModel,
    fuel: nat,
) -> TypeModel {
    if subtype_spec(cs, m, c, a, b, fuel) {
        b
    } else if subtype_spec(cs, m, c, b, a, fuel) {
        a
    } else {
        TypeModel::Or { lhs: Box::new(a), rhs: Box::new(b) }
    }
}

/// The meet of two types: the lesser of related types, else their
/// intersection combinator.
pub open spec fn meet_spec(
    cs: Contexts,
    m: Seq<FreeKindModel>,
    c: int,
    a: TypeModel,
    b: TypeModel,
    fuel: nat,
) -> TypeModel {
    if subtype_spec(cs, m, c, a, b, fuel) {
        a
    } else if subtype_spec(cs, m, c, b, a, fuel) {
        b
    } else {
        TypeModel::And { lhs: Box::new(a), rhs: Box::new(b) }
    }
}

/// Computes the join of two types; see [`join_spec`].
pub fn union(cs: &Contexts, vars: &FreeVars, c: usize, a: &Type, b: &Type, fuel: usize) -> (r: Type)
    ensures
        r.model() == join_spec(*cs, vars.model(), c as int, a.model(), b.model(), fuel as nat),
{
    if subtype_of(cs, vars, c, a, b, fuel) {
        clone_type(b)
    } else if subtype_of(cs, vars, c, b, a, fuel) {
        clone_type(a)
    } else {
        Type::Or(Box::new(clone_type(a)), Box::new(clone_type(b)))
    }
}

/// Computes the meet of two types; see [`meet_spec`].
pub fn intersection(cs: &Contexts, vars: &FreeVars, c: usize, a: &Type, b: &Type, fuel: usize) -> (r: Type)
    ensures
        r.model() == meet_spec(*cs, vars.model(), c as int, a.model(), b.model(), fuel as nat),
{
    if subtype_of(cs, vars, c, a, b, fuel) {
        clone_type(a)
    } else if subtype_of(cs, vars, c, b, a, fuel) {
        clone_type(b)
    } else {
        Type::And(Box::new(clone_type(a)), Box::new(clone_type(b)))
    }
}

/// Whether the slot records a cyclicity other than `Not`.
pub open spec fn slot_cyclic(k: FreeKindModel) -> bool {
    constraint_of(k) matches Option::Some(ConstraintModel::Sandwiched { cyclicity, .. })
        && cyclicity != Cyclicity::Not
}

/// A pair of sides on which unification only decides and never
/// tightens: no variable at either head, no refinement, no subroutine
/// pair, no same-name same-arity parametric pair.
pub open spec fn plain_pair(a: TypeModel, b: TypeModel) -> bool {
    &&& !(a is FreeVar)
    &&& !(b is FreeVar)
    &&& !(a is Refinement)
    &&& !(b is Refinement)
    &&& !(a is Subr && b is Subr)
    &&& !(a matches TypeModel::Poly { name: n1, params: p1 } && b matches TypeModel::Poly {
        name: n2,
        params: p2,
    } && n1 == n2 && p1.len() == p2.len())
}

/// Whether `v_t` is an unresolved bounded variable of `old_m` whose
/// opposite side `other` structurally contains it.
pub open spec fn occurs_guard(
    old_m: Seq<FreeKindModel>,
    v_t: TypeModel,
    other: TypeModel,
    fuel: nat,
) -> bool {
    v_t matches TypeModel::FreeVar { id } && 0 <= id < old_m.len() && (constraint_of(old_m[id])
        matches Option::Some(ConstraintModel::Sandwiched { .. })) && occurs_spec(
        old_m,
        id,
        other,
        fuel,
    )
}

/// The variable either carries a cyclicity tag in the new state, or the
/// whole arena was left exactly as it was.
pub open spec fn cyclicity_recorded(
    old_m: Seq<FreeKindModel>,
    new_m: Seq<FreeKindModel>,
    v_t: TypeModel,
) -> bool {
    v_t matches TypeModel::FreeVar { id } ==> (slot_cyclic(new_m[id]) || new_m == old_m)
}

/// What unification guarantees when the supertype side is the variable
/// `v` and the subtype side `a` is not a variable: for an unresolved
/// bounded `v`, success is owed, the lower bound becomes the join of the
/// old lower bound and `a`, the variable resolves exactly when the
/// bounds collapse without self-reference, and a self-containing bound
/// joins `Sub` into the cyclicity tag.  An unresolved `v` without bounds
/// resolves to `a`, or fails when `a` contains it.
pub open spec fn sup_var_clause(
    cs: Contexts,
    old_m: Seq<FreeKindModel>,
    new_m: Seq<FreeKindModel>,
    c: int,
    a: TypeModel,
    v: int,
    ok: bool,
    fuel: nat,
) -> bool {
    (fuel > 0 && !(a is FreeVar) && 0 <= v < old_m.len()) ==> match constraint_of(old_m[v]) {
        Option::Some(con) => {
            let occ = occurs_spec(old_m, v, a, fuel);
            match con {
                ConstraintModel::Sandwiched { sub: lo, sup: hi, cyclicity: cy } => {
                    let j = join_spec(cs, old_m, c, lo, a, (fuel - 1) as nat);
                    &&& ok
                    &&& (!occ && j == hi) ==> new_m == old_m.update(
                        v,
                        FreeKindModel::Linked { t: j },
                    )
                    &&& !(!occ && j == hi) ==> (constraint_of(new_m[v]) == Option::Some(
                        ConstraintModel::Sandwiched {
                            sub: j,
                            sup: hi,
                            cyclicity: if occ {
                                spec_combine(cy, Cyclicity::Sub)
                            } else {
                                cy
                            },
                        },
                    ) && lev_of(new_m[v]) == lev_of(old_m[v]) && (forall|i: int|
                        0 <= i < old_m.len() && i != v ==> new_m[i] == old_m[i]))
                },
                _ => {
                    &&& occ ==> (!ok && new_m == old_m)
                    &&& !occ ==> (ok && new_m == old_m.update(v, FreeKindModel::Linked { t: a }))
                },
            }
        },
        Option::None => true,
    }
}

/// The dual of [`sup_var_clause`]: the subtype side is the variable `v`
/// and the supertype side `b` is not a variable; the upper bound is
/// lowered to the meet, a self-containing bound joins `Super`.
pub open spec fn sub_var_clause(
    cs: Contexts,
    old_m: Seq<FreeKindModel>,
    new_m: Seq<FreeKindModel>,
    c: int,
    b: TypeModel,
    v: int,
    ok: bool,
    fuel: nat,
) -> bool {
    (fuel > 0 && !(b is FreeVar) && 0 <= v < old_m.len()) ==> match constraint_of(old_m[v]) {
        Option::Some(con) => {
            let occ = occurs_spec(old_m, v, b, fuel);
            match con {
                ConstraintModel::Sandwiched { sub: lo, sup: hi, cyclicity: cy } => {
                    let mt = meet_spec(cs, old_m, c, hi, b, (fuel - 1) as nat);
                    &&& ok
                    &&& (!occ && lo == mt) ==> new_m == old_m.update(
                        v,
                        FreeKindModel::Linked { t: mt },
                    )
                    &&& !(!occ && lo == mt) ==> (constraint_of(new_m[v]) == Option::Some(
                        ConstraintModel::Sandwiched {
                            sub: lo,
                            sup: mt,
                            cyclicity: if occ {
                                spec_combine(cy, Cyclicity::Super)
                            } else {
                                cy
                            },
                        },
                    ) && lev_of(new_m[v]) == lev_of(old_m[v]) && (forall|i: int|
                        0 <= i < old_m.len() && i != v ==> new_m[i] == old_m[i]))
                },
                _ => {
                    &&& occ ==> (!ok && new_m == old_m)
                    &&& !occ ==> (ok && new_m == old_m.update(v, FreeKindModel::Linked { t: b }))
                },
            }
        },
        Option::None => true,
    }
}

/// What unification guarantees for two unresolved variables: the same
/// variable is left alone; otherwise the supertype side is linked to the
/// subtype side, and where both carry bounds the kept side's bounds
/// become the join of the lower and the meet of the upper bounds, the
/// cyclicity tags joined.
pub open spec fn var_var_clause(
    cs: Contexts,
    old_m: Seq<FreeKindModel>,
    new_m: Seq<FreeKindModel>,
    c: int,
    va: int,
    vb: int,
    ok: bool,
    fuel: nat,
) -> bool {
    (fuel > 0 && 0 <= va < old_m.len() && 0 <= vb < old_m.len() && constraint_of(old_m[va])
        is Some && constraint_of(old_m[vb]) is Some) ==> {
        if va == vb {
            ok && new_m == old_m
        } else {
            match (constraint_of(old_m[va]), constraint_of(old_m[vb])) {
                (
                    Option::Some(
                        ConstraintModel::Sandwiched { sub: lo_a, sup: hi_a, cyclicity: cy_a },
                    ),
                    Option::Some(
                        ConstraintModel::Sandwiched { sub: lo_b, sup: hi_b, cyclicity: cy_b },
                    ),
                ) => {
                    &&& ok
                    &&& new_m[vb] == (FreeKindModel::Linked { t: TypeModel::FreeVar { id: va } })
                    &&& constraint_of(new_m[va]) == Option::Some(ConstraintModel::Sandwiched {
                        sub: join_spec(cs, old_m, c, lo_a, lo_b, (fuel - 1) as nat),
                        sup: meet_spec(cs, old_m, c, hi_a, hi_b, (fuel - 1) as nat),
                        cyclicity: spec_combine(cy_a, cy_b),
                    })
                    &&& lev_of(new_m[va]) == lev_of(old_m[va])
                    &&& (forall|i: int|
                        0 <= i < old_m.len() && i != va && i != vb ==> new_m[i] == old_m[i])
                },
                _ => ok && new_m == old_m.update(
                    vb,
                    FreeKindModel::Linked { t: TypeModel::FreeVar { id: va } },
                ),
            }
        }
    }
}

/// Subtype-directed unification: makes `maybe_sub` a subtype of
/// `maybe_sup`, tightening the bounds of whichever side is an unresolved
/// variable rather than resolving it, unless its bounds collapse to a
/// single type.  A bound that would structurally contain the variable
/// itself is recorded together with a cyclicity tag, never silently: on
/// success, a variable bounded by a structure containing it either
/// carries a cyclicity tag afterwards or was left exactly as it was.
/// Two sides that cannot be reconciled give a type-mismatch error.
#[verifier::rlimit(100)]
#[verifier::loop_isolation(false)]
pub fn sub_unify(
    cs: &Contexts,
    vars: &mut FreeVars,
    c: usize,
    maybe_sub: &Type,
    maybe_sup: &Type,
    fuel: usize,
) -> (r: Result<(), TyCheckError>)
    ensures
        final(vars).model().len() == old(vars).model().len(),
        r matches Result::Err(e) ==> e is TypeMismatch,
        (r is Ok && occurs_guard(
            old(vars).model(),
            maybe_sub.model(),
            maybe_sup.model(),
            fuel as nat,
        )) ==> cyclicity_recorded(old(vars).model(), final(vars).model(), maybe_sub.model()),
        (r is Ok && occurs_guard(
            old(vars).model(),
            maybe_sup.model(),
            maybe_sub.model(),
            fuel as nat,
        )) ==> cyclicity_recorded(old(vars).model(), final(vars).model(), maybe_sup.model()),
        // two plain sides only decide: success is exactly the subtype
        // relation, and nothing changes
        plain_pair(maybe_sub.model(), maybe_sup.model()) ==> (final(vars).model() == old(
            vars,
        ).model() && (r is Ok <==> subtype_spec(
            *cs,
            old(vars).model(),
            c as int,
            maybe_sub.model(),
            maybe_sup.model(),
            fuel as nat,
        ))),
        // a bounded variable above a concrete side: its lower bound is
        // raised to the join, the variable resolves when the bounds
        // collapse, and a self-containing bound is tagged
        maybe_sup.model() matches TypeModel::FreeVar { id } ==> sup_var_clause(
            *cs,
            old(vars).model(),
            final(vars).model(),
            c as int,
            maybe_sub.model(),
            id,
            r is Ok,
            fuel as nat,
        ),
        // a bounded variable below a concrete side: its upper bound is
        // lowered to the meet, dually
        maybe_sub.model() matches TypeModel::FreeVar { id } ==> sub_var_clause(
            *cs,
            old(vars).model(),
            final(vars).model(),
            c as int,
            maybe_sup.model(),
            id,
            r is Ok,
            fuel as nat,
        ),
        // two unresolved variables merge: the supertype side is linked to
        // the subtype side, whose bounds become the join and meet of both
        maybe_sub.model() matches TypeModel::FreeVar { id: va } ==> (maybe_sup.model()
            matches TypeModel::FreeVar { id: vb } ==> var_var_clause(
            *cs,
            old(vars).model(),
            final(vars).model(),
            c as int,
            va,
            vb,
            r is Ok,
            fuel as nat,
        )),
    decreases fuel,
{
    if fuel == 0 {
        return Result::Err(TyCheckError::TypeMismatch {
            expected: clone_type(maybe_sup),
            found: clone_type(maybe_sub),
            candidates: Vec::new(),
        });
    }
    proof {
        lemma_model_variants(*maybe_sub);
        lemma_model_variants(*maybe_sup);
    }
    // deref a resolved variable at either head before comparing
    if let Type::FreeVar(v) = maybe_sub {
        if *v < vars.len() && vars.is_linked(*v) {
            let target = clone_type(vars.crack(*v));
            let r = sub_unify(cs, vars, c, &target, maybe_sup, fuel - 1);
            return r;
        }
    }
    if let Type::FreeVar(v) = maybe_sup {
        if *v < vars.len() && vars.is_linked(*v) {
            let target = clone_type(vars.crack(*v));
            let r = sub_unify(cs, vars, c, maybe_sub, &target, fuel - 1);
            return r;
        }
    }
    match (maybe_sub, maybe_sup) {
        (Type::FreeVar(va), Type::FreeVar(vb)) => {
            if *va == *vb {
                return Result::Ok(());
            }
            if *va >= vars.len() || *vb >= vars.len() {
                return Result::Err(TyCheckError::TypeMismatch {
                    expected: clone_type(maybe_sup),
                    found: clone_type(maybe_sub),
                    candidates: Vec::new(),
                });
            }
            let ba = vars.get_bound_types(*va);
            let bb = vars.get_bound_types(*vb);
            match (ba, bb) {
                (Option::Some((sub_a, sup_a)), Option::Some((sub_b, sup_b))) => {
                    let cyc = vars.cyclicity(*va).combine(vars.cyclicity(*vb));
                    let new_sub = union(cs, vars, c, &sub_a, &sub_b, fuel - 1);
                    let new_sup = intersection(cs, vars, c, &sup_a, &sup_b, fuel - 1);
                    vars.update_constraint(
                        *va,
                        Constraint::Sandwiched { sub: new_sub, sup: new_sup, cyclicity: cyc },
                    );
                    let link_target = Type::FreeVar(*va);
                    vars.link(*vb, &link_target);
                    return Result::Ok(());
                },
                _ => {
                    let link_target = Type::FreeVar(*va);
                    vars.link(*vb, &link_target);
                    return Result::Ok(());
                },
            }
        },
        (Type::FreeVar(v), _) => {
            if *v >= vars.len() {
                return Result::Err(TyCheckError::TypeMismatch {
                    expected: clone_type(maybe_sup),
                    found: clone_type(maybe_sub),
                    candidates: Vec::new(),
                });
            }
            let occ = occurs(vars, *v, maybe_sup, fuel);
            match vars.get_bound_types(*v) {
                Option::Some((sub_b, sup_b)) => {
                    let cyc0 = vars.cyclicity(*v);
                    let cyc = if occ {
                        cyc0.combine(Cyclicity::Super)
                    } else {
                        cyc0
                    };
                    let new_sup = intersection(cs, vars, c, &sup_b, maybe_sup, fuel - 1);
                    if !occ && crate::ty::type_eq(&sub_b, &new_sup) {
                        vars.link(*v, &new_sup);
                        return Result::Ok(());
                    }
                    vars.update_constraint(
                        *v,
                        Constraint::Sandwiched { sub: sub_b, sup: new_sup, cyclicity: cyc },
                    );
                    return Result::Ok(());
                },
                Option::None => {
                    if occ {
                        return Result::Err(TyCheckError::TypeMismatch {
                            expected: clone_type(maybe_sup),
                            found: clone_type(maybe_sub),
                            candidates: Vec::new(),
                        });
                    }
                    vars.link(*v, maybe_sup);
                    return Result::Ok(());
                },
            }
        },
        (_, Type::FreeVar(v)) => {
            if *v >= vars.len() {
                return Result::Err(TyCheckError::TypeMismatch {
                    expected: clone_type(maybe_sup),
                    found: clone_type(maybe_sub),
                    candidates: Vec::new(),
                });
            }
            let occ = occurs(vars, *v, maybe_sub, fuel);
            match vars.get_bound_types(*v) {
                Option::Some((sub_b, sup_b)) => {
                    let cyc0 = vars.cyclicity(*v);
                    let cyc = if occ {
                        cyc0.combine(Cyclicity::Sub)
                    } else {
                        cyc0
                    };
                    let new_sub = union(cs, vars, c, &sub_b, maybe_sub, fuel - 1);
                    if !occ && crate::ty::type_eq(&new_sub, &sup_b) {
                        vars.link(*v, &new_sub);
                        return Result::Ok(());
                    }
                    vars.update_constraint(
                        *v,
                        Constraint::Sandwiched { sub: new_sub, sup: sup_b, cyclicity: cyc },
                    );
                    return Result::Ok(());
                },
                Option::None => {
                    if occ {
                        return Result::Err(TyCheckError::TypeMismatch {
                            expected: clone_type(maybe_sup),
                            found: clone_type(maybe_sub),
                            candidates: Vec::new(),
                        });
                    }
                    vars.link(*v, maybe_sub);
                    return Result::Ok(());
                },
            }
        },
        (Type::Refinement { t: base, .. }, _) => {
            let r = sub_unify(cs, vars, c, base, maybe_sup, fuel - 1);
            return r;
        },
        (_, Type::Refinement { t: base, .. }) => {
            let r = sub_unify(cs, vars, c, maybe_sub, base, fuel - 1);
            return r;
        },
        (Type::Subr(s1), Type::Subr(s2)) => {
            if !(s1.kind == s2.kind) || s1.non_default_params.len()
                != s2.non_default_params.len() {
                return Result::Err(TyCheckError::TypeMismatch {
                    expected: clone_type(maybe_sup),
                    found: clone_type(maybe_sub),
                    candidates: Vec::new(),
                });
            }
            let n = s1.non_default_params.len();
            let mut i: usize = 0;
            while i < n
                invariant
                    i <= n,
                    fuel >= 1,
                    n == s1.non_default_params@.len(),
                    n == s2.non_default_params@.len(),
                    vars.model().len() == old(vars).model().len(),
                decreases n - i,
            {
                let pa = clone_type(&s1.non_default_params[i].t);
                let pb = clone_type(&s2.non_default_params[i].t);
                match sub_unify(cs, vars, c, &pb, &pa, fuel - 1) {
                    Result::Ok(()) => {},
                    Result::Err(e) => {
                        return Result::Err(e);
                    },
                }
                i += 1;
            }
            let r = sub_unify(cs, vars, c, &s1.return_t, &s2.return_t, fuel - 1);
            return r;
        },
        (Type::Poly { name: n1, params: p1 }, Type::Poly { name: n2, params: p2 }) => {
            if !crate::ty::string_eq(n1, n2) || p1.len() != p2.len() {
                let ok = subtype_of(cs, vars, c, maybe_sub, maybe_sup, fuel);
                if ok {
                    return Result::Ok(());
                }
                let candidates = mismatch_candidates(cs, vars, c, maybe_sub, fuel);
                return Result::Err(TyCheckError::TypeMismatch {
                    expected: clone_type(maybe_sup),
                    found: clone_type(maybe_sub),
                    candidates,
                });
            }
            let n = p1.len();
            let mut i: usize = 0;
            while i < n
                invariant
                    i <= n,
                    fuel >= 1,
                    n == p1@.len() && n == p2@.len(),
                    vars.model().len() == old(vars).model().len(),
                decreases n - i,
            {
                let pa = clone_type(&p1[i]);
                let pb = clone_type(&p2[i]);
                match sub_unify(cs, vars, c, &pa, &pb, fuel - 1) {
                    Result::Ok(()) => {},
                    Result::Err(e) => {
                        return Result::Err(e);
                    },
                }
                i += 1;
            }
            return Result::Ok(());
        },
        _ => {
            let ok = subtype_of(cs, vars, c, maybe_sub, maybe_sup, fuel);
            if ok {
                return Result::Ok(());
            }
            let candidates = mismatch_candidates(cs, vars, c, maybe_sub, fuel);
            return Result::Err(TyCheckError::TypeMismatch {
                expected: clone_type(maybe_sup),
                found: clone_type(maybe_sub),
                candidates,
            });
        },
    }
}

/// Best-effort candidate suggestions for the found side of a mismatch.
fn mismatch_candidates(
    cs: &Contexts,
    vars: &FreeVars,
    c: usize,
    found: &Type,
    fuel: usize,
) -> (r: Vec<Type>) {
    if c < cs.arr.len() {
        match cs.get_candidates(vars, c, found, fuel) {
            Option::Some(cands) => cands,
            Option::None => Vec::new(),
        }
    } else {
        Vec::new()
    }
}

/// Unification in both directions: the two sides must each be a subtype
/// of the other.
pub fn reunify(
    cs: &Contexts,
    vars: &mut FreeVars,
    c: usize,
    a: &Type,
    b: &Type,
    fuel: usize,
) -> (r: Result<(), TyCheckError>)
    ensures
        final(vars).model().len() == old(vars).model().len(),
        r matches Result::Err(e) ==> e is TypeMismatch,
        // two plain sides must each lie below the other, and nothing
        // changes
        plain_pair(a.model(), b.model()) ==> (final(vars).model() == old(vars).model() && (r
            is Ok <==> (subtype_spec(*cs, old(vars).model(), c as int, a.model(), b.model(),
            fuel as nat) && subtype_spec(
            *cs,
            old(vars).model(),
            c as int,
            b.model(),
            a.model(),
            fuel as nat,
        )))),
{
    match sub_unify(cs, vars, c, a, b, fuel) {
        Result::Ok(()) => sub_unify(cs, vars, c, b, a, fuel),
        Result::Err(e) => Result::Err(e),
    }
}

/// The level marking a variable as generalized: its binding scope has
/// closed, and each use site instantiates it afresh.
pub const GENERIC_LEVEL: usize = usize::MAX;

/// Every slot the arena had keeps its state; new slots may follow.
pub open spec fn arena_extended(old_m: Seq<FreeKindModel>, new_m: Seq<FreeKindModel>) -> bool {
    old_m.len() <= new_m.len() && new_m.subrange(0, old_m.len() as int) == old_m
}

/// Every slot added beyond `old_m` is unresolved at `level`.
pub open spec fn tail_levels(old_m: Seq<FreeKindModel>, new_m: Seq<FreeKindModel>, level: nat) -> bool {
    forall|i: int|
        old_m.len() <= i < new_m.len() ==> lev_of(#[trigger] new_m[i]) == Option::Some(level)
}

/// Arena extension with fresh-slot levels composes.
pub proof fn lemma_inst_extend_trans(
    a: Seq<FreeKindModel>,
    b: Seq<FreeKindModel>,
    c: Seq<FreeKindModel>,
    level: nat,
)
    requires
        arena_extended(a, b),
        arena_extended(b, c),
        tail_levels(a, b, level),
        tail_levels(b, c, level),
    ensures
        arena_extended(a, c),
        tail_levels(a, c, level),
{
    assert(c.subrange(0, a.len() as int) =~= b.subrange(0, a.len() as int));
    assert forall|i: int|
        a.len() <= i < c.len() implies lev_of(#[trigger] c[i]) == Option::Some(level) by {
        if i < b.len() {
            assert(c.subrange(0, b.len() as int)[i] == c[i]);
            assert(c[i] == b[i]);
        }
    }
}

/// Arena extension is transitive.
pub proof fn lemma_arena_extended_trans(
    a: Seq<FreeKindModel>,
    b: Seq<FreeKindModel>,
    c: Seq<FreeKindModel>,
)
    requires
        arena_extended(a, b),
        arena_extended(b, c),
    ensures
        arena_extended(a, c),
{
    assert(c.subrange(0, a.len() as int) =~= b.subrange(0, a.len() as int));
}

/// The fresh variable already allocated for generalized variable `k`.
fn map_get(map: &Vec<(usize, usize)>, k: usize) -> (r: Option<usize>) {
    let n = map.len();
    let mut i: usize = 0;
    while i < n
        invariant
            i <= n,
            n == map@.len(),
        decreases n - i,
    {
        if map[i].0 == k {
            return Option::Some(map[i].1);
        }
        i += 1;
    }
    Option::None
}

/// Replaces every generalized variable occurring in `t` by a fresh
/// unresolved variable at `level`, allocating one fresh variable per
/// generalized variable: two occurrences of the same quantified
/// parameter become the same fresh variable, recorded in `map`.  No
/// existing slot changes.
#[verifier::loop_isolation(false)]
fn instantiate_t(
    vars: &mut FreeVars,
    t: &Type,
    level: usize,
    map: &mut Vec<(usize, usize)>,
    fuel: usize,
) -> (r: Type)
    ensures
        arena_extended(old(vars).model(), final(vars).model()),
        tail_levels(old(vars).model(), final(vars).model(), level as nat),
        inst_inert_spec(old(vars).model(), t.model()) ==> (r.model() == t.model()
            && final(vars).model() == old(vars).model()),
        !(r.model() is Quantified),
        // a subroutine keeps its kind, arities and parameter names
        t.model() matches TypeModel::Subr { subr } ==> (r.model() matches TypeModel::Subr {
            subr: s2,
        } && subr_shape_kept(*subr, *s2)),
    decreases fuel, *t,
{
    proof {
        crate::ty::lemma_model_variants(*t);
    }
    proof {
        assert(vars.model().subrange(0, vars.model().len() as int) =~= vars.model());
    }
    match t {
        Type::FreeVar(id) => {
            let v = *id;
            if v < vars.len() && fuel > 0 {
                let is_generic = match vars.level(v) {
                    Option::Some(l) => l == GENERIC_LEVEL,
                    Option::None => false,
                };
                if is_generic {
                    match map_get(map, v) {
                        Option::Some(nv) => Type::FreeVar(nv),
                        Option::None => {
                            let (_name, _lev, con) = vars.unwrap_unbound(v);
                            let nv = vars.new_unbound(level, Constraint::Uninited);
                            map.push((v, nv));
                            let ghost mid = vars.model();
                            proof {
                                assert(tail_levels(old(vars).model(), mid, level as nat));
                            }
                            let inst_con = match con {
                                Constraint::Sandwiched { sub, sup, cyclicity } => {
                                    let isub = instantiate_t(vars, &sub, level, map, fuel - 1);
                                    let ghost mid2 = vars.model();
                                    let isup = instantiate_t(vars, &sup, level, map, fuel - 1);
                                    proof {
                                        lemma_inst_extend_trans(mid, mid2, vars.model(), level as nat);
                                    }
                                    Constraint::Sandwiched { sub: isub, sup: isup, cyclicity }
                                },
                                Constraint::TypeOf(ty) => {
                                    let ity = instantiate_t(vars, &ty, level, map, fuel - 1);
                                    Constraint::TypeOf(ity)
                                },
                                Constraint::Uninited => Constraint::Uninited,
                            };
                            if nv < vars.len() {
                                let ghost mid3 = vars.model();
                                proof {
                                    assert(mid.subrange(0, old(vars).model().len() as int)
                                        =~= old(vars).model());
                                    assert(arena_extended(old(vars).model(), mid));
                                    assert(mid.subrange(0, mid.len() as int) =~= mid);
                                    assert(arena_extended(mid, mid3));
                                    assert(tail_levels(mid, mid3, level as nat));
                                    lemma_inst_extend_trans(old(vars).model(), mid, mid3, level as nat);
                                    assert(mid3.subrange(0, mid.len() as int) =~= mid);
                                    assert(mid3[nv as int] == mid[nv as int]);
                                    assert(lev_of(mid3[nv as int]) == Option::Some(
                                        level as nat,
                                    ));
                                }
                                vars.update_constraint(nv, inst_con);
                                proof {
                                    assert(vars.model().subrange(
                                        0,
                                        old(vars).model().len() as int,
                                    ) =~= mid3.subrange(0, old(vars).model().len() as int));
                                    assert(arena_extended(old(vars).model(), vars.model()));
                                    assert(lev_of(vars.model()[nv as int]) == Option::Some(
                                        level as nat,
                                    ));
                                    assert(tail_levels(
                                        old(vars).model(),
                                        vars.model(),
                                        level as nat,
                                    ));
                                }
                            }
                            Type::FreeVar(nv)
                        },
                    }
                } else {
                    Type::FreeVar(v)
                }
            } else {
                Type::FreeVar(v)
            }
        },
        Type::Poly { name, params } => {
            proof {
                crate::ty::lemma_poly_model(*name, *params);
            }
            let mut new_params: Vec<Type> = Vec::new();
            let n = params.len();
            let mut i: usize = 0;
            while i < n
                invariant
                    i <= n,
                    new_params@.len() == i,
                    arena_extended(old(vars).model(), vars.model()),
                    tail_levels(old(vars).model(), vars.model(), level as nat),
                    inst_inert_spec(old(vars).model(), t.model()) ==> (vars.model() == old(
                        vars,
                    ).model() && crate::ty::models_of(new_params@) == crate::ty::models_of(
                        params@,
                    ).subrange(0, i as int)),
                decreases n - i,
            {
                proof {
                    if inst_inert_spec(old(vars).model(), t.model()) {
                        lemma_inert_list_elem(
                            old(vars).model(),
                            crate::ty::models_of(params@),
                            i as int,
                        );
                    }
                }
                let ghost mid = vars.model();
                let p = instantiate_t(vars, &params[i], level, map, fuel);
                proof {
                    lemma_inst_extend_trans(old(vars).model(), mid, vars.model(), level as nat);
                }
                new_params.push(p);
                proof {
                    if inst_inert_spec(old(vars).model(), t.model()) {
                        assert(crate::ty::models_of(new_params@) =~= crate::ty::models_of(
                            params@,
                        ).subrange(0, i as int + 1));
                    }
                }
                i += 1;
            }
            let rr = Type::Poly { name: name.clone(), params: new_params };
            proof {
                match &rr {
                    Type::Poly { name: rn, params: rp } => {
                        crate::ty::lemma_poly_model(*rn, *rp);
                    },
                    _ => {},
                }
                if inst_inert_spec(old(vars).model(), t.model()) {
                    assert(crate::ty::models_of(params@).subrange(0, n as int)
                        =~= crate::ty::models_of(params@));
                }
            }
            rr
        },
        Type::Record(fields) => {
            proof {
                crate::ty::lemma_record_model(*fields);
            }
            let mut new_fields: Vec<(String, Type)> = Vec::new();
            let n = fields.len();
            let mut i: usize = 0;
            while i < n
                invariant
                    i <= n,
                    new_fields@.len() == i,
                    arena_extended(old(vars).model(), vars.model()),
                    tail_levels(old(vars).model(), vars.model(), level as nat),
                    inst_inert_spec(old(vars).model(), t.model()) ==> (vars.model() == old(
                        vars,
                    ).model() && crate::ty::field_models_of(new_fields@)
                        == crate::ty::field_models_of(fields@).subrange(0, i as int)),
                decreases n - i,
            {
                proof {
                    if inst_inert_spec(old(vars).model(), t.model()) {
                        lemma_inert_fields_elem(
                            old(vars).model(),
                            crate::ty::field_models_of(fields@),
                            i as int,
                        );
                    }
                }
                let ghost mid = vars.model();
                let ft = instantiate_t(vars, &fields[i].1, level, map, fuel);
                proof {
                    lemma_inst_extend_trans(old(vars).model(), mid, vars.model(), level as nat);
                }
                new_fields.push((fields[i].0.clone(), ft));
                proof {
                    if inst_inert_spec(old(vars).model(), t.model()) {
                        assert(crate::ty::field_models_of(new_fields@)
                            =~= crate::ty::field_models_of(fields@).subrange(0, i as int + 1));
                    }
                }
                i += 1;
            }
            let rr = Type::Record(new_fields);
            proof {
                match &rr {
                    Type::Record(rf) => {
                        crate::ty::lemma_record_model(*rf);
                    },
                    _ => {},
                }
                if inst_inert_spec(old(vars).model(), t.model()) {
                    assert(crate::ty::field_models_of(fields@).subrange(0, n as int)
                        =~= crate::ty::field_models_of(fields@));
                }
            }
            rr
        },
        Type::Ref(inner) => {
            let it = instantiate_t(vars, inner, level, map, fuel);
            Type::Ref(Box::new(it))
        },
        Type::RefMut { before, after } => {
            let ib = instantiate_t(vars, before, level, map, fuel);
            let ia = match after {
                Option::Some(a) => {
                    let ghost mid = vars.model();
                    let x = instantiate_t(vars, a, level, map, fuel);
                    proof {
                        lemma_inst_extend_trans(old(vars).model(), mid, vars.model(), level as nat);
                    }
                    Option::Some(Box::new(x))
                },
                Option::None => Option::None,
            };
            Type::RefMut { before: Box::new(ib), after: ia }
        },
        Type::Refinement { var, t: base } => {
            let ib = instantiate_t(vars, base, level, map, fuel);
            Type::Refinement { var: var.clone(), t: Box::new(ib) }
        },
        Type::And(l, r2) => {
            let il = instantiate_t(vars, l, level, map, fuel);
            let ghost mid = vars.model();
            let ir = instantiate_t(vars, r2, level, map, fuel);
            proof {
                lemma_inst_extend_trans(old(vars).model(), mid, vars.model(), level as nat);
            }
            Type::And(Box::new(il), Box::new(ir))
        },
        Type::Or(l, r2) => {
            let il = instantiate_t(vars, l, level, map, fuel);
            let ghost mid = vars.model();
            let ir = instantiate_t(vars, r2, level, map, fuel);
            proof {
                lemma_inst_extend_trans(old(vars).model(), mid, vars.model(), level as nat);
            }
            Type::Or(Box::new(il), Box::new(ir))
        },
        Type::Proj { lhs, rhs } => {
            let il = instantiate_t(vars, lhs, level, map, fuel);
            Type::Proj { lhs: Box::new(il), rhs: rhs.clone() }
        },
        Type::Quantified(inner) => {
            let it = instantiate_t(vars, inner, level, map, fuel);
            it
        },
        Type::Subr(subr) => {
            proof {
                lemma_subr_model(*subr);
                if inst_inert_spec(old(vars).model(), t.model()) {
                    assert(inert_subr_spec(old(vars).model(), subr.model()));
                    assert(inert_plist_spec(
                        old(vars).model(),
                        param_models_of(subr.non_default_params@),
                    ));
                    assert(inert_plist_spec(
                        old(vars).model(),
                        param_models_of(subr.default_params@),
                    ));
                }
                assert(param_models_of(Seq::<ParamTy>::empty()) =~= param_models_of(
                    subr.non_default_params@,
                ).subrange(0, 0));
                assert(param_models_of(Seq::<ParamTy>::empty()) =~= param_models_of(
                    subr.default_params@,
                ).subrange(0, 0));
            }
            let mut nd: Vec<ParamTy> = Vec::new();
            let n = subr.non_default_params.len();
            let mut i: usize = 0;
            while i < n
                invariant
                    i <= n,
                    nd@.len() == i,
                    arena_extended(old(vars).model(), vars.model()),
                    tail_levels(old(vars).model(), vars.model(), level as nat),
                    inst_inert_spec(old(vars).model(), t.model()) ==> (vars.model() == old(
                        vars,
                    ).model() && param_models_of(nd@) == param_models_of(
                        subr.non_default_params@,
                    ).subrange(0, i as int)),
                    forall|j: int|
                        0 <= j < i ==> (#[trigger] param_models_of(nd@)[j]).name
                            == subr.model().non_default_params[j].name && ((param_models_of(
                            nd@,
                        )[j].default_t is Some) <==> (
                        subr.model().non_default_params[j].default_t is Some)),
                decreases n - i,
            {
                proof {
                    if inst_inert_spec(old(vars).model(), t.model()) {
                        lemma_inert_plist_elem(
                            old(vars).model(),
                            param_models_of(subr.non_default_params@),
                            i as int,
                        );
                    }
                }
                let ghost mid = vars.model();
                let p = instantiate_param(vars, &subr.non_default_params[i], level, map, fuel);
                proof {
                    lemma_inst_extend_trans(old(vars).model(), mid, vars.model(), level as nat);
                }
                let ghost nd_pre = nd@;
                nd.push(p);
                proof {
                    if inst_inert_spec(old(vars).model(), t.model()) {
                        assert(param_models_of(nd@) =~= param_models_of(
                            subr.non_default_params@,
                        ).subrange(0, i as int + 1));
                    }
                    assert forall|j: int|
                        0 <= j < i + 1 implies (#[trigger] param_models_of(nd@)[j]).name
                            == subr.model().non_default_params[j].name && ((param_models_of(
                            nd@,
                        )[j].default_t is Some) <==> (
                        subr.model().non_default_params[j].default_t is Some)) by {
                        if j < i {
                            assert(nd@[j] == nd_pre[j]);
                            assert(param_models_of(nd@)[j] == param_models_of(nd_pre)[j]);
                        } else {
                            assert(param_models_of(nd@)[j] == p.model());
                            assert(subr.non_default_params@[j].model()
                                == subr.model().non_default_params[j]);
                        }
                    }
                }
                i += 1;
            }
            let vp = match &subr.var_params {
                Option::Some(p) => {
                    let ghost mid = vars.model();
                    let x = instantiate_param(vars, p, level, map, fuel);
                    proof {
                        lemma_inst_extend_trans(old(vars).model(), mid, vars.model(), level as nat);
                    }
                    Option::Some(Box::new(x))
                },
                Option::None => Option::None,
            };
            let mut dp: Vec<ParamTy> = Vec::new();
            let nd2 = subr.default_params.len();
            let mut j: usize = 0;
            while j < nd2
                invariant
                    j <= nd2,
                    dp@.len() == j,
                    arena_extended(old(vars).model(), vars.model()),
                    tail_levels(old(vars).model(), vars.model(), level as nat),
                    inst_inert_spec(old(vars).model(), t.model()) ==> (vars.model() == old(
                        vars,
                    ).model() && param_models_of(dp@) == param_models_of(
                        subr.default_params@,
                    ).subrange(0, j as int)),
                    forall|k2: int|
                        0 <= k2 < j ==> (#[trigger] param_models_of(dp@)[k2]).name
                            == subr.model().default_params[k2].name && ((param_models_of(
                            dp@,
                        )[k2].default_t is Some) <==> (subr.model().default_params[k2].default_t
                            is Some)),
                decreases nd2 - j,
            {
                proof {
                    if inst_inert_spec(old(vars).model(), t.model()) {
                        lemma_inert_plist_elem(
                            old(vars).model(),
                            param_models_of(subr.default_params@),
                            j as int,
                        );
                    }
                }
                let ghost mid = vars.model();
                let p = instantiate_param(vars, &subr.default_params[j], level, map, fuel);
                proof {
                    lemma_inst_extend_trans(old(vars).model(), mid, vars.model(), level as nat);
                }
                let ghost dp_pre = dp@;
                dp.push(p);
                proof {
                    if inst_inert_spec(old(vars).model(), t.model()) {
                        assert(param_models_of(dp@) =~= param_models_of(
                            subr.default_params@,
                        ).subrange(0, j as int + 1));
                    }
                    assert forall|k2: int|
                        0 <= k2 < j + 1 implies (#[trigger] param_models_of(dp@)[k2]).name
                            == subr.model().default_params[k2].name && ((param_models_of(
                            dp@,
                        )[k2].default_t is Some) <==> (subr.model().default_params[k2].default_t
                            is Some)) by {
                        if k2 < j {
                            assert(dp@[k2] == dp_pre[k2]);
                            assert(param_models_of(dp@)[k2] == param_models_of(dp_pre)[k2]);
                        } else {
                            assert(param_models_of(dp@)[k2] == p.model());
                            assert(subr.default_params@[k2].model()
                                == subr.model().default_params[k2]);
                        }
                    }
                }
                j += 1;
            }
            let ghost mid = vars.model();
            let rt = instantiate_t(vars, &subr.return_t, level, map, fuel);
            proof {
                lemma_inst_extend_trans(old(vars).model(), mid, vars.model(), level as nat);
            }
            let rr = Type::Subr(SubrType {
                kind: subr.kind,
                non_default_params: nd,
                var_params: vp,
                default_params: dp,
                return_t: Box::new(rt),
            });
            proof {
                match &rr {
                    Type::Subr(rs) => {
                        lemma_subr_model(*rs);
                    },
                    _ => {},
                }
                if inst_inert_spec(old(vars).model(), t.model()) {
                    assert(param_models_of(subr.non_default_params@).subrange(0, n as int)
                        =~= param_models_of(subr.non_default_params@));
                    assert(param_models_of(subr.default_params@).subrange(0, nd2 as int)
                        =~= param_models_of(subr.default_params@));
                }
            }
            rr
        },
        other => clone_type(other),
    }
}

/// Instantiates one parameter descriptor.
fn instantiate_param(
    vars: &mut FreeVars,
    p: &ParamTy,
    level: usize,
    map: &mut Vec<(usize, usize)>,
    fuel: usize,
) -> (r: ParamTy)
    ensures
        arena_extended(old(vars).model(), final(vars).model()),
        tail_levels(old(vars).model(), final(vars).model(), level as nat),
        inert_param_spec(old(vars).model(), p.model()) ==> (r.model() == p.model()
            && final(vars).model() == old(vars).model()),
        r.model().name == p.model().name,
        (r.model().default_t is Some) <==> (p.model().default_t is Some),
    decreases fuel, *p,
{
    let it = instantiate_t(vars, &p.t, level, map, fuel);
    let idt = match &p.default_t {
        Option::Some(d) => {
            let ghost mid = vars.model();
            let x = instantiate_t(vars, d, level, map, fuel);
            proof {
                lemma_inst_extend_trans(old(vars).model(), mid, vars.model(), level as nat);
            }
            Option::Some(x)
        },
        Option::None => Option::None,
    };
    ParamTy {
        name: match &p.name {
            Option::Some(n) => Option::Some(n.clone()),
            Option::None => Option::None,
        },
        t: it,
        default_t: idt,
    }
}

/// Whether instantiation leaves `t` exactly as it is: no quantifier
/// node anywhere, and no variable whose slot records the generalization
/// level.
pub open spec fn inst_inert_spec(m: Seq<FreeKindModel>, t: TypeModel) -> bool
    decreases t,
{
    match t {
        TypeModel::FreeVar { id } => !(0 <= id < m.len() && lev_of(m[id]) == Option::Some(
            GENERIC_LEVEL as nat,
        )),
        TypeModel::Quantified { .. } => false,
        TypeModel::Poly { params, .. } => inert_list_spec(m, params),
        TypeModel::Record { fields } => inert_fields_spec(m, fields),
        TypeModel::Ref { t: inner } => inst_inert_spec(m, *inner),
        TypeModel::RefMut { before, after } => inst_inert_spec(m, *before) && (match after {
            Option::Some(a) => inst_inert_spec(m, *a),
            Option::None => true,
        }),
        TypeModel::Refinement { t: base, .. } => inst_inert_spec(m, *base),
        TypeModel::And { lhs, rhs } => inst_inert_spec(m, *lhs) && inst_inert_spec(m, *rhs),
        TypeModel::Or { lhs, rhs } => inst_inert_spec(m, *lhs) && inst_inert_spec(m, *rhs),
        TypeModel::Proj { lhs, .. } => inst_inert_spec(m, *lhs),
        TypeModel::Subr { subr } => inert_subr_spec(m, *subr),
        _ => true,
    }
}

/// Whether instantiation leaves every type of the list as it is.
pub open spec fn inert_list_spec(m: Seq<FreeKindModel>, ts: Seq<TypeModel>) -> bool
    decreases ts, 0nat,
{
    if ts.len() == 0 {
        true
    } else {
        inst_inert_spec(m, ts[0]) && inert_list_spec(m, ts.subrange(1, ts.len() as int))
    }
}

/// Whether instantiation leaves every field type as it is.
pub open spec fn inert_fields_spec(
    m: Seq<FreeKindModel>,
    fs: Seq<(Seq<char>, TypeModel)>,
) -> bool
    decreases fs, 0nat,
{
    if fs.len() == 0 {
        true
    } else {
        inst_inert_spec(m, fs[0].1) && inert_fields_spec(m, fs.subrange(1, fs.len() as int))
    }
}

/// Whether instantiation leaves a parameter as it is.
pub open spec fn inert_param_spec(m: Seq<FreeKindModel>, p: crate::ty::ParamModel) -> bool
    decreases p,
{
    inst_inert_spec(m, *p.t) && (match p.default_t {
        Option::Some(d) => inst_inert_spec(m, *d),
        Option::None => true,
    })
}

/// Whether instantiation leaves every parameter of the list as it is.
pub open spec fn inert_plist_spec(
    m: Seq<FreeKindModel>,
    ps: Seq<crate::ty::ParamModel>,
) -> bool
    decreases ps, 0nat,
{
    if ps.len() == 0 {
        true
    } else {
        inert_param_spec(m, ps[0]) && inert_plist_spec(m, ps.subrange(1, ps.len() as int))
    }
}

/// Whether instantiation leaves a subroutine type as it is.
pub open spec fn inert_subr_spec(m: Seq<FreeKindModel>, s: crate::ty::SubrModel) -> bool
    decreases s,
{
    &&& inert_plist_spec(m, s.non_default_params)
    &&& (match s.var_params {
        Option::Some(p) => inert_param_spec(m, *p),
        Option::None => true,
    })
    &&& inert_plist_spec(m, s.default_params)
    &&& inst_inert_spec(m, *s.return_t)
}

/// Whether `s2` is `s1` with only the parameter and return types
/// rewritten: the kind, the arities, the variadic presence and every
/// parameter's name and default-presence are kept.
pub open spec fn subr_shape_kept(s1: crate::ty::SubrModel, s2: crate::ty::SubrModel) -> bool {
    &&& s2.kind == s1.kind
    &&& s2.non_default_params.len() == s1.non_default_params.len()
    &&& s2.default_params.len() == s1.default_params.len()
    &&& (s2.var_params is Some <==> s1.var_params is Some)
    &&& forall|j: int|
        0 <= j < s1.non_default_params.len() ==> (#[trigger] s2.non_default_params[j]).name
            == s1.non_default_params[j].name && ((s2.non_default_params[j].default_t is Some)
            <==> (s1.non_default_params[j].default_t is Some))
    &&& forall|j: int|
        0 <= j < s1.default_params.len() ==> (#[trigger] s2.default_params[j]).name
            == s1.default_params[j].name && ((s2.default_params[j].default_t is Some) <==> (
        s1.default_params[j].default_t is Some))
}

/// An inert list is inert in every element.
pub proof fn lemma_inert_list_elem(m: Seq<FreeKindModel>, ts: Seq<TypeModel>, k: int)
    requires
        inert_list_spec(m, ts),
        0 <= k < ts.len(),
    ensures
        inst_inert_spec(m, ts[k]),
    decreases k,
{
    if k > 0 {
        assert(ts.subrange(1, ts.len() as int)[k - 1] == ts[k]);
        lemma_inert_list_elem(m, ts.subrange(1, ts.len() as int), k - 1);
    }
}

/// An inert field list is inert in every field.
pub proof fn lemma_inert_fields_elem(
    m: Seq<FreeKindModel>,
    fs: Seq<(Seq<char>, TypeModel)>,
    k: int,
)
    requires
        inert_fields_spec(m, fs),
        0 <= k < fs.len(),
    ensures
        inst_inert_spec(m, fs[k].1),
    decreases k,
{
    if k > 0 {
        assert(fs.subrange(1, fs.len() as int)[k - 1] == fs[k]);
        lemma_inert_fields_elem(m, fs.subrange(1, fs.len() as int), k - 1);
    }
}

/// An inert parameter list is inert in every parameter.
pub proof fn lemma_inert_plist_elem(
    m: Seq<FreeKindModel>,
    ps: Seq<crate::ty::ParamModel>,
    k: int,
)
    requires
        inert_plist_spec(m, ps),
        0 <= k < ps.len(),
    ensures
        inert_param_spec(m, ps[k]),
    decreases k,
{
    if k > 0 {
        assert(ps.subrange(1, ps.len() as int)[k - 1] == ps[k]);
        lemma_inert_plist_elem(m, ps.subrange(1, ps.len() as int), k - 1);
    }
}

/// Instantiates a possibly quantified type for one use site: every
/// quantified parameter becomes a fresh unresolved variable at `level`,
/// structural sharing preserved, so two occurrences of one parameter
/// become the same fresh variable.  No existing slot changes.
pub fn instantiate(vars: &mut FreeVars, t: &Type, level: usize, fuel: usize) -> (r: Type)
    ensures
        arena_extended(old(vars).model(), final(vars).model()),
        // every freshly allocated variable is unresolved at the use
        // site's level
        forall|i: int|
            old(vars).model().len() <= i < final(vars).model().len() ==> crate::free::lev_of(
                #[trigger] final(vars).model()[i],
            ) == Option::Some(level as nat),
        // a type without quantified parameters is returned as it is, and
        // nothing is allocated
        inst_inert_spec(old(vars).model(), t.model()) ==> (r.model() == t.model()
            && final(vars).model() == old(vars).model()),
        // the quantifier itself is always eliminated
        !(r.model() is Quantified),
        // a quantified subroutine instantiates to a subroutine of the
        // same kind, arities and parameter names
        t.model() matches TypeModel::Quantified { t: q } ==> (*q matches TypeModel::Subr {
            subr,
        } ==> (r.model() matches TypeModel::Subr { subr: s2 } && subr_shape_kept(*subr, *s2))),
        t.model() matches TypeModel::Subr { subr } ==> (r.model() matches TypeModel::Subr {
            subr: s2,
        } && subr_shape_kept(*subr, *s2)),
{
    proof {
        crate::ty::lemma_model_variants(*t);
    }
    let mut map: Vec<(usize, usize)> = Vec::new();
    match t {
        Type::Quantified(inner) => {
            proof {
                crate::ty::lemma_model_variants(**inner);
            }
            instantiate_t(vars, inner, level, &mut map, fuel)
        },
        _ => instantiate_t(vars, t, level, &mut map, fuel),
    }
}

} // verus!
