//! Resolution and call binding: finding a name's or an attribute's type
//! across the scope chain and the nominal hierarchy, binding a call's
//! arguments against a declared signature, and ordering types by
//! specificity.

use vstd::prelude::*;
use vstd::multiset::Multiset;

use crate::context::ContextKind;
use crate::context::Contexts;
use crate::context::CtxId;
use crate::context::MethodType;
use crate::context::TraitInstance;
use crate::context::VarInfo;
use crate::context::Visibility;
use crate::context::clone_trait_instance;
use crate::context::clone_var_info;
use crate::context::key_lookup;
use crate::error::TyCheckError;
use crate::free::FreeVars;
use crate::names::contains_str;
use crate::names::edit_distance;
use crate::names::is_substring;
use crate::names::lev_dist;
use crate::solver::subtype_of;
use crate::solver::subtype_spec;
use crate::ty::ParamTy;
use crate::ty::Type;
use crate::ty::TypeModel;
use crate::ty::clone_type;
use crate::ty::lemma_subr_model;
use crate::ty::models_of;
use crate::ty::string_eq;
use crate::ty::type_eq;

verus! {

/// An already-typed expression, as the elaborator hands it over: only the
/// shape the resolution engine reads is kept.
#[derive(Debug)]
pub enum Expr {
    /// A plain identifier with its requested access visibility.
    Ident { name: String, vis: Visibility, t: Type },
    /// An attribute access `obj.name`.
    Attr { obj: Box<Expr>, name: String, t: Type },
    /// An anonymous function with its parameter list; its type is the
    /// subroutine type.
    Lambda { params: Vec<ParamTy>, t: Type },
    /// A literal of the given type.
    Lit { t: Type },
    /// Any other expression shape.
    Other { t: Type },
}

impl Expr {
    /// The expression's type.
    pub open spec fn t_spec(self) -> TypeModel {
        match self {
            Expr::Ident { t, .. } => t.model(),
            Expr::Attr { t, .. } => t.model(),
            Expr::Lambda { t, .. } => t.model(),
            Expr::Lit { t } => t.model(),
            Expr::Other { t } => t.model(),
        }
    }

    /// The expression's type, borrowed.
    pub fn ref_t(&self) -> (t: &Type)
        ensures
            t.model() == self.t_spec(),
    {
        match self {
            Expr::Ident { t, .. } => t,
            Expr::Attr { t, .. } => t,
            Expr::Lambda { t, .. } => t,
            Expr::Lit { t } => t,
            Expr::Other { t } => t,
        }
    }

    /// The expression's type, owned.
    pub fn t(&self) -> (t: Type)
        ensures
            t.model() == self.t_spec(),
    {
        clone_type(self.ref_t())
    }
}

/// The largest edit distance at which one name still suggests another.
pub open spec fn similar_threshold(len: nat) -> nat {
    len / 2
}

/// The candidate most similar to `name`: a candidate of least edit
/// distance, and only if that distance stays within the threshold for
/// `name`'s length.
#[verifier::loop_isolation(false)]
pub fn most_similar<'a>(cands: &'a Vec<String>, name: &String) -> (r: Option<&'a String>)
    requires
        name@.len() <= usize::MAX / 4,
        forall|j: int| 0 <= j < cands@.len() ==> (#[trigger] cands@[j])@.len() <= usize::MAX / 4,
    ensures
        match r {
            Option::Some(s) => (exists|j: int| 0 <= j < cands@.len() && #[trigger] cands@[j]@ == s@)
                && lev_dist(s@, name@) <= similar_threshold(name@.len()) && forall|j: int|
                0 <= j < cands@.len() ==> lev_dist((#[trigger] cands@[j])@, name@) >= lev_dist(
                    s@,
                    name@,
                ),
            Option::None => forall|j: int|
                0 <= j < cands@.len() ==> lev_dist((#[trigger] cands@[j])@, name@)
                    > similar_threshold(name@.len()),
        },
{
    let n = cands.len();
    let mut best: Option<usize> = Option::None;
    let mut best_dist: usize = 0;
    let mut i: usize = 0;
    while i < n
        invariant
            i <= n,
            match best {
                Option::Some(b) => b < i && lev_dist(cands@[b as int]@, name@) == best_dist
                    && best_dist <= similar_threshold(name@.len()) && forall|j: int|
                    0 <= j < i ==> lev_dist((#[trigger] cands@[j])@, name@) >= best_dist,
                Option::None => forall|j: int|
                    0 <= j < i ==> lev_dist((#[trigger] cands@[j])@, name@)
                        > similar_threshold(name@.len()),
            },
        decreases n - i,
    {
        let d = edit_distance(cands[i].as_str(), name.as_str());
        let threshold = name.as_str().unicode_len() / 2;
        match best {
            Option::Some(_) => {
                if d < best_dist {
                    best = Option::Some(i);
                    best_dist = d;
                }
            },
            Option::None => {
                if d <= threshold {
                    best = Option::Some(i);
                    best_dist = d;
                }
            },
        }
        i += 1;
    }
    match best {
        Option::Some(b) => Option::Some(&cands[b]),
        Option::None => Option::None,
    }
}

/// The field name most similar to `name`: a field name of least edit
/// distance within the threshold, field names beyond the machine length
/// cap left out of the running.
#[verifier::loop_isolation(false)]
pub fn most_similar_field(fields: &Vec<(String, Type)>, name: &String) -> (r: Option<String>)
    requires
        name@.len() <= usize::MAX / 8,
    ensures
        suggestion_ok(crate::ty::field_models_of(fields@), name@, r),
{
    let ghost fm = crate::ty::field_models_of(fields@);
    let n = fields.len();
    let mut best: Option<usize> = Option::None;
    let mut best_dist: usize = 0;
    let mut i: usize = 0;
    while i < n
        invariant
            i <= n,
            n == fields@.len(),
            match best {
                Option::Some(b) => b < i && fm[b as int].0.len() <= usize::MAX / 8 && lev_dist(
                    fm[b as int].0,
                    name@,
                ) == best_dist && best_dist <= similar_threshold(name@.len()) && forall|j: int|
                    0 <= j < i && (#[trigger] fm[j]).0.len() <= usize::MAX / 8 ==> lev_dist(
                        fm[j].0,
                        name@,
                    ) >= best_dist,
                Option::None => forall|j: int|
                    0 <= j < i && (#[trigger] fm[j]).0.len() <= usize::MAX / 8 ==> lev_dist(
                        fm[j].0,
                        name@,
                    ) > similar_threshold(name@.len()),
            },
        decreases n - i,
    {
        if fields[i].0.as_str().unicode_len() <= usize::MAX / 8 {
            let d = edit_distance(fields[i].0.as_str(), name.as_str());
            let threshold = name.as_str().unicode_len() / 2;
            match best {
                Option::Some(_) => {
                    if d < best_dist {
                        best = Option::Some(i);
                        best_dist = d;
                    }
                },
                Option::None => {
                    if d <= threshold {
                        best = Option::Some(i);
                        best_dist = d;
                    }
                },
            }
        }
        i += 1;
    }
    match best {
        Option::Some(b) => Option::Some(fields[b].0.clone()),
        Option::None => Option::None,
    }
}

impl Contexts {
    /// The names a scope can offer as suggestions: its named parameters
    /// and its local bindings.
    pub fn suggestion_names(&self, c: CtxId) -> (r: Vec<String>)
        requires
            c < self.arr@.len(),
    {
        let ctx = &self.arr[c];
        let mut out: Vec<String> = Vec::new();
        let np = ctx.params.len();
        let mut i: usize = 0;
        while i < np
            invariant
                i <= np,
                np == ctx.params@.len(),
            decreases np - i,
        {
            if let Option::Some(pn) = &ctx.params[i].0 {
                out.push(pn.clone());
            }
            i += 1;
        }
        let nl = ctx.locals.len();
        let mut j: usize = 0;
        while j < nl
            invariant
                j <= nl,
                nl == ctx.locals@.len(),
            decreases nl - j,
        {
            out.push(ctx.locals[j].0.clone());
            j += 1;
        }
        out
    }

    /// A best-effort similar-name suggestion for a name not found in scope
    /// `c`: a few common renamings are corrected outright, then the
    /// scope's own names are searched within the edit-distance threshold.
    pub fn get_similar_name(&self, c: CtxId, name: &String) -> (r: Option<String>)
        requires
            c < self.arr@.len(),
    {
        let lowered: [(&'static str, &'static str); 9] = [
            ("true", "True"),
            ("false", "False"),
            ("null", "None"),
            ("nil", "None"),
            ("none", "None"),
            ("int", "Int"),
            ("nat", "Nat"),
            ("str", "Str"),
            ("bool", "Bool"),
        ];
        let mut k: usize = 0;
        while k < 9
            invariant
                k <= 9,
            decreases 9 - k,
        {
            if string_eq(&String::from_str(lowered[k].0), name) {
                return Option::Some(String::from_str(lowered[k].1));
            }
            k += 1;
        }
        if name.as_str().unicode_len() > usize::MAX / 8 {
            return Option::None;
        }
        let cands = self.suggestion_names(c);
        let mut short: Vec<String> = Vec::new();
        let n = cands.len();
        let mut i: usize = 0;
        while i < n
            invariant
                i <= n,
                n == cands@.len(),
                forall|j: int|
                    0 <= j < short@.len() ==> (#[trigger] short@[j])@.len() <= usize::MAX / 4,
            decreases n - i,
        {
            if cands[i].as_str().unicode_len() <= usize::MAX / 8 {
                let s = cands[i].clone();
                short.push(s);
            }
            i += 1;
        }
        match most_similar(&short, name) {
            Option::Some(s) => Option::Some(s.clone()),
            Option::None => Option::None,
        }
    }

    /// Whether the requested access to a binding of scope `c` is allowed:
    /// the requested visibility must match the binding's, and a private
    /// binding is reachable only from the builtin root namespace, the
    /// defining scope's own namespace, or a namespace nested under it.
    pub fn validate_visibility(
        &self,
        c: CtxId,
        name: &String,
        accessor_vis: Visibility,
        vi: &VarInfo,
        namespace: &String,
    ) -> (r: Result<(), TyCheckError>)
        requires
            c < self.arr@.len(),
        ensures
            r is Ok <==> vis_ok_spec(*self, c as int, *vi, accessor_vis, namespace@),
            r matches Result::Err(e) ==> e is VisibilityViolation,
    {
        proof {
            reveal_strlit("<builtins>");
        }
        if !(accessor_vis == vi.vis) {
            return Result::Err(TyCheckError::VisibilityViolation { name: name.clone() });
        }
        if matches!(vi.vis, Visibility::Private) {
            let ctx_name = &self.arr[c].name;
            let builtins_name = String::from_str("<builtins>");
            if !string_eq(namespace, &builtins_name) && !string_eq(ctx_name, namespace)
                && !contains_str(namespace, ctx_name) {
                return Result::Err(TyCheckError::VisibilityViolation { name: name.clone() });
            }
        }
        Result::Ok(())
    }
}

/// How an identifier is being accessed: as a plain name in scope, or as
/// an attribute of an object.
#[derive(Clone, Copy, Debug, PartialEq, Eq, Structural)]
pub enum AccessKind {
    Name,
    Attr,
}

impl AccessKind {
    /// Whether this is a plain in-scope name access.
    pub fn is_local(&self) -> (r: bool)
        ensures
            r == (*self == AccessKind::Name),
    {
        matches!(self, AccessKind::Name)
    }
}

/// What a scope-chain lookup found.
pub enum LookupOutcome {
    /// A visible binding.
    Found(VarInfo),
    /// A binding the requested visibility may not reach.
    Hidden,
    /// No binding anywhere in the chain.
    Missing,
}

/// Whether the requested access to a binding of scope `c` is allowed:
/// the requested visibility must match the binding's, and a private
/// binding is reachable only when the accessing namespace is the builtin
/// root, equals the defining scope's name, or is nested under it.
pub open spec fn vis_ok_spec(
    cs: Contexts,
    c: int,
    vi: VarInfo,
    accessor_vis: Visibility,
    namespace: Seq<char>,
) -> bool {
    accessor_vis == vi.vis && (vi.vis == Visibility::Public || (namespace =~= "<builtins>"@
        || cs.arr@[c].name@ == namespace || is_substring(namespace, cs.arr@[c].name@)))
}

impl Contexts {
    /// The binding a variable lookup resolves `name` to, searching from
    /// scope `c` outward to the builtin root: the first scope defining the
    /// name wins; a visibility violation surfaces at once for an
    /// attribute access, while a plain name access keeps searching
    /// outward past a hidden binding.
    pub open spec fn rec_var_t_spec(
        self,
        c: int,
        name: Seq<char>,
        accessor_vis: Visibility,
        is_local: bool,
        namespace: Seq<char>,
        fuel: nat,
    ) -> LookupOutcome
        decreases fuel,
    {
        if fuel == 0 || !(0 <= c < self.arr@.len()) {
            LookupOutcome::Missing
        } else {
            let next = match self.next_scope(c) {
                Option::Some(o) => self.rec_var_t_spec(
                    o,
                    name,
                    accessor_vis,
                    is_local,
                    namespace,
                    (fuel - 1) as nat,
                ),
                Option::None => LookupOutcome::Missing,
            };
            match self.current_scope_var_spec(c, name, fuel) {
                Option::Some(vi) => {
                    if vis_ok_spec(self, c, vi, accessor_vis, namespace) {
                        LookupOutcome::Found(vi)
                    } else if !is_local {
                        LookupOutcome::Hidden
                    } else {
                        next
                    }
                },
                Option::None => next,
            }
        }
    }

    /// Resolves a variable name from scope `c` outward; see
    /// [`Contexts::rec_var_t_spec`].  A found binding gives its type; a
    /// hidden one a visibility error; a missing one a no-such-variable
    /// error with a best-effort suggestion.
    pub fn rec_get_var_t(
        &self,
        c: CtxId,
        name: &String,
        accessor_vis: Visibility,
        acc_kind: AccessKind,
        namespace: &String,
        fuel: usize,
    ) -> (r: Result<Type, TyCheckError>)
        requires
            c < self.arr@.len(),
        ensures
            match r {
                Result::Ok(t) => self.rec_var_t_spec(
                    c as int,
                    name@,
                    accessor_vis,
                    acc_kind == AccessKind::Name,
                    namespace@,
                    fuel as nat,
                ) matches LookupOutcome::Found(vi) && t.model() == vi.t.model(),
                Result::Err(e) => (e is VisibilityViolation && self.rec_var_t_spec(
                    c as int,
                    name@,
                    accessor_vis,
                    acc_kind == AccessKind::Name,
                    namespace@,
                    fuel as nat,
                ) is Hidden) || (e is NoSuchVariable && self.rec_var_t_spec(
                    c as int,
                    name@,
                    accessor_vis,
                    acc_kind == AccessKind::Name,
                    namespace@,
                    fuel as nat,
                ) is Missing),
            },
        decreases fuel,
    {
        if fuel == 0 {
            return Result::Err(TyCheckError::NoSuchVariable {
                name: name.clone(),
                similar: Option::None,
            });
        }
        if let Option::Some(vi) = self.get_current_scope_var(c, name, fuel) {
            match self.validate_visibility(c, name, accessor_vis, &vi, namespace) {
                Result::Ok(()) => {
                    return Result::Ok(vi.t());
                },
                Result::Err(err) => {
                    if !acc_kind.is_local() {
                        return Result::Err(err);
                    }
                },
            }
        }
        let ghost outc = self.rec_var_t_spec(
            c as int,
            name@,
            accessor_vis,
            acc_kind == AccessKind::Name,
            namespace@,
            fuel as nat,
        );
        match self.outer_or_builtins(c) {
            Option::Some(o) => {
                if o < self.arr.len() {
                    let rr = self.rec_get_var_t(o, name, accessor_vis, acc_kind, namespace, fuel - 1);
                    proof {
                        assert(outc == self.rec_var_t_spec(
                            o as int,
                            name@,
                            accessor_vis,
                            acc_kind == AccessKind::Name,
                            namespace@,
                            (fuel - 1) as nat,
                        ));
                    }
                    rr
                } else {
                    proof {
                        assert(outc is Missing);
                    }
                    Result::Err(TyCheckError::NoSuchVariable {
                        name: name.clone(),
                        similar: self.get_similar_name(c, name),
                    })
                }
            },
            Option::None => {
                proof {
                    assert(outc is Missing);
                }
                Result::Err(TyCheckError::NoSuchVariable {
                    name: name.clone(),
                    similar: self.get_similar_name(c, name),
                })
            },
        }
    }

    /// The binding a declaration lookup resolves `name` to: like
    /// [`Contexts::rec_var_t_spec`], reading only the declaration tables.
    pub open spec fn rec_decl_t_spec(
        self,
        c: int,
        name: Seq<char>,
        accessor_vis: Visibility,
        is_local: bool,
        namespace: Seq<char>,
        fuel: nat,
    ) -> LookupOutcome
        decreases fuel,
    {
        if fuel == 0 || !(0 <= c < self.arr@.len()) {
            LookupOutcome::Missing
        } else {
            let next = match self.next_scope(c) {
                Option::Some(o) => self.rec_decl_t_spec(
                    o,
                    name,
                    accessor_vis,
                    is_local,
                    namespace,
                    (fuel - 1) as nat,
                ),
                Option::None => LookupOutcome::Missing,
            };
            match key_lookup(self.arr@[c].decls@, name) {
                Option::Some(vi) => {
                    if vis_ok_spec(self, c, vi, accessor_vis, namespace) {
                        LookupOutcome::Found(vi)
                    } else if !is_local {
                        LookupOutcome::Hidden
                    } else {
                        next
                    }
                },
                Option::None => next,
            }
        }
    }

    /// Resolves a declared-but-undefined name (an interface signature)
    /// from scope `c` outward; see [`Contexts::rec_decl_t_spec`].
    pub fn rec_get_decl_t(
        &self,
        c: CtxId,
        name: &String,
        accessor_vis: Visibility,
        acc_kind: AccessKind,
        namespace: &String,
        fuel: usize,
    ) -> (r: Result<Type, TyCheckError>)
        requires
            c < self.arr@.len(),
        ensures
            match r {
                Result::Ok(t) => self.rec_decl_t_spec(
                    c as int,
                    name@,
                    accessor_vis,
                    acc_kind == AccessKind::Name,
                    namespace@,
                    fuel as nat,
                ) matches LookupOutcome::Found(vi) && t.model() == vi.t.model(),
                Result::Err(e) => (e is VisibilityViolation && self.rec_decl_t_spec(
                    c as int,
                    name@,
                    accessor_vis,
                    acc_kind == AccessKind::Name,
                    namespace@,
                    fuel as nat,
                ) is Hidden) || (e is NoSuchVariable && self.rec_decl_t_spec(
                    c as int,
                    name@,
                    accessor_vis,
                    acc_kind == AccessKind::Name,
                    namespace@,
                    fuel as nat,
                ) is Missing),
            },
        decreases fuel,
    {
        if fuel == 0 {
            return Result::Err(TyCheckError::NoSuchVariable {
                name: name.clone(),
                similar: Option::None,
            });
        }
        let found = match crate::context::alist_get(&self.arr[c].decls, name) {
            Option::Some(vi) => Option::Some(clone_var_info(vi)),
            Option::None => Option::None,
        };
        if let Option::Some(vi) = found {
            match self.validate_visibility(c, name, accessor_vis, &vi, namespace) {
                Result::Ok(()) => {
                    return Result::Ok(vi.t());
                },
                Result::Err(err) => {
                    if !acc_kind.is_local() {
                        return Result::Err(err);
                    }
                },
            }
        }
        let ghost outc = self.rec_decl_t_spec(
            c as int,
            name@,
            accessor_vis,
            acc_kind == AccessKind::Name,
            namespace@,
            fuel as nat,
        );
        match self.outer_or_builtins(c) {
            Option::Some(o) => {
                if o < self.arr.len() {
                    let rr = self.rec_get_decl_t(o, name, accessor_vis, acc_kind, namespace, fuel - 1);
                    proof {
                        assert(outc == self.rec_decl_t_spec(
                            o as int,
                            name@,
                            accessor_vis,
                            acc_kind == AccessKind::Name,
                            namespace@,
                            (fuel - 1) as nat,
                        ));
                    }
                    rr
                } else {
                    proof {
                        assert(outc is Missing);
                    }
                    Result::Err(TyCheckError::NoSuchVariable {
                        name: name.clone(),
                        similar: self.get_similar_name(c, name),
                    })
                }
            },
            Option::None => {
                proof {
                    assert(outc is Missing);
                }
                Result::Err(TyCheckError::NoSuchVariable {
                    name: name.clone(),
                    similar: self.get_similar_name(c, name),
                })
            },
        }
    }

    /// The scope a singular path denotes: an identifier names a
    /// registered type's scope; a dotted path resolves its object first
    /// and continues in the denoted scope.
    pub open spec fn singular_ctx_spec(self, c: int, e: Expr, fuel: nat) -> Option<CtxId>
        decreases e,
    {
        match e {
            Expr::Ident { name, .. } => match self.rec_type_spec(c, name@, fuel) {
                Option::Some(p) => Option::Some(p.1),
                Option::None => Option::None,
            },
            Expr::Attr { obj, name, .. } => match self.singular_ctx_spec(c, *obj, fuel) {
                Option::Some(c2) => match self.rec_type_spec(c2 as int, name@, fuel) {
                    Option::Some(p) => Option::Some(p.1),
                    Option::None => Option::None,
                },
                Option::None => Option::None,
            },
            _ => Option::None,
        }
    }

    /// Resolves the scope a singular path (a module or type-valued
    /// identifier) denotes; see [`Contexts::singular_ctx_spec`].
    pub fn get_singular_ctx(&self, c: CtxId, obj: &Expr, namespace: &String, fuel: usize) -> (r:
        Result<CtxId, TyCheckError>)
        requires
            c < self.arr@.len(),
        ensures
            match r {
                Result::Ok(cid) => self.singular_ctx_spec(c as int, *obj, fuel as nat)
                    == Option::Some(cid),
                Result::Err(e) => e is NoSuchVariable && self.singular_ctx_spec(
                    c as int,
                    *obj,
                    fuel as nat,
                ) is None,
            },
        decreases *obj,
    {
        match obj {
            Expr::Ident { name, .. } => match self.rec_get_type(c, name, fuel) {
                Option::Some((_t, cid)) => Result::Ok(cid),
                Option::None => Result::Err(TyCheckError::NoSuchVariable {
                    name: name.clone(),
                    similar: self.get_similar_name(c, name),
                }),
            },
            Expr::Attr { obj: inner, name, .. } => {
                match self.get_singular_ctx(c, inner, namespace, fuel) {
                    Result::Ok(c2) => {
                        if c2 < self.arr.len() {
                            match self.rec_get_type(c2, name, fuel) {
                                Option::Some((_t, cid)) => Result::Ok(cid),
                                Option::None => Result::Err(TyCheckError::NoSuchVariable {
                                    name: name.clone(),
                                    similar: self.get_similar_name(c, name),
                                }),
                            }
                        } else {
                            proof {
                                assert(self.rec_type_spec(c2 as int, name@, fuel as nat)
                                    is None);
                            }
                            Result::Err(TyCheckError::NoSuchVariable {
                                name: name.clone(),
                                similar: Option::None,
                            })
                        }
                    },
                    Result::Err(e) => Result::Err(e),
                }
            },
            Expr::Lambda { .. } => Result::Err(TyCheckError::NoSuchVariable {
                name: String::new(),
                similar: Option::None,
            }),
            Expr::Lit { .. } => Result::Err(TyCheckError::NoSuchVariable {
                name: String::new(),
                similar: Option::None,
            }),
            Expr::Other { .. } => Result::Err(TyCheckError::NoSuchVariable {
                name: String::new(),
                similar: Option::None,
            }),
        }
    }
}

impl Contexts {
    /// The scope registered for a type's nominal definition: resolved
    /// variables and refinements are looked through, subroutine and
    /// quantified types map to the built-in `Func`, `Proc` and
    /// `QuantifiedFunc` scopes, records to the built-in `Record` scope,
    /// named types to their registration, searched outward from scope
    /// `c`.
    pub open spec fn nominal_ctx_spec(
        self,
        m: Seq<crate::free::FreeKindModel>,
        c: int,
        t: TypeModel,
        fuel: nat,
    ) -> Option<CtxId>
        decreases fuel, t,
    {
        match t {
            TypeModel::FreeVar { id } => {
                if 0 <= id < m.len() && fuel > 0 {
                    match crate::free::linked_target(m[id]) {
                        Option::Some(target) => self.nominal_ctx_spec(
                            m,
                            c,
                            target,
                            (fuel - 1) as nat,
                        ),
                        Option::None => match crate::free::constraint_of(m[id]) {
                            Option::Some(crate::free::ConstraintModel::Sandwiched {
                                sup,
                                ..
                            }) => self.nominal_ctx_spec(m, c, sup, (fuel - 1) as nat),
                            _ => Option::None,
                        },
                    }
                } else {
                    Option::None
                }
            },
            TypeModel::Refinement { t: base, .. } => self.nominal_ctx_spec(m, c, *base, fuel),
            TypeModel::Quantified { .. } => opt_ctx(
                self.rec_mono_type_spec(c, "QuantifiedFunc"@, fuel),
            ),
            TypeModel::Subr { subr } => {
                if subr.kind == crate::ty::SubrKind::Func {
                    opt_ctx(self.rec_mono_type_spec(c, "Func"@, fuel))
                } else {
                    opt_ctx(self.rec_mono_type_spec(c, "Proc"@, fuel))
                }
            },
            TypeModel::Mono { name } => opt_ctx(self.rec_mono_type_spec(c, name, fuel)),
            TypeModel::Poly { name, .. } => opt_ctx(self.rec_poly_type_spec(c, name, fuel)),
            TypeModel::Record { .. } => opt_ctx(self.rec_mono_type_spec(c, "Record"@, fuel)),
            TypeModel::Or { .. } => opt_ctx(self.rec_poly_type_spec(c, "Or"@, fuel)),
            TypeModel::Ref { t: inner } => self.nominal_ctx_spec(m, c, *inner, fuel),
            TypeModel::RefMut { before, .. } => self.nominal_ctx_spec(m, c, *before, fuel),
            TypeModel::Type => opt_ctx(self.rec_mono_type_spec(c, "Type"@, fuel)),
            TypeModel::ClassType => opt_ctx(self.rec_mono_type_spec(c, "ClassType"@, fuel)),
            TypeModel::TraitType => opt_ctx(self.rec_mono_type_spec(c, "TraitType"@, fuel)),
            _ => Option::None,
        }
    }

    /// Finds a type's nominal definition scope; see
    /// [`Contexts::nominal_ctx_spec`].
    pub fn get_nominal_type_ctx(
        &self,
        vars: &FreeVars,
        c: CtxId,
        t: &Type,
        fuel: usize,
    ) -> (r: Option<CtxId>)
        requires
            c < self.arr@.len(),
        ensures
            r == self.nominal_ctx_spec(vars.model(), c as int, t.model(), fuel as nat),
        decreases fuel, *t,
    {
        proof {
            crate::ty::lemma_model_variants(*t);
        }
        match t {
            Type::FreeVar(id) => {
                if *id < vars.len() && fuel > 0 {
                    if vars.is_linked(*id) {
                        let target = clone_type(vars.crack(*id));
                        self.get_nominal_type_ctx(vars, c, &target, fuel - 1)
                    } else {
                        match vars.get_sup(*id) {
                            Option::Some(sup) => self.get_nominal_type_ctx(
                                vars,
                                c,
                                &sup,
                                fuel - 1,
                            ),
                            Option::None => Option::None,
                        }
                    }
                } else {
                    Option::None
                }
            },
            Type::Refinement { t: base, .. } => self.get_nominal_type_ctx(vars, c, base, fuel),
            Type::Quantified(_) => {
                let name = String::from_str("QuantifiedFunc");
                match self.rec_get_mono_type(c, &name, fuel) {
                    Option::Some((_t, cid)) => Option::Some(cid),
                    Option::None => Option::None,
                }
            },
            Type::Subr(subr) => {
                let name = if matches!(subr.kind, crate::ty::SubrKind::Func) {
                    String::from_str("Func")
                } else {
                    String::from_str("Proc")
                };
                let r2 = match self.rec_get_mono_type(c, &name, fuel) {
                    Option::Some((_t, cid)) => Option::Some(cid),
                    Option::None => Option::None,
                };
                proof {
                    crate::ty::lemma_subr_model(*subr);
                    assert(r2 == self.nominal_ctx_spec(
                        vars.model(),
                        c as int,
                        t.model(),
                        fuel as nat,
                    ));
                }
                r2
            },
            Type::Mono(name) => {
                proof {
                    assert(t.model() == (TypeModel::Mono { name: name@ }));
                    assert(self.nominal_ctx_spec(vars.model(), c as int, t.model(), fuel as nat)
                        == opt_ctx(self.rec_mono_type_spec(c as int, name@, fuel as nat)));
                }
                match self.rec_get_mono_type(c, name, fuel) {
                    Option::Some((_t, cid)) => Option::Some(cid),
                    Option::None => Option::None,
                }
            },
            Type::Poly { name, .. } => match self.rec_get_poly_type(c, name, fuel) {
                Option::Some((_t, cid)) => Option::Some(cid),
                Option::None => Option::None,
            },
            Type::Record(_) => {
                let name = String::from_str("Record");
                match self.rec_get_mono_type(c, &name, fuel) {
                    Option::Some((_t, cid)) => Option::Some(cid),
                    Option::None => Option::None,
                }
            },
            Type::Or(..) => {
                let name = String::from_str("Or");
                match self.rec_get_poly_type(c, &name, fuel) {
                    Option::Some((_t, cid)) => Option::Some(cid),
                    Option::None => Option::None,
                }
            },
            Type::Ref(inner) => self.get_nominal_type_ctx(vars, c, inner, fuel),
            Type::RefMut { before, .. } => self.get_nominal_type_ctx(vars, c, before, fuel),
            Type::Type => {
                let name = String::from_str("Type");
                match self.rec_get_mono_type(c, &name, fuel) {
                    Option::Some((_t, cid)) => Option::Some(cid),
                    Option::None => Option::None,
                }
            },
            Type::ClassType => {
                let name = String::from_str("ClassType");
                match self.rec_get_mono_type(c, &name, fuel) {
                    Option::Some((_t, cid)) => Option::Some(cid),
                    Option::None => Option::None,
                }
            },
            Type::TraitType => {
                let name = String::from_str("TraitType");
                match self.rec_get_mono_type(c, &name, fuel) {
                    Option::Some((_t, cid)) => Option::Some(cid),
                    Option::None => Option::None,
                }
            },
            _ => Option::None,
        }
    }

    /// Finds a type's nominal scope and gives its index so the caller may
    /// alter it; the found scope is the same one the immutable search
    /// finds.
    pub fn get_mut_nominal_type_ctx(
        &self,
        vars: &FreeVars,
        c: CtxId,
        t: &Type,
        fuel: usize,
    ) -> (r: Option<CtxId>)
        requires
            c < self.arr@.len(),
        ensures
            r == self.nominal_ctx_spec(vars.model(), c as int, t.model(), fuel as nat),
    {
        self.get_nominal_type_ctx(vars, c, t, fuel)
    }

    /// The scopes the types of a list resolve to, those without a
    /// nominal scope passed over.
    pub open spec fn super_ctx_list_spec(
        self,
        m: Seq<crate::free::FreeKindModel>,
        c: int,
        ss: Seq<TypeModel>,
        fuel: nat,
    ) -> Seq<CtxId>
        decreases ss.len(),
    {
        if ss.len() == 0 {
            Seq::empty()
        } else {
            let rest = self.super_ctx_list_spec(m, c, ss.subrange(1, ss.len() as int), fuel);
            match self.nominal_ctx_spec(m, c, ss[0], fuel) {
                Option::Some(cid) => seq![cid] + rest,
                Option::None => rest,
            }
        }
    }

    /// The scope of a type's nominal definition followed by the scopes of
    /// its registered superclasses and supertraits, in registration
    /// order; a supertype without a nominal scope of its own is passed
    /// over.
    #[verifier::loop_isolation(false)]
    pub fn get_simple_nominal_super_type_ctxs(
        &self,
        vars: &FreeVars,
        c: CtxId,
        t: &Type,
        fuel: usize,
    ) -> (r: Option<Vec<CtxId>>)
        requires
            c < self.arr@.len(),
        ensures
            match r {
                Option::Some(v) => v@.len() >= 1 && Option::Some(v@[0])
                    == self.nominal_ctx_spec(vars.model(), c as int, t.model(), fuel as nat)
                    && (v@[0] < self.arr@.len() ==> v@ == seq![v@[0]]
                    + self.super_ctx_list_spec(
                    vars.model(),
                    c as int,
                    models_of(self.arr@[v@[0] as int].super_classes@),
                    fuel as nat,
                ) + self.super_ctx_list_spec(
                    vars.model(),
                    c as int,
                    models_of(self.arr@[v@[0] as int].super_traits@),
                    fuel as nat,
                )) && (v@[0] >= self.arr@.len() ==> v@ == seq![v@[0]]),
                Option::None => self.nominal_ctx_spec(
                    vars.model(),
                    c as int,
                    t.model(),
                    fuel as nat,
                ) is None,
            },
    {
        let cid = match self.get_nominal_type_ctx(vars, c, t, fuel) {
            Option::Some(cid) => cid,
            Option::None => {
                return Option::None;
            },
        };
        let mut out: Vec<CtxId> = Vec::new();
        out.push(cid);
        proof {
            assert(out@ =~= seq![cid]);
        }
        if cid < self.arr.len() {
            let sups_c = crate::ty::clone_type_list(&self.arr[cid].super_classes);
            let sups_t = crate::ty::clone_type_list(&self.arr[cid].super_traits);
            let ghost cm = models_of(self.arr@[cid as int].super_classes@);
            let ghost tmm = models_of(self.arr@[cid as int].super_traits@);
            proof {
                assert(models_of(sups_c@) == cm);
                assert(models_of(sups_t@) == tmm);
            }
            let n1 = sups_c.len();
            let mut i: usize = 0;
            while i < n1
                invariant
                    i <= n1,
                    out@.len() >= 1,
                    out@[0] == cid,
                    out@ == seq![cid] + self.super_ctx_list_spec(
                        vars.model(),
                        c as int,
                        cm.subrange(0, i as int),
                        fuel as nat,
                    ),
                decreases n1 - i,
            {
                proof {
                    lemma_super_ctx_list_snoc(*self, vars.model(), c as int, cm, i as int, fuel as nat);
                    assert(models_of(sups_c@)[i as int] == sups_c@[i as int].model());
                }
                if let Option::Some(sc) = self.get_nominal_type_ctx(vars, c, &sups_c[i], fuel) {
                    out.push(sc);
                }
                proof {
                    assert(out@ =~= seq![cid] + self.super_ctx_list_spec(
                        vars.model(),
                        c as int,
                        cm.subrange(0, i as int + 1),
                        fuel as nat,
                    ));
                }
                i += 1;
            }
            proof {
                assert(cm.subrange(0, n1 as int) =~= cm);
            }
            let n2 = sups_t.len();
            let mut j: usize = 0;
            while j < n2
                invariant
                    j <= n2,
                    out@.len() >= 1,
                    out@[0] == cid,
                    out@ == (seq![cid] + self.super_ctx_list_spec(
                        vars.model(),
                        c as int,
                        cm,
                        fuel as nat,
                    )) + self.super_ctx_list_spec(
                        vars.model(),
                        c as int,
                        tmm.subrange(0, j as int),
                        fuel as nat,
                    ),
                decreases n2 - j,
            {
                proof {
                    lemma_super_ctx_list_snoc(*self, vars.model(), c as int, tmm, j as int, fuel as nat);
                    assert(models_of(sups_t@)[j as int] == sups_t@[j as int].model());
                }
                if let Option::Some(sc) = self.get_nominal_type_ctx(vars, c, &sups_t[j], fuel) {
                    out.push(sc);
                }
                proof {
                    assert(out@ =~= (seq![cid] + self.super_ctx_list_spec(
                        vars.model(),
                        c as int,
                        cm,
                        fuel as nat,
                    )) + self.super_ctx_list_spec(
                        vars.model(),
                        c as int,
                        tmm.subrange(0, j as int + 1),
                        fuel as nat,
                    ));
                }
                j += 1;
            }
            proof {
                assert(tmm.subrange(0, n2 as int) =~= tmm);
                assert(out@ =~= seq![cid] + self.super_ctx_list_spec(
                    vars.model(),
                    c as int,
                    cm,
                    fuel as nat,
                ) + self.super_ctx_list_spec(vars.model(), c as int, tmm, fuel as nat));
            }
        }
        Option::Some(out)
    }

    /// The scopes a supertype search visits for a type, most specific
    /// first: the type's own scope and its supertypes' scopes, resolved
    /// variables looked through, an intersection contributing both
    /// sides, and a union only what its branches agree on.
    pub fn get_nominal_super_type_ctxs(
        &self,
        vars: &FreeVars,
        c: CtxId,
        t: &Type,
        fuel: usize,
    ) -> (r: Option<Vec<CtxId>>)
        requires
            c < self.arr@.len(),
        ensures
            // for a type that is no combinator and no variable, the list
            // exists exactly when the type has a nominal scope, and that
            // scope leads it
            (!(t.model() is And) && !(t.model() is Or) && !(t.model() is FreeVar)) ==> match r {
                Option::Some(v) => v@.len() >= 1 && Option::Some(v@[0])
                    == self.nominal_ctx_spec(vars.model(), c as int, t.model(), fuel as nat),
                Option::None => self.nominal_ctx_spec(
                    vars.model(),
                    c as int,
                    t.model(),
                    fuel as nat,
                ) is None,
            },
            // an intersection of two plain sides joins the sides' scope
            // lists: the left one leads, both are present, and the list
            // exists exactly when either side has one
            t.model() matches TypeModel::And { lhs, rhs } ==> (((!(*lhs is And) && !(*lhs is Or)
                && !(*lhs is FreeVar)) && (!(*rhs is And) && !(*rhs is Or) && !(*rhs
                is FreeVar))) ==> (match (
                self.nominal_ctx_spec(vars.model(), c as int, *lhs, fuel as nat),
                self.nominal_ctx_spec(vars.model(), c as int, *rhs, fuel as nat),
            ) {
                (Option::Some(lc), Option::Some(rc)) => r matches Option::Some(v) && v@.len()
                    >= 2 && v@[0] == lc && v@.contains(rc),
                (Option::Some(lc), Option::None) => r matches Option::Some(v) && v@.len() >= 1
                    && v@[0] == lc,
                (Option::None, Option::Some(rc)) => r matches Option::Some(v) && v@.len() >= 1
                    && v@[0] == rc,
                (Option::None, Option::None) => r is None,
            })),
            // a union resolves only through two unresolved variables or
            // two refinements of one base
            t.model() matches TypeModel::Or { lhs, rhs } ==> ((!(*lhs is FreeVar && *rhs
                is FreeVar) && !(*lhs is Refinement && *rhs is Refinement)) ==> r is None),
            // a union of two refinements of one base is the base's scope
            // list; of two different bases, nothing
            t.model() matches TypeModel::Or { lhs, rhs } ==> (*lhs matches TypeModel::Refinement {
                t: lb,
                ..
            } ==> (*rhs matches TypeModel::Refinement { t: rb, .. } ==> ((*lb != *rb ==> r
                is None) && (*lb == *rb ==> match r {
                Option::Some(v) => v@.len() >= 1 && Option::Some(v@[0]) == self.nominal_ctx_spec(
                    vars.model(),
                    c as int,
                    *lb,
                    fuel as nat,
                ),
                Option::None => self.nominal_ctx_spec(vars.model(), c as int, *lb, fuel as nat)
                    is None,
            })))),
            // a variable out of range, out of fuel, or without an upper
            // bound resolves to nothing
            t.model() matches TypeModel::FreeVar { id } ==> ((!(0 <= id
                < vars.model().len()) || fuel == 0) ==> r is None),
        decreases fuel, *t,
    {
        proof {
            crate::ty::lemma_model_variants(*t);
        }
        match t {
            Type::FreeVar(id) => {
                if *id < vars.len() && fuel > 0 {
                    if vars.is_linked(*id) {
                        let target = clone_type(vars.crack(*id));
                        self.get_nominal_super_type_ctxs(vars, c, &target, fuel - 1)
                    } else {
                        match vars.get_sup(*id) {
                            Option::Some(sup) => self.get_nominal_super_type_ctxs(
                                vars,
                                c,
                                &sup,
                                fuel - 1,
                            ),
                            Option::None => Option::None,
                        }
                    }
                } else {
                    Option::None
                }
            },
            Type::And(l, r2) => {
                proof {
                    assert(t.model() == (TypeModel::And {
                        lhs: Box::new(l.model()),
                        rhs: Box::new(r2.model()),
                    }));
                }
                let lv = self.get_nominal_super_type_ctxs(vars, c, l, fuel);
                let rv = self.get_nominal_super_type_ctxs(vars, c, r2, fuel);
                match (lv, rv) {
                    (Option::Some(mut a), Option::Some(mut b)) => {
                        let ghost a_pre = a@;
                        let ghost b_pre = b@;
                        a.append(&mut b);
                        proof {
                            assert(a@ == a_pre + b_pre);
                            if b_pre.len() > 0 {
                                assert(a@[a_pre.len() as int] == b_pre[0]);
                                assert(a@.contains(b_pre[0]));
                            }
                        }
                        Option::Some(a)
                    },
                    (Option::Some(a), Option::None) => Option::Some(a),
                    (Option::None, Option::Some(b)) => Option::Some(b),
                    (Option::None, Option::None) => Option::None,
                }
            },
            Type::Or(l, r2) => {
                proof {
                    assert(t.model() == (TypeModel::Or {
                        lhs: Box::new((**l).model()),
                        rhs: Box::new((**r2).model()),
                    }));
                    crate::ty::lemma_model_variants(**l);
                    crate::ty::lemma_model_variants(**r2);
                }
                match (&**l, &**r2) {
                    (Type::FreeVar(lv), Type::FreeVar(rv)) => {
                        // both branches unresolved: the scopes of the
                        // union of their upper bounds
                        if *lv < vars.len() && *rv < vars.len() && fuel > 0
                            && !vars.is_linked(*lv) && !vars.is_linked(*rv) {
                            match (vars.get_sup(*lv), vars.get_sup(*rv)) {
                                (Option::Some(ls), Option::Some(rs)) => {
                                    let u = crate::solver::union(self, vars, c, &ls, &rs, fuel);
                                    self.get_nominal_super_type_ctxs(vars, c, &u, fuel - 1)
                                },
                                _ => Option::None,
                            }
                        } else {
                            Option::None
                        }
                    },
                    (Type::Refinement { t: lt, .. }, Type::Refinement { t: rt, .. }) => {
                        if type_eq(lt, rt) {
                            self.get_simple_nominal_super_type_ctxs(vars, c, lt, fuel)
                        } else {
                            Option::None
                        }
                    },
                    _ => Option::None,
                }
            },
            _ => self.get_simple_nominal_super_type_ctxs(vars, c, t, fuel),
        }
    }
}

/// The scope index of a found type-table entry.
pub open spec fn opt_ctx(e: Option<(Type, CtxId)>) -> Option<CtxId> {
    match e {
        Option::Some(p) => Option::Some(p.1),
        Option::None => Option::None,
    }
}

/// The implementation records stored under `name` in one scope's index.
pub open spec fn impls_filter(
    s: Seq<(String, TraitInstance)>,
    name: Seq<char>,
) -> Seq<TraitInstance>
    decreases s.len(),
{
    if s.len() == 0 {
        Seq::empty()
    } else {
        let rest = impls_filter(s.subrange(1, s.len() as int), name);
        if s[0].0@ == name {
            seq![s[0].1] + rest
        } else {
            rest
        }
    }
}

/// The models of trait-implementation records, in order.
pub open spec fn ti_models(s: Seq<TraitInstance>) -> Seq<(TypeModel, TypeModel)> {
    Seq::new(s.len(), |i: int| (s[i].sub_type.model(), s[i].sup_trait.model()))
}

/// The records one implementation contributes when merged against a
/// set: for every record of the set with the same implementing type,
/// that type with the meet of the two traits.
pub open spec fn merge_one_spec(
    cs: Contexts,
    m: Seq<crate::free::FreeKindModel>,
    c: int,
    l: (TypeModel, TypeModel),
    rs: Seq<(TypeModel, TypeModel)>,
    fuel: nat,
) -> Seq<(TypeModel, TypeModel)>
    decreases rs.len(),
{
    if rs.len() == 0 {
        Seq::empty()
    } else {
        let rest = merge_one_spec(cs, m, c, l, rs.subrange(1, rs.len() as int), fuel);
        if rs[0].0 == l.0 {
            seq![(l.0, crate::solver::meet_spec(cs, m, c, l.1, rs[0].1, fuel))] + rest
        } else {
            rest
        }
    }
}

/// The pairwise merge of two implementation sets over their implementing
/// types.
pub open spec fn impls_merge_spec(
    cs: Contexts,
    m: Seq<crate::free::FreeKindModel>,
    c: int,
    ls: Seq<(TypeModel, TypeModel)>,
    rs: Seq<(TypeModel, TypeModel)>,
    fuel: nat,
) -> Seq<(TypeModel, TypeModel)>
    decreases ls.len(),
{
    if ls.len() == 0 {
        Seq::empty()
    } else {
        merge_one_spec(cs, m, c, ls[0], rs, fuel) + impls_merge_spec(
            cs,
            m,
            c,
            ls.subrange(1, ls.len() as int),
            rs,
            fuel,
        )
    }
}

impl Contexts {
    /// The implementation records of a type, resolved through the
    /// algebraic combinators: an intersection keeps the implementing
    /// types both sides know with their traits met, a union takes both
    /// sides together, and anything else reads the accumulated index of
    /// its name.
    pub open spec fn trait_impls_model_spec(
        self,
        m: Seq<crate::free::FreeKindModel>,
        c: int,
        t: TypeModel,
        fuel: nat,
    ) -> Seq<(TypeModel, TypeModel)>
        decreases t,
    {
        match t {
            TypeModel::And { lhs, rhs } => impls_merge_spec(
                self,
                m,
                c,
                self.trait_impls_model_spec(m, c, *lhs, fuel),
                self.trait_impls_model_spec(m, c, *rhs, fuel),
                fuel,
            ),
            TypeModel::Or { lhs, rhs } => self.trait_impls_model_spec(m, c, *lhs, fuel)
                + self.trait_impls_model_spec(m, c, *rhs, fuel),
            _ => match crate::ty::local_name_spec(t) {
                Option::Some(n) => ti_models(self.impls_chain_spec(c, n, fuel)),
                Option::None => Seq::empty(),
            },
        }
    }

    /// Every implementation record of the trait named `name`, accumulated
    /// from scope `c` outward: scopes do not shadow trait
    /// implementations, they accumulate.
    pub open spec fn impls_chain_spec(self, c: int, name: Seq<char>, fuel: nat) -> Seq<
        TraitInstance,
    >
        decreases fuel,
    {
        if fuel == 0 || !(0 <= c < self.arr@.len()) {
            Seq::empty()
        } else {
            let here = impls_filter(self.arr@[c].trait_impls@, name);
            match self.next_scope(c) {
                Option::Some(o) => here + self.impls_chain_spec(o, name, (fuel - 1) as nat),
                Option::None => here,
            }
        }
    }

    /// Collects the recorded implementations of the trait `t` from scope
    /// `c` outward; see [`Contexts::impls_chain_spec`].  A type without a
    /// name has no recorded implementations.
    #[verifier::loop_isolation(false)]
    pub fn get_simple_trait_impls(&self, c: CtxId, t: &Type, fuel: usize) -> (r: Vec<
        TraitInstance,
    >)
        requires
            c < self.arr@.len(),
        ensures
            crate::ty::local_name_spec(t.model()) matches Option::Some(n) ==> ti_models(r@)
                == ti_models(self.impls_chain_spec(c as int, n, fuel as nat)),
            crate::ty::local_name_spec(t.model()) is None ==> r@.len() == 0,
    {
        let name = match crate::ty::local_name(t) {
            Option::Some(n) => n.clone(),
            Option::None => {
                return Vec::new();
            },
        };
        let mut out: Vec<TraitInstance> = Vec::new();
        let mut cur: usize = c;
        let mut budget: usize = fuel;
        let ghost whole = self.impls_chain_spec(c as int, name@, fuel as nat);
        while budget > 0
            invariant
                cur < self.arr@.len(),
                budget <= fuel,
                ti_models(whole) == ti_models(out@) + ti_models(
                    self.impls_chain_spec(cur as int, name@, budget as nat),
                ),
            decreases budget,
        {
            let ghost pre = out@;
            let ghost here = impls_filter(self.arr@[cur as int].trait_impls@, name@);
            let list = &self.arr[cur].trait_impls;
            let n = list.len();
            proof {
                assert(list@.subrange(0, n as int) =~= list@);
            }
            let mut i: usize = 0;
            while i < n
                invariant
                    i <= n,
                    ti_models(out@) == ti_models(pre) + ti_models(
                        impls_filter(list@.subrange(0, i as int), name@),
                    ),
                decreases n - i,
            {
                let ghost out_pre = out@;
                if string_eq(&list[i].0, &name) {
                    out.push(clone_trait_instance(&list[i].1));
                }
                proof {
                    lemma_impls_filter_step(list@, name@, i as int);
                    let f0 = impls_filter(list@.subrange(0, i as int), name@);
                    let f1 = impls_filter(list@.subrange(0, i as int + 1), name@);
                    if list@[i as int].0@ == name@ {
                        assert(ti_models(out@) =~= ti_models(out_pre) + ti_models(
                            seq![list@[i as int].1],
                        ));
                        lemma_ti_models_concat(f0, seq![list@[i as int].1]);
                        lemma_ti_models_concat(pre, f0);
                        lemma_ti_models_concat(pre, f1);
                        assert(f1 =~= f0 + seq![list@[i as int].1]);
                    } else {
                        assert(f1 =~= f0);
                    }
                    assert(ti_models(out@) =~= ti_models(pre) + ti_models(f1));
                }
                i += 1;
            }
            proof {
                assert(impls_filter(list@.subrange(0, n as int), name@) =~= here);
            }
            let nxt = self.outer_or_builtins(cur);
            proof {
                let chain_cur = self.impls_chain_spec(cur as int, name@, budget as nat);
                let rest = match self.next_scope(cur as int) {
                    Option::Some(o) => self.impls_chain_spec(o, name@, (budget - 1) as nat),
                    Option::None => Seq::<TraitInstance>::empty(),
                };
                assert(chain_cur =~= here + rest);
                lemma_ti_models_concat(here, rest);
            }
            match nxt {
                Option::Some(o) => {
                    if o < self.arr.len() {
                        let ghost chain_cur = self.impls_chain_spec(
                            cur as int,
                            name@,
                            budget as nat,
                        );
                        let ghost rest = self.impls_chain_spec(
                            o as int,
                            name@,
                            (budget - 1) as nat,
                        );
                        cur = o;
                        budget = budget - 1;
                        proof {
                            lemma_ti_models_concat(here, rest);
                            assert(ti_models(whole) =~= ti_models(out@) + ti_models(rest));
                        }
                    } else {
                        proof {
                            let rest = self.impls_chain_spec(
                                o as int,
                                name@,
                                (budget - 1) as nat,
                            );
                            assert(rest =~= Seq::<TraitInstance>::empty());
                            lemma_ti_models_concat(here, rest);
                            assert(ti_models(whole) =~= ti_models(out@));
                        }
                        return out;
                    }
                },
                Option::None => {
                    proof {
                        let rest = Seq::<TraitInstance>::empty();
                        lemma_ti_models_concat(here, rest);
                        assert(self.impls_chain_spec(cur as int, name@, budget as nat)
                            =~= here);
                        assert(ti_models(whole) =~= ti_models(out@));
                    }
                    return out;
                },
            }
        }
        proof {
            assert(ti_models(whole) =~= ti_models(out@));
        }
        out
    }

    /// The recorded implementations of `t`, resolved through algebraic
    /// combinators: an intersection keeps the implementing types both
    /// sides know, joining their traits; a union takes both sides'
    /// records together; anything else reads the accumulated index.
    #[verifier::loop_isolation(false)]
    pub fn get_trait_impls(
        &self,
        vars: &FreeVars,
        c: CtxId,
        t: &Type,
        fuel: usize,
    ) -> (r: Vec<TraitInstance>)
        requires
            c < self.arr@.len(),
        ensures
            ti_models(r@) == self.trait_impls_model_spec(
                vars.model(),
                c as int,
                t.model(),
                fuel as nat,
            ),
        decreases *t,
    {
        proof {
            crate::ty::lemma_model_variants(*t);
        }
        match t {
            Type::And(l, r2) => {
                let li = self.get_trait_impls(vars, c, l, fuel);
                let ri = self.get_trait_impls(vars, c, r2, fuel);
                let ghost lm = ti_models(li@);
                let ghost rm = ti_models(ri@);
                let mut out: Vec<TraitInstance> = Vec::new();
                let n = li.len();
                proof {
                    assert(ti_models(out@) =~= impls_merge_spec(
                        *self,
                        vars.model(),
                        c as int,
                        lm.subrange(0, 0),
                        rm,
                        fuel as nat,
                    ));
                }
                let mut i: usize = 0;
                while i < n
                    invariant
                        i <= n,
                        n == li@.len(),
                        c < self.arr@.len(),
                        ti_models(out@) == impls_merge_spec(
                            *self,
                            vars.model(),
                            c as int,
                            lm.subrange(0, i as int),
                            rm,
                            fuel as nat,
                        ),
                    decreases n - i,
                {
                    let ghost row0 = out@;
                    let m = ri.len();
                    proof {
                        assert(rm.subrange(0, 0) =~= Seq::<(TypeModel, TypeModel)>::empty());
                        assert(ti_models(out@) =~= ti_models(row0) + merge_one_spec(
                            *self,
                            vars.model(),
                            c as int,
                            lm[i as int],
                            rm.subrange(0, 0),
                            fuel as nat,
                        ));
                    }
                    let mut j: usize = 0;
                    while j < m
                        invariant
                            j <= m,
                            m == ri@.len(),
                            i < n,
                            n == li@.len(),
                            c < self.arr@.len(),
                            ti_models(out@) == ti_models(row0) + merge_one_spec(
                                *self,
                                vars.model(),
                                c as int,
                                lm[i as int],
                                rm.subrange(0, j as int),
                                fuel as nat,
                            ),
                        decreases m - j,
                    {
                        let ghost pre = out@;
                        if type_eq(&li[i].sub_type, &ri[j].sub_type) {
                            let joined = crate::solver::intersection(
                                self,
                                vars,
                                c,
                                &li[i].sup_trait,
                                &ri[j].sup_trait,
                                fuel,
                            );
                            out.push(TraitInstance {
                                sub_type: clone_type(&li[i].sub_type),
                                sup_trait: joined,
                            });
                            proof {
                                assert(ti_models(out@) =~= ti_models(pre) + seq![
                                    (
                                        lm[i as int].0,
                                        crate::solver::meet_spec(
                                            *self,
                                            vars.model(),
                                            c as int,
                                            lm[i as int].1,
                                            rm[j as int].1,
                                            fuel as nat,
                                        ),
                                    ),
                                ]);
                            }
                        } else {
                            proof {
                                assert(lm[i as int].0 != rm[j as int].0);
                            }
                        }
                        proof {
                            lemma_merge_one_snoc(
                                *self,
                                vars.model(),
                                c as int,
                                lm[i as int],
                                rm,
                                j as int,
                                fuel as nat,
                            );
                            assert(ti_models(out@) =~= ti_models(row0) + merge_one_spec(
                                *self,
                                vars.model(),
                                c as int,
                                lm[i as int],
                                rm.subrange(0, j as int + 1),
                                fuel as nat,
                            ));
                        }
                        j += 1;
                    }
                    proof {
                        assert(rm.subrange(0, m as int) =~= rm);
                        lemma_impls_merge_snoc(
                            *self,
                            vars.model(),
                            c as int,
                            lm,
                            rm,
                            i as int,
                            fuel as nat,
                        );
                        assert(ti_models(out@) =~= impls_merge_spec(
                            *self,
                            vars.model(),
                            c as int,
                            lm.subrange(0, i as int + 1),
                            rm,
                            fuel as nat,
                        ));
                    }
                    i += 1;
                }
                proof {
                    assert(lm.subrange(0, n as int) =~= lm);
                }
                out
            },
            Type::Or(l, r2) => {
                let mut li = self.get_trait_impls(vars, c, l, fuel);
                let mut ri = self.get_trait_impls(vars, c, r2, fuel);
                let ghost lv = li@;
                let ghost rv = ri@;
                li.append(&mut ri);
                proof {
                    assert(li@ == lv + rv);
                    lemma_ti_models_concat(lv, rv);
                }
                li
            },
            _ => self.get_simple_trait_impls(c, t, fuel),
        }
    }
}

/// Extending the set prefix by one record appends that pair's merge
/// contribution.
pub proof fn lemma_merge_one_snoc(
    cs: Contexts,
    m: Seq<crate::free::FreeKindModel>,
    c: int,
    l: (TypeModel, TypeModel),
    rs: Seq<(TypeModel, TypeModel)>,
    k: int,
    fuel: nat,
)
    requires
        0 <= k < rs.len(),
    ensures
        merge_one_spec(cs, m, c, l, rs.subrange(0, k + 1), fuel) == merge_one_spec(
            cs,
            m,
            c,
            l,
            rs.subrange(0, k),
            fuel,
        ) + (if rs[k].0 == l.0 {
            seq![(l.0, crate::solver::meet_spec(cs, m, c, l.1, rs[k].1, fuel))]
        } else {
            Seq::<(TypeModel, TypeModel)>::empty()
        }),
    decreases k,
{
    let s1 = rs.subrange(0, k + 1);
    let s0 = rs.subrange(0, k);
    if k == 0 {
        assert(s1 =~= seq![rs[0]]);
        assert(s0 =~= Seq::<(TypeModel, TypeModel)>::empty());
        assert(s1.subrange(1, 1) =~= Seq::<(TypeModel, TypeModel)>::empty());
        assert(merge_one_spec(cs, m, c, l, s1, fuel) =~= merge_one_spec(cs, m, c, l, s0, fuel)
            + (if rs[0].0 == l.0 {
            seq![(l.0, crate::solver::meet_spec(cs, m, c, l.1, rs[0].1, fuel))]
        } else {
            Seq::<(TypeModel, TypeModel)>::empty()
        }));
    } else {
        lemma_merge_one_snoc(cs, m, c, l, rs.subrange(1, rs.len() as int), k - 1, fuel);
        assert(s1[0] == rs[0]);
        assert(s0[0] == rs[0]);
        assert(s1.subrange(1, k + 1) =~= rs.subrange(1, rs.len() as int).subrange(0, k));
        assert(s0.subrange(1, k) =~= rs.subrange(1, rs.len() as int).subrange(0, k - 1));
        assert(rs.subrange(1, rs.len() as int)[k - 1] == rs[k]);
        assert(merge_one_spec(cs, m, c, l, s1, fuel) =~= merge_one_spec(cs, m, c, l, s0, fuel)
            + (if rs[k].0 == l.0 {
            seq![(l.0, crate::solver::meet_spec(cs, m, c, l.1, rs[k].1, fuel))]
        } else {
            Seq::<(TypeModel, TypeModel)>::empty()
        }));
    }
}

/// Extending the left prefix by one record appends that record's merge
/// against the whole right set.
pub proof fn lemma_impls_merge_snoc(
    cs: Contexts,
    m: Seq<crate::free::FreeKindModel>,
    c: int,
    ls: Seq<(TypeModel, TypeModel)>,
    rs: Seq<(TypeModel, TypeModel)>,
    k: int,
    fuel: nat,
)
    requires
        0 <= k < ls.len(),
    ensures
        impls_merge_spec(cs, m, c, ls.subrange(0, k + 1), rs, fuel) == impls_merge_spec(
            cs,
            m,
            c,
            ls.subrange(0, k),
            rs,
            fuel,
        ) + merge_one_spec(cs, m, c, ls[k], rs, fuel),
    decreases k,
{
    let s1 = ls.subrange(0, k + 1);
    let s0 = ls.subrange(0, k);
    if k == 0 {
        assert(s1 =~= seq![ls[0]]);
        assert(s0 =~= Seq::<(TypeModel, TypeModel)>::empty());
        assert(s1.subrange(1, 1) =~= Seq::<(TypeModel, TypeModel)>::empty());
        assert(impls_merge_spec(cs, m, c, s1, rs, fuel) =~= impls_merge_spec(
            cs,
            m,
            c,
            s0,
            rs,
            fuel,
        ) + merge_one_spec(cs, m, c, ls[0], rs, fuel));
    } else {
        lemma_impls_merge_snoc(cs, m, c, ls.subrange(1, ls.len() as int), rs, k - 1, fuel);
        assert(s1[0] == ls[0]);
        assert(s0[0] == ls[0]);
        assert(s1.subrange(1, k + 1) =~= ls.subrange(1, ls.len() as int).subrange(0, k));
        assert(s0.subrange(1, k) =~= ls.subrange(1, ls.len() as int).subrange(0, k - 1));
        assert(ls.subrange(1, ls.len() as int)[k - 1] == ls[k]);
        assert(impls_merge_spec(cs, m, c, s1, rs, fuel) =~= impls_merge_spec(
            cs,
            m,
            c,
            s0,
            rs,
            fuel,
        ) + merge_one_spec(cs, m, c, ls[k], rs, fuel));
    }
}

/// Models distribute over concatenation of implementation lists.
pub proof fn lemma_ti_models_concat(a: Seq<TraitInstance>, b: Seq<TraitInstance>)
    ensures
        ti_models(a + b) =~= ti_models(a) + ti_models(b),
{
    assert forall|k: int| 0 <= k < a.len() + b.len() implies ti_models(a + b)[k] == (ti_models(a)
        + ti_models(b))[k] by {
        if k < a.len() {
            assert((a + b)[k] == a[k]);
        } else {
            assert((a + b)[k] == b[k - a.len()]);
        }
    }
}

/// One step of the per-scope implementation filter.
pub proof fn lemma_impls_filter_step(s: Seq<(String, TraitInstance)>, name: Seq<char>, i: int)
    requires
        0 <= i < s.len(),
    ensures
        s[i].0@ == name ==> impls_filter(s.subrange(0, i + 1), name) =~= impls_filter(
            s.subrange(0, i),
            name,
        ) + seq![s[i].1],
        s[i].0@ != name ==> impls_filter(s.subrange(0, i + 1), name) =~= impls_filter(
            s.subrange(0, i),
            name,
        ),
    decreases i,
{
    let s1 = s.subrange(0, i + 1);
    let s0 = s.subrange(0, i);
    if i == 0 {
        assert(s1 =~= seq![s[0]]);
        assert(s0 =~= Seq::<(String, TraitInstance)>::empty());
        assert(s1.subrange(1, 1) =~= Seq::<(String, TraitInstance)>::empty());
    } else {
        lemma_impls_filter_step(s.subrange(1, s.len() as int), name, i - 1);
        assert(s1[0] == s[0]);
        assert(s0[0] == s[0]);
        assert(s1.subrange(1, i + 1) =~= s.subrange(1, s.len() as int).subrange(0, i));
        assert(s0.subrange(1, i) =~= s.subrange(1, s.len() as int).subrange(0, i - 1));
        assert(s.subrange(1, s.len() as int)[i - 1] == s[i]);
    }
}

/// What looking for an attribute on a type's own structure found.
pub enum AttrLookup {
    /// The field's type.
    Found(TypeModel),
    /// The type is not attributive: the search should try other
    /// strategies.
    NotAttributive,
    /// The type is a record without that field: a hard error, carrying
    /// the fields that were searched.
    MissingField(Seq<(Seq<char>, TypeModel)>),
}

/// Whether a suggestion is sound for a missed field name: a suggested
/// name is a field name of least edit distance within the threshold; no
/// suggestion means no field name lies within it.  Field names beyond
/// the machine length cap are never suggested and not counted.
pub open spec fn suggestion_ok(
    fields: Seq<(Seq<char>, TypeModel)>,
    nm: Seq<char>,
    similar: Option<String>,
) -> bool {
    match similar {
        Option::Some(s) => {
            &&& exists|j: int|
                0 <= j < fields.len() && (#[trigger] fields[j]).0 == s@ && fields[j].0.len()
                    <= usize::MAX / 8
            &&& lev_dist(s@, nm) <= similar_threshold(nm.len())
            &&& forall|j: int|
                0 <= j < fields.len() && (#[trigger] fields[j]).0.len() <= usize::MAX / 8
                    ==> lev_dist(fields[j].0, nm) >= lev_dist(s@, nm)
        },
        Option::None => forall|j: int|
            0 <= j < fields.len() && (#[trigger] fields[j]).0.len() <= usize::MAX / 8
                ==> lev_dist(fields[j].0, nm) > similar_threshold(nm.len()),
    }
}

/// The outcome of a structural attribute lookup on `t`: resolved
/// variables, their upper bounds, references and refinements are looked
/// through; a record yields its field or a hard miss; any other type is
/// not attributive.
pub open spec fn attributive_spec(
    m: Seq<crate::free::FreeKindModel>,
    t: TypeModel,
    name: Seq<char>,
    fuel: nat,
) -> AttrLookup
    decreases fuel, t,
{
    match t {
        TypeModel::FreeVar { id } => {
            if 0 <= id < m.len() && fuel > 0 {
                match crate::free::linked_target(m[id]) {
                    Option::Some(target) => attributive_spec(m, target, name, (fuel - 1) as nat),
                    Option::None => match crate::free::constraint_of(m[id]) {
                        Option::Some(crate::free::ConstraintModel::Sandwiched { sup, .. }) => {
                            attributive_spec(m, sup, name, (fuel - 1) as nat)
                        },
                        _ => AttrLookup::NotAttributive,
                    },
                }
            } else {
                AttrLookup::NotAttributive
            }
        },
        TypeModel::Ref { t: inner } => attributive_spec(m, *inner, name, fuel),
        TypeModel::RefMut { before, .. } => attributive_spec(m, *before, name, fuel),
        TypeModel::Refinement { t: base, .. } => attributive_spec(m, *base, name, fuel),
        TypeModel::Record { fields } => match crate::solver::field_type_lookup(fields, name) {
            Option::Some(ft) => AttrLookup::Found(ft),
            Option::None => AttrLookup::MissingField(fields),
        },
        _ => AttrLookup::NotAttributive,
    }
}

impl Contexts {
    /// Looks for the attribute `name` on the structure of the type `t`
    /// itself; see [`attributive_spec`].  A record without the field
    /// gives a no-such-attribute error carrying a suggestion drawn from
    /// the record's own field names.
    #[verifier::loop_isolation(false)]
    pub fn get_attr_t_from_attributive(
        &self,
        vars: &FreeVars,
        t: &Type,
        name: &String,
        fuel: usize,
    ) -> (r: Result<Option<Type>, TyCheckError>)
        ensures
            match r {
                Result::Ok(Option::Some(ft)) => attributive_spec(
                    vars.model(),
                    t.model(),
                    name@,
                    fuel as nat,
                ) matches AttrLookup::Found(fm) && ft.model() == fm,
                Result::Ok(Option::None) => attributive_spec(
                    vars.model(),
                    t.model(),
                    name@,
                    fuel as nat,
                ) is NotAttributive,
                Result::Err(e) => (e matches TyCheckError::NoSuchAttribute {
                    name: n2,
                    similar,
                } && n2@ == name@ && (attributive_spec(vars.model(), t.model(), name@, fuel as nat)
                    matches AttrLookup::MissingField(fields) && (name@.len() <= usize::MAX / 8
                    ==> suggestion_ok(fields, name@, similar)))),
            },
        decreases fuel, *t,
    {
        proof {
            crate::ty::lemma_model_variants(*t);
        }
        match t {
            Type::FreeVar(id) => {
                if *id < vars.len() && fuel > 0 {
                    if vars.is_linked(*id) {
                        let target = clone_type(vars.crack(*id));
                        self.get_attr_t_from_attributive(vars, &target, name, fuel - 1)
                    } else {
                        match vars.get_sup(*id) {
                            Option::Some(sup) => self.get_attr_t_from_attributive(
                                vars,
                                &sup,
                                name,
                                fuel - 1,
                            ),
                            Option::None => Result::Ok(Option::None),
                        }
                    }
                } else {
                    Result::Ok(Option::None)
                }
            },
            Type::Ref(inner) => self.get_attr_t_from_attributive(vars, inner, name, fuel),
            Type::RefMut { before, .. } => self.get_attr_t_from_attributive(
                vars,
                before,
                name,
                fuel,
            ),
            Type::Refinement { t: base, .. } => self.get_attr_t_from_attributive(
                vars,
                base,
                name,
                fuel,
            ),
            Type::Record(fields) => {
                proof {
                    crate::ty::lemma_record_model(*fields);
                }
                match crate::solver::record_field_get(fields, name) {
                    Option::Some(ft) => Result::Ok(Option::Some(clone_type(ft))),
                    Option::None => {
                        let ghost fm = crate::ty::field_models_of(fields@);
                        let similar = if name.as_str().unicode_len() <= usize::MAX / 8 {
                            most_similar_field(fields, name)
                        } else {
                            Option::None
                        };
                        Result::Err(TyCheckError::NoSuchAttribute {
                            name: name.clone(),
                            similar,
                        })
                    },
                }
            },
            _ => Result::Ok(Option::None),
        }
    }

    /// A best-effort similar-name suggestion among the attributes of
    /// `t`'s nominal supertype scopes.
    pub fn get_similar_attr(
        &self,
        vars: &FreeVars,
        c: CtxId,
        t: &Type,
        name: &String,
        fuel: usize,
    ) -> (r: Option<String>)
        requires
            c < self.arr@.len(),
    {
        let ctxs = match self.get_nominal_super_type_ctxs(vars, c, t, fuel) {
            Option::Some(v) => v,
            Option::None => {
                return Option::None;
            },
        };
        let n = ctxs.len();
        let mut i: usize = 0;
        while i < n
            invariant
                i <= n,
                n == ctxs@.len(),
                c < self.arr@.len(),
            decreases n - i,
        {
            if ctxs[i] < self.arr.len() {
                if let Option::Some(s) = self.get_similar_name(ctxs[i], name) {
                    return Option::Some(s);
                }
            }
            i += 1;
        }
        Option::None
    }

    /// A best-effort similar-name suggestion within the scope a singular
    /// path denotes.
    pub fn get_similar_attr_from_singular(
        &self,
        c: CtxId,
        obj: &Expr,
        name: &String,
        fuel: usize,
    ) -> (r: Option<String>)
        requires
            c < self.arr@.len(),
    {
        let own_name = self.arr[c].name.clone();
        match self.get_singular_ctx(c, obj, &own_name, fuel) {
            Result::Ok(sc) => {
                if sc < self.arr.len() {
                    self.get_similar_name(sc, name)
                } else {
                    Option::None
                }
            },
            Result::Err(_) => Option::None,
        }
    }

    /// Resolves the attribute `name` on the object `obj`, trying in
    /// order: the structure of the object's type; the scope of a
    /// singular path the object denotes; the object's nominal supertype
    /// scopes; and the enclosing scope chain outward.  A "not found"
    /// failure at one step lets the next step try; any other failure
    /// aborts at once.  A structural hit is always the answer.
    #[verifier::loop_isolation(false)]
    pub fn rec_get_attr_t(
        &self,
        vars: &FreeVars,
        c: CtxId,
        obj: &Expr,
        name: &String,
        namespace: &String,
        fuel: usize,
    ) -> (r: Result<Type, TyCheckError>)
        requires
            c < self.arr@.len(),
        ensures
            attributive_spec(vars.model(), obj.t_spec(), name@, fuel as nat)
                matches AttrLookup::Found(fm) ==> (r matches Result::Ok(ft) && ft.model() == fm),
            attributive_spec(vars.model(), obj.t_spec(), name@, fuel as nat) is MissingField
                ==> (r matches Result::Err(e) && e is NoSuchAttribute),
            // a singular path is the second strategy: its scope's visible
            // binding answers, a hidden one is refused at once
            attributive_spec(vars.model(), obj.t_spec(), name@, fuel as nat) is NotAttributive
                ==> (self.singular_ctx_spec(c as int, *obj, fuel as nat)
                matches Option::Some(sc) ==> (sc < self.arr@.len() ==> ((self.rec_var_t_spec(
                sc as int,
                name@,
                Visibility::Public,
                false,
                namespace@,
                fuel as nat,
            ) matches LookupOutcome::Found(vi) ==> (r matches Result::Ok(tt) && tt.model()
                == vi.t.model())) && (self.rec_var_t_spec(
                sc as int,
                name@,
                Visibility::Public,
                false,
                namespace@,
                fuel as nat,
            ) is Hidden ==> (r matches Result::Err(e) && e is VisibilityViolation))))),
            // with no singular path either, the receiver type's own
            // nominal scope is walked the same way
            attributive_spec(vars.model(), obj.t_spec(), name@, fuel as nat) is NotAttributive
                ==> ((self.singular_ctx_spec(c as int, *obj, fuel as nat) is None && !(obj.t_spec()
                is And) && !(obj.t_spec() is Or) && !(obj.t_spec() is FreeVar))
                ==> (self.nominal_ctx_spec(vars.model(), c as int, obj.t_spec(), fuel as nat)
                matches Option::Some(cid) ==> (cid < self.arr@.len() ==> ((self.rec_var_t_spec(
                cid as int,
                name@,
                Visibility::Public,
                false,
                namespace@,
                fuel as nat,
            ) matches LookupOutcome::Found(vi) ==> (r matches Result::Ok(tt) && tt.model()
                == vi.t.model())) && (self.rec_var_t_spec(
                cid as int,
                name@,
                Visibility::Public,
                false,
                namespace@,
                fuel as nat,
            ) is Hidden ==> (r matches Result::Err(e) && e is VisibilityViolation)))))),
            // with every strategy exhausted and no outer scope left, the
            // attribute is missing, under its own name
            attributive_spec(vars.model(), obj.t_spec(), name@, fuel as nat) is NotAttributive
                ==> ((self.singular_ctx_spec(c as int, *obj, fuel as nat) is None && !(obj.t_spec()
                is And) && !(obj.t_spec() is Or) && !(obj.t_spec() is FreeVar)
                && self.nominal_ctx_spec(vars.model(), c as int, obj.t_spec(), fuel as nat)
                is None && (fuel == 0 || self.next_scope(c as int) is None)) ==> (r
                matches Result::Err(e) && (e matches TyCheckError::NoSuchAttribute { name: n2, .. }
                && n2@ == name@))),
        decreases fuel,
    {
        let self_t = obj.ref_t();
        match self.get_attr_t_from_attributive(vars, self_t, name, fuel) {
            Result::Ok(Option::Some(t)) => {
                return Result::Ok(t);
            },
            Result::Err(e) => {
                return Result::Err(e);
            },
            Result::Ok(Option::None) => {},
        }
        if let Result::Ok(sctx) = self.get_singular_ctx(c, obj, namespace, fuel) {
            if sctx < self.arr.len() {
                match self.rec_get_var_t(
                    sctx,
                    name,
                    Visibility::Public,
                    AccessKind::Attr,
                    namespace,
                    fuel,
                ) {
                    Result::Ok(t) => {
                        return Result::Ok(t);
                    },
                    Result::Err(e) => {
                        if !e.is_name_error() {
                            return Result::Err(e);
                        }
                    },
                }
            }
        }
        if let Option::Some(ctxs) = self.get_nominal_super_type_ctxs(vars, c, self_t, fuel) {
            let n = ctxs.len();
            let mut i: usize = 0;
            while i < n
                invariant
                    i <= n,
                    n == ctxs@.len(),
                    c < self.arr@.len(),
                    i > 0 && ctxs@[0] < self.arr@.len() ==> (!(self.rec_var_t_spec(
                        ctxs@[0] as int,
                        name@,
                        Visibility::Public,
                        false,
                        namespace@,
                        fuel as nat,
                    ) is Found) && !(self.rec_var_t_spec(
                        ctxs@[0] as int,
                        name@,
                        Visibility::Public,
                        false,
                        namespace@,
                        fuel as nat,
                    ) is Hidden)),
                decreases n - i,
            {
                if ctxs[i] < self.arr.len() {
                    match self.rec_get_var_t(
                        ctxs[i],
                        name,
                        Visibility::Public,
                        AccessKind::Attr,
                        namespace,
                        fuel,
                    ) {
                        Result::Ok(t) => {
                            return Result::Ok(t);
                        },
                        Result::Err(e) => {
                            if !e.is_name_error() {
                                return Result::Err(e);
                            }
                        },
                    }
                }
                i += 1;
            }
        }
        if fuel > 0 {
            if let Option::Some(o) = self.outer_or_builtins(c) {
                if o < self.arr.len() {
                    return self.rec_get_attr_t(vars, o, obj, name, namespace, fuel - 1);
                }
            }
        }
        Result::Err(TyCheckError::NoSuchAttribute {
            name: name.clone(),
            similar: self.get_similar_attr(vars, c, self_t, name, fuel),
        })
    }
}

/// The method records stored under `name` in one index.
pub open spec fn methods_filter(
    s: Seq<(String, MethodType)>,
    name: Seq<char>,
) -> Seq<MethodType>
    decreases s.len(),
{
    if s.len() == 0 {
        Seq::empty()
    } else {
        let rest = methods_filter(s.subrange(1, s.len() as int), name);
        if s[0].0@ == name {
            seq![s[0].1] + rest
        } else {
            rest
        }
    }
}

/// Whether every candidate record carries the same method type.
pub open spec fn candidates_agree(s: Seq<MethodType>) -> bool {
    forall|j: int|
        0 <= j < s.len() ==> (#[trigger] s[j]).method_type.model() == s[0].method_type.model()
}

/// The models of method records, in order: the defining type and the
/// method's own type.
pub open spec fn mm_models(s: Seq<MethodType>) -> Seq<(TypeModel, TypeModel)> {
    Seq::new(s.len(), |i: int| (s[i].definition_type.model(), s[i].method_type.model()))
}

/// The defining types of a method-record list, in order.
pub open spec fn defn_models(s: Seq<MethodType>) -> Seq<TypeModel> {
    Seq::new(s.len(), |i: int| s[i].definition_type.model())
}

/// Models distribute over concatenation of method lists.
pub proof fn lemma_mm_models_concat(a: Seq<MethodType>, b: Seq<MethodType>)
    ensures
        mm_models(a + b) =~= mm_models(a) + mm_models(b),
{
    assert forall|k: int| 0 <= k < a.len() + b.len() implies mm_models(a + b)[k] == (mm_models(a)
        + mm_models(b))[k] by {
        if k < a.len() {
            assert((a + b)[k] == a[k]);
        } else {
            assert((a + b)[k] == b[k - a.len()]);
        }
    }
}

/// One step of the per-scope method filter.
pub proof fn lemma_methods_filter_step(s: Seq<(String, MethodType)>, name: Seq<char>, i: int)
    requires
        0 <= i < s.len(),
    ensures
        s[i].0@ == name ==> methods_filter(s.subrange(0, i + 1), name) =~= methods_filter(
            s.subrange(0, i),
            name,
        ) + seq![s[i].1],
        s[i].0@ != name ==> methods_filter(s.subrange(0, i + 1), name) =~= methods_filter(
            s.subrange(0, i),
            name,
        ),
    decreases i,
{
    let s1 = s.subrange(0, i + 1);
    let s0 = s.subrange(0, i);
    if i == 0 {
        assert(s1 =~= seq![s[0]]);
        assert(s0 =~= Seq::<(String, MethodType)>::empty());
        assert(s1.subrange(1, 1) =~= Seq::<(String, MethodType)>::empty());
    } else {
        lemma_methods_filter_step(s.subrange(1, s.len() as int), name, i - 1);
        assert(s1[0] == s[0]);
        assert(s0[0] == s[0]);
        assert(s1.subrange(1, i + 1) =~= s.subrange(1, s.len() as int).subrange(0, i));
        assert(s0.subrange(1, i) =~= s.subrange(1, s.len() as int).subrange(0, i - 1));
        assert(s.subrange(1, s.len() as int)[i - 1] == s[i]);
    }
}

impl Contexts {
    /// The candidate definers a free-standing method name resolves to:
    /// the first scope outward whose trait index knows the name decides,
    /// else its class index, else the search continues outward.
    pub open spec fn method_candidates_spec(self, c: int, name: Seq<char>, fuel: nat) -> Seq<
        MethodType,
    >
        decreases fuel,
    {
        if fuel == 0 || !(0 <= c < self.arr@.len()) {
            Seq::empty()
        } else {
            let tr = methods_filter(self.arr@[c].method_to_traits@, name);
            if tr.len() > 0 {
                tr
            } else {
                let cl = methods_filter(self.arr@[c].method_to_classes@, name);
                if cl.len() > 0 {
                    cl
                } else {
                    match self.next_scope(c) {
                        Option::Some(o) => self.method_candidates_spec(
                            o,
                            name,
                            (fuel - 1) as nat,
                        ),
                        Option::None => Seq::empty(),
                    }
                }
            }
        }
    }
}

impl Contexts {
    /// The method records under `name` in the trait index (`traits`
    /// true) or the class index of scope `c`.
    #[verifier::loop_isolation(false)]
    fn collect_methods(&self, c: CtxId, name: &String, traits: bool) -> (r: Vec<MethodType>)
        requires
            c < self.arr@.len(),
        ensures
            traits ==> mm_models(r@) == mm_models(
                methods_filter(self.arr@[c as int].method_to_traits@, name@),
            ),
            !traits ==> mm_models(r@) == mm_models(
                methods_filter(self.arr@[c as int].method_to_classes@, name@),
            ),
    {
        let list = if traits {
            &self.arr[c].method_to_traits
        } else {
            &self.arr[c].method_to_classes
        };
        let mut out: Vec<MethodType> = Vec::new();
        let n = list.len();
        proof {
            assert(list@.subrange(0, 0) =~= Seq::<(String, MethodType)>::empty());
            assert(mm_models(out@) =~= mm_models(methods_filter(list@.subrange(0, 0), name@)));
        }
        let mut i: usize = 0;
        while i < n
            invariant
                i <= n,
                mm_models(out@) == mm_models(methods_filter(list@.subrange(0, i as int), name@)),
            decreases n - i,
        {
            let ghost pre = out@;
            if string_eq(&list[i].0, name) {
                out.push(crate::context::clone_method_type(&list[i].1));
            }
            proof {
                lemma_methods_filter_step(list@, name@, i as int);
                let f0 = methods_filter(list@.subrange(0, i as int), name@);
                let f1 = methods_filter(list@.subrange(0, i as int + 1), name@);
                if list@[i as int].0@ == name@ {
                    lemma_mm_models_concat(f0, seq![list@[i as int].1]);
                    assert(mm_models(out@) =~= mm_models(pre) + mm_models(
                        seq![list@[i as int].1],
                    ));
                }
                assert(mm_models(out@) =~= mm_models(f1));
            }
            i += 1;
        }
        proof {
            assert(list@.subrange(0, n as int) =~= list@);
        }
        out
    }

    /// Whether every record of the list carries the same method type.
    fn methods_agree(&self, ms: &Vec<MethodType>) -> (r: bool)
        requires
            ms@.len() >= 1,
        ensures
            r == forall|j: int|
                0 <= j < ms@.len() ==> (#[trigger] ms@[j]).method_type.model()
                    == ms@[0].method_type.model(),
    {
        let n = ms.len();
        let mut i: usize = 1;
        while i < n
            invariant
                1 <= i <= n,
                n == ms@.len(),
                forall|j: int|
                    0 <= j < i ==> (#[trigger] ms@[j]).method_type.model()
                        == ms@[0].method_type.model(),
            decreases n - i,
        {
            if !type_eq(&ms[i].method_type, &ms[0].method_type) {
                return false;
            }
            i += 1;
        }
        true
    }

    /// Resolves a free-standing method name through the global
    /// method-name indices, trait declarations before class definitions,
    /// searching outward: if every definer known at one step agrees on a
    /// single method type, that record is the answer; definers with
    /// structurally different types are an ambiguity error carrying the
    /// candidates' defining types.
    pub fn get_method_type_by_name(&self, c: CtxId, name: &String, fuel: usize) -> (r: Result<
        MethodType,
        TyCheckError,
    >)
        requires
            c < self.arr@.len(),
        ensures
            r matches Result::Err(e) ==> (e is AmbiguousMethod || e is NoSuchAttribute),
            self.method_candidates_spec(c as int, name@, fuel as nat).len() == 0 ==> (r
                matches Result::Err(e) && e is NoSuchAttribute),
            (self.method_candidates_spec(c as int, name@, fuel as nat).len() > 0 && candidates_agree(
                self.method_candidates_spec(c as int, name@, fuel as nat),
            )) ==> (r matches Result::Ok(mt) && mt.method_type.model()
                == self.method_candidates_spec(
                c as int,
                name@,
                fuel as nat,
            )[0].method_type.model()),
            (self.method_candidates_spec(c as int, name@, fuel as nat).len() > 0
                && !candidates_agree(self.method_candidates_spec(c as int, name@, fuel as nat)))
                ==> (r matches Result::Err(e) && (e matches TyCheckError::AmbiguousMethod {
                candidates,
            } && crate::ty::models_of(candidates@) == defn_models(
                self.method_candidates_spec(c as int, name@, fuel as nat),
            ))),
        decreases fuel,
    {
        if fuel == 0 {
            return Result::Err(TyCheckError::NoSuchAttribute {
                name: name.clone(),
                similar: Option::None,
            });
        }
        let ghost cands = self.method_candidates_spec(c as int, name@, fuel as nat);
        let trait_cands = self.collect_methods(c, name, true);
        if trait_cands.len() > 0 {
            proof {
                let tf = methods_filter(self.arr@[c as int].method_to_traits@, name@);
                assert(mm_models(trait_cands@).len() == trait_cands@.len());
                assert(tf.len() > 0);
                assert(cands == tf);
                assert forall|j: int| 0 <= j < trait_cands@.len() implies (
                #[trigger] trait_cands@[j]).method_type.model()
                    == cands[j].method_type.model() by {
                    assert(mm_models(trait_cands@)[j] == mm_models(cands)[j]);
                }
            }
            if self.methods_agree(&trait_cands) {
                proof {
                    assert forall|j: int| 0 <= j < cands.len() implies (
                    #[trigger] cands[j]).method_type.model()
                        == cands[0].method_type.model() by {
                        assert(trait_cands@[j].method_type.model()
                            == trait_cands@[0].method_type.model());
                    }
                }
                return Result::Ok(crate::context::clone_method_type(&trait_cands[0]));
            }
            proof {
                let w = choose|w: int|
                    0 <= w < trait_cands@.len() && !((#[trigger] trait_cands@[w]).method_type.model()
                        == trait_cands@[0].method_type.model());
                assert(cands[w].method_type.model() != cands[0].method_type.model());
                assert(!candidates_agree(cands));
            }
            let mut defs: Vec<Type> = Vec::new();
            let n = trait_cands.len();
            let mut i: usize = 0;
            while i < n
                invariant
                    i <= n,
                    n == trait_cands@.len(),
                    crate::ty::models_of(defs@) == defn_models(trait_cands@).subrange(0, i as int),
                decreases n - i,
            {
                let ghost defs_pre = defs@;
                defs.push(clone_type(&trait_cands[i].definition_type));
                proof {
                    assert(crate::ty::models_of(defs_pre).len() == defs_pre.len());
                    assert(defs_pre.len() == i);
                    assert forall|k: int| 0 <= k < i + 1 implies crate::ty::models_of(defs@)[k]
                        == defn_models(trait_cands@).subrange(0, i as int + 1)[k] by {
                        if k < i {
                            assert(defs@[k] == defs_pre[k]);
                            assert(crate::ty::models_of(defs_pre)[k] == defn_models(
                                trait_cands@,
                            ).subrange(0, i as int)[k]);
                        } else {
                            assert(defs@[k].model() == trait_cands@[k].definition_type.model());
                        }
                    }
                    assert(crate::ty::models_of(defs@) =~= defn_models(trait_cands@).subrange(
                        0,
                        i as int + 1,
                    ));
                }
                i += 1;
            }
            proof {
                assert(defn_models(trait_cands@).subrange(0, n as int) =~= defn_models(trait_cands@));
                assert forall|j: int| 0 <= j < cands.len() implies (
                #[trigger] defn_models(trait_cands@)[j]) == defn_models(cands)[j] by {
                    assert(mm_models(trait_cands@)[j] == mm_models(cands)[j]);
                }
                assert(defn_models(trait_cands@) =~= defn_models(cands));
            }
            return Result::Err(TyCheckError::AmbiguousMethod { candidates: defs });
        }
        let class_cands = self.collect_methods(c, name, false);
        if class_cands.len() > 0 {
            proof {
                let tf = methods_filter(self.arr@[c as int].method_to_traits@, name@);
                assert(mm_models(tf).len() == tf.len());
                assert(tf.len() == 0);
                let cf = methods_filter(self.arr@[c as int].method_to_classes@, name@);
                assert(mm_models(class_cands@).len() == class_cands@.len());
                assert(cf.len() > 0);
                assert(cands == cf);
                assert forall|j: int| 0 <= j < class_cands@.len() implies (
                #[trigger] class_cands@[j]).method_type.model()
                    == cands[j].method_type.model() by {
                    assert(mm_models(class_cands@)[j] == mm_models(cands)[j]);
                }
            }
            if self.methods_agree(&class_cands) {
                proof {
                    assert forall|j: int| 0 <= j < cands.len() implies (
                    #[trigger] cands[j]).method_type.model()
                        == cands[0].method_type.model() by {
                        assert(class_cands@[j].method_type.model()
                            == class_cands@[0].method_type.model());
                    }
                }
                return Result::Ok(crate::context::clone_method_type(&class_cands[0]));
            }
            proof {
                let w = choose|w: int|
                    0 <= w < class_cands@.len() && !((#[trigger] class_cands@[w]).method_type.model()
                        == class_cands@[0].method_type.model());
                assert(cands[w].method_type.model() != cands[0].method_type.model());
                assert(!candidates_agree(cands));
            }
            let mut defs: Vec<Type> = Vec::new();
            let n = class_cands.len();
            let mut i: usize = 0;
            while i < n
                invariant
                    i <= n,
                    n == class_cands@.len(),
                    crate::ty::models_of(defs@) == defn_models(class_cands@).subrange(0, i as int),
                decreases n - i,
            {
                let ghost defs_pre = defs@;
                defs.push(clone_type(&class_cands[i].definition_type));
                proof {
                    assert(crate::ty::models_of(defs_pre).len() == defs_pre.len());
                    assert(defs_pre.len() == i);
                    assert forall|k: int| 0 <= k < i + 1 implies crate::ty::models_of(defs@)[k]
                        == defn_models(class_cands@).subrange(0, i as int + 1)[k] by {
                        if k < i {
                            assert(defs@[k] == defs_pre[k]);
                            assert(crate::ty::models_of(defs_pre)[k] == defn_models(
                                class_cands@,
                            ).subrange(0, i as int)[k]);
                        } else {
                            assert(defs@[k].model() == class_cands@[k].definition_type.model());
                        }
                    }
                    assert(crate::ty::models_of(defs@) =~= defn_models(class_cands@).subrange(
                        0,
                        i as int + 1,
                    ));
                }
                i += 1;
            }
            proof {
                assert(defn_models(class_cands@).subrange(0, n as int) =~= defn_models(class_cands@));
                assert forall|j: int| 0 <= j < cands.len() implies (
                #[trigger] defn_models(class_cands@)[j]) == defn_models(cands)[j] by {
                    assert(mm_models(class_cands@)[j] == mm_models(cands)[j]);
                }
                assert(defn_models(class_cands@) =~= defn_models(cands));
            }
            return Result::Err(TyCheckError::AmbiguousMethod { candidates: defs });
        }
        proof {
            let tf = methods_filter(self.arr@[c as int].method_to_traits@, name@);
            let cf = methods_filter(self.arr@[c as int].method_to_classes@, name@);
            assert(mm_models(tf).len() == tf.len());
            assert(mm_models(cf).len() == cf.len());
            assert(tf.len() == 0);
            assert(cf.len() == 0);
        }
        match self.outer_or_builtins(c) {
            Option::Some(o) => {
                if o < self.arr.len() {
                    let rr = self.get_method_type_by_name(o, name, fuel - 1);
                    proof {
                        assert(cands == self.method_candidates_spec(
                            o as int,
                            name@,
                            (fuel - 1) as nat,
                        ));
                    }
                    rr
                } else {
                    proof {
                        assert(self.method_candidates_spec(o as int, name@, (fuel - 1) as nat)
                            =~= Seq::<MethodType>::empty());
                        assert(cands =~= Seq::<MethodType>::empty());
                    }
                    Result::Err(TyCheckError::NoSuchAttribute {
                        name: name.clone(),
                        similar: Option::None,
                    })
                }
            },
            Option::None => {
                proof {
                    assert(cands =~= Seq::<MethodType>::empty());
                }
                Result::Err(TyCheckError::NoSuchAttribute {
                    name: name.clone(),
                    similar: Option::None,
                })
            },
        }
    }

    /// The binding or declaration a scope itself holds under `name`:
    /// local bindings first, declarations second.
    pub open spec fn local_or_decl_spec(self, cid: int, name: Seq<char>) -> Option<VarInfo> {
        match key_lookup(self.arr@[cid].locals@, name) {
            Option::Some(vi) => Option::Some(vi),
            Option::None => key_lookup(self.arr@[cid].decls@, name),
        }
    }

    /// The type a call's callee has: without an attribute name, the
    /// callee expression's own type; with one, the first binding or
    /// declaration of that name in the object's nominal supertype scopes
    /// and their method blocks, then in the scope a singular path
    /// denotes, and finally through the global method-name index, whose
    /// defining type the object must then unify with.
    #[verifier::loop_isolation(false)]
    pub fn search_callee_t(
        &self,
        vars: &mut FreeVars,
        c: CtxId,
        obj: &Expr,
        attr_name: &Option<String>,
        namespace: &String,
        fuel: usize,
    ) -> (r: Result<Type, TyCheckError>)
        requires
            c < self.arr@.len(),
        ensures
            final(vars).model().len() == old(vars).model().len(),
            attr_name is None ==> (r matches Result::Ok(t) && t.model() == obj.t_spec()
                && final(vars).model() == old(vars).model()),
            r matches Result::Err(e) ==> (e is NoSuchAttribute || e is VisibilityViolation
                || e is TypeMismatch || e is AmbiguousMethod),
            // the object's own nominal scope decides first: its visible
            // binding or declaration of the name is the answer, and a
            // hidden one is refused
            attr_name matches Option::Some(name) ==> (self.nominal_ctx_spec(
                old(vars).model(),
                c as int,
                obj.t_spec(),
                fuel as nat,
            ) matches Option::Some(cid) ==> ((!(obj.t_spec() is And) && !(obj.t_spec() is Or)
                && !(obj.t_spec() is FreeVar) && cid < self.arr@.len())
                ==> (self.local_or_decl_spec(cid as int, name@) matches Option::Some(vi) ==> ((
            vis_ok_spec(*self, cid as int, vi, Visibility::Public, namespace@) ==> (r
                matches Result::Ok(tt) && tt.model() == vi.t.model())) && (!vis_ok_spec(
                *self,
                cid as int,
                vi,
                Visibility::Public,
                namespace@,
            ) ==> (r matches Result::Err(e) && e is VisibilityViolation)))))),
            // with no nominal scope, the callee expression's own
            // singular scope decides next, the same way
            attr_name matches Option::Some(name) ==> ((!(obj.t_spec() is And) && !(obj.t_spec()
                is Or) && !(obj.t_spec() is FreeVar) && self.nominal_ctx_spec(
                old(vars).model(),
                c as int,
                obj.t_spec(),
                fuel as nat,
            ) is None) ==> (self.singular_ctx_spec(c as int, *obj, fuel as nat)
                matches Option::Some(sctx) ==> ((sctx < self.arr@.len())
                ==> (self.local_or_decl_spec(sctx as int, name@) matches Option::Some(vi) ==> ((
            vis_ok_spec(*self, sctx as int, vi, Visibility::Public, namespace@) ==> (r
                matches Result::Ok(tt) && tt.model() == vi.t.model())) && (!vis_ok_spec(
                *self,
                sctx as int,
                vi,
                Visibility::Public,
                namespace@,
            ) ==> (r matches Result::Err(e) && e is VisibilityViolation))))))),
            // with neither a nominal nor a singular scope, the method
            // indices decide: no candidate is a missing attribute,
            // disagreeing candidates are an ambiguity, and an agreeing
            // set hands its method type out when the receiver accepts
            attr_name matches Option::Some(name) ==> ((!(obj.t_spec() is And) && !(obj.t_spec()
                is Or) && !(obj.t_spec() is FreeVar) && self.nominal_ctx_spec(
                old(vars).model(),
                c as int,
                obj.t_spec(),
                fuel as nat,
            ) is None && self.singular_ctx_spec(c as int, *obj, fuel as nat) is None) ==> ((
            self.method_candidates_spec(c as int, name@, fuel as nat).len() == 0 ==> (r
                matches Result::Err(e) && e is NoSuchAttribute)) && ((
            self.method_candidates_spec(c as int, name@, fuel as nat).len() > 0
                && !candidates_agree(self.method_candidates_spec(c as int, name@, fuel as nat)))
                ==> (r matches Result::Err(e) && e is AmbiguousMethod)) && ((
            self.method_candidates_spec(c as int, name@, fuel as nat).len() > 0
                && candidates_agree(self.method_candidates_spec(c as int, name@, fuel as nat)))
                ==> ((r matches Result::Ok(tt) ==> tt.model() == self.method_candidates_spec(
                c as int,
                name@,
                fuel as nat,
            )[0].method_type.model()) && (r matches Result::Err(e) ==> e is TypeMismatch))))),
    {
        let name = match attr_name {
            Option::Some(n) => n,
            Option::None => {
                return Result::Ok(obj.t());
            },
        };
        if let Option::Some(ctxs) = self.get_nominal_super_type_ctxs(vars, c, obj.ref_t(), fuel) {
            let n = ctxs.len();
            let mut i: usize = 0;
            while i < n
                invariant
                    i <= n,
                    n == ctxs@.len(),
                    c < self.arr@.len(),
                    vars.model().len() == old(vars).model().len(),
                    i > 0 && ctxs@[0] < self.arr@.len() ==> self.local_or_decl_spec(
                        ctxs@[0] as int,
                        name@,
                    ) is None,
                decreases n - i,
            {
                if ctxs[i] < self.arr.len() {
                    if let Option::Some(found) = self.scope_local_or_decl(ctxs[i], name) {
                        match self.validate_visibility(
                            ctxs[i],
                            name,
                            Visibility::Public,
                            &found,
                            namespace,
                        ) {
                            Result::Ok(()) => {
                                return Result::Ok(found.t());
                            },
                            Result::Err(e) => {
                                return Result::Err(e);
                            },
                        }
                    }
                    let mctxs = self.method_block_ids(ctxs[i]);
                    let mn = mctxs.len();
                    let mut j: usize = 0;
                    while j < mn
                        invariant
                            j <= mn,
                            mn == mctxs@.len(),
                            c < self.arr@.len(),
                            i < n,
                            n == ctxs@.len(),
                            ctxs@[i as int] < self.arr@.len(),
                            vars.model().len() == old(vars).model().len(),
                        decreases mn - j,
                    {
                        if mctxs[j] < self.arr.len() {
                            if let Option::Some(found) = self.scope_local_or_decl(
                                mctxs[j],
                                name,
                            ) {
                                match self.validate_visibility(
                                    mctxs[j],
                                    name,
                                    Visibility::Public,
                                    &found,
                                    namespace,
                                ) {
                                    Result::Ok(()) => {
                                        return Result::Ok(found.t());
                                    },
                                    Result::Err(e) => {
                                        return Result::Err(e);
                                    },
                                }
                            }
                        }
                        j += 1;
                    }
                }
                i += 1;
            }
        }
        if let Result::Ok(sctx) = self.get_singular_ctx(c, obj, namespace, fuel) {
            if sctx < self.arr.len() {
                if let Option::Some(found) = self.scope_local_or_decl(sctx, name) {
                    match self.validate_visibility(
                        sctx,
                        name,
                        Visibility::Public,
                        &found,
                        namespace,
                    ) {
                        Result::Ok(()) => {
                            return Result::Ok(found.t());
                        },
                        Result::Err(e) => {
                            return Result::Err(e);
                        },
                    }
                }
                let mctxs = self.method_block_ids(sctx);
                let mn = mctxs.len();
                let mut j: usize = 0;
                while j < mn
                    invariant
                        j <= mn,
                        mn == mctxs@.len(),
                        c < self.arr@.len(),
                        sctx < self.arr@.len(),
                        vars.model().len() == old(vars).model().len(),
                    decreases mn - j,
                {
                    if mctxs[j] < self.arr.len() {
                        if let Option::Some(found) = self.scope_local_or_decl(mctxs[j], name) {
                            match self.validate_visibility(
                                mctxs[j],
                                name,
                                Visibility::Public,
                                &found,
                                namespace,
                            ) {
                                Result::Ok(()) => {
                                    return Result::Ok(found.t());
                                },
                                Result::Err(e) => {
                                    return Result::Err(e);
                                },
                            }
                        }
                    }
                    j += 1;
                }
                return Result::Err(TyCheckError::NoSuchAttribute {
                    name: name.clone(),
                    similar: self.get_similar_attr_from_singular(c, obj, name, fuel),
                });
            }
        }
        match self.get_method_type_by_name(c, name, fuel) {
            Result::Ok(mt) => {
                match crate::solver::sub_unify(
                    self,
                    vars,
                    c,
                    obj.ref_t(),
                    &mt.definition_type,
                    fuel,
                ) {
                    Result::Ok(()) => {
                        return Result::Ok(clone_type(&mt.method_type));
                    },
                    Result::Err(e) => {
                        return Result::Err(e);
                    },
                }
            },
            Result::Err(e) => {
                if !(matches!(&e, TyCheckError::NoSuchAttribute { .. })) {
                    return Result::Err(e);
                }
            },
        }
        Result::Err(TyCheckError::NoSuchAttribute {
            name: name.clone(),
            similar: self.get_similar_attr(vars, c, obj.ref_t(), name, fuel),
        })
    }

    /// The binding or declaration under `name` of scope `c` alone.
    fn scope_local_or_decl(&self, c: CtxId, name: &String) -> (r: Option<VarInfo>)
        requires
            c < self.arr@.len(),
        ensures
            match r {
                Option::Some(vi) => (key_lookup(self.arr@[c as int].locals@, name@)
                    matches Option::Some(f) && vi.t.model() == f.t.model() && vi.vis == f.vis
                    && vi.muty == f.muty) || (key_lookup(self.arr@[c as int].locals@, name@)
                    is None && (key_lookup(self.arr@[c as int].decls@, name@)
                    matches Option::Some(f) && vi.t.model() == f.t.model() && vi.vis == f.vis
                    && vi.muty == f.muty)),
                Option::None => key_lookup(self.arr@[c as int].locals@, name@) is None
                    && key_lookup(self.arr@[c as int].decls@, name@) is None,
            },
    {
        if let Option::Some(vi) = crate::context::alist_get(&self.arr[c].locals, name) {
            return Option::Some(clone_var_info(vi));
        }
        if let Option::Some(vi) = crate::context::alist_get(&self.arr[c].decls, name) {
            return Option::Some(clone_var_info(vi));
        }
        Option::None
    }

    /// The method-definition block indices of scope `c`.
    fn method_block_ids(&self, c: CtxId) -> (r: Vec<CtxId>)
        requires
            c < self.arr@.len(),
        ensures
            r@ == self.arr@[c as int].methods_list@,
    {
        let mut out: Vec<CtxId> = Vec::new();
        let list = &self.arr[c].methods_list;
        let n = list.len();
        let mut i: usize = 0;
        while i < n
            invariant
                i <= n,
                n == list@.len(),
                c < self.arr@.len(),
                list@ == self.arr@[c as int].methods_list@,
                out@ == list@.subrange(0, i as int),
            decreases n - i,
        {
            out.push(list[i]);
            proof {
                assert(out@ =~= list@.subrange(0, i as int + 1));
            }
            i += 1;
        }
        proof {
            assert(out@ =~= list@);
        }
        out
    }

    /// The registered supertraits of a type, read off its nominal scope.
    pub fn get_super_traits(&self, vars: &FreeVars, c: CtxId, t: &Type, fuel: usize) -> (r:
        Option<Vec<Type>>)
        requires
            c < self.arr@.len(),
        ensures
            match r {
                Option::Some(v) => self.nominal_ctx_spec(
                    vars.model(),
                    c as int,
                    t.model(),
                    fuel as nat,
                ) matches Option::Some(cid) && cid < self.arr@.len() && models_of(v@)
                    == models_of(self.arr@[cid as int].super_traits@),
                Option::None => self.nominal_ctx_spec(
                    vars.model(),
                    c as int,
                    t.model(),
                    fuel as nat,
                ) is None || (self.nominal_ctx_spec(vars.model(), c as int, t.model(), fuel as nat)
                    matches Option::Some(cid) && cid >= self.arr@.len()),
            },
    {
        match self.get_nominal_type_ctx(vars, c, t, fuel) {
            Option::Some(cid) => {
                if cid < self.arr.len() {
                    Option::Some(crate::ty::clone_type_list(&self.arr[cid].super_traits))
                } else {
                    Option::None
                }
            },
            Option::None => Option::None,
        }
    }

    /// The registered superclasses of a type; a refinement contributes
    /// its own base type first.
    pub fn get_super_classes(&self, vars: &FreeVars, c: CtxId, t: &Type, fuel: usize) -> (r:
        Option<Vec<Type>>)
        requires
            c < self.arr@.len(),
        ensures
            self.nominal_ctx_spec(vars.model(), c as int, t.model(), fuel as nat) is None ==> r
                is None,
            self.nominal_ctx_spec(vars.model(), c as int, t.model(), fuel as nat)
                matches Option::Some(cid) ==> ((cid < self.arr@.len() && !(t.model()
                is Refinement)) ==> (r matches Option::Some(v) && crate::ty::models_of(v@)
                == crate::ty::models_of(self.arr@[cid as int].super_classes@))),
            self.nominal_ctx_spec(vars.model(), c as int, t.model(), fuel as nat)
                matches Option::Some(cid) ==> (cid < self.arr@.len() ==> (t.model()
                matches TypeModel::Refinement { t: base, .. } ==> (r matches Option::Some(v)
                && crate::ty::models_of(v@) == seq![*base] + crate::ty::models_of(
                self.arr@[cid as int].super_classes@,
            )))),
    {
        match self.get_nominal_type_ctx(vars, c, t, fuel) {
            Option::Some(cid) => {
                if cid < self.arr.len() {
                    let mut out: Vec<Type> = Vec::new();
                    if let Type::Refinement { t: base, .. } = t {
                        out.push(clone_type(base));
                    }
                    let mut sups = crate::ty::clone_type_list(&self.arr[cid].super_classes);
                    out.append(&mut sups);
                    Option::Some(out)
                } else {
                    Option::None
                }
            },
            Option::None => Option::None,
        }
    }

    /// The receiver type the scope chain assigns, searching outward from
    /// `c` for the nearest method or type scope and looking its own name
    /// up as a registered type.
    pub open spec fn rec_self_t_spec(self, c: int, fuel: nat) -> Option<TypeModel>
        decreases fuel,
    {
        if !(0 <= c < self.arr@.len()) {
            Option::None
        } else if self.arr@[c].kind == crate::context::ContextKind::MethodDefs || self.arr@[c].kind
            == crate::context::ContextKind::Class || self.arr@[c].kind
            == crate::context::ContextKind::Trait {
            match self.rec_type_spec(c, self.arr@[c].name@, fuel) {
                Option::Some(e) => Option::Some(e.0.model()),
                Option::None => Option::None,
            }
        } else if fuel > 0 {
            match self.next_scope(c) {
                Option::Some(o) => self.rec_self_t_spec(o, (fuel - 1) as nat),
                Option::None => Option::None,
            }
        } else {
            Option::None
        }
    }

    /// The type of the enclosing method's receiver: the registered type
    /// of the nearest enclosing method or type scope, found by the
    /// scope's own name.
    pub fn rec_get_self_t(&self, c: CtxId, fuel: usize) -> (r: Option<Type>)
        requires
            c < self.arr@.len(),
        ensures
            match r {
                Option::Some(t) => self.rec_self_t_spec(c as int, fuel as nat)
                    matches Option::Some(m) && t.model() == m,
                Option::None => self.rec_self_t_spec(c as int, fuel as nat) is None,
            },
        decreases fuel,
    {
        let k = self.arr[c].kind;
        if k.is_method_def() || k.is_type() {
            let name = self.arr[c].name.clone();
            match self.rec_get_type(c, &name, fuel) {
                Option::Some((t, _ctx)) => Option::Some(clone_type(t)),
                Option::None => Option::None,
            }
        } else if fuel > 0 {
            match self.outer_or_builtins(c) {
                Option::Some(o) => {
                    if o < self.arr.len() {
                        self.rec_get_self_t(o, fuel - 1)
                    } else {
                        Option::None
                    }
                },
                Option::None => Option::None,
            }
        } else {
            Option::None
        }
    }

    /// Whether the type names a class: `Never` is one, unions of classes
    /// are, a refinement or reference is what its base is, and a named
    /// type is what its registered scope says.
    pub fn is_class(&self, vars: &FreeVars, c: CtxId, t: &Type, fuel: usize) -> (r: bool)
        requires
            c < self.arr@.len(),
        ensures
            t.model() is And ==> !r,
            t.model() is Never ==> r,
            (t.model() is Mono || t.model() is Poly) ==> r == (self.nominal_ctx_spec(
                vars.model(),
                c as int,
                t.model(),
                fuel as nat,
            ) matches Option::Some(cid) && cid < self.arr@.len()
                && self.arr@[cid as int].kind == crate::context::ContextKind::Class),
        decreases fuel, *t,
    {
        proof {
            crate::ty::lemma_model_variants(*t);
        }
        match t {
            Type::And(..) => false,
            Type::Never => true,
            Type::FreeVar(id) => {
                if *id < vars.len() && fuel > 0 && vars.is_linked(*id) {
                    let target = clone_type(vars.crack(*id));
                    self.is_class(vars, c, &target, fuel - 1)
                } else {
                    false
                }
            },
            Type::Or(l, r2) => self.is_class(vars, c, l, fuel) && self.is_class(
                vars,
                c,
                r2,
                fuel,
            ),
            Type::Refinement { t: base, .. } => self.is_class(vars, c, base, fuel),
            Type::Ref(inner) => self.is_class(vars, c, inner, fuel),
            Type::RefMut { before, .. } => self.is_class(vars, c, before, fuel),
            _ => {
                match self.get_nominal_type_ctx(vars, c, t, fuel) {
                    Option::Some(cid) => {
                        if cid < self.arr.len() {
                            self.arr[cid].kind.is_class()
                        } else {
                            false
                        }
                    },
                    Option::None => false,
                }
            },
        }
    }

    /// Whether the type names a trait: intersections and unions of
    /// traits are, a refinement or reference is what its base is, and a
    /// named type is what its registered scope says.
    pub fn is_trait(&self, vars: &FreeVars, c: CtxId, t: &Type, fuel: usize) -> (r: bool)
        requires
            c < self.arr@.len(),
        ensures
            t.model() is Never ==> !r,
            (t.model() is Mono || t.model() is Poly) ==> r == (self.nominal_ctx_spec(
                vars.model(),
                c as int,
                t.model(),
                fuel as nat,
            ) matches Option::Some(cid) && cid < self.arr@.len()
                && self.arr@[cid as int].kind == crate::context::ContextKind::Trait),
        decreases fuel, *t,
    {
        proof {
            crate::ty::lemma_model_variants(*t);
        }
        match t {
            Type::Never => false,
            Type::FreeVar(id) => {
                if *id < vars.len() && fuel > 0 && vars.is_linked(*id) {
                    let target = clone_type(vars.crack(*id));
                    self.is_trait(vars, c, &target, fuel - 1)
                } else {
                    false
                }
            },
            Type::And(l, r2) => self.is_trait(vars, c, l, fuel) && self.is_trait(
                vars,
                c,
                r2,
                fuel,
            ),
            Type::Or(l, r2) => self.is_trait(vars, c, l, fuel) && self.is_trait(
                vars,
                c,
                r2,
                fuel,
            ),
            Type::Refinement { t: base, .. } => self.is_trait(vars, c, base, fuel),
            Type::Ref(inner) => self.is_trait(vars, c, inner, fuel),
            Type::RefMut { before, .. } => self.is_trait(vars, c, before, fuel),
            _ => {
                match self.get_nominal_type_ctx(vars, c, t, fuel) {
                    Option::Some(cid) => {
                        if cid < self.arr.len() {
                            self.arr[cid].kind.is_trait()
                        } else {
                            false
                        }
                    },
                    Option::None => false,
                }
            },
        }
    }
}

/// Whether a name of the list reads `n`.
pub open spec fn seq_contains_name(s: Seq<String>, n: Seq<char>) -> bool {
    exists|i: int| 0 <= i < s.len() && (#[trigger] s[i])@ == n
}

/// Decides [`seq_contains_name`].
#[verifier::loop_isolation(false)]
fn contains_name(s: &Vec<String>, n: &String) -> (r: bool)
    ensures
        r == seq_contains_name(s@, n@),
{
    let len = s.len();
    let mut i: usize = 0;
    while i < len
        invariant
            i <= len,
            forall|j: int| 0 <= j < i ==> (#[trigger] s@[j])@ != n@,
        decreases len - i,
    {
        if string_eq(&s[i], n) {
            return true;
        }
        i += 1;
    }
    false
}

/// The first parameter of the list named `name`.
pub open spec fn param_by_name(s: Seq<crate::ty::ParamModel>, name: Seq<char>) -> Option<
    crate::ty::ParamModel,
>
    decreases s.len(),
{
    if s.len() == 0 {
        Option::None
    } else if s[0].name matches Option::Some(n) && n == name {
        Option::Some(s[0])
    } else {
        param_by_name(s.subrange(1, s.len() as int), name)
    }
}

/// Finds the first parameter named `name`.
#[verifier::loop_isolation(false)]
fn find_param<'a>(ps: &'a Vec<ParamTy>, name: &String) -> (r: Option<&'a ParamTy>)
    ensures
        match r {
            Option::Some(p) => param_by_name(crate::ty::param_models_of(ps@), name@)
                == Option::Some(p.model()),
            Option::None => param_by_name(crate::ty::param_models_of(ps@), name@) is None,
        },
{
    let ghost pm = crate::ty::param_models_of(ps@);
    let n = ps.len();
    proof {
        assert(pm.subrange(0, n as int) =~= pm);
    }
    let mut i: usize = 0;
    while i < n
        invariant
            i <= n,
            param_by_name(pm, name@) == param_by_name(pm.subrange(i as int, n as int), name@),
        decreases n - i,
    {
        proof {
            assert(pm.subrange(i as int, n as int)[0] == pm[i as int]);
            assert(pm.subrange(i as int, n as int).subrange(1, (n - i) as int) =~= pm.subrange(
                i as int + 1,
                n as int,
            ));
        }
        let hit = match &ps[i].name {
            Option::Some(pn) => string_eq(pn, name),
            Option::None => false,
        };
        if hit {
            return Option::Some(&ps[i]);
        }
        i += 1;
    }
    proof {
        assert(pm.subrange(n as int, n as int) =~= Seq::<crate::ty::ParamModel>::empty());
    }
    Option::None
}

/// Binds one positional argument against its parameter: the argument's
/// type must unify below the parameter's, and a parameter name already
/// consumed is a duplicate-argument error; a newly consumed name joins
/// the set shared with the keyword phase.
pub fn substitute_pos_arg(
    cs: &Contexts,
    vars: &mut FreeVars,
    c: CtxId,
    arg: &Expr,
    param: &ParamTy,
    passed: &mut Vec<String>,
    fuel: usize,
) -> (r: Result<(), TyCheckError>)
    requires
        c < cs.arr@.len(),
    ensures
        final(vars).model().len() == old(vars).model().len(),
        r matches Result::Err(e) ==> (e is TypeMismatch || e is DuplicateArgument),
        r matches Result::Err(e) ==> (e matches TyCheckError::DuplicateArgument { name }
            ==> (param.model().name == Option::Some(name@) && seq_contains_name(
            old(passed)@,
            name@,
        ) && final(passed)@ == old(passed)@)),
        r is Ok ==> match param.model().name {
            Option::Some(nm) => !seq_contains_name(old(passed)@, nm) && final(passed)@.len()
                == old(passed)@.len() + 1 && final(passed)@.last()@ == nm
                && final(passed)@.subrange(0, old(passed)@.len() as int) == old(passed)@,
            Option::None => final(passed)@ == old(passed)@,
        },
        (param.model().name matches Option::Some(nm) && seq_contains_name(old(passed)@, nm))
            ==> !(r is Ok),
        // an unnamed parameter standing on a variable forwards the
        // variable's bound movement
        param.t.model() matches TypeModel::FreeVar { id } ==> (param.model().name is None
            ==> crate::solver::sup_var_clause(
            *cs,
            old(vars).model(),
            final(vars).model(),
            c as int,
            arg.t_spec(),
            id,
            r is Ok,
            fuel as nat,
        )),
        // where the comparison only decides, success is owed exactly
        // when the argument's type lies below the parameter's and the
        // parameter's name is free
        crate::solver::plain_pair(arg.t_spec(), param.t.model()) ==> (final(vars).model()
            == old(vars).model() && (r is Ok <==> (crate::solver::subtype_spec(
            *cs,
            old(vars).model(),
            c as int,
            arg.t_spec(),
            param.t.model(),
            fuel as nat,
        ) && (match param.model().name {
            Option::Some(nm) => !seq_contains_name(old(passed)@, nm),
            Option::None => true,
        })))),
{
    match crate::solver::sub_unify(cs, vars, c, arg.ref_t(), &param.t, fuel) {
        Result::Ok(()) => {},
        Result::Err(e) => {
            return Result::Err(e);
        },
    }
    if let Option::Some(nm) = &param.name {
        if contains_name(passed, nm) {
            return Result::Err(TyCheckError::DuplicateArgument { name: nm.clone() });
        }
        let owned = nm.clone();
        passed.push(owned);
        proof {
            assert(passed@.subrange(0, old(passed)@.len() as int) =~= old(passed)@);
        }
    }
    Result::Ok(())
}

/// Binds one argument against the variadic parameter.
pub fn substitute_var_arg(
    cs: &Contexts,
    vars: &mut FreeVars,
    c: CtxId,
    arg: &Expr,
    param: &ParamTy,
    fuel: usize,
) -> (r: Result<(), TyCheckError>)
    requires
        c < cs.arr@.len(),
    ensures
        final(vars).model().len() == old(vars).model().len(),
        r matches Result::Err(e) ==> e is TypeMismatch,
        // where the comparison only decides, success is exactly the
        // subtype relation against the variadic parameter's type
        crate::solver::plain_pair(arg.t_spec(), param.t.model()) ==> (final(vars).model()
            == old(vars).model() && (r is Ok <==> crate::solver::subtype_spec(
            *cs,
            old(vars).model(),
            c as int,
            arg.t_spec(),
            param.t.model(),
            fuel as nat,
        ))),
{
    crate::solver::sub_unify(cs, vars, c, arg.ref_t(), &param.t, fuel)
}

/// Binds one keyword argument by name against the default parameters.
/// A name already consumed — positionally or by an earlier keyword — is
/// always a duplicate-argument error, before anything else is looked
/// at, so the duplicate check is global to the call, not per phase.  A
/// name matching no declared parameter is an unexpected-keyword error.
pub fn substitute_kw_arg(
    cs: &Contexts,
    vars: &mut FreeVars,
    c: CtxId,
    kw_name: &String,
    arg: &Expr,
    default_params: &Vec<ParamTy>,
    passed: &mut Vec<String>,
    fuel: usize,
) -> (r: Result<(), TyCheckError>)
    requires
        c < cs.arr@.len(),
    ensures
        final(vars).model().len() == old(vars).model().len(),
        seq_contains_name(old(passed)@, kw_name@) ==> (r matches Result::Err(e) && (e
            matches TyCheckError::DuplicateArgument { name } && name@ == kw_name@)
            && final(vars).model() == old(vars).model() && final(passed)@ == old(passed)@),
        !seq_contains_name(old(passed)@, kw_name@) ==> (final(passed)@.len()
            == old(passed)@.len() + 1 && final(passed)@.last()@ == kw_name@
            && final(passed)@.subrange(0, old(passed)@.len() as int) == old(passed)@),
        (!seq_contains_name(old(passed)@, kw_name@) && param_by_name(
            crate::ty::param_models_of(default_params@),
            kw_name@,
        ) is None) ==> (r matches Result::Err(e) && e is UnexpectedKeywordArgument),
        r matches Result::Err(e) ==> (e is DuplicateArgument || e is UnexpectedKeywordArgument
            || e is TypeMismatch),
        // a fresh keyword naming a declared parameter, on a pair the
        // comparison only decides: success is exactly the subtype
        // relation against that parameter's type
        !seq_contains_name(old(passed)@, kw_name@) ==> (param_by_name(
            crate::ty::param_models_of(default_params@),
            kw_name@,
        ) matches Option::Some(pm) ==> (crate::solver::plain_pair(arg.t_spec(), *pm.t) ==> (
        final(vars).model() == old(vars).model() && (r is Ok
            <==> crate::solver::subtype_spec(
            *cs,
            old(vars).model(),
            c as int,
            arg.t_spec(),
            *pm.t,
            fuel as nat,
        ))))),
{
    if contains_name(passed, kw_name) {
        return Result::Err(TyCheckError::DuplicateArgument { name: kw_name.clone() });
    }
    let owned = kw_name.clone();
    passed.push(owned);
    proof {
        assert(passed@.subrange(0, old(passed)@.len() as int) =~= old(passed)@);
    }
    match find_param(default_params, kw_name) {
        Option::Some(pt) => crate::solver::sub_unify(cs, vars, c, arg.ref_t(), &pt.t, fuel),
        Option::None => Result::Err(TyCheckError::UnexpectedKeywordArgument {
            name: kw_name.clone(),
        }),
    }
}

/// What a `match` call gives when the arm checks pass and the coverage
/// comparison only decides: coverage failure is exactly a match-arm
/// mismatch naming the matched type, and coverage success gives the
/// function from the matched value and the arms to the union of the
/// arms' return types.
pub open spec fn match_plain_clause(
    cs: Contexts,
    m: Seq<crate::free::FreeKindModel>,
    c: int,
    pos: Seq<Expr>,
    r: Result<Type, TyCheckError>,
    fuel: nat,
) -> bool {
    let target = pos[0].t_spec();
    let u = Contexts::pat_union_spec(cs, m, c, pos, 1, TypeModel::Never, fuel);
    let covered = crate::solver::subtype_spec(cs, m, c, target, u, fuel);
    &&& !covered ==> (r matches Result::Err(e) && (e
        matches TyCheckError::MatchArmMismatch { target: t } && t.model() == target))
    &&& covered ==> (r matches Result::Ok(t) && t.model() == (TypeModel::Subr {
        subr: Box::new(crate::ty::SubrModel {
            kind: crate::ty::SubrKind::Func,
            non_default_params: arg_param_models(pos),
            var_params: Option::None,
            default_params: Seq::empty(),
            return_t: Box::new(
                Contexts::ret_union_spec(cs, m, c, pos, 1, TypeModel::Never, fuel),
            ),
        }),
    }))
}

/// Whether the call is the `match` builtin's: a private identifier of
/// that name with at least the matched expression as argument.
pub open spec fn is_match_call(obj: Expr, pos: Seq<Expr>) -> bool {
    obj matches Expr::Ident { name, vis, .. } && vis == Visibility::Private && name@
        == "match"@ && pos.len() >= 1
}

/// Whether an expression is an addressable binding — a plain identifier
/// or an attribute access — whose type a propagated mutation may
/// rewrite.
pub open spec fn is_addressable(e: Expr) -> bool {
    e is Ident || e is Attr
}

/// The declared type a mutable receiver becomes after the call, where
/// the subroutine's receiver is a mutable reference carrying one.
pub open spec fn mutation_after_spec(tm: TypeModel) -> Option<TypeModel> {
    match tm {
        TypeModel::Subr { subr } => {
            if subr.non_default_params.len() > 0 && subr.non_default_params[0].name
                == Option::Some("self"@) {
                match *subr.non_default_params[0].t {
                    TypeModel::RefMut { after: Option::Some(a), .. } => Option::Some(*a),
                    _ => Option::None,
                }
            } else {
                Option::None
            }
        },
        _ => Option::None,
    }
}

/// The names of the parameters from position `from` on, in order,
/// skipping unnamed ones.
pub open spec fn param_names_from(
    params: Seq<crate::ty::ParamModel>,
    from: int,
) -> Seq<Seq<char>>
    decreases params.len() - from when 0 <= from <= params.len()
{
    if from < 0 || from >= params.len() {
        Seq::empty()
    } else {
        match params[from].name {
            Option::Some(nm) => seq![nm] + param_names_from(params, from + 1),
            Option::None => param_names_from(params, from + 1),
        }
    }
}

/// The anonymous parameter each positional argument contributes when an
/// unresolved callee is resolved to a subroutine of its arguments.
pub open spec fn arg_param_models(pos: Seq<Expr>) -> Seq<crate::ty::ParamModel> {
    Seq::new(
        pos.len(),
        |i: int| crate::ty::ParamModel {
            name: Option::None,
            t: Box::new(pos[i].t_spec()),
            default_t: Option::None,
        },
    )
}

/// Whether a subroutine's first parameter is the implicit receiver.
pub open spec fn subr_is_method(s: crate::ty::SubrModel) -> bool {
    s.non_default_params.len() > 0 && s.non_default_params[0].name == Option::Some("self"@)
}

/// Whether an expression's access path names a procedure: its accessed
/// name ends in `!`.
pub open spec fn procedural_spec(e: Expr) -> bool {
    match e {
        Expr::Ident { name, .. } => name@.len() > 0 && name@.last() == '!',
        Expr::Attr { name, .. } => name@.len() > 0 && name@.last() == '!',
        _ => false,
    }
}

/// Decides [`procedural_spec`].
fn is_procedural(e: &Expr) -> (r: bool)
    ensures
        r == procedural_spec(*e),
{
    let name = match e {
        Expr::Ident { name, .. } => name,
        Expr::Attr { name, .. } => name,
        _ => {
            return false;
        },
    };
    let n = name.as_str().unicode_len();
    if n == 0 {
        return false;
    }
    let last = name.as_str().get_char(n - 1);
    last == '!'
}

/// Binds a call's arguments against the callee's already instantiated
/// type.  An unresolved callee variable is resolved to a fresh
/// subroutine type built from the arguments.  For a subroutine type: a
/// method call binds the object to the implicit receiver first;
/// non-default positional arguments bind left to right; remaining
/// positional arguments bind against the variadic parameter if one is
/// declared, else against default parameters in order; keyword
/// arguments bind by name, a name consumed twice being a
/// duplicate-argument error; and every default parameter left unbound
/// has its declared default's type checked against it.  With no
/// variadic parameter, more arguments than parameters is a
/// too-many-arguments error, exactly when the count says so; fewer
/// positional arguments than non-default parameters is a
/// missing-arguments error naming the count left unbound, exactly when
/// the count says so.
#[verifier::loop_isolation(false)]
#[verifier::rlimit(100)]
pub fn substitute_call(
    cs: &Contexts,
    vars: &mut FreeVars,
    c: CtxId,
    obj: &Expr,
    attr_name: &Option<String>,
    instance: &Type,
    pos_args: &Vec<Expr>,
    kw_args: &Vec<(String, Expr)>,
    level: usize,
    fuel: usize,
) -> (r: Result<(), TyCheckError>)
    requires
        c < cs.arr@.len(),
    ensures
        old(vars).model().len() <= final(vars).model().len(),
        instance.model() matches TypeModel::Subr { subr } ==> ((subr.var_params is None
            && pos_args@.len() + kw_args@.len() > subr.non_default_params.len()
            + subr.default_params.len()) ==> (r matches Result::Err(e) && (e
            matches TyCheckError::TooManyArguments { expected, given } && (expected
            == subr.non_default_params.len() + subr.default_params.len()
            || subr.non_default_params.len() + subr.default_params.len() > usize::MAX) && given
            == pos_args@.len()))),
        instance.model() matches TypeModel::Subr { subr } ==> (((subr.var_params is Some
            || pos_args@.len() + kw_args@.len() <= subr.non_default_params.len()
            + subr.default_params.len()) && pos_args@.len() < effective_nd(
            *subr,
            attr_name is Some,
        )) ==> (r matches Result::Err(e) && (e matches TyCheckError::MissingArguments {
            missing_len,
            missing,
        } && missing_len == subr.non_default_params.len() - pos_args@.len() && Seq::new(
            missing@.len(),
            |q: int| missing@[q]@,
        ) == param_names_from(subr.non_default_params, pos_args@.len() as int)))),
        instance.model() matches TypeModel::Subr { subr } ==> ((r matches Result::Err(e) && e
            is TooManyArguments) ==> (subr.var_params is None && pos_args@.len()
            + kw_args@.len() > subr.non_default_params.len() + subr.default_params.len())),
        instance.model() matches TypeModel::Subr { subr } ==> ((r matches Result::Err(e) && e
            is MissingArguments) ==> pos_args@.len() < effective_nd(*subr, attr_name is Some)),
        instance.model() matches TypeModel::Subr { subr } ==> (r is Ok ==> forall|i: int|
            0 <= i < kw_args@.len() ==> !positionally_bound(
                *subr,
                attr_name is Some,
                pos_args@.len() as nat,
                (#[trigger] kw_args@[i]).0@,
            )),
        instance.model() matches TypeModel::Subr { subr } ==> (r is Ok ==> forall|i: int, j: int|
            0 <= i < j < kw_args@.len() ==> (#[trigger] kw_args@[i]).0@ != (
            #[trigger] kw_args@[j]).0@),
        // a type that is not callable and resolves to nothing callable is
        // rejected as such
        (!(instance.model() is Subr) && !(instance.model() is FreeVar) && !(instance.model()
            is Refinement)) ==> (r matches Result::Err(e) && (e
            matches TyCheckError::NotCallable { found } && found.model() == instance.model())),
        // an unresolved callee variable is resolved to a subroutine of the
        // arguments, returning a fresh unresolved variable
        instance.model() matches TypeModel::FreeVar { id } ==> ((fuel > 0 && 0 <= id < old(
            vars,
        ).model().len() && crate::free::constraint_of(old(vars).model()[id]) is Some) ==> (r
            is Ok && final(vars).model().len() == old(vars).model().len() + 1
            && final(vars).model()[old(vars).model().len() as int] == (crate::free::FreeKindModel::Unbound {
            id: old(vars).model().len() as int,
            lev: level as nat,
            constraint: crate::free::ConstraintModel::Sandwiched {
                sub: TypeModel::Never,
                sup: TypeModel::Obj,
                cyclicity: crate::free::Cyclicity::Not,
            },
        }) && (final(vars).model()[id]
            matches crate::free::FreeKindModel::Linked { t: TypeModel::Subr { subr } }
            && subr.kind == (if procedural_spec(*obj) {
            crate::ty::SubrKind::Proc
        } else {
            crate::ty::SubrKind::Func
        }) && subr.non_default_params == arg_param_models(pos_args@) && subr.var_params
            is None && subr.default_params.len() == 0 && *subr.return_t == (TypeModel::FreeVar {
            id: old(vars).model().len() as int,
        })))),
        // a method call that cannot bind the receiver fails with the
        // receiver's mismatch
        instance.model() matches TypeModel::Subr { subr } ==> ((attr_name is Some
            && subr_is_method(*subr) && crate::solver::plain_pair(
            obj.t_spec(),
            *subr.non_default_params[0].t,
        ) && !crate::solver::subtype_spec(
            *cs,
            old(vars).model(),
            c as int,
            obj.t_spec(),
            *subr.non_default_params[0].t,
            fuel as nat,
        ) && (subr.var_params is None ==> pos_args@.len() + kw_args@.len()
            <= subr.non_default_params.len() + subr.default_params.len()) && pos_args@.len()
            >= effective_nd(*subr, true)) ==> (r matches Result::Err(e) && e is TypeMismatch)),
        // every failure is one of the binder's own kinds
        r matches Result::Err(e) ==> (e is TypeMismatch || e is TooManyArguments || e
            is MissingArguments || e is DuplicateArgument || e is UnexpectedKeywordArgument || e
            is NotCallable),
        // a call with nothing to bind succeeds
        instance.model() matches TypeModel::Subr { subr } ==> ((subr.non_default_params.len()
            == 0 && subr.default_params.len() == 0 && subr.var_params is None
            && pos_args@.len() == 0 && kw_args@.len() == 0) ==> r is Ok),
        // a fitting plain call succeeds with nothing changed
        instance.model() matches TypeModel::Subr { subr } ==> ((attr_name is None
            && kw_args@.len() == 0 && fitting_plain_call(
            *cs,
            old(vars).model(),
            c as int,
            *subr,
            pos_args@,
            fuel as nat,
        )) ==> (r is Ok && final(vars).model() == old(vars).model())),
        // every unconsumed default is sanity-checked against its
        // parameter: for a call binding nothing, success is exactly all
        // declared defaults lying below their parameters, where those
        // comparisons only decide
        instance.model() matches TypeModel::Subr { subr } ==> ((attr_name is None
            && pos_args@.len() == 0 && kw_args@.len() == 0 && subr.non_default_params.len()
            == 0 && subr.var_params is None && defaults_decidable(*subr))
            ==> (final(vars).model() == old(vars).model() && (r is Ok <==> defaults_all_fit(
            *cs,
            old(vars).model(),
            c as int,
            *subr,
            fuel as nat,
        )))),
        // a keyword repeating a positionally bound parameter, with the
        // positional phase itself fitting, is always the duplicate
        // error naming it
        instance.model() matches TypeModel::Subr { subr } ==> ((attr_name is None
            && fitting_pos_phase(*cs, old(vars).model(), c as int, *subr, pos_args@, fuel as nat)
            && 1 <= kw_args@.len() <= subr.default_params.len() && positionally_bound(
            *subr,
            false,
            pos_args@.len() as nat,
            kw_args@[0].0@,
        )) ==> (r matches Result::Err(e) && (e matches TyCheckError::DuplicateArgument { name }
            && name@ == kw_args@[0].0@))),
    decreases fuel,
{
    proof {
        crate::ty::lemma_model_variants(*instance);
    }
    match instance {
        Type::FreeVar(v) => {
            if *v < vars.len() && fuel > 0 && vars.is_linked(*v) {
                let target = clone_type(vars.crack(*v));
                let r = substitute_call(
                    cs,
                    vars,
                    c,
                    obj,
                    attr_name,
                    &target,
                    pos_args,
                    kw_args,
                    level,
                    fuel - 1,
                );
                return r;
            }
            if *v >= vars.len() {
                return Result::Err(TyCheckError::NotCallable { found: clone_type(instance) });
            }
            // an unresolved callee: resolve it to a subroutine built from
            // the arguments
            let kind = if is_procedural(obj) {
                crate::ty::SubrKind::Proc
            } else {
                crate::ty::SubrKind::Func
            };
            let mut nd: Vec<ParamTy> = Vec::new();
            let n = pos_args.len();
            proof {
                assert(crate::ty::param_models_of(nd@) =~= arg_param_models(pos_args@).subrange(
                    0,
                    0,
                ));
            }
            let mut i: usize = 0;
            while i < n
                invariant
                    i <= n,
                    n == pos_args@.len(),
                    nd@.len() == i,
                    crate::ty::param_models_of(nd@) == arg_param_models(pos_args@).subrange(
                        0,
                        i as int,
                    ),
                decreases n - i,
            {
                nd.push(crate::ty::anon(pos_args[i].t()));
                proof {
                    assert(crate::ty::param_models_of(nd@) =~= arg_param_models(
                        pos_args@,
                    ).subrange(0, i as int + 1));
                }
                i += 1;
            }
            proof {
                assert(arg_param_models(pos_args@).subrange(0, n as int) =~= arg_param_models(
                    pos_args@,
                ));
            }
            let ret = vars.new_unbound(level, crate::free::Constraint::new_type_of(Type::Type));
            let subr = crate::ty::subr_t(kind, nd, Option::None, Vec::new(), Type::FreeVar(ret));
            if *v < vars.len() {
                vars.link(*v, &subr);
            }
            proof {
                assert(crate::ty::param_models_of(Seq::<ParamTy>::empty()) =~= Seq::<
                    crate::ty::ParamModel,
                >::empty());
            }
            return Result::Ok(());
        },
        Type::Refinement { t: base, .. } => {
            if fuel > 0 {
                let r = substitute_call(
                    cs,
                    vars,
                    c,
                    obj,
                    attr_name,
                    base,
                    pos_args,
                    kw_args,
                    level,
                    fuel - 1,
                );
                return r;
            }
            return Result::Err(TyCheckError::NotCallable { found: clone_type(instance) });
        },
        Type::Subr(subr) => {
            proof {
                crate::ty::lemma_subr_model(*subr);
            }
            let nd_len = subr.non_default_params.len();
            let dl_len = subr.default_params.len();
            let ghost h_def = attr_name is None && pos_args@.len() == 0 && kw_args@.len() == 0
                && subr.model().non_default_params.len() == 0 && subr.model().var_params is None
                && defaults_decidable(subr.model());
            let pos_len = pos_args.len();
            let kw_len = kw_args.len();
            let is_method = match subr.non_default_params.len() {
                0 => false,
                _ => match &subr.non_default_params[0].name {
                    Option::Some(nm) => {
                        proof {
                            reveal_strlit("self");
                        }
                        string_eq(nm, &String::from_str("self"))
                    },
                    Option::None => false,
                },
            };
            proof {
                reveal_strlit("self");
                assert(is_method == subr_is_method(subr.model()));
            }
            if subr.var_params.is_none() {
                let too_many = (pos_len as u128) + (kw_len as u128) > (nd_len as u128) + (
                dl_len as u128);
                if too_many {
                    let expected = if dl_len <= usize::MAX - nd_len {
                        nd_len + dl_len
                    } else {
                        usize::MAX
                    };
                    return Result::Err(TyCheckError::TooManyArguments {
                        expected,
                        given: pos_len,
                    });
                }
            }
            let eff_ndl = if attr_name.is_some() && is_method {
                nd_len - 1
            } else {
                nd_len
            };
            if pos_len < eff_ndl {
                proof {
                    lemma_subr_model(*subr);
                }
                let ghost pm = subr.model().non_default_params;
                let mut missing: Vec<String> = Vec::new();
                let mut k: usize = pos_len;
                while k < nd_len
                    invariant
                        pos_len <= k <= nd_len,
                        nd_len == subr.non_default_params@.len(),
                        pm == subr.model().non_default_params,
                        old(vars).model().len() <= vars.model().len(),
                        Seq::new(missing@.len(), |q: int| missing@[q]@) + param_names_from(
                            pm,
                            k as int,
                        ) == param_names_from(pm, pos_len as int),
                    decreases nd_len - k,
                {
                    let ghost miss_pre = missing@;
                    if let Option::Some(nm) = &subr.non_default_params[k].name {
                        missing.push(nm.clone());
                        proof {
                            assert(pm[k as int].name == Option::Some(missing@.last()@));
                            assert(Seq::new(missing@.len(), |q: int| missing@[q]@) =~= Seq::new(
                                miss_pre.len(),
                                |q: int| miss_pre[q]@,
                            ) + seq![missing@.last()@]);
                            assert((Seq::new(miss_pre.len(), |q: int| miss_pre[q]@) + seq![
                                missing@.last()@,
                            ]) + param_names_from(pm, k as int + 1) =~= Seq::new(
                                miss_pre.len(),
                                |q: int| miss_pre[q]@,
                            ) + (seq![missing@.last()@] + param_names_from(pm, k as int + 1)));
                        }
                    } else {
                        proof {
                            assert(pm[k as int].name is None);
                        }
                    }
                    k += 1;
                }
                proof {
                    assert(param_names_from(pm, nd_len as int) =~= Seq::<Seq<char>>::empty());
                    assert(Seq::new(missing@.len(), |q: int| missing@[q]@) + param_names_from(
                        pm,
                        nd_len as int,
                    ) =~= Seq::new(missing@.len(), |q: int| missing@[q]@));
                }
                return Result::Err(TyCheckError::MissingArguments {
                    missing_len: nd_len - pos_len,
                    missing,
                });
            }
            let mut passed: Vec<String> = Vec::new();
            let mut pi: usize = 0;
            if attr_name.is_some() && is_method {
                match crate::solver::sub_unify(
                    cs,
                    vars,
                    c,
                    obj.ref_t(),
                    &subr.non_default_params[0].t,
                    fuel,
                ) {
                    Result::Ok(()) => {},
                    Result::Err(e) => {
                        return Result::Err(e);
                    },
                }
            }
            let skip: usize = if attr_name.is_some() && is_method {
                1
            } else {
                0
            };
            while pi < eff_ndl
                invariant
                    pi <= eff_ndl,
                    eff_ndl <= pos_args@.len(),
                    skip + eff_ndl <= subr.non_default_params@.len(),
                    c < cs.arr@.len(),
                    old(vars).model().len() <= vars.model().len(),
                    forall|k: int|
                        skip <= k < skip + pi && (#[trigger] subr.model().non_default_params[k]).name
                            is Some ==> seq_contains_name(
                            passed@,
                            subr.model().non_default_params[k].name.unwrap(),
                        ),
                    (attr_name is None && fitting_pos_phase(
                        *cs,
                        old(vars).model(),
                        c as int,
                        subr.model(),
                        pos_args@,
                        fuel as nat,
                    )) ==> (vars.model() == old(vars).model() && passed@.len() <= pi && forall|
                        q: int,
                    |
                        0 <= q < passed@.len() ==> exists|k: int|
                            0 <= k < pi && (#[trigger] subr.model().non_default_params[k]).name
                                == Option::Some((#[trigger] passed@[q])@)),
                decreases eff_ndl - pi,
            {
                let ghost passed_pre = passed@;
                let bind_res = substitute_pos_arg(
                    cs,
                    vars,
                    c,
                    &pos_args[pi],
                    &subr.non_default_params[skip + pi],
                    &mut passed,
                    fuel,
                );
                proof {
                    lemma_subr_model(*subr);
                    if attr_name is None && fitting_pos_phase(
                        *cs,
                        old(vars).model(),
                        c as int,
                        subr.model(),
                        pos_args@,
                        fuel as nat,
                    ) {
                        let pm = subr.model().non_default_params[pi as int];
                        match pm.name {
                            Option::Some(nm) => {
                                if seq_contains_name(passed_pre, nm) {
                                    let q = choose|q: int|
                                        0 <= q < passed_pre.len() && (
                                        #[trigger] passed_pre[q])@ == nm;
                                    let k = choose|k: int|
                                        0 <= k < pi && (
                                        #[trigger] subr.model().non_default_params[k]).name
                                            == Option::Some(passed_pre[q]@);
                                    assert(!(subr.model().non_default_params[k].name is Some
                                        && subr.model().non_default_params[k].name
                                        == subr.model().non_default_params[pi as int].name));
                                    assert(false);
                                }
                            },
                            Option::None => {},
                        }
                        assert(bind_res is Ok);
                    }
                }
                match bind_res {
                    Result::Ok(()) => {},
                    Result::Err(e) => {
                        return Result::Err(e);
                    },
                }
                proof {
                    lemma_subr_model(*subr);
                    assert(passed@.subrange(0, passed_pre.len() as int) =~= passed_pre);
                    assert forall|k: int|
                        skip <= k < skip + pi + 1 && (
                        #[trigger] subr.model().non_default_params[k]).name
                            is Some implies seq_contains_name(
                        passed@,
                        subr.model().non_default_params[k].name.unwrap(),
                    ) by {
                        if k < skip + pi {
                            lemma_contains_name_extended(passed_pre, passed@);
                        } else {
                            assert(passed@[passed@.len() - 1]@
                                == subr.model().non_default_params[k].name.unwrap());
                        }
                    }
                    if attr_name is None && fitting_pos_phase(
                        *cs,
                        old(vars).model(),
                        c as int,
                        subr.model(),
                        pos_args@,
                        fuel as nat,
                    ) {
                        assert forall|q: int|
                            0 <= q < passed@.len() implies exists|k: int|
                                0 <= k < pi + 1 && (
                                #[trigger] subr.model().non_default_params[k]).name
                                    == Option::Some((#[trigger] passed@[q])@) by {
                            if q < passed_pre.len() {
                                assert(passed@[q] == passed_pre[q]);
                            } else {
                                assert(subr.model().non_default_params[pi as int].name
                                    == Option::Some(passed@[q]@));
                            }
                        }
                    }
                }
                pi += 1;
            }
            if let Option::Some(vp) = &subr.var_params {
                proof {
                    if h_def {
                        lemma_subr_model(*subr);
                    }
                }
                let mut vi: usize = eff_ndl;
                while vi < pos_len
                    invariant
                        eff_ndl <= vi <= pos_len,
                        pos_len == pos_args@.len(),
                        c < cs.arr@.len(),
                        old(vars).model().len() <= vars.model().len(),
                    decreases pos_len - vi,
                {
                    match substitute_var_arg(cs, vars, c, &pos_args[vi], vp, fuel) {
                        Result::Ok(()) => {},
                        Result::Err(e) => {
                            return Result::Err(e);
                        },
                    }
                    vi += 1;
                }
            } else {
                proof {
                    if h_def {
                        lemma_subr_model(*subr);
                        assert(fitting_pos_phase(
                            *cs,
                            old(vars).model(),
                            c as int,
                            subr.model(),
                            pos_args@,
                            fuel as nat,
                        ));
                        assert(pi == 0);
                        assert(passed@.len() == 0);
                    }
                }
                let mut vi: usize = eff_ndl;
                while vi < pos_len && vi - eff_ndl < dl_len
                    invariant
                        eff_ndl <= vi <= pos_len,
                        vi - eff_ndl <= dl_len,
                        h_def ==> (vars.model() == old(vars).model() && passed@.len() == 0),
                        (attr_name is None && kw_args@.len() == 0 && fitting_plain_call(
                            *cs,
                            old(vars).model(),
                            c as int,
                            subr.model(),
                            pos_args@,
                            fuel as nat,
                        )) ==> vars.model() == old(vars).model(),
                        pos_len == pos_args@.len(),
                        dl_len == subr.default_params@.len(),
                        c < cs.arr@.len(),
                        old(vars).model().len() <= vars.model().len(),
                        forall|k: int|
                            skip <= k < skip + eff_ndl && (
                            #[trigger] subr.model().non_default_params[k]).name is Some
                                ==> seq_contains_name(
                                passed@,
                                subr.model().non_default_params[k].name.unwrap(),
                            ),
                        forall|k: int|
                            0 <= k < vi - eff_ndl && (
                            #[trigger] subr.model().default_params[k]).name is Some
                                ==> seq_contains_name(
                                passed@,
                                subr.model().default_params[k].name.unwrap(),
                            ),
                    decreases pos_len - vi,
                {
                    let di = vi - eff_ndl;
                    let ghost passed_pre = passed@;
                    match substitute_pos_arg(
                        cs,
                        vars,
                        c,
                        &pos_args[vi],
                        &subr.default_params[di],
                        &mut passed,
                        fuel,
                    ) {
                        Result::Ok(()) => {},
                        Result::Err(e) => {
                            return Result::Err(e);
                        },
                    }
                    proof {
                        lemma_subr_model(*subr);
                        assert(passed@.subrange(0, passed_pre.len() as int) =~= passed_pre);
                        lemma_contains_name_extended(passed_pre, passed@);
                        if subr.model().default_params[di as int].name is Some {
                            assert(passed@[passed@.len() - 1]@
                                == subr.model().default_params[di as int].name.unwrap());
                        }
                    }
                    vi += 1;
                }
                proof {
                    assert(vi == pos_len || vi - eff_ndl == dl_len);
                }
            }
            let ghost pos_total = pos_args@.len() as nat;
            proof {
                lemma_subr_model(*subr);
            }
            let ghost bound_defaults: int = if subr.var_params.is_some() {
                0
            } else if pos_total >= eff_ndl && pos_total - eff_ndl <= dl_len {
                pos_total - eff_ndl
            } else {
                dl_len as int
            };
            let mut ki: usize = 0;
            while ki < kw_len
                invariant
                    ki <= kw_len,
                    kw_len == kw_args@.len(),
                    h_def ==> (vars.model() == old(vars).model() && passed@.len() == 0),
                        (attr_name is None && kw_args@.len() == 0 && fitting_plain_call(
                            *cs,
                            old(vars).model(),
                            c as int,
                            subr.model(),
                            pos_args@,
                            fuel as nat,
                        )) ==> vars.model() == old(vars).model(),
                    c < cs.arr@.len(),
                    old(vars).model().len() <= vars.model().len(),
                    forall|k: int|
                        skip <= k < skip + eff_ndl && (
                        #[trigger] subr.model().non_default_params[k]).name is Some
                            ==> seq_contains_name(
                            passed@,
                            subr.model().non_default_params[k].name.unwrap(),
                        ),
                    forall|k: int|
                        0 <= k < bound_defaults && (
                        #[trigger] subr.model().default_params[k]).name is Some
                            ==> seq_contains_name(
                            passed@,
                            subr.model().default_params[k].name.unwrap(),
                        ),
                    forall|j: int|
                        0 <= j < ki ==> seq_contains_name(passed@, (#[trigger] kw_args@[j]).0@),
                    forall|j: int|
                        0 <= j < ki ==> !positionally_bound(
                            subr.model(),
                            attr_name is Some,
                            pos_total,
                            (#[trigger] kw_args@[j]).0@,
                        ),
                    forall|i2: int, j2: int|
                        0 <= i2 < j2 < ki ==> (#[trigger] kw_args@[i2]).0@ != (
                        #[trigger] kw_args@[j2]).0@,
                decreases kw_len - ki,
            {
                let ghost passed_pre = passed@;
                match substitute_kw_arg(
                    cs,
                    vars,
                    c,
                    &kw_args[ki].0,
                    &kw_args[ki].1,
                    &subr.default_params,
                    &mut passed,
                    fuel,
                ) {
                    Result::Ok(()) => {},
                    Result::Err(e) => {
                        return Result::Err(e);
                    },
                }
                proof {
                    let nm = kw_args@[ki as int].0@;
                    assert(!seq_contains_name(passed_pre, nm));
                    lemma_contains_name_extended(passed_pre, passed@);
                    assert(passed@[passed@.len() - 1]@ == nm);
                    assert forall|j: int|
                        0 <= j < ki + 1 implies !positionally_bound(
                        subr.model(),
                        attr_name is Some,
                        pos_total,
                        (#[trigger] kw_args@[j]).0@,
                    ) by {
                        if j == ki {
                            if positionally_bound(
                                subr.model(),
                                attr_name is Some,
                                pos_total,
                                nm,
                            ) {
                                assert(seq_contains_name(passed_pre, nm));
                            }
                        }
                    }
                }
                ki += 1;
            }
            let mut ni: usize = 0;
            while ni < dl_len
                invariant
                    ni <= dl_len,
                    dl_len == subr.default_params@.len(),
                    h_def ==> (vars.model() == old(vars).model() && passed@.len() == 0),
                    h_def ==> forall|k: int|
                        0 <= k < ni ==> ((#[trigger] subr.model().default_params[k]).default_t
                            matches Option::Some(d) ==> crate::solver::subtype_spec(
                            *cs,
                            old(vars).model(),
                            c as int,
                            *d,
                            *subr.model().default_params[k].t,
                            fuel as nat,
                        )),
                        (attr_name is None && kw_args@.len() == 0 && fitting_plain_call(
                            *cs,
                            old(vars).model(),
                            c as int,
                            subr.model(),
                            pos_args@,
                            fuel as nat,
                        )) ==> vars.model() == old(vars).model(),
                    c < cs.arr@.len(),
                    old(vars).model().len() <= vars.model().len(),
                decreases dl_len - ni,
            {
                let unbound_default = match &subr.default_params[ni].name {
                    Option::Some(nm) => !contains_name(&passed, nm),
                    Option::None => false,
                };
                proof {
                    lemma_subr_model(*subr);
                }
                if unbound_default {
                    if let Option::Some(dt) = &subr.default_params[ni].default_t {
                        let ghost vm_pre = vars.model();
                        match crate::solver::sub_unify(
                            cs,
                            vars,
                            c,
                            dt,
                            &subr.default_params[ni].t,
                            fuel,
                        ) {
                            Result::Ok(()) => {},
                            Result::Err(e) => {
                                proof {
                                    if h_def {
                                        assert(subr.model().default_params[ni as int].default_t
                                            == Option::Some(Box::new(dt.model())));
                                        assert(!crate::solver::subtype_spec(
                                            *cs,
                                            old(vars).model(),
                                            c as int,
                                            dt.model(),
                                            subr.default_params@[ni as int].t.model(),
                                            fuel as nat,
                                        ));
                                        assert(!defaults_all_fit(
                                            *cs,
                                            old(vars).model(),
                                            c as int,
                                            subr.model(),
                                            fuel as nat,
                                        ));
                                    }
                                }
                                return Result::Err(e);
                            },
                        }
                    }
                }
                ni += 1;
            }
            return Result::Ok(());
        },
        _ => {
            return Result::Err(TyCheckError::NotCallable { found: clone_type(instance) });
        },
    }
}

/// A name list only extended at the end keeps holding every name it
/// held.
pub proof fn lemma_contains_name_extended(pre: Seq<String>, post: Seq<String>)
    requires
        pre.len() <= post.len(),
        post.subrange(0, pre.len() as int) == pre,
    ensures
        forall|n: Seq<char>| seq_contains_name(pre, n) ==> seq_contains_name(post, n),
{
    assert forall|n: Seq<char>| seq_contains_name(pre, n) implies seq_contains_name(post, n) by {
        let i = choose|i: int| 0 <= i < pre.len() && (#[trigger] pre[i])@ == n;
        assert(post[i] == pre[i]);
    }
}

/// Whether binding `pos_len` positional arguments against the signature
/// consumes a parameter named `nm`: the named non-default parameters the
/// explicit arguments fill, and, without a variadic parameter, the
/// default parameters filled positionally by the surplus.
pub open spec fn positionally_bound(
    s: crate::ty::SubrModel,
    has_attr: bool,
    pos_len: nat,
    nm: Seq<char>,
) -> bool {
    let skip: int = if has_attr && subr_is_method(s) {
        1
    } else {
        0
    };
    let eff = effective_nd(s, has_attr) as int;
    let surplus: int = if pos_len >= eff {
        pos_len - eff
    } else {
        0
    };
    let db: int = if s.var_params is Some {
        0
    } else if surplus <= s.default_params.len() {
        surplus
    } else {
        s.default_params.len() as int
    };
    (exists|k: int|
        skip <= k < skip + eff && (#[trigger] s.non_default_params[k]).name == Option::Some(nm))
        || (exists|k: int|
        0 <= k < db && (#[trigger] s.default_params[k]).name == Option::Some(nm))
}

/// A positional phase the binder owes success on: exactly as many
/// positional arguments as non-default parameters, no variadic
/// parameter, every argument on a pair the comparison only decides and
/// lying below its parameter, and no two parameters sharing a name.
pub open spec fn fitting_pos_phase(
    cs: Contexts,
    m: Seq<crate::free::FreeKindModel>,
    c: int,
    s: crate::ty::SubrModel,
    pos: Seq<Expr>,
    fuel: nat,
) -> bool {
    &&& s.var_params is None
    &&& pos.len() == s.non_default_params.len()
    &&& forall|i: int|
        0 <= i < pos.len() ==> crate::solver::plain_pair(
            (#[trigger] pos[i]).t_spec(),
            *s.non_default_params[i].t,
        )
    &&& forall|i: int|
        0 <= i < pos.len() ==> crate::solver::subtype_spec(
            cs,
            m,
            c,
            (#[trigger] pos[i]).t_spec(),
            *s.non_default_params[i].t,
            fuel,
        )
    &&& forall|i: int, j: int|
        0 <= i < j < s.non_default_params.len() ==> !((
        #[trigger] s.non_default_params[i]).name is Some && s.non_default_params[i].name == (
        #[trigger] s.non_default_params[j]).name)
}

/// A call the binder owes success on: a fitting positional phase with
/// no default parameters left to check.
pub open spec fn fitting_plain_call(
    cs: Contexts,
    m: Seq<crate::free::FreeKindModel>,
    c: int,
    s: crate::ty::SubrModel,
    pos: Seq<Expr>,
    fuel: nat,
) -> bool {
    fitting_pos_phase(cs, m, c, s, pos, fuel) && s.default_params.len() == 0
}

/// Whether every declared default's sanity comparison only decides: a
/// parameter carrying a default value type is named and pairs plainly
/// with its own type.
pub open spec fn defaults_decidable(s: crate::ty::SubrModel) -> bool {
    forall|k: int|
        0 <= k < s.default_params.len() ==> match (#[trigger] s.default_params[k]).default_t {
            Option::Some(d) => s.default_params[k].name is Some && crate::solver::plain_pair(
                *d,
                *s.default_params[k].t,
            ),
            Option::None => true,
        }
}

/// Whether every declared default's value type lies below its
/// parameter's type.
pub open spec fn defaults_all_fit(
    cs: Contexts,
    m: Seq<crate::free::FreeKindModel>,
    c: int,
    s: crate::ty::SubrModel,
    fuel: nat,
) -> bool {
    forall|k: int|
        0 <= k < s.default_params.len() ==> match (#[trigger] s.default_params[k]).default_t {
            Option::Some(d) => crate::solver::subtype_spec(
                cs,
                m,
                c,
                *d,
                *s.default_params[k].t,
                fuel,
            ),
            Option::None => true,
        }
}

/// The number of non-default parameters explicit positional arguments
/// must fill: the implicit receiver of a method call is bound by the
/// object, not by the list.
pub open spec fn effective_nd(s: crate::ty::SubrModel, has_attr: bool) -> nat {
    if has_attr && subr_is_method(s) {
        (s.non_default_params.len() - 1) as nat
    } else {
        s.non_default_params.len()
    }
}

/// The types of a list, as a multiset: what an order-changing pass must
/// preserve.
pub open spec fn type_ms(s: Seq<Type>) -> Multiset<TypeModel> {
    models_of(s).to_multiset()
}

/// Pushing a type inserts its model into the multiset.
pub proof fn lemma_type_ms_push(s: Seq<Type>, t: Type)
    ensures
        type_ms(s.push(t)) =~= type_ms(s).insert(t.model()),
{
    broadcast use vstd::seq_lib::group_seq_lib_default;

    assert(models_of(s.push(t)) =~= models_of(s).push(t.model()));
    models_of(s).to_multiset_ensures();
}

/// Inserting a type at any position inserts its model into the multiset.
pub proof fn lemma_type_ms_insert(s: Seq<Type>, i: int, t: Type)
    requires
        0 <= i <= s.len(),
    ensures
        type_ms(s.insert(i, t)) =~= type_ms(s).insert(t.model()),
{
    let s2 = s.insert(i, t);
    let m2 = models_of(s2);
    let m = models_of(s);
    assert(m2.remove(i) =~= m);
    assert(m2[i] == t.model());
    m2.to_multiset_ensures();
    m.to_multiset_ensures();
    assert(m2.remove(i).to_multiset() =~= m2.to_multiset().remove(m2[i]));
    assert(m.to_multiset() == m2.to_multiset().remove(t.model()));
    assert(m2.contains(t.model()));
    assert(m2.to_multiset().count(t.model()) > 0);
    assert(m2.to_multiset() =~= m.to_multiset().insert(t.model()));
}

/// Removing a type removes its model from the multiset.
pub proof fn lemma_type_ms_remove(s: Seq<Type>, i: int)
    requires
        0 <= i < s.len(),
    ensures
        type_ms(s.remove(i)) =~= type_ms(s).remove(s[i].model()),
        type_ms(s).count(s[i].model()) > 0,
{
    let m = models_of(s);
    assert(models_of(s.remove(i)) =~= m.remove(i));
    m.to_multiset_ensures();
    assert(m.remove(i).to_multiset() =~= m.to_multiset().remove(m[i]));
    assert(m[i] == s[i].model());
    assert(m.contains(s[i].model()));
}

/// The models of all bucketed types together.
pub open spec fn buckets_ms(bs: Seq<Vec<Type>>) -> Multiset<TypeModel>
    decreases bs.len(),
{
    if bs.len() == 0 {
        Multiset::empty()
    } else {
        type_ms(bs[0]@).add(buckets_ms(bs.subrange(1, bs.len() as int)))
    }
}

/// Growing one bucket by a type inserts its model into the whole.
pub proof fn lemma_buckets_ms_update(bs: Seq<Vec<Type>>, k: int, nb: Vec<Type>, t: Type)
    requires
        0 <= k < bs.len(),
        type_ms(nb@) =~= type_ms(bs[k]@).insert(t.model()),
    ensures
        buckets_ms(bs.update(k, nb)) =~= buckets_ms(bs).insert(t.model()),
    decreases bs.len(),
{
    let bs2 = bs.update(k, nb);
    if k == 0 {
        assert(bs2.subrange(1, bs2.len() as int) =~= bs.subrange(1, bs.len() as int));
        assert(bs2[0] == nb);
        assert(buckets_ms(bs2) =~= type_ms(bs[0]@).insert(t.model()).add(
            buckets_ms(bs.subrange(1, bs.len() as int)),
        ));
        assert(type_ms(bs[0]@).insert(t.model()).add(
            buckets_ms(bs.subrange(1, bs.len() as int)),
        ) =~= type_ms(bs[0]@).add(buckets_ms(bs.subrange(1, bs.len() as int))).insert(
            t.model(),
        ));
    } else {
        assert(bs2[0] == bs[0]);
        assert(bs2.subrange(1, bs2.len() as int) =~= bs.subrange(1, bs.len() as int).update(
            k - 1,
            nb,
        ));
        lemma_buckets_ms_update(bs.subrange(1, bs.len() as int), k - 1, nb, t);
        let rest = bs.subrange(1, bs.len() as int);
        assert(buckets_ms(bs2) =~= type_ms(bs[0]@).add(buckets_ms(rest).insert(t.model())));
        assert(type_ms(bs[0]@).add(buckets_ms(rest).insert(t.model())) =~= type_ms(
            bs[0]@,
        ).add(buckets_ms(rest)).insert(t.model()));
    }
}

/// Opening a new bucket with one type inserts its model into the whole.
pub proof fn lemma_buckets_ms_push(bs: Seq<Vec<Type>>, nb: Vec<Type>, t: Type)
    requires
        type_ms(nb@) =~= Multiset::empty().insert(t.model()),
    ensures
        buckets_ms(bs.push(nb)) =~= buckets_ms(bs).insert(t.model()),
    decreases bs.len(),
{
    let bs2 = bs.push(nb);
    if bs.len() == 0 {
        assert(bs2.subrange(1, 1) =~= Seq::<Vec<Type>>::empty());
        assert(bs2[0] == nb);
        assert(buckets_ms(bs2.subrange(1, 1)) =~= Multiset::<TypeModel>::empty());
        assert(buckets_ms(bs2) =~= type_ms(nb@).add(Multiset::empty()));
        assert(buckets_ms(bs2) =~= type_ms(nb@));
        assert(buckets_ms(bs) =~= Multiset::empty());
        assert(buckets_ms(bs).insert(t.model()) =~= Multiset::empty().insert(t.model()));
    } else {
        assert(bs2[0] == bs[0]);
        assert(bs2.subrange(1, bs2.len() as int) =~= bs.subrange(1, bs.len() as int).push(nb));
        lemma_buckets_ms_push(bs.subrange(1, bs.len() as int), nb, t);
        let rest = bs.subrange(1, bs.len() as int);
        assert(buckets_ms(bs2) =~= type_ms(bs[0]@).add(buckets_ms(rest).insert(t.model())));
        assert(type_ms(bs[0]@).add(buckets_ms(rest).insert(t.model())) =~= type_ms(
            bs[0]@,
        ).add(buckets_ms(rest)).insert(t.model()));
    }
}

/// Whether two types are related: one lies below the other.
pub open spec fn related_spec(
    cs: Contexts,
    m: Seq<crate::free::FreeKindModel>,
    c: int,
    a: TypeModel,
    b: TypeModel,
    fuel: nat,
) -> bool {
    crate::solver::subtype_spec(cs, m, c, a, b, fuel) || crate::solver::subtype_spec(
        cs,
        m,
        c,
        b,
        a,
        fuel,
    )
}

/// Whether `a` lies strictly above `b`.
pub open spec fn strictly_above_spec(
    cs: Contexts,
    m: Seq<crate::free::FreeKindModel>,
    c: int,
    a: TypeModel,
    b: TypeModel,
    fuel: nat,
) -> bool {
    crate::solver::subtype_spec(cs, m, c, b, a, fuel) && !crate::solver::subtype_spec(
        cs,
        m,
        c,
        a,
        b,
        fuel,
    )
}

/// Whether every type of the bucket is related to `t`.
pub open spec fn all_related_spec(
    cs: Contexts,
    m: Seq<crate::free::FreeKindModel>,
    c: int,
    bucket: Seq<TypeModel>,
    t: TypeModel,
    fuel: nat,
) -> bool
    decreases bucket.len(),
{
    if bucket.len() == 0 {
        true
    } else {
        related_spec(cs, m, c, bucket[0], t, fuel) && all_related_spec(
            cs,
            m,
            c,
            bucket.subrange(1, bucket.len() as int),
            t,
            fuel,
        )
    }
}

/// The first bucket all of whose types are related to `t`.
pub open spec fn first_fit_spec(
    cs: Contexts,
    m: Seq<crate::free::FreeKindModel>,
    c: int,
    bs: Seq<Seq<TypeModel>>,
    t: TypeModel,
    fuel: nat,
) -> Option<int>
    decreases bs.len(),
{
    if bs.len() == 0 {
        Option::None
    } else if all_related_spec(cs, m, c, bs[0], t, fuel) {
        Option::Some(0int)
    } else {
        match first_fit_spec(cs, m, c, bs.subrange(1, bs.len() as int), t, fuel) {
            Option::Some(k) => Option::Some(k + 1),
            Option::None => Option::None,
        }
    }
}

/// One greedy bucketing step: the type joins the first bucket it is
/// related throughout, else opens a new bucket.
pub open spec fn buckets_step_spec(
    cs: Contexts,
    m: Seq<crate::free::FreeKindModel>,
    c: int,
    bs: Seq<Seq<TypeModel>>,
    t: TypeModel,
    fuel: nat,
) -> Seq<Seq<TypeModel>> {
    match first_fit_spec(cs, m, c, bs, t, fuel) {
        Option::Some(k) => bs.update(k, bs[k].push(t)),
        Option::None => bs.push(seq![t]),
    }
}

/// The greedy bucket partition of a type list, left to right.
pub open spec fn buckets_build_spec(
    cs: Contexts,
    m: Seq<crate::free::FreeKindModel>,
    c: int,
    ts: Seq<TypeModel>,
    fuel: nat,
) -> Seq<Seq<TypeModel>>
    decreases ts.len(),
{
    if ts.len() == 0 {
        Seq::empty()
    } else {
        buckets_step_spec(
            cs,
            m,
            c,
            buckets_build_spec(cs, m, c, ts.drop_last(), fuel),
            ts.last(),
            fuel,
        )
    }
}

/// The position insertion sorting puts `x` at: before the first type it
/// lies below.
pub open spec fn ins_pos_spec(
    cs: Contexts,
    m: Seq<crate::free::FreeKindModel>,
    c: int,
    sorted: Seq<TypeModel>,
    x: TypeModel,
    fuel: nat,
) -> int
    decreases sorted.len(),
{
    if sorted.len() == 0 {
        0
    } else if crate::solver::subtype_spec(cs, m, c, x, sorted[0], fuel) {
        0
    } else {
        1 + ins_pos_spec(cs, m, c, sorted.subrange(1, sorted.len() as int), x, fuel)
    }
}

/// Insertion sort of one bucket, a subtype before what it lies below.
pub open spec fn insort_spec(
    cs: Contexts,
    m: Seq<crate::free::FreeKindModel>,
    c: int,
    bucket: Seq<TypeModel>,
    fuel: nat,
) -> Seq<TypeModel>
    decreases bucket.len(),
{
    if bucket.len() == 0 {
        Seq::empty()
    } else {
        let rest = insort_spec(cs, m, c, bucket.drop_last(), fuel);
        rest.insert(ins_pos_spec(cs, m, c, rest, bucket.last(), fuel), bucket.last())
    }
}

/// The sorted buckets, one after the other.
pub open spec fn concat_sorted_spec(
    cs: Contexts,
    m: Seq<crate::free::FreeKindModel>,
    c: int,
    bs: Seq<Seq<TypeModel>>,
    fuel: nat,
) -> Seq<TypeModel>
    decreases bs.len(),
{
    if bs.len() == 0 {
        Seq::empty()
    } else {
        insort_spec(cs, m, c, bs[0], fuel) + concat_sorted_spec(
            cs,
            m,
            c,
            bs.subrange(1, bs.len() as int),
            fuel,
        )
    }
}

/// The rightmost position in `(idx, q)` holding a strict subtype of the
/// type at `idx`.
pub open spec fn slide_rpos_spec(
    cs: Contexts,
    m: Seq<crate::free::FreeKindModel>,
    c: int,
    s: Seq<TypeModel>,
    idx: int,
    q: int,
    fuel: nat,
) -> Option<int>
    decreases q - idx,
{
    if q <= idx + 1 {
        Option::None
    } else if strictly_above_spec(cs, m, c, s[idx], s[q - 1], fuel) {
        Option::Some(q - 1)
    } else {
        slide_rpos_spec(cs, m, c, s, idx, q - 1, fuel)
    }
}

/// One slide step: the type at `idx` moves to sit just after the
/// rightmost strict subtype to its right, if any.
pub open spec fn slide_step_spec(
    cs: Contexts,
    m: Seq<crate::free::FreeKindModel>,
    c: int,
    s: Seq<TypeModel>,
    idx: int,
    fuel: nat,
) -> Seq<TypeModel> {
    match slide_rpos_spec(cs, m, c, s, idx, s.len() as int, fuel) {
        Option::Some(p) => s.remove(idx).insert(p, s[idx]),
        Option::None => s,
    }
}

/// The single left-to-right stabilization pass from position `idx` on.
pub open spec fn slide_spec(
    cs: Contexts,
    m: Seq<crate::free::FreeKindModel>,
    c: int,
    s: Seq<TypeModel>,
    idx: int,
    total: int,
    fuel: nat,
) -> Seq<TypeModel>
    decreases total - idx,
{
    if idx >= total || idx < 0 {
        s
    } else {
        slide_spec(cs, m, c, slide_step_spec(cs, m, c, s, idx, fuel), idx + 1, total, fuel)
    }
}

/// The whole specificity ordering: greedy buckets, each sorted, joined,
/// then stabilized by one slide pass.
pub open spec fn sort_types_spec(
    cs: Contexts,
    m: Seq<crate::free::FreeKindModel>,
    c: int,
    ts: Seq<TypeModel>,
    fuel: nat,
) -> Seq<TypeModel> {
    let cat = concat_sorted_spec(cs, m, c, buckets_build_spec(cs, m, c, ts, fuel), fuel);
    slide_spec(cs, m, c, cat, 0, cat.len() as int, fuel)
}

/// Extending a prefix by one type appends that type's scope, if it has
/// one.
pub proof fn lemma_super_ctx_list_snoc(
    cs: Contexts,
    m: Seq<crate::free::FreeKindModel>,
    c: int,
    ss: Seq<TypeModel>,
    k: int,
    fuel: nat,
)
    requires
        0 <= k < ss.len(),
    ensures
        cs.super_ctx_list_spec(m, c, ss.subrange(0, k + 1), fuel) == cs.super_ctx_list_spec(
            m,
            c,
            ss.subrange(0, k),
            fuel,
        ) + (match cs.nominal_ctx_spec(m, c, ss[k], fuel) {
            Option::Some(cid) => seq![cid],
            Option::None => Seq::<CtxId>::empty(),
        }),
    decreases k,
{
    let s1 = ss.subrange(0, k + 1);
    let s0 = ss.subrange(0, k);
    if k == 0 {
        assert(s1 =~= seq![ss[0]]);
        assert(s0 =~= Seq::<TypeModel>::empty());
        assert(s1.subrange(1, 1) =~= Seq::<TypeModel>::empty());
        assert(cs.super_ctx_list_spec(m, c, s1, fuel) =~= cs.super_ctx_list_spec(m, c, s0, fuel)
            + (match cs.nominal_ctx_spec(m, c, ss[0], fuel) {
            Option::Some(cid) => seq![cid],
            Option::None => Seq::<CtxId>::empty(),
        }));
    } else {
        lemma_super_ctx_list_snoc(cs, m, c, ss.subrange(1, ss.len() as int), k - 1, fuel);
        assert(s1[0] == ss[0]);
        assert(s0[0] == ss[0]);
        assert(s1.subrange(1, k + 1) =~= ss.subrange(1, ss.len() as int).subrange(0, k));
        assert(s0.subrange(1, k) =~= ss.subrange(1, ss.len() as int).subrange(0, k - 1));
        assert(ss.subrange(1, ss.len() as int)[k - 1] == ss[k]);
        assert(cs.super_ctx_list_spec(m, c, s1, fuel) =~= cs.super_ctx_list_spec(m, c, s0, fuel)
            + (match cs.nominal_ctx_spec(m, c, ss[k], fuel) {
            Option::Some(cid) => seq![cid],
            Option::None => Seq::<CtxId>::empty(),
        }));
    }
}

/// The models of each bucket's types.
pub open spec fn bucket_models(bufs: Seq<Vec<Type>>) -> Seq<Seq<TypeModel>> {
    Seq::new(bufs.len(), |k: int| models_of(bufs[k]@))
}

/// The first fitting bucket is the one the forward scan first accepts.
pub proof fn lemma_first_fit_at(
    cs: Contexts,
    m: Seq<crate::free::FreeKindModel>,
    c: int,
    bs: Seq<Seq<TypeModel>>,
    t: TypeModel,
    k: int,
    fuel: nat,
)
    requires
        0 <= k <= bs.len(),
        forall|j: int| 0 <= j < k ==> !all_related_spec(cs, m, c, #[trigger] bs[j], t, fuel),
        k < bs.len() ==> all_related_spec(cs, m, c, bs[k], t, fuel),
    ensures
        k < bs.len() ==> first_fit_spec(cs, m, c, bs, t, fuel) == Option::Some(k),
        k == bs.len() ==> first_fit_spec(cs, m, c, bs, t, fuel) is None,
    decreases k, bs.len(),
{
    if bs.len() > 0 && k > 0 {
        let rest = bs.subrange(1, bs.len() as int);
        assert(forall|j: int| 0 <= j < k - 1 ==> rest[j] == bs[j + 1]);
        if k - 1 < rest.len() {
            assert(rest[k - 1] == bs[k]);
        }
        lemma_first_fit_at(cs, m, c, rest, t, k - 1, fuel);
    } else if bs.len() > 0 && k == 0 && k == bs.len() {
    } else if bs.len() == 0 {
    }
}

/// The insertion position is where the forward scan first finds the
/// element below the sorted type.
pub proof fn lemma_ins_pos_at(
    cs: Contexts,
    m: Seq<crate::free::FreeKindModel>,
    c: int,
    sorted: Seq<TypeModel>,
    x: TypeModel,
    p: int,
    fuel: nat,
)
    requires
        0 <= p <= sorted.len(),
        forall|j: int|
            0 <= j < p ==> !crate::solver::subtype_spec(cs, m, c, x, #[trigger] sorted[j], fuel),
        p < sorted.len() ==> crate::solver::subtype_spec(cs, m, c, x, sorted[p], fuel),
    ensures
        ins_pos_spec(cs, m, c, sorted, x, fuel) == p,
    decreases p,
{
    if sorted.len() > 0 && p > 0 {
        let rest = sorted.subrange(1, sorted.len() as int);
        assert(forall|j: int|
            0 <= j < p - 1 ==> rest[j] == sorted[j + 1]);
        if p - 1 < rest.len() {
            assert(rest[p - 1] == sorted[p]);
        }
        lemma_ins_pos_at(cs, m, c, rest, x, p - 1, fuel);
    }
}

/// The models of a list with one type inserted.
pub proof fn lemma_models_insert(s: Seq<Type>, i: int, x: Type)
    requires
        0 <= i <= s.len(),
    ensures
        models_of(s.insert(i, x)) =~= models_of(s).insert(i, x.model()),
{
    let li = s.insert(i, x);
    assert forall|k: int| 0 <= k < li.len() implies models_of(li)[k] == models_of(s).insert(
        i,
        x.model(),
    )[k] by {
        if k < i {
            assert(li[k] == s[k]);
        } else if k == i {
            assert(li[k] == x);
        } else {
            assert(li[k] == s[k - 1]);
        }
    }
}

/// The models of a list with one type removed.
pub proof fn lemma_models_remove(s: Seq<Type>, i: int)
    requires
        0 <= i < s.len(),
    ensures
        models_of(s.remove(i)) =~= models_of(s).remove(i),
{
    let lr = s.remove(i);
    assert forall|k: int| 0 <= k < lr.len() implies models_of(lr)[k] == models_of(s).remove(
        i,
    )[k] by {
        if k < i {
            assert(lr[k] == s[k]);
        } else {
            assert(lr[k] == s[k + 1]);
        }
    }
}

impl Contexts {
    /// Whether every type of the bucket is related to `t`; see
    /// [`all_related_spec`].
    #[verifier::loop_isolation(false)]
    fn all_related(&self, vars: &FreeVars, c: CtxId, b: &Vec<Type>, t: &Type, fuel: usize) -> (r:
        bool)
        requires
            c < self.arr@.len(),
        ensures
            r == all_related_spec(
                *self,
                vars.model(),
                c as int,
                models_of(b@),
                t.model(),
                fuel as nat,
            ),
    {
        let ghost bm = models_of(b@);
        let n = b.len();
        proof {
            assert(bm.subrange(0, n as int) =~= bm);
        }
        let mut i: usize = 0;
        while i < n
            invariant
                i <= n,
                all_related_spec(*self, vars.model(), c as int, bm, t.model(), fuel as nat)
                    == all_related_spec(
                    *self,
                    vars.model(),
                    c as int,
                    bm.subrange(i as int, n as int),
                    t.model(),
                    fuel as nat,
                ),
            decreases n - i,
        {
            proof {
                assert(bm.subrange(i as int, n as int)[0] == bm[i as int]);
                assert(bm.subrange(i as int, n as int).subrange(1, (n - i) as int)
                    =~= bm.subrange(i as int + 1, n as int));
            }
            if !crate::solver::related(self, vars, c, &b[i], t, fuel) {
                return false;
            }
            i += 1;
        }
        proof {
            assert(bm.subrange(n as int, n as int) =~= Seq::<TypeModel>::empty());
        }
        true
    }

    /// Sorts one bucket of pairwise related types, a subtype before what
    /// it is a subtype of; the bucket keeps exactly its types.  See
    /// [`insort_spec`].
    #[verifier::loop_isolation(false)]
    fn sort_bucket(&self, vars: &FreeVars, c: CtxId, b: &Vec<Type>, fuel: usize) -> (r: Vec<Type>)
        requires
            c < self.arr@.len(),
        ensures
            type_ms(r@) =~= type_ms(b@),
            models_of(r@) == insort_spec(
                *self,
                vars.model(),
                c as int,
                models_of(b@),
                fuel as nat,
            ),
    {
        let ghost bm = models_of(b@);
        let mut out: Vec<Type> = Vec::new();
        let n = b.len();
        proof {
            assert(models_of(out@) =~= Seq::<TypeModel>::empty());
            models_of(out@).to_multiset_ensures();
            assert(b@.subrange(0, 0) =~= Seq::<Type>::empty());
            assert(models_of(b@.subrange(0, 0)) =~= Seq::<TypeModel>::empty());
            assert(bm.subrange(0, 0) =~= Seq::<TypeModel>::empty());
        }
        let mut i: usize = 0;
        while i < n
            invariant
                i <= n,
                n == b@.len(),
                type_ms(out@) =~= type_ms(b@.subrange(0, i as int)),
                models_of(out@) == insort_spec(
                    *self,
                    vars.model(),
                    c as int,
                    bm.subrange(0, i as int),
                    fuel as nat,
                ),
            decreases n - i,
        {
            let x = clone_type(&b[i]);
            let m = out.len();
            let mut pos: usize = m;
            let mut p: usize = 0;
            while p < m
                invariant
                    p <= m,
                    pos <= m,
                    m == out@.len(),
                    pos == m ==> forall|j: int|
                        0 <= j < p ==> !crate::solver::subtype_spec(
                            *self,
                            vars.model(),
                            c as int,
                            b@[i as int].model(),
                            #[trigger] models_of(out@)[j],
                            fuel as nat,
                        ),
                    pos < m ==> (pos < p && crate::solver::subtype_spec(
                        *self,
                        vars.model(),
                        c as int,
                        b@[i as int].model(),
                        models_of(out@)[pos as int],
                        fuel as nat,
                    ) && forall|j: int|
                        0 <= j < pos ==> !crate::solver::subtype_spec(
                            *self,
                            vars.model(),
                            c as int,
                            b@[i as int].model(),
                            #[trigger] models_of(out@)[j],
                            fuel as nat,
                        )),
                decreases m - p,
            {
                if pos == m && subtype_of(self, vars, c, &x, &out[p], fuel) {
                    pos = p;
                }
                p += 1;
            }
            proof {
                lemma_ins_pos_at(
                    *self,
                    vars.model(),
                    c as int,
                    models_of(out@),
                    b@[i as int].model(),
                    pos as int,
                    fuel as nat,
                );
            }
            let ghost pre = out@;
            let ghost gx = x;
            if pos >= out.len() {
                out.push(x);
                proof {
                    lemma_type_ms_push(pre, gx);
                    assert(out@ =~= pre.insert(pre.len() as int, gx));
                    lemma_models_insert(pre, pre.len() as int, gx);
                }
            } else {
                out.insert(pos, x);
                proof {
                    lemma_type_ms_insert(pre, pos as int, gx);
                    lemma_models_insert(pre, pos as int, gx);
                }
            }
            proof {
                assert(gx.model() == b@[i as int].model());
                lemma_type_ms_insert(b@.subrange(0, i as int), i as int, b@[i as int]);
                assert(b@.subrange(0, i as int).insert(i as int, b@[i as int]) =~= b@.subrange(
                    0,
                    i as int + 1,
                ));
                assert(bm.subrange(0, i as int + 1).drop_last() =~= bm.subrange(0, i as int));
                assert(bm.subrange(0, i as int + 1).last() == bm[i as int]);
                assert(bm[i as int] == b@[i as int].model());
                assert(models_of(out@) =~= insort_spec(
                    *self,
                    vars.model(),
                    c as int,
                    bm.subrange(0, i as int + 1),
                    fuel as nat,
                ));
            }
            i += 1;
        }
        proof {
            assert(b@.subrange(0, n as int) =~= b@);
            assert(bm.subrange(0, n as int) =~= bm);
        }
        out
    }

    /// Orders a set of types by specificity for deterministic supertype
    /// search: pairwise related types share a bucket and are sorted
    /// inside it, buckets are concatenated, and one left-to-right pass
    /// then slides each type back past unrelated types to sit before the
    /// rightmost type it is a supertype of.  The result holds exactly
    /// the given types.
    #[verifier::loop_isolation(false)]
    #[verifier::rlimit(100)]
    pub fn sort_types(&self, vars: &FreeVars, c: CtxId, types: &Vec<Type>, fuel: usize) -> (r: Vec<
        Type,
    >)
        requires
            c < self.arr@.len(),
        ensures
            type_ms(r@) =~= type_ms(types@),
            r@.len() == types@.len(),
            models_of(r@) == sort_types_spec(
                *self,
                vars.model(),
                c as int,
                models_of(types@),
                fuel as nat,
            ),
    {
        let ghost tm = models_of(types@);
        let mut buffers: Vec<Vec<Type>> = Vec::new();
        let n = types.len();
        proof {
            assert(types@.subrange(0, 0) =~= Seq::<Type>::empty());
            assert(models_of(types@.subrange(0, 0)) =~= Seq::<TypeModel>::empty());
            models_of(types@.subrange(0, 0)).to_multiset_ensures();
            assert(tm.subrange(0, 0) =~= Seq::<TypeModel>::empty());
            assert(bucket_models(buffers@) =~= buckets_build_spec(
                *self,
                vars.model(),
                c as int,
                tm.subrange(0, 0),
                fuel as nat,
            ));
        }
        let mut i: usize = 0;
        while i < n
            invariant
                i <= n,
                n == types@.len(),
                buckets_ms(buffers@) =~= type_ms(types@.subrange(0, i as int)),
                bucket_models(buffers@) == buckets_build_spec(
                    *self,
                    vars.model(),
                    c as int,
                    tm.subrange(0, i as int),
                    fuel as nat,
                ),
            decreases n - i,
        {
            let t = &types[i];
            let nb = buffers.len();
            let mut k: usize = 0;
            let mut found: Option<usize> = Option::None;
            while k < nb
                invariant
                    k <= nb,
                    nb == buffers@.len(),
                    match found {
                        Option::Some(f) => f < nb && all_related_spec(
                            *self,
                            vars.model(),
                            c as int,
                            bucket_models(buffers@)[f as int],
                            types@[i as int].model(),
                            fuel as nat,
                        ) && forall|j: int|
                            0 <= j < f ==> !all_related_spec(
                                *self,
                                vars.model(),
                                c as int,
                                #[trigger] bucket_models(buffers@)[j],
                                types@[i as int].model(),
                                fuel as nat,
                            ),
                        Option::None => forall|j: int|
                            0 <= j < k ==> !all_related_spec(
                                *self,
                                vars.model(),
                                c as int,
                                #[trigger] bucket_models(buffers@)[j],
                                types@[i as int].model(),
                                fuel as nat,
                            ),
                    },
                decreases nb - k,
            {
                if found.is_none() && self.all_related(vars, c, &buffers[k], t, fuel) {
                    found = Option::Some(k);
                }
                k += 1;
            }
            proof {
                match found {
                    Option::Some(f) => {
                        lemma_first_fit_at(
                            *self,
                            vars.model(),
                            c as int,
                            bucket_models(buffers@),
                            types@[i as int].model(),
                            f as int,
                            fuel as nat,
                        );
                    },
                    Option::None => {
                        lemma_first_fit_at(
                            *self,
                            vars.model(),
                            c as int,
                            bucket_models(buffers@),
                            types@[i as int].model(),
                            nb as int,
                            fuel as nat,
                        );
                    },
                }
            }
            let ghost pre = buffers@;
            match found {
                Option::Some(k2) => {
                    if k2 < buffers.len() {
                        let ghost bpre = buffers@[k2 as int]@;
                        let x = clone_type(t);
                        let ghost gx = x;
                        buffers[k2].push(x);
                        proof {
                            lemma_type_ms_push(bpre, gx);
                            assert(buffers@ =~= pre.update(k2 as int, buffers@[k2 as int]));
                            assert(type_ms(buffers@[k2 as int]@) =~= type_ms(bpre).insert(
                                types@[i as int].model(),
                            ));
                            lemma_buckets_ms_update(
                                pre,
                                k2 as int,
                                buffers@[k2 as int],
                                types@[i as int],
                            );
                            assert(bpre.push(gx) =~= bpre.insert(bpre.len() as int, gx));
                            lemma_models_insert(bpre, bpre.len() as int, gx);
                            assert(models_of(buffers@[k2 as int]@) =~= models_of(bpre).push(
                                tm[i as int],
                            ));
                            assert(bucket_models(buffers@) =~= bucket_models(pre).update(
                                k2 as int,
                                bucket_models(pre)[k2 as int].push(tm[i as int]),
                            ));
                        }
                    }
                },
                Option::None => {
                    let x = clone_type(t);
                    let ghost gx = x;
                    let mut nbuf: Vec<Type> = Vec::new();
                    nbuf.push(x);
                    proof {
                        assert(models_of(Seq::<Type>::empty()) =~= Seq::<TypeModel>::empty());
                        models_of(Seq::<Type>::empty()).to_multiset_ensures();
                        lemma_type_ms_push(Seq::<Type>::empty(), gx);
                        assert(nbuf@ =~= Seq::<Type>::empty().push(gx));
                        assert(type_ms(nbuf@) =~= Multiset::empty().insert(
                            types@[i as int].model(),
                        ));
                    }
                    buffers.push(nbuf);
                    proof {
                        lemma_buckets_ms_push(pre, buffers@[pre.len() as int], types@[i as int]);
                        assert(models_of(nbuf@) =~= seq![tm[i as int]]);
                        assert(bucket_models(buffers@) =~= bucket_models(pre).push(
                            seq![tm[i as int]],
                        ));
                    }
                },
            }
            proof {
                lemma_type_ms_insert(types@.subrange(0, i as int), i as int, types@[i as int]);
                assert(types@.subrange(0, i as int).insert(i as int, types@[i as int])
                    =~= types@.subrange(0, i as int + 1));
                assert(tm.subrange(0, i as int + 1).drop_last() =~= tm.subrange(0, i as int));
                assert(tm.subrange(0, i as int + 1).last() == tm[i as int]);
                assert(bucket_models(buffers@) =~= buckets_build_spec(
                    *self,
                    vars.model(),
                    c as int,
                    tm.subrange(0, i as int + 1),
                    fuel as nat,
                ));
            }
            i += 1;
        }
        proof {
            assert(types@.subrange(0, n as int) =~= types@);
            assert(tm.subrange(0, n as int) =~= tm);
        }
        let ghost bs_final = bucket_models(buffers@);
        let mut concatenated: Vec<Type> = Vec::new();
        let nb2 = buffers.len();
        proof {
            assert(models_of(concatenated@) =~= Seq::<TypeModel>::empty());
            models_of(concatenated@).to_multiset_ensures();
            assert(buffers@.subrange(0, nb2 as int) =~= buffers@);
            assert(bucket_models(buffers@.subrange(0, nb2 as int)) =~= bs_final.subrange(
                0,
                nb2 as int,
            ));
            assert(bs_final.subrange(0, nb2 as int) =~= bs_final);
        }
        let mut bi: usize = 0;
        while bi < nb2
            invariant
                bi <= nb2,
                nb2 == buffers@.len(),
                bs_final == bucket_models(buffers@),
                type_ms(concatenated@).add(
                    buckets_ms(buffers@.subrange(bi as int, nb2 as int)),
                ) =~= buckets_ms(buffers@),
                concat_sorted_spec(*self, vars.model(), c as int, bs_final, fuel as nat)
                    == models_of(concatenated@) + concat_sorted_spec(
                    *self,
                    vars.model(),
                    c as int,
                    bs_final.subrange(bi as int, nb2 as int),
                    fuel as nat,
                ),
            decreases nb2 - bi,
        {
            let sorted = self.sort_bucket(vars, c, &buffers[bi], fuel);
            let ghost cpre = concatenated@;
            let m = sorted.len();
            let mut j: usize = 0;
            proof {
                assert(sorted@.subrange(0, 0) =~= Seq::<Type>::empty());
                assert(models_of(sorted@.subrange(0, 0)) =~= Seq::<TypeModel>::empty());
                models_of(sorted@.subrange(0, 0)).to_multiset_ensures();
                assert(models_of(concatenated@) =~= models_of(cpre) + models_of(
                    sorted@,
                ).subrange(0, 0));
            }
            while j < m
                invariant
                    j <= m,
                    m == sorted@.len(),
                    type_ms(concatenated@) =~= type_ms(cpre).add(
                        type_ms(sorted@.subrange(0, j as int)),
                    ),
                    models_of(concatenated@) == models_of(cpre) + models_of(sorted@).subrange(
                        0,
                        j as int,
                    ),
                decreases m - j,
            {
                let ghost ppre = concatenated@;
                let x = clone_type(&sorted[j]);
                let ghost gx = x;
                concatenated.push(x);
                proof {
                    lemma_type_ms_push(ppre, gx);
                    assert(gx.model() == sorted@[j as int].model());
                    lemma_type_ms_insert(
                        sorted@.subrange(0, j as int),
                        j as int,
                        sorted@[j as int],
                    );
                    assert(sorted@.subrange(0, j as int).insert(j as int, sorted@[j as int])
                        =~= sorted@.subrange(0, j as int + 1));
                    assert(concatenated@ =~= ppre.insert(ppre.len() as int, gx));
                    lemma_models_insert(ppre, ppre.len() as int, gx);
                    assert(models_of(concatenated@) =~= models_of(cpre) + models_of(
                        sorted@,
                    ).subrange(0, j as int + 1));
                }
                j += 1;
            }
            proof {
                assert(sorted@.subrange(0, m as int) =~= sorted@);
                assert(buffers@.subrange(bi as int, nb2 as int)[0] == buffers@[bi as int]);
                assert(buffers@.subrange(bi as int, nb2 as int).subrange(
                    1,
                    (nb2 - bi) as int,
                ) =~= buffers@.subrange(bi as int + 1, nb2 as int));
                assert(models_of(sorted@).subrange(0, m as int) =~= models_of(sorted@));
                assert(models_of(sorted@) == insort_spec(
                    *self,
                    vars.model(),
                    c as int,
                    bs_final[bi as int],
                    fuel as nat,
                ));
                assert(bs_final.subrange(bi as int, nb2 as int)[0] == bs_final[bi as int]);
                assert(bs_final.subrange(bi as int, nb2 as int).subrange(1, (nb2 - bi) as int)
                    =~= bs_final.subrange(bi as int + 1, nb2 as int));
                assert(models_of(concatenated@) + concat_sorted_spec(
                    *self,
                    vars.model(),
                    c as int,
                    bs_final.subrange(bi as int + 1, nb2 as int),
                    fuel as nat,
                ) =~= (models_of(cpre) + models_of(sorted@)) + concat_sorted_spec(
                    *self,
                    vars.model(),
                    c as int,
                    bs_final.subrange(bi as int + 1, nb2 as int),
                    fuel as nat,
                ));
                assert((models_of(cpre) + models_of(sorted@)) + concat_sorted_spec(
                    *self,
                    vars.model(),
                    c as int,
                    bs_final.subrange(bi as int + 1, nb2 as int),
                    fuel as nat,
                ) =~= models_of(cpre) + (models_of(sorted@) + concat_sorted_spec(
                    *self,
                    vars.model(),
                    c as int,
                    bs_final.subrange(bi as int + 1, nb2 as int),
                    fuel as nat,
                )));
            }
            bi += 1;
        }
        proof {
            assert(buffers@.subrange(nb2 as int, nb2 as int) =~= Seq::<Vec<Type>>::empty());
        }
        let ghost cat = models_of(concatenated@);
        // one left-to-right stabilization pass: each type slides rightward
        // to sit just after the rightmost type it is a strict supertype
        // of, passing unrelated types without disturbing them
        let total = concatenated.len();
        let mut idx: usize = 0;
        while idx < concatenated.len()
            invariant
                concatenated@.len() == total,
                type_ms(concatenated@) =~= type_ms(types@),
                slide_spec(*self, vars.model(), c as int, cat, 0, total as int, fuel as nat)
                    == slide_spec(
                    *self,
                    vars.model(),
                    c as int,
                    models_of(concatenated@),
                    idx as int,
                    total as int,
                    fuel as nat,
                ),
            decreases total - idx,
        {
            let ghost s0 = models_of(concatenated@);
            let cur = clone_type(&concatenated[idx]);
            let mut posr: Option<usize> = Option::None;
            let mut q: usize = total;
            while q > idx + 1
                invariant
                    idx + 1 <= q <= total,
                    idx < total,
                    total == concatenated@.len(),
                    s0 == models_of(concatenated@),
                    cur.model() == s0[idx as int],
                    match posr {
                        Option::Some(p) => idx < p < total && slide_rpos_spec(
                            *self,
                            vars.model(),
                            c as int,
                            s0,
                            idx as int,
                            total as int,
                            fuel as nat,
                        ) == Option::Some(p as int),
                        Option::None => slide_rpos_spec(
                            *self,
                            vars.model(),
                            c as int,
                            s0,
                            idx as int,
                            total as int,
                            fuel as nat,
                        ) == slide_rpos_spec(
                            *self,
                            vars.model(),
                            c as int,
                            s0,
                            idx as int,
                            q as int,
                            fuel as nat,
                        ),
                    },
                decreases q,
            {
                let strictly_above = crate::solver::supertype_of(
                    self,
                    vars,
                    c,
                    &cur,
                    &concatenated[q - 1],
                    fuel,
                ) && !subtype_of(self, vars, c, &cur, &concatenated[q - 1], fuel);
                if posr.is_none() && strictly_above {
                    posr = Option::Some(q - 1);
                }
                q -= 1;
            }
            if let Option::Some(pos) = posr {
                let ghost spre = concatenated@;
                let moved = concatenated.remove(idx);
                let ghost smid = concatenated@;
                proof {
                    lemma_type_ms_remove(spre, idx as int);
                    lemma_models_remove(spre, idx as int);
                }
                concatenated.insert(pos, moved);
                proof {
                    lemma_type_ms_insert(smid, pos as int, spre[idx as int]);
                    assert(type_ms(concatenated@) =~= type_ms(spre));
                    lemma_models_insert(smid, pos as int, spre[idx as int]);
                    assert(models_of(concatenated@) =~= slide_step_spec(
                        *self,
                        vars.model(),
                        c as int,
                        s0,
                        idx as int,
                        fuel as nat,
                    ));
                }
            } else {
                proof {
                    assert(models_of(concatenated@) == slide_step_spec(
                        *self,
                        vars.model(),
                        c as int,
                        s0,
                        idx as int,
                        fuel as nat,
                    ));
                }
            }
            idx += 1;
        }
        proof {
            models_of(concatenated@).to_multiset_ensures();
            models_of(types@).to_multiset_ensures();
            assert(cat.len() == total as int);
        }
        concatenated
    }
}

/// A named type-variable bound of a scope's parameter.
#[derive(Debug)]
pub struct Bound {
    pub name: String,
    pub t: Type,
}

/// The bound each named parameter contributes, in declaration order:
/// its name paired with its binding's type.
pub open spec fn bounds_spec(ps: Seq<(Option<String>, VarInfo)>) -> Seq<(Seq<char>, TypeModel)>
    decreases ps.len(),
{
    if ps.len() == 0 {
        Seq::empty()
    } else {
        let rest = bounds_spec(ps.subrange(1, ps.len() as int));
        match ps[0].0 {
            Option::Some(n) => seq![(n@, ps[0].1.t.model())] + rest,
            Option::None => rest,
        }
    }
}

/// The models of a bound list, in order.
pub open spec fn bound_models(bs: Seq<Bound>) -> Seq<(Seq<char>, TypeModel)> {
    Seq::new(bs.len(), |i: int| (bs[i].name@, bs[i].t.model()))
}

/// Models distribute over concatenation of bound lists.
pub proof fn lemma_bound_models_concat(a: Seq<Bound>, b: Seq<Bound>)
    ensures
        bound_models(a + b) =~= bound_models(a) + bound_models(b),
{
    assert forall|k: int| 0 <= k < a.len() + b.len() implies bound_models(a + b)[k] == (
    bound_models(a) + bound_models(b))[k] by {
        if k < a.len() {
            assert((a + b)[k] == a[k]);
        } else {
            assert((a + b)[k] == b[k - a.len()]);
        }
    }
}

/// One step of the named-parameter filter.
pub proof fn lemma_bounds_spec_step(ps: Seq<(Option<String>, VarInfo)>, i: int)
    requires
        0 <= i < ps.len(),
    ensures
        ps[i].0 matches Option::Some(n) ==> bounds_spec(ps.subrange(0, i + 1)) =~= bounds_spec(
            ps.subrange(0, i),
        ) + seq![(n@, ps[i].1.t.model())],
        ps[i].0 is None ==> bounds_spec(ps.subrange(0, i + 1)) =~= bounds_spec(
            ps.subrange(0, i),
        ),
    decreases i,
{
    let s1 = ps.subrange(0, i + 1);
    let s0 = ps.subrange(0, i);
    if i == 0 {
        assert(s1 =~= seq![ps[0]]);
        assert(s0 =~= Seq::<(Option<String>, VarInfo)>::empty());
        assert(s1.subrange(1, 1) =~= Seq::<(Option<String>, VarInfo)>::empty());
    } else {
        lemma_bounds_spec_step(ps.subrange(1, ps.len() as int), i - 1);
        assert(s1[0] == ps[0]);
        assert(s0[0] == ps[0]);
        assert(s1.subrange(1, i + 1) =~= ps.subrange(1, ps.len() as int).subrange(0, i));
        assert(s0.subrange(1, i) =~= ps.subrange(1, ps.len() as int).subrange(0, i - 1));
        assert(ps.subrange(1, ps.len() as int)[i - 1] == ps[i]);
    }
}

/// How a parametric type's parameter position varies with subtyping.
#[derive(Clone, Copy, Debug, PartialEq, Eq, Structural)]
pub enum Variance {
    Covariant,
    Contravariant,
    Invariant,
}

impl Contexts {
    /// One bound per named parameter of scope `c`, in declaration order.
    #[verifier::loop_isolation(false)]
    pub fn bounds(&self, c: CtxId) -> (r: Vec<Bound>)
        requires
            c < self.arr@.len(),
        ensures
            bound_models(r@) == bounds_spec(self.arr@[c as int].params@),
    {
        let ps = &self.arr[c].params;
        let mut out: Vec<Bound> = Vec::new();
        let n = ps.len();
        proof {
            assert(ps@.subrange(0, 0) =~= Seq::<(Option<String>, VarInfo)>::empty());
            assert(bound_models(out@) =~= bounds_spec(ps@.subrange(0, 0)));
        }
        let mut i: usize = 0;
        while i < n
            invariant
                i <= n,
                bound_models(out@) == bounds_spec(ps@.subrange(0, i as int)),
            decreases n - i,
        {
            let ghost pre = out@;
            if let Option::Some(nm) = &ps[i].0 {
                out.push(Bound { name: nm.clone(), t: ps[i].1.t() });
            }
            proof {
                lemma_bounds_spec_step(ps@, i as int);
                if ps@[i as int].0 is Some {
                    assert(bound_models(out@) =~= bound_models(pre) + seq![
                        (out@[pre.len() as int].name@, out@[pre.len() as int].t.model()),
                    ]);
                }
                assert(bound_models(out@) =~= bounds_spec(ps@.subrange(0, i as int + 1)));
            }
            i += 1;
        }
        proof {
            assert(ps@.subrange(0, n as int) =~= ps@);
        }
        out
    }

    /// The bounds of the parameters that stand for type variables; each
    /// named parameter of a type scope does.
    pub fn type_params_bounds(&self, c: CtxId) -> (r: Vec<Bound>)
        requires
            c < self.arr@.len(),
        ensures
            bound_models(r@) == bounds_spec(self.arr@[c as int].params@),
    {
        self.bounds(c)
    }

    /// The variance of each parameter of the type scope `c`: a parameter
    /// named as the argument of a registered `Output` supertrait is
    /// covariant, of an `Input` supertrait contravariant, anything else
    /// invariant.
    #[verifier::loop_isolation(false)]
    pub fn type_params_variance(&self, c: CtxId) -> (r: Vec<Variance>)
        requires
            c < self.arr@.len(),
        ensures
            r@.len() == self.arr@[c as int].params@.len(),
    {
        proof {
            reveal_strlit("Input");
            reveal_strlit("Output");
        }
        let input_name = String::from_str("Input");
        let output_name = String::from_str("Output");
        let ps = &self.arr[c].params;
        let mut out: Vec<Variance> = Vec::new();
        let n = ps.len();
        let mut i: usize = 0;
        while i < n
            invariant
                i <= n,
                out@.len() == i,
            decreases n - i,
        {
            let mut v = Variance::Invariant;
            if let Option::Some(pname) = &ps[i].0 {
                let traits = &self.arr[c].super_traits;
                let classes = &self.arr[c].super_classes;
                let nt = traits.len();
                let mut j: usize = 0;
                while j < nt
                    invariant
                        j <= nt,
                    decreases nt - j,
                {
                    if let Option::Some(vv) = variance_of(
                        &traits[j],
                        pname,
                        &input_name,
                        &output_name,
                    ) {
                        v = vv;
                        j = nt;
                    } else {
                        j += 1;
                    }
                }
                if matches!(v, Variance::Invariant) {
                    let nc2 = classes.len();
                    let mut j2: usize = 0;
                    while j2 < nc2
                        invariant
                            j2 <= nc2,
                        decreases nc2 - j2,
                    {
                        if let Option::Some(vv) = variance_of(
                            &classes[j2],
                            pname,
                            &input_name,
                            &output_name,
                        ) {
                            v = vv;
                            j2 = nc2;
                        } else {
                            j2 += 1;
                        }
                    }
                }
            }
            out.push(v);
            i += 1;
        }
        out
    }

    /// Checks a declared variable signature against the type of the
    /// bound value: where a signature type is given, the value's type
    /// must unify below it.
    pub fn validate_var_sig_t(
        &self,
        vars: &mut FreeVars,
        c: CtxId,
        spec_t: &Option<Type>,
        body_t: &Type,
        fuel: usize,
    ) -> (r: Result<(), TyCheckError>)
        requires
            c < self.arr@.len(),
        ensures
            final(vars).model().len() == old(vars).model().len(),
            spec_t is None ==> r is Ok && final(vars).model() == old(vars).model(),
            r matches Result::Err(e) ==> e is TypeMismatch,
    {
        match spec_t {
            Option::Some(st) => {
                match crate::solver::sub_unify(self, vars, c, body_t, st, fuel) {
                    Result::Ok(()) => Result::Ok(()),
                    Result::Err(_) => {
                        let candidates = match self.get_candidates(vars, c, body_t, fuel) {
                            Option::Some(cands) => cands,
                            Option::None => Vec::new(),
                        };
                        Result::Err(TyCheckError::TypeMismatch {
                            expected: clone_type(st),
                            found: clone_type(body_t),
                            candidates,
                        })
                    },
                }
            },
            Option::None => Result::Ok(()),
        }
    }

    /// The candidate resolutions of a projection `lhs.rhs`: one for each
    /// recorded implementation whose trait covers the variable's upper
    /// bound, projecting through the implementing type.
    pub fn get_proj_candidates(
        &self,
        vars: &FreeVars,
        c: CtxId,
        lhs: &Type,
        rhs: &String,
        fuel: usize,
    ) -> (r: Vec<Type>)
        requires
            c < self.arr@.len(),
        ensures
            !(lhs.model() is FreeVar) ==> r@.len() == 0,
            lhs.model() matches TypeModel::FreeVar { id } ==> ((!(0 <= id < vars.model().len())
                || !(crate::free::constraint_of(vars.model()[id])
                matches Option::Some(crate::free::ConstraintModel::Sandwiched { .. })))
                ==> r@.len() == 0),
            forall|k: int|
                0 <= k < r@.len() ==> ((#[trigger] r@[k].model()) matches TypeModel::Proj {
                    rhs: rr,
                    ..
                } && rr == rhs@),
    {
        proof {
            crate::ty::lemma_model_variants(*lhs);
        }
        let sup = match lhs {
            Type::FreeVar(id) => {
                if *id < vars.len() {
                    match vars.get_sup(*id) {
                        Option::Some(sup) => sup,
                        Option::None => {
                            return Vec::new();
                        },
                    }
                } else {
                    return Vec::new();
                }
            },
            _ => {
                return Vec::new();
            },
        };
        let insts = self.get_trait_impls(vars, c, &sup, fuel);
        let mut out: Vec<Type> = Vec::new();
        let n = insts.len();
        let mut i: usize = 0;
        while i < n
            invariant
                i <= n,
                n == insts@.len(),
                c < self.arr@.len(),
                forall|k: int|
                    0 <= k < out@.len() ==> ((#[trigger] out@[k].model())
                        matches TypeModel::Proj { rhs: rr, .. } && rr == rhs@),
            decreases n - i,
        {
            if crate::solver::supertype_of(self, vars, c, &insts[i].sup_trait, &sup, fuel) {
                out.push(Type::Proj {
                    lhs: Box::new(clone_type(&insts[i].sub_type)),
                    rhs: rhs.clone(),
                });
            }
            i += 1;
        }
        out
    }

    /// Best-effort candidate suggestions for an unresolved type: the
    /// resolutions of a projection, or a subroutine type with each
    /// candidate return type.
    pub fn get_candidates(&self, vars: &FreeVars, c: CtxId, t: &Type, fuel: usize) -> (r: Option<
        Vec<Type>,
    >)
        requires
            c < self.arr@.len(),
        ensures
            (!(t.model() is Proj) && !(t.model() is Subr)) ==> r is None,
            t.model() is Proj ==> (r matches Option::Some(v) && forall|k: int|
                0 <= k < v@.len() ==> (#[trigger] v@[k].model()) is Proj),
            t.model() is Subr ==> (r matches Option::Some(v) ==> forall|k: int|
                0 <= k < v@.len() ==> (#[trigger] v@[k].model()) is Subr),
        decreases *t,
    {
        proof {
            crate::ty::lemma_model_variants(*t);
        }
        match t {
            Type::Proj { lhs, rhs } => Option::Some(
                self.get_proj_candidates(vars, c, lhs, rhs, fuel),
            ),
            Type::Subr(subr) => {
                let inner = match self.get_candidates(vars, c, &subr.return_t, fuel) {
                    Option::Some(v) => v,
                    Option::None => {
                        return Option::None;
                    },
                };
                let mut out: Vec<Type> = Vec::new();
                let n = inner.len();
                let mut i: usize = 0;
                while i < n
                    invariant
                        i <= n,
                        n == inner@.len(),
                        forall|k: int|
                            0 <= k < out@.len() ==> (#[trigger] out@[k].model()) is Subr,
                    decreases n - i,
                {
                    let s2 = crate::ty::SubrType {
                        kind: subr.kind,
                        non_default_params: crate::ty::clone_param_list(
                            &subr.non_default_params,
                        ),
                        var_params: match &subr.var_params {
                            Option::Some(p) => Option::Some(
                                Box::new(crate::ty::clone_param(p)),
                            ),
                            Option::None => Option::None,
                        },
                        default_params: crate::ty::clone_param_list(&subr.default_params),
                        return_t: Box::new(clone_type(&inner[i])),
                    };
                    out.push(Type::Subr(s2));
                    i += 1;
                }
                Option::Some(out)
            },
            _ => Option::None,
        }
    }

    /// Propagates a dependent mutation: a callee whose receiver is
    /// declared to become another type after the call, and which is
    /// itself an addressable binding, has its type re-unified with that
    /// type; any other shape — including an unaddressable callee —
    /// changes nothing and succeeds.
    pub fn propagate(
        &self,
        vars: &mut FreeVars,
        c: CtxId,
        t: &Type,
        callee: &Expr,
        fuel: usize,
    ) -> (r: Result<(), TyCheckError>)
        requires
            c < self.arr@.len(),
        ensures
            final(vars).model().len() == old(vars).model().len(),
            r matches Result::Err(e) ==> e is TypeMismatch,
            (mutation_after_spec(t.model()) is None || !is_addressable(*callee)) ==> (r is Ok
                && final(vars).model() == old(vars).model()),
            mutation_after_spec(t.model()) matches Option::Some(after) ==> (is_addressable(
                *callee,
            ) ==> (crate::solver::plain_pair(callee.t_spec(), after) ==> (final(vars).model()
                == old(vars).model() && (r is Ok <==> (crate::solver::subtype_spec(
                *self,
                old(vars).model(),
                c as int,
                callee.t_spec(),
                after,
                fuel as nat,
            ) && crate::solver::subtype_spec(
                *self,
                old(vars).model(),
                c as int,
                after,
                callee.t_spec(),
                fuel as nat,
            )))))),
    {
        proof {
            crate::ty::lemma_model_variants(*t);
        }
        let addressable = matches!(callee, Expr::Ident { .. } | Expr::Attr { .. });
        if !addressable {
            return Result::Ok(());
        }
        if let Type::Subr(subr) = t {
            proof {
                lemma_subr_model(*subr);
            }
            if subr.non_default_params.len() > 0 {
                let first = &subr.non_default_params[0];
                let is_self = match &first.name {
                    Option::Some(nm) => {
                        proof {
                            reveal_strlit("self");
                        }
                        string_eq(nm, &String::from_str("self"))
                    },
                    Option::None => false,
                };
                proof {
                    crate::ty::lemma_model_variants(first.t);
                }
                if is_self {
                    if let Type::RefMut { after: Option::Some(a), .. } = &first.t {
                        proof {
                            assert(mutation_after_spec(t.model()) == Option::Some(a.model()));
                        }
                        return crate::solver::reunify(self, vars, c, callee.ref_t(), a, fuel);
                    }
                }
            }
        }
        Result::Ok(())
    }

    /// The first ill-formed arm from position `i` on: an arm that is not
    /// an anonymous function (`false`), or one of other than one
    /// parameter (`true`).
    pub open spec fn arm_fault_spec(pos: Seq<Expr>, i: int) -> Option<(int, bool)>
        decreases pos.len() - i,
    {
        if i >= pos.len() || i < 0 {
            Option::None
        } else {
            match pos[i] {
                Expr::Lambda { params, .. } => {
                    if params@.len() != 1 {
                        Option::Some((i, true))
                    } else {
                        Self::arm_fault_spec(pos, i + 1)
                    }
                },
                _ => Option::Some((i, false)),
            }
        }
    }

    /// The union of the arm patterns from position `i` on, folded onto
    /// `acc`: each well-formed arm joins its single parameter's type.
    pub open spec fn pat_union_spec(
        cs: Contexts,
        m: Seq<crate::free::FreeKindModel>,
        c: int,
        pos: Seq<Expr>,
        i: int,
        acc: TypeModel,
        fuel: nat,
    ) -> TypeModel
        decreases pos.len() - i,
    {
        if i >= pos.len() || i < 0 {
            acc
        } else {
            match pos[i] {
                Expr::Lambda { params, .. } => {
                    if params@.len() == 1 {
                        Self::pat_union_spec(
                            cs,
                            m,
                            c,
                            pos,
                            i + 1,
                            crate::solver::join_spec(cs, m, c, acc, params[0].t.model(), fuel),
                            fuel,
                        )
                    } else {
                        Self::pat_union_spec(cs, m, c, pos, i + 1, acc, fuel)
                    }
                },
                _ => Self::pat_union_spec(cs, m, c, pos, i + 1, acc, fuel),
            }
        }
    }

    /// The union of the arms' return types from position `i` on, folded
    /// onto `acc`: each arm typed as a subroutine joins its return type.
    pub open spec fn ret_union_spec(
        cs: Contexts,
        m: Seq<crate::free::FreeKindModel>,
        c: int,
        pos: Seq<Expr>,
        i: int,
        acc: TypeModel,
        fuel: nat,
    ) -> TypeModel
        decreases pos.len() - i,
    {
        if i >= pos.len() || i < 0 {
            acc
        } else {
            match pos[i] {
                Expr::Lambda { t: Type::Subr(subr), .. } => Self::ret_union_spec(
                    cs,
                    m,
                    c,
                    pos,
                    i + 1,
                    crate::solver::join_spec(
                        cs,
                        m,
                        c,
                        acc,
                        subr.return_t.model(),
                        fuel,
                    ),
                    fuel,
                ),
                _ => Self::ret_union_spec(cs, m, c, pos, i + 1, acc, fuel),
            }
        }
    }

    /// The type of a `match` call: every arm after the matched
    /// expression must be an anonymous function of one parameter, the
    /// union of the arms' parameter types must cover the matched
    /// expression's type, and the result is a function from the matched
    /// type and the arms to the union of the arms' return types.
    #[verifier::loop_isolation(false)]
    pub fn get_match_call_t(
        &self,
        vars: &mut FreeVars,
        c: CtxId,
        pos_args: &Vec<Expr>,
        kw_args: &Vec<(String, Expr)>,
        fuel: usize,
    ) -> (r: Result<Type, TyCheckError>)
        requires
            c < self.arr@.len(),
            pos_args@.len() >= 1,
        ensures
            final(vars).model().len() == old(vars).model().len(),
            kw_args@.len() > 0 ==> (r matches Result::Err(e) && e
                is UnexpectedKeywordArgument),
            r matches Result::Err(e) ==> (e is UnexpectedKeywordArgument || e
                is TooManyArguments || e is TypeMismatch || e is MatchArmMismatch),
            r matches Result::Ok(t) ==> (t.model() matches TypeModel::Subr { subr }
                && subr.kind == crate::ty::SubrKind::Func && subr.non_default_params.len()
                == pos_args@.len() && subr.var_params is None && subr.default_params.len()
                == 0),
            // the first ill-formed arm decides: a non-function arm is a
            // mismatch, a function of the wrong arity an arity error
            kw_args@.len() == 0 ==> (Self::arm_fault_spec(pos_args@, 1) matches Option::Some(f)
                ==> (final(vars).model() == old(vars).model() && (f.1 ==> (r
                matches Result::Err(e) && (e matches TyCheckError::TooManyArguments {
                expected,
                ..
            } && expected == 1))) && (!f.1 ==> (r matches Result::Err(e) && e
                is TypeMismatch)))),
            // with well-formed arms, the matched type must sit below the
            // union of the arm patterns; where that comparison only
            // decides, coverage failure is exactly a match-arm mismatch
            (kw_args@.len() == 0 && Self::arm_fault_spec(pos_args@, 1) is None
                && crate::solver::plain_pair(
                pos_args@[0].t_spec(),
                Self::pat_union_spec(
                    *self,
                    old(vars).model(),
                    c as int,
                    pos_args@,
                    1,
                    TypeModel::Never,
                    fuel as nat,
                ),
            )) ==> match_plain_clause(
                *self,
                old(vars).model(),
                c as int,
                pos_args@,
                r,
                fuel as nat,
            ),
    {
        if kw_args.len() > 0 {
            return Result::Err(TyCheckError::UnexpectedKeywordArgument {
                name: kw_args[0].0.clone(),
            });
        }
        let n = pos_args.len();
        let mut i: usize = 1;
        // only anonymous functions of exactly one parameter may be arms
        while i < n
            invariant
                1 <= i <= n,
                n == pos_args@.len(),
                c < self.arr@.len(),
                vars.model().len() == old(vars).model().len(),
                Self::arm_fault_spec(pos_args@, 1) == Self::arm_fault_spec(pos_args@, i as int),
            decreases n - i,
        {
            match &pos_args[i] {
                Expr::Lambda { params, .. } => {
                    if params.len() != 1 {
                        return Result::Err(TyCheckError::TooManyArguments {
                            expected: 1,
                            given: params.len(),
                        });
                    }
                },
                _ => {
                    return Result::Err(TyCheckError::TypeMismatch {
                        expected: crate::ty::mono("LambdaFunc"),
                        found: pos_args[i].t(),
                        candidates: Vec::new(),
                    });
                },
            }
            i += 1;
        }
        proof {
            assert(Self::arm_fault_spec(pos_args@, n as int) is None);
        }
        // the union of the arm patterns must cover the matched type
        let ghost u = Self::pat_union_spec(
            *self,
            vars.model(),
            c as int,
            pos_args@,
            1,
            TypeModel::Never,
            fuel as nat,
        );
        let mut union_pat_t = Type::Never;
        let mut j: usize = 1;
        while j < n
            invariant
                1 <= j <= n,
                n == pos_args@.len(),
                c < self.arr@.len(),
                vars == old(vars),
                u == Self::pat_union_spec(
                    *self,
                    vars.model(),
                    c as int,
                    pos_args@,
                    j as int,
                    union_pat_t.model(),
                    fuel as nat,
                ),
            decreases n - j,
        {
            if let Expr::Lambda { params, .. } = &pos_args[j] {
                if params.len() == 1 {
                    union_pat_t = crate::solver::union(
                        self,
                        vars,
                        c,
                        &union_pat_t,
                        &params[0].t,
                        fuel,
                    );
                }
            }
            j += 1;
        }
        proof {
            assert(u == union_pat_t.model());
        }
        let target_t = pos_args[0].t();
        match crate::solver::sub_unify(self, vars, c, &target_t, &union_pat_t, fuel) {
            Result::Ok(()) => {},
            Result::Err(_) => {
                return Result::Err(TyCheckError::MatchArmMismatch { target: target_t });
            },
        }
        // the call's type: a function of the matched value and the arms,
        // returning the union of the arms' return types
        let ghost mid = vars.model();
        let ghost rj = Self::ret_union_spec(
            *self,
            vars.model(),
            c as int,
            pos_args@,
            1,
            TypeModel::Never,
            fuel as nat,
        );
        let mut return_t = Type::Never;
        let mut params: Vec<ParamTy> = Vec::new();
        params.push(crate::ty::anon(target_t));
        proof {
            assert(crate::ty::param_models_of(params@) =~= arg_param_models(pos_args@).subrange(
                0,
                1,
            ));
        }
        let mut k: usize = 1;
        while k < n
            invariant
                1 <= k <= n,
                n == pos_args@.len(),
                c < self.arr@.len(),
                params@.len() == k,
                vars.model() == mid,
                vars.model().len() == old(vars).model().len(),
                crate::ty::param_models_of(params@) == arg_param_models(pos_args@).subrange(
                    0,
                    k as int,
                ),
                rj == Self::ret_union_spec(
                    *self,
                    mid,
                    c as int,
                    pos_args@,
                    k as int,
                    return_t.model(),
                    fuel as nat,
                ),
            decreases n - k,
        {
            if let Expr::Lambda { t, .. } = &pos_args[k] {
                if let Type::Subr(s2) = t {
                    return_t = crate::solver::union(self, vars, c, &return_t, &s2.return_t, fuel);
                }
            }
            params.push(crate::ty::anon(pos_args[k].t()));
            proof {
                assert(crate::ty::param_models_of(params@) =~= arg_param_models(
                    pos_args@,
                ).subrange(0, k as int + 1));
            }
            k += 1;
        }
        proof {
            assert(rj == return_t.model());
            assert(arg_param_models(pos_args@).subrange(0, n as int) =~= arg_param_models(
                pos_args@,
            ));
            assert(crate::ty::param_models_of(Seq::<ParamTy>::empty()) =~= Seq::<
                crate::ty::ParamModel,
            >::empty());
        }
        Result::Ok(crate::ty::func(params, Option::None, Vec::new(), return_t))
    }

    /// Resolves a resolved variable at the head of a type to what it
    /// stands for, following links at most `fuel` steps.
    pub fn resolve_links(&self, vars: &FreeVars, t: &Type, fuel: usize) -> (r: Type)
        ensures
            !(t.model() is FreeVar) ==> r.model() == t.model(),
        decreases fuel,
    {
        proof {
            crate::ty::lemma_model_variants(*t);
        }
        if fuel == 0 {
            return clone_type(t);
        }
        if let Type::FreeVar(id) = t {
            if *id < vars.len() && vars.is_linked(*id) {
                let target = clone_type(vars.crack(*id));
                return self.resolve_links(vars, &target, fuel - 1);
            }
        }
        clone_type(t)
    }

    /// The type of a call: the callee's declared type is found, its
    /// quantified parameters are instantiated fresh for this use site,
    /// the arguments are bound against it, the return type is read off
    /// the resolved instance, and a declared receiver mutation is
    /// propagated to the callee expression.  A call of the `match`
    /// builtin is typed by [`Contexts::get_match_call_t`].
    pub fn get_call_t(
        &self,
        vars: &mut FreeVars,
        c: CtxId,
        obj: &Expr,
        attr_name: &Option<String>,
        pos_args: &Vec<Expr>,
        kw_args: &Vec<(String, Expr)>,
        namespace: &String,
        level: usize,
        fuel: usize,
    ) -> (r: Result<Type, TyCheckError>)
        requires
            c < self.arr@.len(),
        ensures
            old(vars).model().len() <= final(vars).model().len(),
            // without an attribute, failures carry only the binder's and
            // solver's kinds, never a name-resolution kind
            attr_name is None ==> (r matches Result::Err(e) ==> (e is TypeMismatch || e
                is TooManyArguments || e is MissingArguments || e is DuplicateArgument || e
                is UnexpectedKeywordArgument || e is NotCallable || e is MatchArmMismatch)),
            // a `match` call with keyword arguments is refused as such
            (is_match_call(*obj, pos_args@) && kw_args@.len() > 0) ==> (r
                matches Result::Err(e) && e is UnexpectedKeywordArgument),
            // where the callee's own type is a parameterless subroutine
            // instantiation cannot touch, a call without arguments
            // succeeds
            (attr_name is None && !is_match_call(*obj, pos_args@) && crate::solver::inst_inert_spec(
                old(vars).model(),
                obj.t_spec(),
            ) && (obj.t_spec() matches TypeModel::Subr { subr }) && obj.t_spec()->Subr_subr.non_default_params.len() == 0
                && obj.t_spec()->Subr_subr.default_params.len() == 0
                && obj.t_spec()->Subr_subr.var_params is None && pos_args@.len() == 0
                && kw_args@.len() == 0) ==> r is Ok,
            // where the callee's own type is a subroutine instantiation
            // cannot touch, a fitting plain call succeeds with exactly
            // that subroutine's return type
            obj.t_spec() matches TypeModel::Subr { subr } ==> ((attr_name is None
                && !is_match_call(*obj, pos_args@) && kw_args@.len() == 0
                && crate::solver::inst_inert_spec(old(vars).model(), obj.t_spec())
                && fitting_plain_call(
                *self,
                old(vars).model(),
                c as int,
                *subr,
                pos_args@,
                fuel as nat,
            ) && !(*subr.return_t is FreeVar) && mutation_after_spec(obj.t_spec()) is None)
                ==> (r matches Result::Ok(t) && t.model() == *subr.return_t)),
    {
        if let Expr::Ident { name, vis, .. } = obj {
            if matches!(vis, Visibility::Private) && pos_args.len() >= 1 {
                proof {
                    reveal_strlit("match");
                }
                if string_eq(name, &String::from_str("match")) {
                    return self.get_match_call_t(vars, c, pos_args, kw_args, fuel);
                }
            }
        }
        let found = match self.search_callee_t(vars, c, obj, attr_name, namespace, fuel) {
            Result::Ok(t) => t,
            Result::Err(e) => {
                return Result::Err(e);
            },
        };
        let instance = crate::solver::instantiate(vars, &found, level, fuel);
        match substitute_call(
            self,
            vars,
            c,
            obj,
            attr_name,
            &instance,
            pos_args,
            kw_args,
            level,
            fuel,
        ) {
            Result::Ok(()) => {},
            Result::Err(e) => {
                return Result::Err(e);
            },
        }
        let resolved = self.resolve_links(vars, &instance, fuel);
        proof {
            crate::ty::lemma_model_variants(resolved);
            crate::ty::lemma_model_variants(instance);
        }
        let res = match &resolved {
            Type::Subr(subr) => {
                proof {
                    lemma_subr_model(*subr);
                    crate::ty::lemma_model_variants(*subr.return_t);
                }
                self.resolve_links(vars, &subr.return_t, fuel)
            },
            Type::Quantified(inner) => {
                match &**inner {
                    Type::Subr(subr) => self.resolve_links(vars, &subr.return_t, fuel),
                    _ => clone_type(&resolved),
                }
            },
            _ => clone_type(&resolved),
        };
        match self.propagate(vars, c, &resolved, obj, fuel) {
            Result::Ok(()) => {},
            Result::Err(e) => {
                return Result::Err(e);
            },
        }
        Result::Ok(res)
    }

    /// The type of a binary operator application: the operator's dunder
    /// name is resolved as a private binding and called on the two
    /// operands.
    pub fn get_binop_t(
        &self,
        vars: &mut FreeVars,
        c: CtxId,
        op_name: &String,
        args: &Vec<Expr>,
        namespace: &String,
        level: usize,
        fuel: usize,
    ) -> (r: Result<Type, TyCheckError>)
        requires
            c < self.arr@.len(),
            args@.len() == 2,
        ensures
            old(vars).model().len() <= final(vars).model().len(),
            // the operator resolves through its dunder name as a private
            // in-scope binding; an unbound or hidden name decides at once
            self.rec_var_t_spec(
                c as int,
                binop_dname_spec(op_name@),
                Visibility::Private,
                true,
                namespace@,
                fuel as nat,
            ) is Missing ==> (r matches Result::Err(e) && e is NoSuchVariable),
            self.rec_var_t_spec(
                c as int,
                binop_dname_spec(op_name@),
                Visibility::Private,
                true,
                namespace@,
                fuel as nat,
            ) is Hidden ==> (r matches Result::Err(e) && e is VisibilityViolation),
            self.rec_var_t_spec(
                c as int,
                binop_dname_spec(op_name@),
                Visibility::Private,
                true,
                namespace@,
                fuel as nat,
            ) is Found ==> (r matches Result::Err(e) ==> (e is TypeMismatch || e
                is TooManyArguments || e is MissingArguments || e is DuplicateArgument || e
                is UnexpectedKeywordArgument || e is NotCallable || e is MatchArmMismatch)),
            // a resolved operator whose type is a fitting plain
            // subroutine the operands lie below is owed its return type
            self.rec_var_t_spec(
                c as int,
                binop_dname_spec(op_name@),
                Visibility::Private,
                true,
                namespace@,
                fuel as nat,
            ) matches LookupOutcome::Found(vi) ==> (vi.t.model() matches TypeModel::Subr {
                subr,
            } ==> ((crate::solver::inst_inert_spec(old(vars).model(), vi.t.model())
                && fitting_plain_call(
                *self,
                old(vars).model(),
                c as int,
                *subr,
                args@,
                fuel as nat,
            ) && !(*subr.return_t is FreeVar) && mutation_after_spec(vi.t.model()) is None
                && binop_dname_spec(op_name@) != "match"@) ==> (r matches Result::Ok(t) && t.model()
                == *subr.return_t))),
    {
        let dname = binop_to_dname(op_name);
        let t = match self.rec_get_var_t(
            c,
            &dname,
            Visibility::Private,
            AccessKind::Name,
            namespace,
            fuel,
        ) {
            Result::Ok(t) => t,
            Result::Err(e) => {
                return Result::Err(e);
            },
        };
        let op = Expr::Ident { name: dname, vis: Visibility::Private, t };
        self.get_call_t(vars, c, &op, &Option::None, args, &Vec::new(), namespace, level, fuel)
    }

    /// The type of a unary operator application, through its dunder
    /// name.
    pub fn get_unaryop_t(
        &self,
        vars: &mut FreeVars,
        c: CtxId,
        op_name: &String,
        args: &Vec<Expr>,
        namespace: &String,
        level: usize,
        fuel: usize,
    ) -> (r: Result<Type, TyCheckError>)
        requires
            c < self.arr@.len(),
            args@.len() == 1,
        ensures
            old(vars).model().len() <= final(vars).model().len(),
            self.rec_var_t_spec(
                c as int,
                unaryop_dname_spec(op_name@),
                Visibility::Private,
                true,
                namespace@,
                fuel as nat,
            ) is Missing ==> (r matches Result::Err(e) && e is NoSuchVariable),
            self.rec_var_t_spec(
                c as int,
                unaryop_dname_spec(op_name@),
                Visibility::Private,
                true,
                namespace@,
                fuel as nat,
            ) is Hidden ==> (r matches Result::Err(e) && e is VisibilityViolation),
            self.rec_var_t_spec(
                c as int,
                unaryop_dname_spec(op_name@),
                Visibility::Private,
                true,
                namespace@,
                fuel as nat,
            ) is Found ==> (r matches Result::Err(e) ==> (e is TypeMismatch || e
                is TooManyArguments || e is MissingArguments || e is DuplicateArgument || e
                is UnexpectedKeywordArgument || e is NotCallable || e is MatchArmMismatch)),
            // a resolved operator whose type is a fitting plain
            // subroutine the operands lie below is owed its return type
            self.rec_var_t_spec(
                c as int,
                unaryop_dname_spec(op_name@),
                Visibility::Private,
                true,
                namespace@,
                fuel as nat,
            ) matches LookupOutcome::Found(vi) ==> (vi.t.model() matches TypeModel::Subr {
                subr,
            } ==> ((crate::solver::inst_inert_spec(old(vars).model(), vi.t.model())
                && fitting_plain_call(
                *self,
                old(vars).model(),
                c as int,
                *subr,
                args@,
                fuel as nat,
            ) && !(*subr.return_t is FreeVar) && mutation_after_spec(vi.t.model()) is None
                && unaryop_dname_spec(op_name@) != "match"@) ==> (r matches Result::Ok(t) && t.model()
                == *subr.return_t))),
    {
        let dname = unaryop_to_dname(op_name);
        let t = match self.rec_get_var_t(
            c,
            &dname,
            Visibility::Private,
            AccessKind::Name,
            namespace,
            fuel,
        ) {
            Result::Ok(t) => t,
            Result::Err(e) => {
                return Result::Err(e);
            },
        };
        let op = Expr::Ident { name: dname, vis: Visibility::Private, t };
        self.get_call_t(vars, c, &op, &Option::None, args, &Vec::new(), namespace, level, fuel)
    }
}

/// The variance a supertype dictates for the parameter `pname`: its
/// parametric name must be `Input` (contravariant) or `Output`
/// (covariant) and its first argument must name the parameter.
fn variance_of(
    t: &Type,
    pname: &String,
    input_name: &String,
    output_name: &String,
) -> (r: Option<Variance>)
{
    if let Type::Poly { name, params } = t {
        let vtag = if string_eq(name, output_name) {
            Option::Some(Variance::Covariant)
        } else if string_eq(name, input_name) {
            Option::Some(Variance::Contravariant)
        } else {
            Option::None
        };
        if let Option::Some(v) = vtag {
            if params.len() >= 1 {
                if let Type::Mono(first) = &params[0] {
                    if string_eq(first, pname) {
                        return Option::Some(v);
                    }
                }
                if let Type::FreeVar(_) = &params[0] {
                    return Option::None;
                }
            }
        }
    }
    Option::None
}

/// The private dunder name a binary operator resolves through.
pub open spec fn binop_dname_spec(op: Seq<char>) -> Seq<char> {
    if op == "+"@ {
        "__add__"@
    } else if op == "-"@ {
        "__sub__"@
    } else if op == "*"@ {
        "__mul__"@
    } else if op == "/"@ {
        "__div__"@
    } else if op == "=="@ {
        "__eq__"@
    } else if op == "!="@ {
        "__ne__"@
    } else if op == "<"@ {
        "__lt__"@
    } else if op == "<="@ {
        "__le__"@
    } else if op == ">"@ {
        "__gt__"@
    } else if op == ">="@ {
        "__ge__"@
    } else {
        op
    }
}

/// The private dunder name a unary operator resolves through.
pub open spec fn unaryop_dname_spec(op: Seq<char>) -> Seq<char> {
    if op == "+"@ {
        "__pos__"@
    } else if op == "-"@ {
        "__neg__"@
    } else if op == "~"@ {
        "__invert__"@
    } else {
        op
    }
}

/// Renders [`binop_dname_spec`].
pub fn binop_to_dname(op: &String) -> (r: String)
    ensures
        r@ == binop_dname_spec(op@),
{
    proof {
        reveal_strlit("+");
        reveal_strlit("-");
        reveal_strlit("*");
        reveal_strlit("/");
        reveal_strlit("==");
        reveal_strlit("!=");
        reveal_strlit("<");
        reveal_strlit("<=");
        reveal_strlit(">");
        reveal_strlit(">=");
    }
    if string_eq(op, &String::from_str("+")) {
        String::from_str("__add__")
    } else if string_eq(op, &String::from_str("-")) {
        String::from_str("__sub__")
    } else if string_eq(op, &String::from_str("*")) {
        String::from_str("__mul__")
    } else if string_eq(op, &String::from_str("/")) {
        String::from_str("__div__")
    } else if string_eq(op, &String::from_str("==")) {
        String::from_str("__eq__")
    } else if string_eq(op, &String::from_str("!=")) {
        String::from_str("__ne__")
    } else if string_eq(op, &String::from_str("<")) {
        String::from_str("__lt__")
    } else if string_eq(op, &String::from_str("<=")) {
        String::from_str("__le__")
    } else if string_eq(op, &String::from_str(">")) {
        String::from_str("__gt__")
    } else if string_eq(op, &String::from_str(">=")) {
        String::from_str("__ge__")
    } else {
        op.clone()
    }
}

/// Renders [`unaryop_dname_spec`].
pub fn unaryop_to_dname(op: &String) -> (r: String)
    ensures
        r@ == unaryop_dname_spec(op@),
{
    proof {
        reveal_strlit("+");
        reveal_strlit("-");
        reveal_strlit("~");
    }
    if string_eq(op, &String::from_str("+")) {
        String::from_str("__pos__")
    } else if string_eq(op, &String::from_str("-")) {
        String::from_str("__neg__")
    } else if string_eq(op, &String::from_str("~")) {
        String::from_str("__invert__")
    } else {
        op.clone()
    }
}

} // verus!
