//! The scope tree: a chain of `Context` nodes (module, class, trait, method
//! block), each owning local bindings, declared-but-undefined bindings,
//! registered nominal types, trait-implementation tables, and links to an
//! enclosing scope and to the root builtin scope.
//!
//! Contexts live in an arena ([`Contexts`]); a scope names its neighbours by
//! index, and lookups walk outward by index-chasing with an explicit depth
//! budget, so an accidentally cyclic chain can never loop forever.

use vstd::prelude::*;

use crate::ty::ParamTy;
use crate::ty::Type;
use crate::ty::TypeModel;
use crate::ty::clone_type;
use crate::ty::local_name;
use crate::ty::string_eq;

verus! {

/// Visibility of a binding.
#[derive(Clone, Copy, Debug, PartialEq, Eq, Structural)]
pub enum Visibility {
    Private,
    Public,
}

/// Whether a binding may be reassigned.
#[derive(Clone, Copy, Debug, PartialEq, Eq, Structural)]
pub enum Mutability {
    Immutable,
    Mutable,
}

/// What kind of scope a context is; registration and lookup behaviour is
/// chosen by matching on this tag.
#[derive(Clone, Copy, Debug, PartialEq, Eq, Structural)]
pub enum ContextKind {
    Module,
    Class,
    Trait,
    MethodDefs,
    Func,
    Proc,
    Patch,
    Dummy,
}

impl ContextKind {
    /// Whether the scope registers a class.
    pub fn is_class(&self) -> (r: bool)
        ensures
            r == (*self == ContextKind::Class),
    {
        matches!(self, ContextKind::Class)
    }

    /// Whether the scope registers a trait.
    pub fn is_trait(&self) -> (r: bool)
        ensures
            r == (*self == ContextKind::Trait),
    {
        matches!(self, ContextKind::Trait)
    }

    /// Whether the scope is a method-definition block.
    pub fn is_method_def(&self) -> (r: bool)
        ensures
            r == (*self == ContextKind::MethodDefs),
    {
        matches!(self, ContextKind::MethodDefs)
    }

    /// Whether the scope registers a nominal type.
    pub fn is_type(&self) -> (r: bool)
        ensures
            r == (*self == ContextKind::Class || *self == ContextKind::Trait),
    {
        matches!(self, ContextKind::Class | ContextKind::Trait)
    }
}

/// What a scope knows about one binding.
#[derive(Debug)]
pub struct VarInfo {
    pub t: Type,
    pub muty: Mutability,
    pub vis: Visibility,
}

impl VarInfo {
    /// A binding of the given type.
    pub fn new(t: Type, muty: Mutability, vis: Visibility) -> (vi: Self)
        ensures
            vi.t.model() == t.model(),
            vi.muty == muty,
            vi.vis == vis,
    {
        VarInfo { t, muty, vis }
    }

    /// The binding's type, owned.
    pub fn t(&self) -> (t: Type)
        ensures
            t.model() == self.t.model(),
    {
        clone_type(&self.t)
    }
}

/// Copies a binding record; the copy describes the same binding.
pub fn clone_var_info(vi: &VarInfo) -> (r: VarInfo)
    ensures
        r.t.model() == vi.t.model(),
        r.muty == vi.muty,
        r.vis == vi.vis,
{
    VarInfo { t: clone_type(&vi.t), muty: vi.muty, vis: vi.vis }
}

/// A record that `sub_type` implements the trait `sup_trait`.
#[derive(Debug)]
pub struct TraitInstance {
    pub sub_type: Type,
    pub sup_trait: Type,
}

impl TraitInstance {
    /// A new implementation record.
    pub fn new(sub_type: Type, sup_trait: Type) -> (ti: Self)
        ensures
            ti.sub_type.model() == sub_type.model(),
            ti.sup_trait.model() == sup_trait.model(),
    {
        TraitInstance { sub_type, sup_trait }
    }
}

/// Copies an implementation record.
pub fn clone_trait_instance(ti: &TraitInstance) -> (r: TraitInstance)
    ensures
        r.sub_type.model() == ti.sub_type.model(),
        r.sup_trait.model() == ti.sup_trait.model(),
{
    TraitInstance { sub_type: clone_type(&ti.sub_type), sup_trait: clone_type(&ti.sup_trait) }
}

/// A method found by name: the type that defines it and the method's own
/// type.
#[derive(Debug)]
pub struct MethodType {
    pub definition_type: Type,
    pub method_type: Type,
}

impl MethodType {
    /// A new method record.
    pub fn new(definition_type: Type, method_type: Type) -> (m: Self)
        ensures
            m.definition_type.model() == definition_type.model(),
            m.method_type.model() == method_type.model(),
    {
        MethodType { definition_type, method_type }
    }
}

/// Copies a method record.
pub fn clone_method_type(m: &MethodType) -> (r: MethodType)
    ensures
        r.definition_type.model() == m.definition_type.model(),
        r.method_type.model() == m.method_type.model(),
{
    MethodType {
        definition_type: clone_type(&m.definition_type),
        method_type: clone_type(&m.method_type),
    }
}

/// The first position in an association list whose key reads `name`.
pub open spec fn key_idx<V>(s: Seq<(String, V)>, name: Seq<char>) -> Option<int>
    decreases s.len(),
{
    if s.len() == 0 {
        Option::None
    } else if s[0].0@ == name {
        Option::Some(0int)
    } else {
        match key_idx(s.subrange(1, s.len() as int), name) {
            Option::Some(i) => Option::Some(i + 1),
            Option::None => Option::None,
        }
    }
}

/// The entry of an association list under `name`, if any.
pub open spec fn key_lookup<V>(s: Seq<(String, V)>, name: Seq<char>) -> Option<V> {
    match key_idx(s, name) {
        Option::Some(i) => Option::Some(s[i].1),
        Option::None => Option::None,
    }
}

/// A found index lies in bounds and is the first whose key reads `name`.
pub proof fn lemma_key_idx<V>(s: Seq<(String, V)>, name: Seq<char>)
    ensures
        match key_idx(s, name) {
            Option::Some(i) => 0 <= i < s.len() && s[i].0@ == name && forall|j: int|
                0 <= j < i ==> s[j].0@ != name,
            Option::None => forall|j: int| 0 <= j < s.len() ==> s[j].0@ != name,
        },
    decreases s.len(),
{
    if s.len() > 0 && s[0].0@ != name {
        let sub = s.subrange(1, s.len() as int);
        lemma_key_idx(sub, name);
        match key_idx(sub, name) {
            Option::Some(i) => {
                assert(s[i + 1].0@ == name);
                assert forall|j: int| 0 <= j < i + 1 implies s[j].0@ != name by {
                    if j > 0 {
                        assert(sub[j - 1].0@ != name);
                    }
                }
            },
            Option::None => {
                assert forall|j: int| 0 <= j < s.len() implies s[j].0@ != name by {
                    if j > 0 {
                        assert(sub[j - 1].0@ != name);
                    }
                }
            },
        }
    }
}

/// Finds the entry of an association list under `name`.
#[verifier::loop_isolation(false)]
pub fn alist_get<'a, V>(s: &'a Vec<(String, V)>, name: &String) -> (r: Option<&'a V>)
    ensures
        match r {
            Option::Some(v) => key_lookup(s@, name@) == Option::Some(*v),
            Option::None => key_lookup(s@, name@) is None,
        },
{
    proof {
        lemma_key_idx(s@, name@);
    }
    let n = s.len();
    let mut i: usize = 0;
    while i < n
        invariant
            i <= n,
            forall|j: int| 0 <= j < i ==> s@[j].0@ != name@,
        decreases n - i,
    {
        if string_eq(&s[i].0, name) {
            proof {
                lemma_key_idx_first(s@, name@, i as int);
            }
            return Option::Some(&s[i].1);
        }
        i += 1;
    }
    Option::None
}

/// If position `i` holds `name` and no earlier position does, the first
/// position under `name` is `i`.
pub proof fn lemma_key_idx_first<V>(s: Seq<(String, V)>, name: Seq<char>, i: int)
    requires
        0 <= i < s.len(),
        s[i].0@ == name,
        forall|j: int| 0 <= j < i ==> s[j].0@ != name,
    ensures
        key_idx(s, name) == Option::Some(i),
    decreases s.len(),
{
    if i > 0 {
        lemma_key_idx_first(s.subrange(1, s.len() as int), name, i - 1);
    }
}

/// A lexical scope node.
#[derive(Debug)]
pub struct Context {
    /// The scope's qualified name; visibility checks compare namespaces
    /// against it.
    pub name: String,
    pub kind: ContextKind,
    /// Parameter bindings of a subroutine or nominal-type scope, in
    /// declaration order; a parameter may be anonymous.
    pub params: Vec<(Option<String>, VarInfo)>,
    /// Bindings with values.
    pub locals: Vec<(String, VarInfo)>,
    /// Declared-but-undefined bindings, e.g. trait method signatures.
    pub decls: Vec<(String, VarInfo)>,
    /// Method-definition blocks attached to this scope.
    pub methods_list: Vec<CtxId>,
    /// Registered nominal types without parameters: name to the type and
    /// the scope of its methods.
    pub mono_types: Vec<(String, (Type, CtxId))>,
    /// Registered parametric nominal types.
    pub poly_types: Vec<(String, (Type, CtxId))>,
    /// Registered patches: ad-hoc implementations attachable to existing
    /// types.
    pub patches: Vec<(String, CtxId)>,
    /// Recorded trait implementations, each under the trait's name; all
    /// entries of one name together form that trait's implementation set.
    pub trait_impls: Vec<(String, TraitInstance)>,
    /// Methods declared by traits, each under the method's name.
    pub method_to_traits: Vec<(String, MethodType)>,
    /// Methods defined by classes, each under the method's name.
    pub method_to_classes: Vec<(String, MethodType)>,
    /// Methods provided by patches: method name to patch name.
    pub method_impl_patches: Vec<(String, String)>,
    /// This scope's superclasses, most derived first.
    pub super_classes: Vec<Type>,
    /// The traits this scope's type implements.
    pub super_traits: Vec<Type>,
    /// The enclosing scope; the root has none.
    pub outer: Option<CtxId>,
}

/// The index of a context in the arena.
pub type CtxId = usize;

impl Context {
    /// An empty scope.
    pub fn new(name: String, kind: ContextKind, outer: Option<CtxId>) -> (c: Self)
        ensures
            c.name@ == name@,
            c.kind == kind,
            c.outer == outer,
            c.params@.len() == 0,
            c.locals@.len() == 0,
            c.decls@.len() == 0,
            c.methods_list@.len() == 0,
            c.mono_types@.len() == 0,
            c.poly_types@.len() == 0,
            c.patches@.len() == 0,
            c.trait_impls@.len() == 0,
            c.method_to_traits@.len() == 0,
            c.method_to_classes@.len() == 0,
            c.method_impl_patches@.len() == 0,
            c.super_classes@.len() == 0,
            c.super_traits@.len() == 0,
    {
        Context {
            name,
            kind,
            params: Vec::new(),
            locals: Vec::new(),
            decls: Vec::new(),
            methods_list: Vec::new(),
            mono_types: Vec::new(),
            poly_types: Vec::new(),
            patches: Vec::new(),
            trait_impls: Vec::new(),
            method_to_traits: Vec::new(),
            method_to_classes: Vec::new(),
            method_impl_patches: Vec::new(),
            super_classes: Vec::new(),
            super_traits: Vec::new(),
            outer,
        }
    }
}

/// The arena of scopes.  The root builtin scope, reachable from every other
/// scope, is registered once and remembered by index.
#[derive(Debug)]
pub struct Contexts {
    pub arr: Vec<Context>,
    /// The root builtin scope, where one has been designated.
    pub builtins: Option<CtxId>,
}

impl Contexts {
    /// An empty arena.
    pub fn new() -> (cs: Self)
        ensures
            cs.arr@.len() == 0,
            cs.builtins is None,
    {
        Contexts { arr: Vec::new(), builtins: Option::None }
    }

    /// The number of scopes.
    pub fn len(&self) -> (n: usize)
        ensures
            n == self.arr@.len(),
    {
        self.arr.len()
    }

    /// Adds a scope and returns its index.
    pub fn add(&mut self, ctx: Context) -> (c: CtxId)
        ensures
            c == old(self).arr@.len(),
            final(self).arr@ == old(self).arr@.push(ctx),
            final(self).builtins == old(self).builtins,
    {
        let c = self.arr.len();
        self.arr.push(ctx);
        c
    }

    /// Designates the root builtin scope.
    pub fn set_builtins(&mut self, c: CtxId)
        requires
            c < old(self).arr@.len(),
        ensures
            final(self).arr@ == old(self).arr@,
            final(self).builtins == Option::Some(c),
    {
        self.builtins = Option::Some(c);
    }

    /// The scope a failed lookup continues in: the enclosing scope, or the
    /// root builtin scope for a scope that has no enclosing one and is not
    /// itself the root.
    pub open spec fn next_scope(self, c: int) -> Option<int> {
        if 0 <= c < self.arr@.len() {
            match self.arr@[c].outer {
                Option::Some(o) => Option::Some(o as int),
                Option::None => match self.builtins {
                    Option::Some(b) => if b as int == c {
                        Option::None
                    } else {
                        Option::Some(b as int)
                    },
                    Option::None => Option::None,
                },
            }
        } else {
            Option::None
        }
    }

    /// The scope a failed lookup continues in; see
    /// [`Contexts::next_scope`].
    pub fn outer_or_builtins(&self, c: CtxId) -> (r: Option<CtxId>)
        requires
            c < self.arr@.len(),
        ensures
            match r {
                Option::Some(o) => self.next_scope(c as int) == Option::Some(o as int),
                Option::None => self.next_scope(c as int) is None,
            },
    {
        match self.arr[c].outer {
            Option::Some(o) => Option::Some(o),
            Option::None => match self.builtins {
                Option::Some(b) => if b == c {
                    Option::None
                } else {
                    Option::Some(b)
                },
                Option::None => Option::None,
            },
        }
    }
}

impl Contexts {
    /// Whether every neighbour index stored in scope `c` lies in bounds.
    pub open spec fn ctx_wf(self, c: int) -> bool {
        0 <= c < self.arr@.len() && {
            let ctx = self.arr@[c];
            &&& (ctx.outer matches Option::Some(o) ==> o < self.arr@.len())
            &&& forall|i: int|
                0 <= i < ctx.methods_list@.len() ==> (#[trigger] ctx.methods_list@[i])
                    < self.arr@.len()
            &&& forall|i: int|
                0 <= i < ctx.mono_types@.len() ==> (#[trigger] ctx.mono_types@[i]).1.1
                    < self.arr@.len()
            &&& forall|i: int|
                0 <= i < ctx.poly_types@.len() ==> (#[trigger] ctx.poly_types@[i]).1.1
                    < self.arr@.len()
            &&& forall|i: int|
                0 <= i < ctx.patches@.len() ==> (#[trigger] ctx.patches@[i]).1 < self.arr@.len()
        }
    }

    /// Whether every scope of the arena is well formed, and the designated
    /// builtin root lies in bounds.
    pub open spec fn wf(self) -> bool {
        &&& forall|c: int| 0 <= c < self.arr@.len() ==> self.ctx_wf(c)
        &&& (self.builtins matches Option::Some(b) ==> b < self.arr@.len())
    }

    /// The binding under `name` in this scope alone: a local, a
    /// declaration, a parameter, or a binding of one of the scope's
    /// method-definition blocks, in that order.
    pub open spec fn current_scope_var_spec(self, c: int, name: Seq<char>, fuel: nat) -> Option<
        VarInfo,
    >
        decreases fuel, 0nat, 0nat,
    {
        if fuel == 0 || !(0 <= c < self.arr@.len()) {
            Option::None
        } else {
            let ctx = self.arr@[c];
            match key_lookup(ctx.locals@, name) {
                Option::Some(vi) => Option::Some(vi),
                Option::None => match key_lookup(ctx.decls@, name) {
                    Option::Some(vi) => Option::Some(vi),
                    Option::None => match param_lookup(ctx.params@, name) {
                        Option::Some(vi) => Option::Some(vi),
                        Option::None => self.methods_var_spec(
                            ctx.methods_list@,
                            name,
                            (fuel - 1) as nat,
                        ),
                    },
                },
            }
        }
    }

    /// The first binding under `name` found in a list of method-definition
    /// blocks.
    pub open spec fn methods_var_spec(self, ms: Seq<CtxId>, name: Seq<char>, fuel: nat) -> Option<
        VarInfo,
    >
        decreases fuel, 1nat, ms.len(),
    {
        if ms.len() == 0 {
            Option::None
        } else {
            match self.current_scope_var_spec(ms[0] as int, name, fuel) {
                Option::Some(vi) => Option::Some(vi),
                Option::None => self.methods_var_spec(ms.subrange(1, ms.len() as int), name, fuel),
            }
        }
    }

    /// Finds the binding under `name` in scope `c` alone; see
    /// [`Contexts::current_scope_var_spec`].  The search depth into nested
    /// method blocks is bounded by `fuel`.
    pub fn get_current_scope_var(&self, c: CtxId, name: &String, fuel: usize) -> (r: Option<
        VarInfo,
    >)
        requires
            c < self.arr@.len(),
        ensures
            match r {
                Option::Some(vi) => self.current_scope_var_spec(c as int, name@, fuel as nat)
                    matches Option::Some(f) && vi.t.model() == f.t.model() && vi.muty == f.muty
                    && vi.vis == f.vis,
                Option::None => self.current_scope_var_spec(c as int, name@, fuel as nat)
                    is None,
            },
        decreases fuel,
    {
        if fuel == 0 {
            return Option::None;
        }
        let ctx = &self.arr[c];
        if let Option::Some(vi) = alist_get(&ctx.locals, name) {
            return Option::Some(clone_var_info(vi));
        }
        if let Option::Some(vi) = alist_get(&ctx.decls, name) {
            return Option::Some(clone_var_info(vi));
        }
        if let Option::Some(vi) = param_get(&ctx.params, name) {
            return Option::Some(clone_var_info(vi));
        }
        let n = ctx.methods_list.len();
        proof {
            assert(ctx.methods_list@.subrange(0, n as int) =~= ctx.methods_list@);
        }
        let mut i: usize = 0;
        while i < n
            invariant
                n == ctx.methods_list@.len(),
                i <= n,
                c < self.arr@.len(),
                fuel >= 1,
                ctx == &self.arr@[c as int],
                self.current_scope_var_spec(c as int, name@, fuel as nat)
                    == self.methods_var_spec(
                    ctx.methods_list@.subrange(i as int, n as int),
                    name@,
                    (fuel - 1) as nat,
                ),
            decreases n - i,
        {
            let m = ctx.methods_list[i];
            let found = if m < self.arr.len() {
                self.get_current_scope_var(m, name, fuel - 1)
            } else {
                proof {
                    assert(self.current_scope_var_spec(m as int, name@, (fuel - 1) as nat)
                        is None);
                }
                Option::None
            };
            proof {
                assert(ctx.methods_list@.subrange(i as int, n as int)[0] == ctx.methods_list@[
                    i as int]);
                assert(ctx.methods_list@.subrange(i as int, n as int).subrange(
                    1,
                    (n - i) as int,
                ) =~= ctx.methods_list@.subrange(i as int + 1, n as int));
            }
            if let Option::Some(vi) = found {
                return Option::Some(vi);
            }
            i += 1;
        }
        proof {
            assert(ctx.methods_list@.subrange(n as int, n as int) =~= Seq::<CtxId>::empty());
        }
        Option::None
    }

    /// The local binding under `name` of this scope, with its stored key.
    pub fn get_local_kv<'a>(&'a self, c: CtxId, name: &String) -> (r: Option<(
        &'a String,
        &'a VarInfo,
    )>)
        requires
            c < self.arr@.len(),
        ensures
            match r {
                Option::Some(kv) => key_lookup(self.arr@[c as int].locals@, name@)
                    matches Option::Some(f) && kv.0@ == name@ && kv.1.t.model() == f.t.model()
                    && kv.1.muty == f.muty && kv.1.vis == f.vis,
                Option::None => key_lookup(self.arr@[c as int].locals@, name@) is None,
            },
    {
        proof {
            lemma_key_idx(self.arr@[c as int].locals@, name@);
        }
        let ctx = &self.arr[c];
        let n = ctx.locals.len();
        let mut i: usize = 0;
        while i < n
            invariant
                n == ctx.locals@.len(),
                c < self.arr@.len(),
                ctx == &self.arr@[c as int],
                i <= n,
                forall|j: int| 0 <= j < i ==> ctx.locals@[j].0@ != name@,
            decreases n - i,
        {
            if string_eq(&ctx.locals[i].0, name) {
                proof {
                    lemma_key_idx_first(ctx.locals@, name@, i as int);
                }
                return Option::Some((&ctx.locals[i].0, &ctx.locals[i].1));
            }
            i += 1;
        }
        Option::None
    }

    /// The registered unparameterised nominal type under `name`, searched
    /// outward from scope `c` to the builtin root.
    pub open spec fn rec_mono_type_spec(self, c: int, name: Seq<char>, fuel: nat) -> Option<
        (Type, CtxId),
    >
        decreases fuel,
    {
        if fuel == 0 || !(0 <= c < self.arr@.len()) {
            Option::None
        } else {
            match key_lookup(self.arr@[c].mono_types@, name) {
                Option::Some(e) => Option::Some(e),
                Option::None => match self.next_scope(c) {
                    Option::Some(o) => self.rec_mono_type_spec(o, name, (fuel - 1) as nat),
                    Option::None => Option::None,
                },
            }
        }
    }

    /// Finds a registered unparameterised nominal type, searching outward;
    /// see [`Contexts::rec_mono_type_spec`].
    pub fn rec_get_mono_type<'a>(&'a self, c: CtxId, name: &String, fuel: usize) -> (r: Option<(
        &'a Type,
        CtxId,
    )>)
        requires
            c < self.arr@.len(),
        ensures
            match r {
                Option::Some(e) => self.rec_mono_type_spec(c as int, name@, fuel as nat)
                    matches Option::Some(f) && e.0.model() == f.0.model() && e.1 == f.1,
                Option::None => self.rec_mono_type_spec(c as int, name@, fuel as nat) is None,
            },
        decreases fuel,
    {
        if fuel == 0 {
            return Option::None;
        }
        if let Option::Some(e) = alist_get(&self.arr[c].mono_types, name) {
            return Option::Some((&e.0, e.1));
        }
        match self.outer_or_builtins(c) {
            Option::Some(o) => if o < self.arr.len() {
                self.rec_get_mono_type(o, name, fuel - 1)
            } else {
                Option::None
            },
            Option::None => Option::None,
        }
    }

    /// The registered parametric nominal type under `name`, searched
    /// outward from scope `c` to the builtin root.
    pub open spec fn rec_poly_type_spec(self, c: int, name: Seq<char>, fuel: nat) -> Option<
        (Type, CtxId),
    >
        decreases fuel,
    {
        if fuel == 0 || !(0 <= c < self.arr@.len()) {
            Option::None
        } else {
            match key_lookup(self.arr@[c].poly_types@, name) {
                Option::Some(e) => Option::Some(e),
                Option::None => match self.next_scope(c) {
                    Option::Some(o) => self.rec_poly_type_spec(o, name, (fuel - 1) as nat),
                    Option::None => Option::None,
                },
            }
        }
    }

    /// Finds a registered parametric nominal type, searching outward; see
    /// [`Contexts::rec_poly_type_spec`].
    pub fn rec_get_poly_type<'a>(&'a self, c: CtxId, name: &String, fuel: usize) -> (r: Option<(
        &'a Type,
        CtxId,
    )>)
        requires
            c < self.arr@.len(),
        ensures
            match r {
                Option::Some(e) => self.rec_poly_type_spec(c as int, name@, fuel as nat)
                    matches Option::Some(f) && e.0.model() == f.0.model() && e.1 == f.1,
                Option::None => self.rec_poly_type_spec(c as int, name@, fuel as nat) is None,
            },
        decreases fuel,
    {
        if fuel == 0 {
            return Option::None;
        }
        if let Option::Some(e) = alist_get(&self.arr[c].poly_types, name) {
            return Option::Some((&e.0, e.1));
        }
        match self.outer_or_builtins(c) {
            Option::Some(o) => if o < self.arr.len() {
                self.rec_get_poly_type(o, name, fuel - 1)
            } else {
                Option::None
            },
            Option::None => Option::None,
        }
    }

    /// The registered nominal type under `name`, parameterised or not,
    /// searched outward from scope `c`: in each scope the unparameterised
    /// table is read first.
    pub open spec fn rec_type_spec(self, c: int, name: Seq<char>, fuel: nat) -> Option<
        (Type, CtxId),
    >
        decreases fuel,
    {
        if fuel == 0 || !(0 <= c < self.arr@.len()) {
            Option::None
        } else {
            match key_lookup(self.arr@[c].mono_types@, name) {
                Option::Some(e) => Option::Some(e),
                Option::None => match key_lookup(self.arr@[c].poly_types@, name) {
                    Option::Some(e) => Option::Some(e),
                    Option::None => match self.next_scope(c) {
                        Option::Some(o) => self.rec_type_spec(o, name, (fuel - 1) as nat),
                        Option::None => Option::None,
                    },
                },
            }
        }
    }

    /// Finds a registered nominal type of either table, searching outward;
    /// see [`Contexts::rec_type_spec`].
    pub fn rec_get_type<'a>(&'a self, c: CtxId, name: &String, fuel: usize) -> (r: Option<(
        &'a Type,
        CtxId,
    )>)
        requires
            c < self.arr@.len(),
        ensures
            match r {
                Option::Some(e) => self.rec_type_spec(c as int, name@, fuel as nat)
                    matches Option::Some(f) && e.0.model() == f.0.model() && e.1 == f.1,
                Option::None => self.rec_type_spec(c as int, name@, fuel as nat) is None,
            },
        decreases fuel,
    {
        if fuel == 0 {
            return Option::None;
        }
        if let Option::Some(e) = alist_get(&self.arr[c].mono_types, name) {
            return Option::Some((&e.0, e.1));
        }
        if let Option::Some(e) = alist_get(&self.arr[c].poly_types, name) {
            return Option::Some((&e.0, e.1));
        }
        match self.outer_or_builtins(c) {
            Option::Some(o) => if o < self.arr.len() {
                self.rec_get_type(o, name, fuel - 1)
            } else {
                Option::None
            },
            Option::None => Option::None,
        }
    }

    /// The registered type of this scope alone, of either table; gives the
    /// scope index so the caller may alter the found type's own scope.
    pub fn get_mut_type(&self, c: CtxId, name: &String) -> (r: Option<(Type, CtxId)>)
        requires
            c < self.arr@.len(),
        ensures
            match r {
                Option::Some(e) => (key_lookup(self.arr@[c as int].mono_types@, name@)
                    matches Option::Some(f) && e.0.model() == f.0.model() && e.1 == f.1) || (
                key_lookup(self.arr@[c as int].mono_types@, name@) is None && (key_lookup(
                    self.arr@[c as int].poly_types@,
                    name@,
                ) matches Option::Some(f) && e.0.model() == f.0.model() && e.1 == f.1)),
                Option::None => key_lookup(self.arr@[c as int].mono_types@, name@) is None
                    && key_lookup(self.arr@[c as int].poly_types@, name@) is None,
            },
    {
        if let Option::Some(e) = alist_get(&self.arr[c].mono_types, name) {
            return Option::Some((clone_type(&e.0), e.1));
        }
        if let Option::Some(e) = alist_get(&self.arr[c].poly_types, name) {
            return Option::Some((clone_type(&e.0), e.1));
        }
        Option::None
    }

    /// The registered patch under `name`, searched outward from scope `c`.
    pub open spec fn rec_patch_spec(self, c: int, name: Seq<char>, fuel: nat) -> Option<CtxId>
        decreases fuel,
    {
        if fuel == 0 || !(0 <= c < self.arr@.len()) {
            Option::None
        } else {
            match key_lookup(self.arr@[c].patches@, name) {
                Option::Some(p) => Option::Some(p),
                Option::None => match self.next_scope(c) {
                    Option::Some(o) => self.rec_patch_spec(o, name, (fuel - 1) as nat),
                    Option::None => Option::None,
                },
            }
        }
    }

    /// Finds a registered patch, searching outward; see
    /// [`Contexts::rec_patch_spec`].
    pub fn rec_get_patch(&self, c: CtxId, name: &String, fuel: usize) -> (r: Option<CtxId>)
        requires
            c < self.arr@.len(),
        ensures
            r == self.rec_patch_spec(c as int, name@, fuel as nat),
        decreases fuel,
    {
        if fuel == 0 {
            return Option::None;
        }
        if let Option::Some(p) = alist_get(&self.arr[c].patches, name) {
            return Option::Some(*p);
        }
        match self.outer_or_builtins(c) {
            Option::Some(o) => if o < self.arr.len() {
                self.rec_get_patch(o, name, fuel - 1)
            } else {
                Option::None
            },
            Option::None => Option::None,
        }
    }
}

/// The first parameter binding whose name reads `name`.
pub open spec fn param_lookup(s: Seq<(Option<String>, VarInfo)>, name: Seq<char>) -> Option<
    VarInfo,
>
    decreases s.len(),
{
    if s.len() == 0 {
        Option::None
    } else if s[0].0 matches Option::Some(n) && n@ == name {
        Option::Some(s[0].1)
    } else {
        param_lookup(s.subrange(1, s.len() as int), name)
    }
}

/// Finds the parameter binding under `name`.
#[verifier::loop_isolation(false)]
pub fn param_get<'a>(s: &'a Vec<(Option<String>, VarInfo)>, name: &String) -> (r: Option<
    &'a VarInfo,
>)
    ensures
        match r {
            Option::Some(vi) => param_lookup(s@, name@) matches Option::Some(f) && *vi == f,
            Option::None => param_lookup(s@, name@) is None,
        },
{
    let n = s.len();
    proof {
        assert(s@.subrange(0, n as int) =~= s@);
    }
    let mut i: usize = 0;
    while i < n
        invariant
            i <= n,
            param_lookup(s@, name@) == param_lookup(s@.subrange(i as int, n as int), name@),
        decreases n - i,
    {
        proof {
            assert(s@.subrange(i as int, n as int)[0] == s@[i as int]);
            assert(s@.subrange(i as int, n as int).subrange(1, (n - i) as int) =~= s@.subrange(
                i as int + 1,
                n as int,
            ));
        }
        let hit = match &s[i].0 {
            Option::Some(pn) => string_eq(pn, name),
            Option::None => false,
        };
        if hit {
            return Option::Some(&s[i].1);
        }
        i += 1;
    }
    proof {
        assert(s@.subrange(n as int, n as int) =~= Seq::<(Option<String>, VarInfo)>::empty());
    }
    Option::None
}

/// Whether some type of the list is the given type.
pub open spec fn contains_model(s: Seq<Type>, m: TypeModel) -> bool {
    exists|i: int| 0 <= i < s.len() && s[i].model() == m
}

/// Whether no type of the list appears twice.
pub open spec fn no_dup_models(s: Seq<Type>) -> bool {
    forall|i: int, j: int|
        0 <= i < j < s.len() ==> (#[trigger] s[i]).model() != (#[trigger] s[j]).model()
}

/// Whether the list holds `t`, compared as types.
#[verifier::loop_isolation(false)]
pub fn contains_type(s: &Vec<Type>, t: &Type) -> (r: bool)
    ensures
        r == contains_model(s@, t.model()),
{
    let n = s.len();
    let mut i: usize = 0;
    while i < n
        invariant
            i <= n,
            forall|j: int| 0 <= j < i ==> s@[j].model() != t.model(),
        decreases n - i,
    {
        if crate::ty::type_eq(&s[i], t) {
            return true;
        }
        i += 1;
    }
    false
}

/// Whether some model of the list is `x`.
pub open spec fn model_in(ms: Seq<TypeModel>, x: TypeModel) -> bool {
    exists|i: int| 0 <= i < ms.len() && ms[i] == x
}

/// One keep-first step: a type already held is dropped, a new one is
/// appended.
pub open spec fn dedup_step_spec(acc: Seq<TypeModel>, x: TypeModel) -> Seq<TypeModel> {
    if model_in(acc, x) {
        acc
    } else {
        acc.push(x)
    }
}

/// The keep-first deduplication of a model list, left to right.
pub open spec fn dedup_models_spec(ms: Seq<TypeModel>) -> Seq<TypeModel>
    decreases ms.len(),
{
    if ms.len() == 0 {
        Seq::empty()
    } else {
        dedup_step_spec(dedup_models_spec(ms.drop_last()), ms.last())
    }
}

/// Removes later duplicates from a type list: the result is exactly the
/// keep-first deduplication — the first occurrence of every type in
/// input order, no type twice, and exactly the input's types.
#[verifier::loop_isolation(false)]
pub fn dedup_types(s: &Vec<Type>) -> (r: Vec<Type>)
    ensures
        no_dup_models(r@),
        forall|m: TypeModel| contains_model(r@, m) == contains_model(s@, m),
        crate::ty::models_of(r@) == dedup_models_spec(crate::ty::models_of(s@)),
{
    let ghost sm = crate::ty::models_of(s@);
    let n = s.len();
    let mut out: Vec<Type> = Vec::new();
    proof {
        assert(sm.subrange(0, 0) =~= Seq::<TypeModel>::empty());
        assert(crate::ty::models_of(out@) =~= dedup_models_spec(sm.subrange(0, 0)));
    }
    let mut i: usize = 0;
    while i < n
        invariant
            i <= n,
            no_dup_models(out@),
            forall|m: TypeModel|
                contains_model(out@, m) == contains_model(s@.subrange(0, i as int), m),
            crate::ty::models_of(out@) == dedup_models_spec(sm.subrange(0, i as int)),
        decreases n - i,
    {
        let ghost pre = out@;
        proof {
            assert(sm.subrange(0, i as int + 1).drop_last() =~= sm.subrange(0, i as int));
            assert(sm.subrange(0, i as int + 1).last() == sm[i as int]);
            if contains_model(pre, s@[i as int].model()) {
                let w = choose|w: int|
                    0 <= w < pre.len() && (#[trigger] pre[w]).model() == s@[i as int].model();
                assert(crate::ty::models_of(pre)[w] == sm[i as int]);
                assert(model_in(crate::ty::models_of(pre), sm[i as int]));
            }
            if model_in(crate::ty::models_of(pre), sm[i as int]) {
                let w = choose|w: int|
                    0 <= w < crate::ty::models_of(pre).len() && crate::ty::models_of(pre)[w]
                        == sm[i as int];
                assert(pre[w].model() == s@[i as int].model());
                assert(contains_model(pre, s@[i as int].model()));
            }
        }
        if !contains_type(&out, &s[i]) {
            out.push(crate::ty::clone_type(&s[i]));
            proof {
                assert(crate::ty::models_of(out@) =~= crate::ty::models_of(pre).push(
                    sm[i as int],
                ));
            }
        }
        proof {
            assert forall|m: TypeModel|
                contains_model(out@, m) == contains_model(
                    s@.subrange(0, i as int + 1),
                    m,
                ) by {
                let sub = s@.subrange(0, i as int + 1);
                assert(sub[i as int] == s@[i as int]);
                assert(forall|j: int| 0 <= j < i ==> sub[j] == s@.subrange(0, i as int)[j]);
                if contains_model(out@, m) {
                    let w = choose|w: int| 0 <= w < out@.len() && out@[w].model() == m;
                    if w < pre.len() {
                        assert(contains_model(pre, m));
                        let u = choose|u: int|
                            0 <= u < i && s@.subrange(0, i as int)[u].model() == m;
                        assert(sub[u].model() == m);
                    } else {
                        assert(sub[i as int].model() == m);
                    }
                }
                if contains_model(sub, m) {
                    let u = choose|u: int| 0 <= u < sub.len() && sub[u].model() == m;
                    if u < i {
                        assert(contains_model(s@.subrange(0, i as int), m));
                        assert(contains_model(pre, m));
                        let w = choose|w: int| 0 <= w < pre.len() && pre[w].model() == m;
                        assert(out@[w].model() == m);
                    } else {
                        assert(s@[i as int].model() == m);
                        if contains_model(pre, m) {
                            let w = choose|w: int| 0 <= w < pre.len() && pre[w].model() == m;
                            assert(out@[w].model() == m);
                        } else {
                            assert(out@[out@.len() - 1].model() == m);
                        }
                    }
                }
            }
        }
        i += 1;
    }
    proof {
        assert(s@.subrange(0, n as int) =~= s@);
        assert(sm.subrange(0, n as int) =~= sm);
    }
    out
}

impl Contexts {
    /// Registers an interface declaration (a typed name without a value)
    /// in scope `c`; registering a name twice is the caller's error.
    pub fn register_builtin_decl(&mut self, c: CtxId, name: String, t: Type, vis: Visibility)
        requires
            c < old(self).arr@.len(),
            key_lookup(old(self).arr@[c as int].decls@, name@) is None,
        ensures
            final(self).arr@.len() == old(self).arr@.len(),
            final(self).builtins == old(self).builtins,
            forall|j: int|
                0 <= j < old(self).arr@.len() && j != c ==> final(self).arr@[j] == old(
                    self,
                ).arr@[j],
            final(self).arr@[c as int].decls@ == old(self).arr@[c as int].decls@.push(
                (name, VarInfo { t, muty: Mutability::Immutable, vis }),
            ),
            ctx_same_but_decls(old(self).arr@[c as int], final(self).arr@[c as int]),
    {
        let vi = VarInfo { t, muty: Mutability::Immutable, vis };
        self.arr[c].decls.push((name, vi));
    }

    /// Registers a binding with a value in scope `c`; registering a name
    /// twice is the caller's error.
    pub fn register_builtin_impl(
        &mut self,
        c: CtxId,
        name: String,
        t: Type,
        muty: Mutability,
        vis: Visibility,
    )
        requires
            c < old(self).arr@.len(),
            key_lookup(old(self).arr@[c as int].locals@, name@) is None,
        ensures
            final(self).arr@.len() == old(self).arr@.len(),
            final(self).builtins == old(self).builtins,
            forall|j: int|
                0 <= j < old(self).arr@.len() && j != c ==> final(self).arr@[j] == old(
                    self,
                ).arr@[j],
            final(self).arr@[c as int].locals@ == old(self).arr@[c as int].locals@.push(
                (name, VarInfo { t, muty, vis }),
            ),
            ctx_same_but_locals(old(self).arr@[c as int], final(self).arr@[c as int]),
    {
        let vi = VarInfo { t, muty, vis };
        self.arr[c].locals.push((name, vi));
    }

    /// Registers an immutable private binding in scope `c`.
    pub fn register_builtin_immutable_private_var(&mut self, c: CtxId, name: String, t: Type)
        requires
            c < old(self).arr@.len(),
            key_lookup(old(self).arr@[c as int].locals@, name@) is None,
        ensures
            final(self).arr@.len() == old(self).arr@.len(),
            final(self).builtins == old(self).builtins,
            forall|j: int|
                0 <= j < old(self).arr@.len() && j != c ==> final(self).arr@[j] == old(
                    self,
                ).arr@[j],
            final(self).arr@[c as int].locals@ == old(self).arr@[c as int].locals@.push(
                (name, VarInfo { t, muty: Mutability::Immutable, vis: Visibility::Private }),
            ),
            ctx_same_but_locals(old(self).arr@[c as int], final(self).arr@[c as int]),
    {
        self.register_builtin_impl(c, name, t, Mutability::Immutable, Visibility::Private);
    }

    /// Records `sup` as a superclass of scope `c`, inheriting the
    /// superclasses and supertraits `sup`'s own scope already records.
    /// Afterwards the superclass list holds `sup` and everything either
    /// list held, each type once.
    pub fn register_superclass(&mut self, c: CtxId, sup: Type, sup_ctx: CtxId)
        requires
            c < old(self).arr@.len(),
            sup_ctx < old(self).arr@.len(),
        ensures
            final(self).arr@.len() == old(self).arr@.len(),
            final(self).builtins == old(self).builtins,
            forall|j: int|
                0 <= j < old(self).arr@.len() && j != c ==> final(self).arr@[j] == old(
                    self,
                ).arr@[j],
            ctx_same_but_supers(old(self).arr@[c as int], final(self).arr@[c as int]),
            no_dup_models(final(self).arr@[c as int].super_classes@),
            no_dup_models(final(self).arr@[c as int].super_traits@),
            forall|m: TypeModel|
                contains_model(final(self).arr@[c as int].super_classes@, m) == (contains_model(
                    old(self).arr@[c as int].super_classes@,
                    m,
                ) || m == sup.model() || contains_model(
                    old(self).arr@[sup_ctx as int].super_classes@,
                    m,
                )),
            forall|m: TypeModel|
                contains_model(final(self).arr@[c as int].super_traits@, m) == (contains_model(
                    old(self).arr@[c as int].super_traits@,
                    m,
                ) || contains_model(old(self).arr@[sup_ctx as int].super_traits@, m)),
            // first occurrences keep their order: own entries, then the
            // new superclass, then what its scope already recorded
            crate::ty::models_of(final(self).arr@[c as int].super_classes@)
                == dedup_models_spec(
                crate::ty::models_of(old(self).arr@[c as int].super_classes@) + seq![
                    sup.model(),
                ] + crate::ty::models_of(old(self).arr@[sup_ctx as int].super_classes@),
            ),
            crate::ty::models_of(final(self).arr@[c as int].super_traits@) == dedup_models_spec(
                crate::ty::models_of(old(self).arr@[c as int].super_traits@)
                    + crate::ty::models_of(old(self).arr@[sup_ctx as int].super_traits@),
            ),
    {
        let inherited_classes = crate::ty::clone_type_list(&self.arr[sup_ctx].super_classes);
        let inherited_traits = crate::ty::clone_type_list(&self.arr[sup_ctx].super_traits);
        let mut classes = crate::ty::clone_type_list(&self.arr[c].super_classes);
        proof {
            lemma_models_of_contains(old(self).arr@[c as int].super_classes@, classes@);
            lemma_models_of_contains(old(self).arr@[sup_ctx as int].super_classes@, inherited_classes@);
            lemma_models_of_contains(old(self).arr@[sup_ctx as int].super_traits@, inherited_traits@);
        }
        let ghost cls0 = classes@;
        classes.push(sup);
        proof {
            lemma_contains_after_push(cls0, classes@, sup);
            assert(crate::ty::models_of(classes@) =~= crate::ty::models_of(
                old(self).arr@[c as int].super_classes@,
            ) + seq![sup.model()]);
        }
        let ghost base_cm = crate::ty::models_of(classes@);
        let ghost inh_cm = crate::ty::models_of(old(self).arr@[sup_ctx as int].super_classes@);
        let mut k: usize = 0;
        let nk = inherited_classes.len();
        proof {
            assert(crate::ty::models_of(classes@) =~= base_cm + inh_cm.subrange(0, 0));
        }
        while k < nk
            invariant
                k <= nk,
                nk == inherited_classes@.len(),
                forall|m: TypeModel|
                    contains_model(classes@, m) == (contains_model(
                        old(self).arr@[c as int].super_classes@,
                        m,
                    ) || m == sup.model() || contains_model(
                        inherited_classes@.subrange(0, k as int),
                        m,
                    )),
                crate::ty::models_of(inherited_classes@) == inh_cm,
                crate::ty::models_of(classes@) == base_cm + inh_cm.subrange(0, k as int),
            decreases nk - k,
        {
            let ghost pre = classes@;
            let elem = crate::ty::clone_type(&inherited_classes[k]);
            classes.push(elem);
            proof {
                lemma_contains_after_push(pre, classes@, elem);
                lemma_contains_subrange_push(inherited_classes@, k as int);
                assert(crate::ty::models_of(inherited_classes@)[k as int] == inh_cm[k as int]);
                assert(elem.model() == inh_cm[k as int]);
                assert(crate::ty::models_of(classes@) =~= crate::ty::models_of(pre).push(
                    inh_cm[k as int],
                ));
                assert(inh_cm.subrange(0, k as int + 1) =~= inh_cm.subrange(
                    0,
                    k as int,
                ).push(inh_cm[k as int]));
                assert(crate::ty::models_of(classes@) =~= base_cm + inh_cm.subrange(
                    0,
                    k as int + 1,
                ));
            }
            k += 1;
        }
        proof {
            assert(inherited_classes@.subrange(0, nk as int) =~= inherited_classes@);
            assert(inh_cm.subrange(0, nk as int) =~= inh_cm);
        }
        let deduped_classes = dedup_types(&classes);
        let mut traits = crate::ty::clone_type_list(&self.arr[c].super_traits);
        let mut k2: usize = 0;
        let nk2 = inherited_traits.len();
        let ghost base_tm = crate::ty::models_of(old(self).arr@[c as int].super_traits@);
        let ghost inh_tm = crate::ty::models_of(old(self).arr@[sup_ctx as int].super_traits@);
        proof {
            lemma_models_of_contains(old(self).arr@[c as int].super_traits@, traits@);
            assert(crate::ty::models_of(traits@) =~= base_tm + inh_tm.subrange(0, 0));
        }
        while k2 < nk2
            invariant
                k2 <= nk2,
                nk2 == inherited_traits@.len(),
                forall|m: TypeModel|
                    contains_model(traits@, m) == (contains_model(
                        old(self).arr@[c as int].super_traits@,
                        m,
                    ) || contains_model(inherited_traits@.subrange(0, k2 as int), m)),
                crate::ty::models_of(inherited_traits@) == inh_tm,
                crate::ty::models_of(traits@) == base_tm + inh_tm.subrange(0, k2 as int),
            decreases nk2 - k2,
        {
            let ghost pre = traits@;
            let elem = crate::ty::clone_type(&inherited_traits[k2]);
            traits.push(elem);
            proof {
                lemma_contains_after_push(pre, traits@, elem);
                lemma_contains_subrange_push(inherited_traits@, k2 as int);
                assert(crate::ty::models_of(inherited_traits@)[k2 as int] == inh_tm[k2 as int]);
                assert(elem.model() == inh_tm[k2 as int]);
                assert(crate::ty::models_of(traits@) =~= crate::ty::models_of(pre).push(
                    inh_tm[k2 as int],
                ));
                assert(inh_tm.subrange(0, k2 as int + 1) =~= inh_tm.subrange(
                    0,
                    k2 as int,
                ).push(inh_tm[k2 as int]));
                assert(crate::ty::models_of(traits@) =~= base_tm + inh_tm.subrange(
                    0,
                    k2 as int + 1,
                ));
            }
            k2 += 1;
        }
        proof {
            assert(inherited_traits@.subrange(0, nk2 as int) =~= inherited_traits@);
            assert(inh_tm.subrange(0, nk2 as int) =~= inh_tm);
        }
        let deduped_traits = dedup_types(&traits);
        self.arr[c].super_classes = deduped_classes;
        self.arr[c].super_traits = deduped_traits;
    }

    /// Records `sup` as a supertrait of scope `c`, inheriting the
    /// supertraits `sup`'s own scope already records; each trait is kept
    /// once.
    pub fn register_supertrait(&mut self, c: CtxId, sup: Type, sup_ctx: CtxId)
        requires
            c < old(self).arr@.len(),
            sup_ctx < old(self).arr@.len(),
        ensures
            final(self).arr@.len() == old(self).arr@.len(),
            final(self).builtins == old(self).builtins,
            forall|j: int|
                0 <= j < old(self).arr@.len() && j != c ==> final(self).arr@[j] == old(
                    self,
                ).arr@[j],
            ctx_same_but_supers(old(self).arr@[c as int], final(self).arr@[c as int]),
            final(self).arr@[c as int].super_classes@ == old(
                self,
            ).arr@[c as int].super_classes@,
            no_dup_models(final(self).arr@[c as int].super_traits@),
            forall|m: TypeModel|
                contains_model(final(self).arr@[c as int].super_traits@, m) == (contains_model(
                    old(self).arr@[c as int].super_traits@,
                    m,
                ) || m == sup.model() || contains_model(
                    old(self).arr@[sup_ctx as int].super_traits@,
                    m,
                )),
            crate::ty::models_of(final(self).arr@[c as int].super_traits@) == dedup_models_spec(
                crate::ty::models_of(old(self).arr@[c as int].super_traits@) + seq![
                    sup.model(),
                ] + crate::ty::models_of(old(self).arr@[sup_ctx as int].super_traits@),
            ),
    {
        let inherited_traits = crate::ty::clone_type_list(&self.arr[sup_ctx].super_traits);
        let mut traits = crate::ty::clone_type_list(&self.arr[c].super_traits);
        proof {
            lemma_models_of_contains(old(self).arr@[c as int].super_traits@, traits@);
            lemma_models_of_contains(old(self).arr@[sup_ctx as int].super_traits@, inherited_traits@);
        }
        let ghost trs0 = traits@;
        traits.push(sup);
        proof {
            lemma_contains_after_push(trs0, traits@, sup);
            assert(crate::ty::models_of(traits@) =~= crate::ty::models_of(
                old(self).arr@[c as int].super_traits@,
            ) + seq![sup.model()]);
        }
        let ghost base_tm = crate::ty::models_of(traits@);
        let ghost inh_tm = crate::ty::models_of(old(self).arr@[sup_ctx as int].super_traits@);
        let mut k: usize = 0;
        let nk = inherited_traits.len();
        proof {
            assert(crate::ty::models_of(traits@) =~= base_tm + inh_tm.subrange(0, 0));
        }
        while k < nk
            invariant
                k <= nk,
                nk == inherited_traits@.len(),
                forall|m: TypeModel|
                    contains_model(traits@, m) == (contains_model(
                        old(self).arr@[c as int].super_traits@,
                        m,
                    ) || m == sup.model() || contains_model(
                        inherited_traits@.subrange(0, k as int),
                        m,
                    )),
                crate::ty::models_of(inherited_traits@) == inh_tm,
                crate::ty::models_of(traits@) == base_tm + inh_tm.subrange(0, k as int),
            decreases nk - k,
        {
            let ghost pre = traits@;
            let elem = crate::ty::clone_type(&inherited_traits[k]);
            traits.push(elem);
            proof {
                lemma_contains_after_push(pre, traits@, elem);
                lemma_contains_subrange_push(inherited_traits@, k as int);
                assert(crate::ty::models_of(inherited_traits@)[k as int] == inh_tm[k as int]);
                assert(elem.model() == inh_tm[k as int]);
                assert(crate::ty::models_of(traits@) =~= crate::ty::models_of(pre).push(
                    inh_tm[k as int],
                ));
                assert(inh_tm.subrange(0, k as int + 1) =~= inh_tm.subrange(
                    0,
                    k as int,
                ).push(inh_tm[k as int]));
                assert(crate::ty::models_of(traits@) =~= base_tm + inh_tm.subrange(
                    0,
                    k as int + 1,
                ));
            }
            k += 1;
        }
        proof {
            assert(inherited_traits@.subrange(0, nk as int) =~= inherited_traits@);
            assert(inh_tm.subrange(0, nk as int) =~= inh_tm);
        }
        let deduped = dedup_types(&traits);
        self.arr[c].super_traits = deduped;
    }
}

/// A clone of a type list holds the same types.
pub proof fn lemma_models_of_contains(a: Seq<Type>, b: Seq<Type>)
    requires
        crate::ty::models_of(a) == crate::ty::models_of(b) || a == b,
    ensures
        forall|m: TypeModel| contains_model(a, m) == contains_model(b, m),
{
    assert forall|m: TypeModel| contains_model(a, m) == contains_model(b, m) by {
        assert(crate::ty::models_of(a).len() == a.len());
        assert(crate::ty::models_of(b).len() == b.len());
        if contains_model(a, m) {
            let i = choose|i: int| 0 <= i < a.len() && a[i].model() == m;
            assert(crate::ty::models_of(a)[i] == m);
            assert(b[i].model() == m);
        }
        if contains_model(b, m) {
            let i = choose|i: int| 0 <= i < b.len() && b[i].model() == m;
            assert(crate::ty::models_of(b)[i] == m);
            assert(a[i].model() == m);
        }
    }
}

/// After pushing a type, a type is held exactly when it was held before or
/// is the pushed one.
pub proof fn lemma_contains_after_push(pre: Seq<Type>, post: Seq<Type>, t: Type)
    requires
        post == pre.push(t),
    ensures
        forall|m: TypeModel|
            #[trigger] contains_model(post, m) == (contains_model(pre, m) || m == t.model()),
{
    assert forall|m: TypeModel|
        #[trigger] contains_model(post, m) == (contains_model(pre, m) || m == t.model()) by {
        if contains_model(post, m) {
            let i = choose|i: int| 0 <= i < post.len() && post[i].model() == m;
            if i < pre.len() {
                assert(pre[i].model() == m);
            }
        }
        if contains_model(pre, m) {
            let i = choose|i: int| 0 <= i < pre.len() && pre[i].model() == m;
            assert(post[i].model() == m);
        }
        if m == t.model() {
            assert(post[pre.len() as int].model() == m);
        }
    }
}

/// Extending a prefix of `src` by one element extends what it holds by
/// that element.
pub proof fn lemma_contains_subrange_push(src: Seq<Type>, k: int)
    requires
        0 <= k < src.len(),
    ensures
        forall|m: TypeModel|
            #[trigger] contains_model(src.subrange(0, k + 1), m) == (contains_model(
                src.subrange(0, k),
                m,
            ) || m == src[k].model()),
{
    let sub1 = src.subrange(0, k + 1);
    let sub0 = src.subrange(0, k);
    assert forall|m: TypeModel|
        #[trigger] contains_model(sub1, m) == (contains_model(sub0, m) || m
            == src[k].model()) by {
        assert(sub1[k] == src[k]);
        if contains_model(sub1, m) {
            let i = choose|i: int| 0 <= i < sub1.len() && sub1[i].model() == m;
            if i < k {
                assert(sub0[i] == sub1[i]);
                assert(sub0[i].model() == m);
            }
        }
        if contains_model(sub0, m) {
            let i = choose|i: int| 0 <= i < sub0.len() && sub0[i].model() == m;
            assert(sub1[i] == sub0[i]);
            assert(sub1[i].model() == m);
        }
        if m == src[k].model() {
            assert(sub1[k].model() == m);
        }
    }
}

/// The two scopes agree on everything but the declaration table.
pub open spec fn ctx_same_but_decls(a: Context, b: Context) -> bool {
    b.name == a.name && b.kind == a.kind && b.params == a.params && b.locals == a.locals
        && b.methods_list == a.methods_list && b.mono_types == a.mono_types && b.poly_types
        == a.poly_types && b.patches == a.patches && b.trait_impls == a.trait_impls
        && b.method_to_traits == a.method_to_traits && b.method_to_classes
        == a.method_to_classes && b.method_impl_patches == a.method_impl_patches
        && b.super_classes == a.super_classes && b.super_traits == a.super_traits && b.outer
        == a.outer
}

/// The two scopes agree on everything but the local-binding table.
pub open spec fn ctx_same_but_locals(a: Context, b: Context) -> bool {
    b.name == a.name && b.kind == a.kind && b.params == a.params && b.decls == a.decls
        && b.methods_list == a.methods_list && b.mono_types == a.mono_types && b.poly_types
        == a.poly_types && b.patches == a.patches && b.trait_impls == a.trait_impls
        && b.method_to_traits == a.method_to_traits && b.method_to_classes
        == a.method_to_classes && b.method_impl_patches == a.method_impl_patches
        && b.super_classes == a.super_classes && b.super_traits == a.super_traits && b.outer
        == a.outer
}

/// The two scopes agree on everything but the superclass and supertrait
/// lists.
pub open spec fn ctx_same_but_supers(a: Context, b: Context) -> bool {
    b.name == a.name && b.kind == a.kind && b.params == a.params && b.locals == a.locals
        && b.decls == a.decls && b.methods_list == a.methods_list && b.mono_types
        == a.mono_types && b.poly_types == a.poly_types && b.patches == a.patches
        && b.trait_impls == a.trait_impls && b.method_to_traits == a.method_to_traits
        && b.method_to_classes == a.method_to_classes && b.method_impl_patches
        == a.method_impl_patches && b.outer == a.outer
}

impl Contexts {
    /// Registers a nominal type without parameters in scope `c`: the name
    /// becomes a local binding of the matching kind of type, the type's
    /// scope is recorded, every supertrait of that scope is indexed as a
    /// trait implementation, and the scope's declared and defined methods
    /// are indexed under their names.
    #[verifier::rlimit(100)]
    pub fn register_mono_type(
        &mut self,
        c: CtxId,
        t: Type,
        tctx: CtxId,
        vis: Visibility,
        muty: Mutability,
    )
        requires
            c < old(self).arr@.len(),
            tctx < old(self).arr@.len(),
            c != tctx,
            crate::ty::local_name_spec(t.model()) is Some,
            self.rec_mono_type_spec(
                c as int,
                crate::ty::local_name_spec(t.model()).unwrap(),
                old(self).arr@.len() as nat + 1,
            ) is None,
            key_lookup(
                old(self).arr@[c as int].locals@,
                crate::ty::local_name_spec(t.model()).unwrap(),
            ) is None,
        ensures
            final(self).arr@.len() == old(self).arr@.len(),
            final(self).builtins == old(self).builtins,
            forall|j: int|
                0 <= j < old(self).arr@.len() && j != c ==> final(self).arr@[j] == old(
                    self,
                ).arr@[j],
            registered_mono(
                old(self).arr@[c as int],
                final(self).arr@[c as int],
                t.model(),
                tctx,
                old(self).arr@[tctx as int],
                vis,
                muty,
            ),
    {
        let name = match local_name(&t) {
            Option::Some(n) => n.clone(),
            Option::None => unreached(),
        };
        let meta_t = match self.arr[tctx].kind {
            ContextKind::Class => Type::ClassType,
            ContextKind::Trait => Type::TraitType,
            _ => Type::Type,
        };
        let sup_traits = crate::ty::clone_type_list(&self.arr[tctx].super_traits);
        let ghost decls0 = self.arr@[tctx as int].decls@;
        let ghost locals0 = self.arr@[tctx as int].locals@;
        self.arr[c].locals.push((name.clone(), VarInfo {
            t: meta_t,
            muty,
            vis,
        }));
        let nst = sup_traits.len();
        let mut k: usize = 0;
        let ghost ti0 = self.arr@[c as int].trait_impls@;
        proof {
            assert(ti0.subrange(0, ti0.len() as int) =~= ti0);
            assert(crate::ty::models_of(sup_traits@).subrange(0, 0) =~= Seq::<
                TypeModel,
            >::empty());
        }
        while k < nst
            invariant
                k <= nst,
                nst == sup_traits@.len(),
                c < self.arr@.len(),
                self.arr@.len() == old(self).arr@.len(),
                self.builtins == old(self).builtins,
                forall|j: int|
                    0 <= j < old(self).arr@.len() && j != c ==> self.arr@[j] == old(self).arr@[j],
                ctx_same_but_impls(old(self).arr@[c as int], self.arr@[c as int]),
                self.arr@[c as int].locals@ == old(self).arr@[c as int].locals@.push(
                    self.arr@[c as int].locals@.last(),
                ),
                self.arr@[c as int].locals@.last().0@ == name@,
                self.arr@[c as int].locals@.last().1.t.model() == meta_t.model(),
                self.arr@[c as int].locals@.last().1.muty == muty,
                self.arr@[c as int].locals@.last().1.vis == vis,
                self.arr@[c as int].method_to_traits@ == old(
                    self,
                ).arr@[c as int].method_to_traits@,
                self.arr@[c as int].method_to_classes@ == old(
                    self,
                ).arr@[c as int].method_to_classes@,
                self.arr@[c as int].mono_types@ == old(self).arr@[c as int].mono_types@,
                impls_extended(
                    old(self).arr@[c as int].trait_impls@,
                    self.arr@[c as int].trait_impls@,
                    t.model(),
                    crate::ty::models_of(sup_traits@).subrange(0, k as int),
                ),
            decreases nst - k,
        {
            let ghost pre = self.arr@[c as int].trait_impls@;
            let tr = crate::ty::clone_type(&sup_traits[k]);
            match local_name(&tr) {
                Option::Some(tn) => {
                    let key = tn.clone();
                    let ti = TraitInstance {
                        sub_type: crate::ty::clone_type(&t),
                        sup_trait: tr,
                    };
                    self.arr[c].trait_impls.push((key, ti));
                },
                Option::None => {},
            }
            proof {
                let all = crate::ty::models_of(sup_traits@);
                assert(all[k as int] == sup_traits@[k as int].model());
                if self.arr@[c as int].trait_impls@.len() > pre.len() {
                    assert(self.arr@[c as int].trait_impls@.subrange(0, pre.len() as int)
                        =~= pre);
                }
                lemma_impls_extended_step(
                    old(self).arr@[c as int].trait_impls@,
                    pre,
                    self.arr@[c as int].trait_impls@,
                    t.model(),
                    all,
                    k as int,
                );
            }
            k += 1;
        }
        proof {
            assert(crate::ty::models_of(sup_traits@).subrange(0, nst as int) =~= crate::ty::models_of(
                sup_traits@,
            ));
            assert(crate::ty::models_of(sup_traits@) =~= crate::ty::models_of(
                old(self).arr@[tctx as int].super_traits@,
            ));
        }
        self.index_methods(c, tctx, &t);
        let tpair = (crate::ty::clone_type(&t), tctx);
        self.arr[c].mono_types.push((name, tpair));
        proof {
            let oc = old(self).arr@[c as int];
            let nc = self.arr@[c as int];
            assert(nc.locals@.subrange(0, oc.locals@.len() as int) =~= oc.locals@);
            assert(nc.mono_types@.subrange(0, oc.mono_types@.len() as int) =~= oc.mono_types@);
        }
    }

    /// Indexes the declared methods of scope `tctx` under
    /// `method_to_traits` of scope `c`, and its defined methods under
    /// `method_to_classes`, each as a method of the type `t`.
    #[verifier::rlimit(100)]
    fn index_methods(&mut self, c: CtxId, tctx: CtxId, t: &Type)
        requires
            c < old(self).arr@.len(),
            tctx < old(self).arr@.len(),
            c != tctx,
        ensures
            final(self).arr@.len() == old(self).arr@.len(),
            final(self).builtins == old(self).builtins,
            forall|j: int|
                0 <= j < old(self).arr@.len() && j != c ==> final(self).arr@[j] == old(
                    self,
                ).arr@[j],
            ctx_same_but_method_maps(old(self).arr@[c as int], final(self).arr@[c as int]),
            methods_extended(
                old(self).arr@[c as int].method_to_traits@,
                final(self).arr@[c as int].method_to_traits@,
                t.model(),
                old(self).arr@[tctx as int].decls@,
            ),
            methods_extended(
                old(self).arr@[c as int].method_to_classes@,
                final(self).arr@[c as int].method_to_classes@,
                t.model(),
                old(self).arr@[tctx as int].locals@,
            ),
    {
        let nd = self.arr[tctx].decls.len();
        let ghost mt0 = self.arr@[c as int].method_to_traits@;
        proof {
            assert(mt0.subrange(0, mt0.len() as int) =~= mt0);
        }
        let mut k: usize = 0;
        while k < nd
            invariant
                k <= nd,
                c < self.arr@.len(),
                tctx < self.arr@.len(),
                c != tctx,
                nd == self.arr@[tctx as int].decls@.len(),
                self.arr@.len() == old(self).arr@.len(),
                self.builtins == old(self).builtins,
                forall|j: int|
                    0 <= j < old(self).arr@.len() && j != c ==> self.arr@[j] == old(self).arr@[j],
                ctx_same_but_method_maps(old(self).arr@[c as int], self.arr@[c as int]),
                self.arr@[c as int].method_to_classes@ == old(
                    self,
                ).arr@[c as int].method_to_classes@,
                methods_extended_upto(
                    old(self).arr@[c as int].method_to_traits@,
                    self.arr@[c as int].method_to_traits@,
                    t.model(),
                    old(self).arr@[tctx as int].decls@,
                    k as int,
                ),
            decreases nd - k,
        {
            let mname = self.arr[tctx].decls[k].0.clone();
            let mt = MethodType {
                definition_type: crate::ty::clone_type(t),
                method_type: crate::ty::clone_type(&self.arr[tctx].decls[k].1.t),
            };
            let ghost pre = self.arr@[c as int].method_to_traits@;
            self.arr[c].method_to_traits.push((mname, mt));
            proof {
                let base = old(self).arr@[c as int].method_to_traits@;
                let cur = self.arr@[c as int].method_to_traits@;
                assert(cur.subrange(0, base.len() as int) =~= pre.subrange(
                    0,
                    base.len() as int,
                ));
                assert forall|j: int|
                    0 <= j < k + 1 implies (#[trigger] cur[base.len() + j]).0@ == old(
                        self,
                    ).arr@[tctx as int].decls@[j].0@ && cur[base.len()
                        + j].1.definition_type.model() == t.model() && cur[base.len()
                        + j].1.method_type.model() == old(
                        self,
                    ).arr@[tctx as int].decls@[j].1.t.model() by {
                    if j < k {
                        assert(cur[base.len() + j] == pre[base.len() + j]);
                    }
                }
            }
            k += 1;
        }
        let nl = self.arr[tctx].locals.len();
        let ghost mc0 = self.arr@[c as int].method_to_classes@;
        proof {
            assert(mc0.subrange(0, mc0.len() as int) =~= mc0);
        }
        let mut k2: usize = 0;
        while k2 < nl
            invariant
                k2 <= nl,
                c < self.arr@.len(),
                tctx < self.arr@.len(),
                c != tctx,
                nl == self.arr@[tctx as int].locals@.len(),
                self.arr@.len() == old(self).arr@.len(),
                self.builtins == old(self).builtins,
                forall|j: int|
                    0 <= j < old(self).arr@.len() && j != c ==> self.arr@[j] == old(self).arr@[j],
                ctx_same_but_method_maps(old(self).arr@[c as int], self.arr@[c as int]),
                methods_extended(
                    old(self).arr@[c as int].method_to_traits@,
                    self.arr@[c as int].method_to_traits@,
                    t.model(),
                    old(self).arr@[tctx as int].decls@,
                ),
                methods_extended_upto(
                    old(self).arr@[c as int].method_to_classes@,
                    self.arr@[c as int].method_to_classes@,
                    t.model(),
                    old(self).arr@[tctx as int].locals@,
                    k2 as int,
                ),
            decreases nl - k2,
        {
            let mname = self.arr[tctx].locals[k2].0.clone();
            let mt = MethodType {
                definition_type: crate::ty::clone_type(t),
                method_type: crate::ty::clone_type(&self.arr[tctx].locals[k2].1.t),
            };
            let ghost pre = self.arr@[c as int].method_to_classes@;
            self.arr[c].method_to_classes.push((mname, mt));
            proof {
                let base = old(self).arr@[c as int].method_to_classes@;
                let cur = self.arr@[c as int].method_to_classes@;
                assert(cur.subrange(0, base.len() as int) =~= pre.subrange(
                    0,
                    base.len() as int,
                ));
                assert forall|j: int|
                    0 <= j < k2 + 1 implies (#[trigger] cur[base.len() + j]).0@ == old(
                        self,
                    ).arr@[tctx as int].locals@[j].0@ && cur[base.len()
                        + j].1.definition_type.model() == t.model() && cur[base.len()
                        + j].1.method_type.model() == old(
                        self,
                    ).arr@[tctx as int].locals@[j].1.t.model() by {
                    if j < k2 {
                        assert(cur[base.len() + j] == pre[base.len() + j]);
                    }
                }
            }
            k2 += 1;
        }
    }
}

/// The two scopes agree on everything but the trait-implementation index
/// and the local-binding table.
pub open spec fn ctx_same_but_impls(a: Context, b: Context) -> bool {
    b.name == a.name && b.kind == a.kind && b.params == a.params && b.decls == a.decls
        && b.methods_list == a.methods_list && b.poly_types == a.poly_types && b.patches
        == a.patches && b.method_impl_patches == a.method_impl_patches && b.super_classes
        == a.super_classes && b.super_traits == a.super_traits && b.outer == a.outer
}

/// The two scopes agree on everything but the two method indices, the
/// trait-implementation index, the local-binding table and the nominal
/// type tables.
pub open spec fn ctx_same_but_method_maps(a: Context, b: Context) -> bool {
    b.name == a.name && b.kind == a.kind && b.params == a.params && b.decls == a.decls
        && b.methods_list == a.methods_list && b.patches == a.patches
        && b.method_impl_patches == a.method_impl_patches && b.super_classes
        == a.super_classes && b.super_traits == a.super_traits && b.outer == a.outer
        && b.locals == a.locals && b.trait_impls == a.trait_impls && b.mono_types
        == a.mono_types && b.poly_types == a.poly_types
}

/// The implementation index `post` is `pre` with one entry appended for
/// each named trait of `traits`, each recording that `sub` implements it.
pub open spec fn impls_extended(
    pre: Seq<(String, TraitInstance)>,
    post: Seq<(String, TraitInstance)>,
    sub: TypeModel,
    traits: Seq<TypeModel>,
) -> bool {
    &&& post.len() >= pre.len()
    &&& post.subrange(0, pre.len() as int) == pre
    &&& forall|e: int|
        pre.len() <= e < post.len() ==> exists|k: int|
            0 <= k < traits.len() && crate::ty::local_name_spec(#[trigger] traits[k])
                == Option::Some((#[trigger] post[e]).0@) && post[e].1.sub_type.model() == sub
                && post[e].1.sup_trait.model() == traits[k]
    &&& forall|k: int|
        0 <= k < traits.len() && crate::ty::local_name_spec(#[trigger] traits[k]) is Some
            ==> exists|e: int|
            pre.len() <= e < post.len() && Option::Some((#[trigger] post[e]).0@)
                == crate::ty::local_name_spec(traits[k]) && post[e].1.sub_type.model() == sub
                && post[e].1.sup_trait.model() == traits[k]
}

/// One step of extending the implementation index preserves the relation.
#[verifier::rlimit(100)]
pub proof fn lemma_impls_extended_step(
    base: Seq<(String, TraitInstance)>,
    pre: Seq<(String, TraitInstance)>,
    post: Seq<(String, TraitInstance)>,
    sub: TypeModel,
    traits: Seq<TypeModel>,
    k: int,
)
    requires
        0 <= k < traits.len(),
        impls_extended(base, pre, sub, traits.subrange(0, k)),
        crate::ty::local_name_spec(traits[k]) is Some ==> post.len() == pre.len() + 1
            && post.subrange(0, pre.len() as int) == pre && Option::Some(
            post[pre.len() as int].0@,
        ) == crate::ty::local_name_spec(traits[k]) && post[pre.len() as int].1.sub_type.model()
            == sub && post[pre.len() as int].1.sup_trait.model() == traits[k],
        crate::ty::local_name_spec(traits[k]) is None ==> post == pre,
    ensures
        impls_extended(base, post, sub, traits.subrange(0, k + 1)),
{
    let t0 = traits.subrange(0, k);
    let t1 = traits.subrange(0, k + 1);
    assert(t1[k] == traits[k]);
    assert(forall|j: int| 0 <= j < k ==> t1[j] == t0[j]);
    assert(post.subrange(0, base.len() as int) =~= base);
    assert forall|e: int|
        base.len() <= e < post.len() implies exists|kk: int|
            0 <= kk < t1.len() && crate::ty::local_name_spec(#[trigger] t1[kk]) == Option::Some(
                (#[trigger] post[e]).0@,
            ) && post[e].1.sub_type.model() == sub && post[e].1.sup_trait.model() == t1[kk] by {
        if e < pre.len() {
            assert(post[e] == pre[e]);
            let kk = choose|kk: int|
                0 <= kk < t0.len() && crate::ty::local_name_spec(#[trigger] t0[kk])
                    == Option::Some(pre[e].0@) && pre[e].1.sub_type.model() == sub
                    && pre[e].1.sup_trait.model() == t0[kk];
            assert(t1[kk] == t0[kk]);
        } else {
            assert(crate::ty::local_name_spec(t1[k]) == Option::Some(post[e].0@)
                && post[e].1.sub_type.model() == sub && post[e].1.sup_trait.model() == t1[k]);
        }
    }
    assert forall|kk: int|
        0 <= kk < t1.len() && crate::ty::local_name_spec(#[trigger] t1[kk]) is Some
            implies exists|e: int|
            base.len() <= e < post.len() && Option::Some((#[trigger] post[e]).0@)
                == crate::ty::local_name_spec(t1[kk]) && post[e].1.sub_type.model() == sub
                && post[e].1.sup_trait.model() == t1[kk] by {
        if kk < k {
            assert(t0[kk] == t1[kk]);
            let e = choose|e: int|
                base.len() <= e < pre.len() && Option::Some((#[trigger] pre[e]).0@)
                    == crate::ty::local_name_spec(t0[kk]) && pre[e].1.sub_type.model() == sub
                    && pre[e].1.sup_trait.model() == t0[kk];
            assert(post[e] == pre[e]);
        } else {
            let e = pre.len() as int;
            assert(Option::Some(post[e].0@) == crate::ty::local_name_spec(t1[kk])
                && post[e].1.sub_type.model() == sub && post[e].1.sup_trait.model() == t1[kk]);
        }
    }
}

/// The method index `post` is `pre` with one entry appended per binding of
/// `src`, keyed by the binding's name, each recording a method of the type
/// `deft` with the binding's type.
pub open spec fn methods_extended(
    pre: Seq<(String, MethodType)>,
    post: Seq<(String, MethodType)>,
    deft: TypeModel,
    src: Seq<(String, VarInfo)>,
) -> bool {
    methods_extended_upto(pre, post, deft, src, src.len() as int)
}

/// Like [`methods_extended`], for the first `k` bindings of `src`.
pub open spec fn methods_extended_upto(
    pre: Seq<(String, MethodType)>,
    post: Seq<(String, MethodType)>,
    deft: TypeModel,
    src: Seq<(String, VarInfo)>,
    k: int,
) -> bool {
    &&& 0 <= k <= src.len()
    &&& post.len() == pre.len() + k
    &&& post.subrange(0, pre.len() as int) == pre
    &&& forall|j: int|
        0 <= j < k ==> (#[trigger] post[pre.len() + j]).0@ == src[j].0@ && post[pre.len()
            + j].1.definition_type.model() == deft && post[pre.len() + j].1.method_type.model()
            == src[j].1.t.model()
}

/// The registration effect of a nominal type without parameters.
pub open spec fn registered_mono(
    pre: Context,
    post: Context,
    t: TypeModel,
    tctx: CtxId,
    tscope: Context,
    vis: Visibility,
    muty: Mutability,
) -> bool {
    let name = crate::ty::local_name_spec(t).unwrap();
    let meta = if tscope.kind == ContextKind::Class {
        TypeModel::ClassType
    } else if tscope.kind == ContextKind::Trait {
        TypeModel::TraitType
    } else {
        TypeModel::Type
    };
    &&& post.name == pre.name && post.kind == pre.kind && post.params == pre.params
        && post.decls == pre.decls && post.methods_list == pre.methods_list && post.poly_types
        == pre.poly_types && post.patches == pre.patches && post.method_impl_patches
        == pre.method_impl_patches && post.super_classes == pre.super_classes
        && post.super_traits == pre.super_traits && post.outer == pre.outer
    &&& post.locals@.len() == pre.locals@.len() + 1
    &&& post.locals@.subrange(0, pre.locals@.len() as int) == pre.locals@
    &&& post.locals@.last().0@ == name
    &&& post.locals@.last().1.t.model() == meta
    &&& post.locals@.last().1.muty == muty
    &&& post.locals@.last().1.vis == vis
    &&& post.mono_types@.len() == pre.mono_types@.len() + 1
    &&& post.mono_types@.subrange(0, pre.mono_types@.len() as int) == pre.mono_types@
    &&& post.mono_types@.last().0@ == name
    &&& post.mono_types@.last().1.0.model() == t
    &&& post.mono_types@.last().1.1 == tctx
    &&& impls_extended(
        pre.trait_impls@,
        post.trait_impls@,
        t,
        crate::ty::models_of(tscope.super_traits@),
    )
    &&& methods_extended(pre.method_to_traits@, post.method_to_traits@, t, tscope.decls@)
    &&& methods_extended(pre.method_to_classes@, post.method_to_classes@, t, tscope.locals@)
}

/// The registration effect of a parametric nominal type that was not yet
/// registered.
pub open spec fn registered_poly(
    pre: Context,
    post: Context,
    t: TypeModel,
    tctx: CtxId,
    tscope: Context,
    vis: Visibility,
    muty: Mutability,
) -> bool {
    let name = crate::ty::local_name_spec(t).unwrap();
    let meta = if tscope.kind == ContextKind::Class {
        TypeModel::ClassType
    } else if tscope.kind == ContextKind::Trait {
        TypeModel::TraitType
    } else {
        TypeModel::Type
    };
    &&& post.name == pre.name && post.kind == pre.kind && post.params == pre.params
        && post.decls == pre.decls && post.methods_list == pre.methods_list && post.mono_types
        == pre.mono_types && post.patches == pre.patches && post.method_impl_patches
        == pre.method_impl_patches && post.super_classes == pre.super_classes
        && post.super_traits == pre.super_traits && post.outer == pre.outer
    &&& post.locals@.len() == pre.locals@.len() + 1
    &&& post.locals@.subrange(0, pre.locals@.len() as int) == pre.locals@
    &&& post.locals@.last().0@ == name
    &&& post.locals@.last().1.t.model() == meta
    &&& post.locals@.last().1.muty == muty
    &&& post.locals@.last().1.vis == vis
    &&& post.poly_types@.len() == pre.poly_types@.len() + 1
    &&& post.poly_types@.subrange(0, pre.poly_types@.len() as int) == pre.poly_types@
    &&& post.poly_types@.last().0@ == name
    &&& post.poly_types@.last().1.0.model() == t
    &&& post.poly_types@.last().1.1 == tctx
    &&& impls_extended(
        pre.trait_impls@,
        post.trait_impls@,
        t,
        crate::ty::models_of(tscope.super_traits@),
    )
    &&& methods_extended(pre.method_to_traits@, post.method_to_traits@, t, tscope.decls@)
    &&& methods_extended(pre.method_to_classes@, post.method_to_classes@, t, tscope.locals@)
}

impl Contexts {
    /// Registers a parametric nominal type in scope `c`.  A name already
    /// registered gains `tctx` as a further method-definition block of the
    /// registered scope; a new name is registered as
    /// [`Contexts::register_mono_type`] does, in the parametric table.
    #[verifier::rlimit(100)]
    pub fn register_poly_type(
        &mut self,
        c: CtxId,
        t: Type,
        tctx: CtxId,
        vis: Visibility,
        muty: Mutability,
    )
        requires
            c < old(self).arr@.len(),
            tctx < old(self).arr@.len(),
            c != tctx,
            crate::ty::local_name_spec(t.model()) is Some,
            key_lookup(
                old(self).arr@[c as int].locals@,
                crate::ty::local_name_spec(t.model()).unwrap(),
            ) is None,
            key_lookup(
                old(self).arr@[c as int].poly_types@,
                crate::ty::local_name_spec(t.model()).unwrap(),
            ) matches Option::Some(e) ==> e.1 < old(self).arr@.len(),
        ensures
            final(self).arr@.len() == old(self).arr@.len(),
            final(self).builtins == old(self).builtins,
            key_lookup(
                old(self).arr@[c as int].poly_types@,
                crate::ty::local_name_spec(t.model()).unwrap(),
            ) matches Option::Some(e) ==> (forall|j: int|
                0 <= j < old(self).arr@.len() && j != e.1 ==> final(self).arr@[j] == old(
                    self,
                ).arr@[j]) && final(self).arr@[e.1 as int].methods_list@ == old(
                self,
            ).arr@[e.1 as int].methods_list@.push(tctx) && ctx_same_but_methods_list(
                old(self).arr@[e.1 as int],
                final(self).arr@[e.1 as int],
            ),
            key_lookup(
                old(self).arr@[c as int].poly_types@,
                crate::ty::local_name_spec(t.model()).unwrap(),
            ) is None ==> (forall|j: int|
                0 <= j < old(self).arr@.len() && j != c ==> final(self).arr@[j] == old(
                    self,
                ).arr@[j]) && registered_poly(
                old(self).arr@[c as int],
                final(self).arr@[c as int],
                t.model(),
                tctx,
                old(self).arr@[tctx as int],
                vis,
                muty,
            ),
    {
        let name = match local_name(&t) {
            Option::Some(n) => n.clone(),
            Option::None => unreached(),
        };
        let existing = match alist_get(&self.arr[c].poly_types, &name) {
            Option::Some(e) => Option::Some(e.1),
            Option::None => Option::None,
        };
        if let Option::Some(e) = existing {
            self.arr[e].methods_list.push(tctx);
            return;
        }
        let meta_t = match self.arr[tctx].kind {
            ContextKind::Class => Type::ClassType,
            ContextKind::Trait => Type::TraitType,
            _ => Type::Type,
        };
        let sup_traits = crate::ty::clone_type_list(&self.arr[tctx].super_traits);
        self.arr[c].locals.push((name.clone(), VarInfo {
            t: meta_t,
            muty,
            vis,
        }));
        let nst = sup_traits.len();
        let mut k: usize = 0;
        let ghost ti0 = self.arr@[c as int].trait_impls@;
        proof {
            assert(ti0.subrange(0, ti0.len() as int) =~= ti0);
            assert(crate::ty::models_of(sup_traits@).subrange(0, 0) =~= Seq::<
                TypeModel,
            >::empty());
        }
        while k < nst
            invariant
                k <= nst,
                nst == sup_traits@.len(),
                c < self.arr@.len(),
                self.arr@.len() == old(self).arr@.len(),
                self.builtins == old(self).builtins,
                forall|j: int|
                    0 <= j < old(self).arr@.len() && j != c ==> self.arr@[j] == old(self).arr@[j],
                ctx_same_but_impls(old(self).arr@[c as int], self.arr@[c as int]),
                self.arr@[c as int].locals@ == old(self).arr@[c as int].locals@.push(
                    self.arr@[c as int].locals@.last(),
                ),
                self.arr@[c as int].locals@.last().0@ == name@,
                self.arr@[c as int].locals@.last().1.t.model() == meta_t.model(),
                self.arr@[c as int].locals@.last().1.muty == muty,
                self.arr@[c as int].locals@.last().1.vis == vis,
                self.arr@[c as int].method_to_traits@ == old(
                    self,
                ).arr@[c as int].method_to_traits@,
                self.arr@[c as int].method_to_classes@ == old(
                    self,
                ).arr@[c as int].method_to_classes@,
                self.arr@[c as int].poly_types@ == old(self).arr@[c as int].poly_types@,
                self.arr@[c as int].mono_types == old(self).arr@[c as int].mono_types,
                impls_extended(
                    old(self).arr@[c as int].trait_impls@,
                    self.arr@[c as int].trait_impls@,
                    t.model(),
                    crate::ty::models_of(sup_traits@).subrange(0, k as int),
                ),
            decreases nst - k,
        {
            let ghost pre = self.arr@[c as int].trait_impls@;
            let tr = crate::ty::clone_type(&sup_traits[k]);
            match local_name(&tr) {
                Option::Some(tn) => {
                    let key = tn.clone();
                    let ti = TraitInstance {
                        sub_type: crate::ty::clone_type(&t),
                        sup_trait: tr,
                    };
                    self.arr[c].trait_impls.push((key, ti));
                },
                Option::None => {},
            }
            proof {
                let all = crate::ty::models_of(sup_traits@);
                assert(all[k as int] == sup_traits@[k as int].model());
                if self.arr@[c as int].trait_impls@.len() > pre.len() {
                    assert(self.arr@[c as int].trait_impls@.subrange(0, pre.len() as int)
                        =~= pre);
                }
                lemma_impls_extended_step(
                    old(self).arr@[c as int].trait_impls@,
                    pre,
                    self.arr@[c as int].trait_impls@,
                    t.model(),
                    all,
                    k as int,
                );
            }
            k += 1;
        }
        proof {
            assert(crate::ty::models_of(sup_traits@).subrange(0, nst as int) =~= crate::ty::models_of(
                sup_traits@,
            ));
            assert(crate::ty::models_of(sup_traits@) =~= crate::ty::models_of(
                old(self).arr@[tctx as int].super_traits@,
            ));
        }
        self.index_methods(c, tctx, &t);
        let tpair = (crate::ty::clone_type(&t), tctx);
        self.arr[c].poly_types.push((name, tpair));
        proof {
            let oc = old(self).arr@[c as int];
            let nc = self.arr@[c as int];
            assert(nc.locals@.subrange(0, oc.locals@.len() as int) =~= oc.locals@);
            assert(nc.poly_types@.subrange(0, oc.poly_types@.len() as int) =~= oc.poly_types@);
        }
    }

    /// Registers a nominal type in scope `c`, choosing the table by
    /// whether the type carries parameters.
    pub fn register_builtin_type(
        &mut self,
        c: CtxId,
        t: Type,
        tctx: CtxId,
        vis: Visibility,
        muty: Mutability,
    )
        requires
            c < old(self).arr@.len(),
            tctx < old(self).arr@.len(),
            c != tctx,
            t.model() is Mono || t.model() is Poly,
            key_lookup(
                old(self).arr@[c as int].locals@,
                crate::ty::local_name_spec(t.model()).unwrap(),
            ) is None,
            t.model() is Mono ==> self.rec_mono_type_spec(
                c as int,
                crate::ty::local_name_spec(t.model()).unwrap(),
                old(self).arr@.len() as nat + 1,
            ) is None,
            t.model() is Poly ==> (key_lookup(
                old(self).arr@[c as int].poly_types@,
                crate::ty::local_name_spec(t.model()).unwrap(),
            ) matches Option::Some(e) ==> e.1 < old(self).arr@.len()),
        ensures
            final(self).arr@.len() == old(self).arr@.len(),
            final(self).builtins == old(self).builtins,
            t.model() is Mono ==> (forall|j: int|
                0 <= j < old(self).arr@.len() && j != c ==> final(self).arr@[j] == old(
                    self,
                ).arr@[j]) && registered_mono(
                old(self).arr@[c as int],
                final(self).arr@[c as int],
                t.model(),
                tctx,
                old(self).arr@[tctx as int],
                vis,
                muty,
            ),
            t.model() is Poly && key_lookup(
                old(self).arr@[c as int].poly_types@,
                crate::ty::local_name_spec(t.model()).unwrap(),
            ) is None ==> (forall|j: int|
                0 <= j < old(self).arr@.len() && j != c ==> final(self).arr@[j] == old(
                    self,
                ).arr@[j]) && registered_poly(
                old(self).arr@[c as int],
                final(self).arr@[c as int],
                t.model(),
                tctx,
                old(self).arr@[tctx as int],
                vis,
                muty,
            ),
    {
        proof {
            crate::ty::lemma_model_variants(t);
        }
        if matches!(&t, Type::Mono(_)) {
            self.register_mono_type(c, t, tctx, vis, muty);
        } else {
            self.register_poly_type(c, t, tctx, vis, muty);
        }
    }

    /// Registers a patch in scope `c`: the patch scope is recorded under
    /// its name, and each of its methods is indexed as provided by this
    /// patch.  Registering a patch name twice is the caller's error.
    #[verifier::rlimit(100)]
    pub fn register_builtin_patch(&mut self, c: CtxId, name: String, pctx: CtxId)
        requires
            c < old(self).arr@.len(),
            pctx < old(self).arr@.len(),
            c != pctx,
            key_lookup(old(self).arr@[c as int].patches@, name@) is None,
        ensures
            final(self).arr@.len() == old(self).arr@.len(),
            final(self).builtins == old(self).builtins,
            forall|j: int|
                0 <= j < old(self).arr@.len() && j != c ==> final(self).arr@[j] == old(
                    self,
                ).arr@[j],
            ctx_same_but_patches(old(self).arr@[c as int], final(self).arr@[c as int]),
            final(self).arr@[c as int].patches@ == old(self).arr@[c as int].patches@.push(
                (name, pctx),
            ),
            patch_methods_extended(
                old(self).arr@[c as int].method_impl_patches@,
                final(self).arr@[c as int].method_impl_patches@,
                name@,
                old(self).arr@[pctx as int].locals@,
            ),
    {
        let nl = self.arr[pctx].locals.len();
        let ghost mip0 = self.arr@[c as int].method_impl_patches@;
        proof {
            assert(mip0.subrange(0, mip0.len() as int) =~= mip0);
        }
        let mut k: usize = 0;
        while k < nl
            invariant
                k <= nl,
                c < self.arr@.len(),
                pctx < self.arr@.len(),
                c != pctx,
                nl == self.arr@[pctx as int].locals@.len(),
                self.arr@.len() == old(self).arr@.len(),
                self.builtins == old(self).builtins,
                forall|j: int|
                    0 <= j < old(self).arr@.len() && j != c ==> self.arr@[j] == old(self).arr@[j],
                ctx_same_but_patches(old(self).arr@[c as int], self.arr@[c as int]),
                self.arr@[c as int].patches@ == old(self).arr@[c as int].patches@,
                patch_methods_extended_upto(
                    old(self).arr@[c as int].method_impl_patches@,
                    self.arr@[c as int].method_impl_patches@,
                    name@,
                    old(self).arr@[pctx as int].locals@,
                    k as int,
                ),
            decreases nl - k,
        {
            let mname = self.arr[pctx].locals[k].0.clone();
            let ghost pre = self.arr@[c as int].method_impl_patches@;
            self.arr[c].method_impl_patches.push((mname, name.clone()));
            proof {
                let base = old(self).arr@[c as int].method_impl_patches@;
                let cur = self.arr@[c as int].method_impl_patches@;
                assert(cur.subrange(0, base.len() as int) =~= pre.subrange(
                    0,
                    base.len() as int,
                ));
                assert forall|j: int|
                    0 <= j < k + 1 implies (#[trigger] cur[base.len() + j]).0@ == old(
                        self,
                    ).arr@[pctx as int].locals@[j].0@ && cur[base.len() + j].1@ == name@ by {
                    if j < k {
                        assert(cur[base.len() + j] == pre[base.len() + j]);
                    }
                }
            }
            k += 1;
        }
        self.arr[c].patches.push((name, pctx));
    }
}

/// The two scopes agree on everything but the patch tables.
pub open spec fn ctx_same_but_patches(a: Context, b: Context) -> bool {
    b.name == a.name && b.kind == a.kind && b.params == a.params && b.locals == a.locals
        && b.decls == a.decls && b.methods_list == a.methods_list && b.mono_types
        == a.mono_types && b.poly_types == a.poly_types && b.trait_impls == a.trait_impls
        && b.method_to_traits == a.method_to_traits && b.method_to_classes
        == a.method_to_classes && b.super_classes == a.super_classes && b.super_traits
        == a.super_traits && b.outer == a.outer
}

/// The two scopes agree on everything but the method-definition blocks.
pub open spec fn ctx_same_but_methods_list(a: Context, b: Context) -> bool {
    b.name == a.name && b.kind == a.kind && b.params == a.params && b.locals == a.locals
        && b.decls == a.decls && b.mono_types == a.mono_types && b.poly_types == a.poly_types
        && b.patches == a.patches && b.trait_impls == a.trait_impls && b.method_to_traits
        == a.method_to_traits && b.method_to_classes == a.method_to_classes
        && b.method_impl_patches == a.method_impl_patches && b.super_classes
        == a.super_classes && b.super_traits == a.super_traits && b.outer == a.outer
}

/// The patch-method index `post` is `pre` with one entry per binding of
/// `src`, keyed by the binding's name, each naming the patch.
pub open spec fn patch_methods_extended(
    pre: Seq<(String, String)>,
    post: Seq<(String, String)>,
    patch: Seq<char>,
    src: Seq<(String, VarInfo)>,
) -> bool {
    patch_methods_extended_upto(pre, post, patch, src, src.len() as int)
}

/// Like [`patch_methods_extended`], for the first `k` bindings of `src`.
pub open spec fn patch_methods_extended_upto(
    pre: Seq<(String, String)>,
    post: Seq<(String, String)>,
    patch: Seq<char>,
    src: Seq<(String, VarInfo)>,
    k: int,
) -> bool {
    &&& 0 <= k <= src.len()
    &&& post.len() == pre.len() + k
    &&& post.subrange(0, pre.len() as int) == pre
    &&& forall|j: int|
        0 <= j < k ==> (#[trigger] post[pre.len() + j]).0@ == src[j].0@ && post[pre.len()
            + j].1@ == patch
}

} // verus!
