//! Free type variables and their constraints.
//!
//! A free variable is an unresolved type placeholder shared by every
//! structural position that references it.  Sharing is realised as an arena
//! ([`FreeVars`]): each variable is a slot indexed by a stable id, and a
//! `Type::FreeVar(id)` in any type tree denotes that slot.  Linking a slot
//! makes the resolution visible to every holder at once.
//!
//! A slot is either unbound (anonymous or named), carrying a level and a
//! [`Constraint`], or linked to a concrete type — possibly reversibly, for
//! speculative trial unification that may be rolled back.

use vstd::prelude::*;

use crate::names::dec_rep;
use crate::names::push_decimal;
use crate::ty::ParamTy;
use crate::ty::Type;
use crate::ty::TypeModel;
use crate::ty::clone_type;
use crate::ty::type_eq;

verus! {

/// A generalization-scope marker; lower levels are more global.
pub type Level = usize;

/// The stable id of a free-variable slot.
pub type Id = usize;

/// A counter for generated variable and parameter names.
pub struct FreshNameGen {
    pub count: usize,
}

impl FreshNameGen {
    /// A fresh counter.
    pub fn new() -> (g: Self)
        ensures
            g.count == 0,
    {
        FreshNameGen { count: 0 }
    }
}

/// A fresh refinement-variable name: `%v` followed by a counter value that
/// this generator never hands out twice.
pub fn fresh_varname(gen: &mut FreshNameGen) -> (s: String)
    requires
        old(gen).count < usize::MAX,
    ensures
        final(gen).count == old(gen).count + 1,
        s@ == seq!['%', 'v'] + dec_rep(final(gen).count as nat),
{
    proof {
        reveal_strlit("%v");
    }
    gen.count += 1;
    let mut s = String::from_str("%v");
    push_decimal(&mut s, gen.count);
    proof {
        assert(s@ =~= seq!['%', 'v'] + dec_rep(gen.count as nat));
    }
    s
}

/// A fresh parameter name: `%p` followed by a counter value that this
/// generator never hands out twice.
pub fn fresh_param_name(gen: &mut FreshNameGen) -> (s: String)
    requires
        old(gen).count < usize::MAX,
    ensures
        final(gen).count == old(gen).count + 1,
        s@ == seq!['%', 'p'] + dec_rep(final(gen).count as nat),
{
    proof {
        reveal_strlit("%p");
    }
    gen.count += 1;
    let mut s = String::from_str("%p");
    push_decimal(&mut s, gen.count);
    proof {
        assert(s@ =~= seq!['%', 'p'] + dec_rep(gen.count as nat));
    }
    s
}

/// Whether, and in which direction, a variable's bound structurally refers
/// back to the variable itself.
#[derive(Clone, Copy, Debug, PartialEq, Eq, Hash, Structural)]
pub enum Cyclicity {
    /// The variable appears in its own lower bound: `?T :> F(?T)`.
    Sub,
    /// The variable appears in its own upper bound: `?T <: F(?T)`.
    Super,
    /// Both directions.
    Both,
    /// No self-reference.
    Not,
}

/// The join of two cyclicity tags: `Not` is the identity, equal tags are
/// kept, and any two distinct concrete tags give `Both`.
pub open spec fn spec_combine(a: Cyclicity, b: Cyclicity) -> Cyclicity {
    match (a, b) {
        (Cyclicity::Not, _) => b,
        (_, Cyclicity::Not) => a,
        (Cyclicity::Sub, Cyclicity::Sub) => Cyclicity::Sub,
        (Cyclicity::Super, Cyclicity::Super) => Cyclicity::Super,
        (Cyclicity::Both, Cyclicity::Both) => Cyclicity::Both,
        _ => Cyclicity::Both,
    }
}

impl Cyclicity {
    /// Whether the tag records any self-reference.
    pub fn is_cyclic(&self) -> (r: bool)
        ensures
            r == (*self != Cyclicity::Not),
    {
        matches!(self, Cyclicity::Sub | Cyclicity::Super | Cyclicity::Both)
    }

    /// Whether the tag records a self-reference in the upper bound.
    pub fn is_super_cyclic(&self) -> (r: bool)
        ensures
            r == (*self == Cyclicity::Super || *self == Cyclicity::Both),
    {
        matches!(self, Cyclicity::Super | Cyclicity::Both)
    }

    /// Joins this tag with another; see [`spec_combine`].
    pub fn combine(self, other: Cyclicity) -> (r: Cyclicity)
        ensures
            r == spec_combine(self, other),
    {
        match (self, other) {
            (Cyclicity::Sub, Cyclicity::Sub) => Cyclicity::Sub,
            (Cyclicity::Super, Cyclicity::Super) => Cyclicity::Super,
            (Cyclicity::Both, Cyclicity::Both) => Cyclicity::Both,
            (Cyclicity::Not, Cyclicity::Not) => Cyclicity::Not,
            (Cyclicity::Not, _) => other,
            (_, Cyclicity::Not) => self,
            (Cyclicity::Sub, _) | (Cyclicity::Super, _) | (Cyclicity::Both, _) => Cyclicity::Both,
        }
    }
}

/// The cyclicity join is commutative.
pub proof fn lemma_combine_commutative(a: Cyclicity, b: Cyclicity)
    ensures
        spec_combine(a, b) == spec_combine(b, a),
{
}

/// The cyclicity join is idempotent.
pub proof fn lemma_combine_idempotent(a: Cyclicity)
    ensures
        spec_combine(a, a) == a,
{
}

/// `Not` is the identity of the cyclicity join.
pub proof fn lemma_combine_identity(a: Cyclicity)
    ensures
        spec_combine(a, Cyclicity::Not) == a,
        spec_combine(Cyclicity::Not, a) == a,
{
}

/// Two distinct concrete tags join to `Both`.
pub proof fn lemma_combine_mixed(a: Cyclicity, b: Cyclicity)
    requires
        a != Cyclicity::Not,
        b != Cyclicity::Not,
        a != b,
    ensures
        spec_combine(a, b) == Cyclicity::Both,
{
}

/// What is known of an unresolved variable.
#[derive(Debug)]
pub enum Constraint {
    /// Bounded below by `sub` and above by `sup`; `sub == Never` and
    /// `sup == Obj` together denote an untyped kind variable.
    Sandwiched { sub: Type, sup: Type, cyclicity: Cyclicity },
    /// The variable's value must have this type.
    TypeOf(Type),
    /// Not yet assigned any constraint; a transient state during
    /// declaration.
    Uninited,
}

/// Mathematical image of a [`Constraint`].
#[verifier::ext_equal]
pub enum ConstraintModel {
    Sandwiched { sub: TypeModel, sup: TypeModel, cyclicity: Cyclicity },
    TypeOf { t: TypeModel },
    Uninited,
}

impl Constraint {
    pub open spec fn model(self) -> ConstraintModel {
        match self {
            Constraint::Sandwiched { sub, sup, cyclicity } => ConstraintModel::Sandwiched {
                sub: sub.model(),
                sup: sup.model(),
                cyclicity,
            },
            Constraint::TypeOf(t) => ConstraintModel::TypeOf { t: t.model() },
            Constraint::Uninited => ConstraintModel::Uninited,
        }
    }

    /// A constraint bounded below and above.
    pub fn new_sandwiched(sub: Type, sup: Type, cyclicity: Cyclicity) -> (c: Self)
        ensures
            c.model() == (ConstraintModel::Sandwiched {
                sub: sub.model(),
                sup: sup.model(),
                cyclicity,
            }),
    {
        Constraint::Sandwiched { sub, sup, cyclicity }
    }

    /// A type-of constraint; `: Type` is normalised to the untyped kind
    /// bound pair `(:> Never, <: Obj)`.
    pub fn new_type_of(t: Type) -> (c: Self)
        ensures
            t.model() == TypeModel::Type ==> c.model() == (ConstraintModel::Sandwiched {
                sub: TypeModel::Never,
                sup: TypeModel::Obj,
                cyclicity: Cyclicity::Not,
            }),
            t.model() != TypeModel::Type ==> c.model() == (ConstraintModel::TypeOf {
                t: t.model(),
            }),
    {
        proof {
            crate::ty::lemma_model_variants(t);
        }
        if matches!(t, Type::Type) {
            Constraint::new_sandwiched(Type::Never, Type::Obj, Cyclicity::Not)
        } else {
            Constraint::TypeOf(t)
        }
    }

    /// A constraint bounded only above.
    pub fn new_subtype_of(sup: Type, cyclicity: Cyclicity) -> (c: Self)
        ensures
            c.model() == (ConstraintModel::Sandwiched {
                sub: TypeModel::Never,
                sup: sup.model(),
                cyclicity,
            }),
    {
        Constraint::new_sandwiched(Type::Never, sup, cyclicity)
    }

    /// A constraint bounded only below.
    pub fn new_supertype_of(sub: Type, cyclicity: Cyclicity) -> (c: Self)
        ensures
            c.model() == (ConstraintModel::Sandwiched {
                sub: sub.model(),
                sup: TypeModel::Obj,
                cyclicity,
            }),
    {
        Constraint::new_sandwiched(sub, Type::Obj, cyclicity)
    }

    /// Whether no constraint has been assigned yet.
    pub fn is_uninited(&self) -> (r: bool)
        ensures
            r == (self.model() is Uninited),
    {
        matches!(self, Constraint::Uninited)
    }

    /// The recorded cyclicity tag; `Not` where none is recorded.
    pub fn cyclicicty(&self) -> (r: Cyclicity)
        ensures
            self.model() matches ConstraintModel::Sandwiched { cyclicity, .. } ==> r == cyclicity,
            !(self.model() is Sandwiched) ==> r == Cyclicity::Not,
    {
        match self {
            Constraint::Sandwiched { cyclicity, .. } => *cyclicity,
            _ => Cyclicity::Not,
        }
    }

    /// The type a variable under this constraint must have: the stated
    /// type-of type, or the kind of types for an untyped kind bound pair.
    pub fn get_type(&self) -> (r: Option<&Type>)
        ensures
            match r {
                Option::Some(t) => (self.model() matches ConstraintModel::TypeOf { t: m }
                    && t.model() == m) || ((self.model() matches ConstraintModel::Sandwiched {
                    sub: TypeModel::Never,
                    sup: TypeModel::Obj,
                    ..
                }) && t.model() == TypeModel::Type),
                Option::None => !(self.model() is TypeOf) && !(self.model()
                    matches ConstraintModel::Sandwiched {
                    sub: TypeModel::Never,
                    sup: TypeModel::Obj,
                    ..
                }),
            },
    {
        match self {
            Constraint::TypeOf(ty) => Option::Some(ty),
            Constraint::Sandwiched { sub, sup, .. } => {
                proof {
                    crate::ty::lemma_model_variants(*sub);
                    crate::ty::lemma_model_variants(*sup);
                }
                if matches!(sub, Type::Never) && matches!(sup, Type::Obj) {
                    Option::Some(&Type::Type)
                } else {
                    Option::None
                }
            },
            Constraint::Uninited => Option::None,
        }
    }

    /// The lower bound, where one is recorded.
    pub fn get_sub(&self) -> (r: Option<&Type>)
        ensures
            match r {
                Option::Some(t) => self.model() matches ConstraintModel::Sandwiched { sub, .. }
                    && t.model() == sub,
                Option::None => !(self.model() is Sandwiched),
            },
    {
        match self {
            Constraint::Sandwiched { sub, .. } => Option::Some(sub),
            _ => Option::None,
        }
    }

    /// The upper bound, where one is recorded.
    pub fn get_super(&self) -> (r: Option<&Type>)
        ensures
            match r {
                Option::Some(t) => self.model() matches ConstraintModel::Sandwiched { sup, .. }
                    && t.model() == sup,
                Option::None => !(self.model() is Sandwiched),
            },
    {
        match self {
            Constraint::Sandwiched { sup, .. } => Option::Some(sup),
            _ => Option::None,
        }
    }

    /// Both bounds, where they are recorded.
    pub fn get_sub_sup(&self) -> (r: Option<(&Type, &Type)>)
        ensures
            match r {
                Option::Some(p) => self.model() matches ConstraintModel::Sandwiched {
                    sub,
                    sup,
                    ..
                } && p.0.model() == sub && p.1.model() == sup,
                Option::None => !(self.model() is Sandwiched),
            },
    {
        match self {
            Constraint::Sandwiched { sub, sup, .. } => Option::Some((sub, sup)),
            _ => Option::None,
        }
    }

    /// Write access to the upper bound, where one is recorded; anything the
    /// caller writes through it becomes the new upper bound, everything else
    /// is kept.
    pub fn get_super_mut(&mut self) -> (r: Option<&mut Type>)
        ensures
            old(self).model() matches ConstraintModel::Sandwiched { sub, sup, cyclicity }
                ==> match r {
                    Option::Some(m) => m.model() == sup && final(self).model()
                        == (ConstraintModel::Sandwiched {
                        sub,
                        sup: final(m).model(),
                        cyclicity,
                    }),
                    Option::None => false,
                },
            !(old(self).model() is Sandwiched) ==> r is None && final(self).model() == old(
                self,
            ).model(),
    {
        match self {
            Constraint::Sandwiched { sup, .. } => Option::Some(sup),
            _ => Option::None,
        }
    }

    /// Joins the recorded cyclicity with a new tag; no effect on a
    /// constraint that records no bounds.
    pub fn update_cyclicity(&mut self, new_cyclicity: Cyclicity)
        ensures
            old(self).model() matches ConstraintModel::Sandwiched { sub, sup, cyclicity }
                ==> final(self).model() == (ConstraintModel::Sandwiched {
                sub,
                sup,
                cyclicity: spec_combine(cyclicity, new_cyclicity),
            }),
            !(old(self).model() is Sandwiched) ==> final(self).model() == old(self).model(),
    {
        if let Constraint::Sandwiched { cyclicity, .. } = self {
            *cyclicity = cyclicity.combine(new_cyclicity);
        }
    }
}

/// Copies a constraint; the copy is the same constraint.
pub fn clone_constraint(c: &Constraint) -> (r: Constraint)
    ensures
        r.model() == c.model(),
{
    match c {
        Constraint::Sandwiched { sub, sup, cyclicity } => Constraint::Sandwiched {
            sub: clone_type(sub),
            sup: clone_type(sup),
            cyclicity: *cyclicity,
        },
        Constraint::TypeOf(t) => Constraint::TypeOf(clone_type(t)),
        Constraint::Uninited => Constraint::Uninited,
    }
}

impl Clone for Constraint {
    /// The copy is the same constraint.
    fn clone(&self) -> (r: Self)
        ensures
            r.model() == self.model(),
    {
        clone_constraint(self)
    }
}


/// The state of one free-variable slot.
#[derive(Debug)]
pub enum FreeKind {
    /// Resolved to a concrete type.
    Linked(Type),
    /// Resolved, but reversibly: the previous state is kept so the link can
    /// be rolled back.
    UndoableLinked { t: Type, previous: Box<FreeKind> },
    /// An anonymous unresolved variable.
    Unbound { id: Id, lev: Level, constraint: Constraint },
    /// A user-named unresolved variable, e.g. a generic parameter.
    NamedUnbound { name: String, lev: Level, constraint: Constraint },
}

/// Mathematical image of a [`FreeKind`].
#[verifier::ext_equal]
pub enum FreeKindModel {
    Linked { t: TypeModel },
    UndoableLinked { t: TypeModel, previous: Box<FreeKindModel> },
    Unbound { id: int, lev: nat, constraint: ConstraintModel },
    NamedUnbound { name: Seq<char>, lev: nat, constraint: ConstraintModel },
}

impl FreeKind {
    pub open spec fn model(self) -> FreeKindModel
        decreases self,
    {
        match self {
            FreeKind::Linked(t) => FreeKindModel::Linked { t: t.model() },
            FreeKind::UndoableLinked { t, previous } => FreeKindModel::UndoableLinked {
                t: t.model(),
                previous: Box::new((*previous).model()),
            },
            FreeKind::Unbound { id, lev, constraint } => FreeKindModel::Unbound {
                id: id as int,
                lev: lev as nat,
                constraint: constraint.model(),
            },
            FreeKind::NamedUnbound { name, lev, constraint } => FreeKindModel::NamedUnbound {
                name: name@,
                lev: lev as nat,
                constraint: constraint.model(),
            },
        }
    }

    /// An anonymous unbound state with the given id.
    pub fn unbound(id: Id, lev: Level, constraint: Constraint) -> (k: Self)
        ensures
            k.model() == (FreeKindModel::Unbound {
                id: id as int,
                lev: lev as nat,
                constraint: constraint.model(),
            }),
    {
        FreeKind::Unbound { id, lev, constraint }
    }

    /// A named unbound state.
    pub fn named_unbound(name: String, lev: Level, constraint: Constraint) -> (k: Self)
        ensures
            k.model() == (FreeKindModel::NamedUnbound {
                name: name@,
                lev: lev as nat,
                constraint: constraint.model(),
            }),
    {
        FreeKind::NamedUnbound { name, lev, constraint }
    }

    /// The constraint, for an unbound state.
    pub fn constraint(&self) -> (r: Option<&Constraint>)
        ensures
            match r {
                Option::Some(c) => constraint_of(self.model()) == Option::Some(c.model()),
                Option::None => constraint_of(self.model()) is None,
            },
    {
        match self {
            FreeKind::Unbound { constraint, .. } => Option::Some(constraint),
            FreeKind::NamedUnbound { constraint, .. } => Option::Some(constraint),
            _ => Option::None,
        }
    }

    /// The resolved type, for a permanently linked state.
    pub fn linked(&self) -> (r: Option<&Type>)
        ensures
            match r {
                Option::Some(t) => self.model() matches FreeKindModel::Linked { t: m }
                    && t.model() == m,
                Option::None => !(self.model() is Linked),
            },
    {
        match self {
            FreeKind::Linked(t) => Option::Some(t),
            _ => Option::None,
        }
    }

    /// Write access to the resolved type, for a permanently linked state.
    pub fn linked_mut(&mut self) -> (r: Option<&mut Type>)
        ensures
            old(self).model() matches FreeKindModel::Linked { t } ==> match r {
                Option::Some(m) => m.model() == t && final(self).model()
                    == (FreeKindModel::Linked { t: final(m).model() }),
                Option::None => false,
            },
            !(old(self).model() is Linked) ==> r is None && final(self).model() == old(
                self,
            ).model(),
    {
        match self {
            FreeKind::Linked(t) => Option::Some(t),
            _ => Option::None,
        }
    }
}

/// Copies a slot state; the copy is the same state.
pub fn clone_free_kind(k: &FreeKind) -> (r: FreeKind)
    ensures
        r.model() == k.model(),
    decreases *k,
{
    match k {
        FreeKind::Linked(t) => FreeKind::Linked(clone_type(t)),
        FreeKind::UndoableLinked { t, previous } => FreeKind::UndoableLinked {
            t: clone_type(t),
            previous: Box::new(clone_free_kind(previous)),
        },
        FreeKind::Unbound { id, lev, constraint } => FreeKind::Unbound {
            id: *id,
            lev: *lev,
            constraint: clone_constraint(constraint),
        },
        FreeKind::NamedUnbound { name, lev, constraint } => FreeKind::NamedUnbound {
            name: name.clone(),
            lev: *lev,
            constraint: clone_constraint(constraint),
        },
    }
}

impl Clone for FreeKind {
    /// The copy is the same state.
    fn clone(&self) -> (r: Self)
        ensures
            r.model() == self.model(),
    {
        clone_free_kind(self)
    }
}

/// The type a slot state is resolved to, if it is resolved.
pub open spec fn linked_target(k: FreeKindModel) -> Option<TypeModel> {
    match k {
        FreeKindModel::Linked { t } => Option::Some(t),
        FreeKindModel::UndoableLinked { t, .. } => Option::Some(t),
        _ => Option::None,
    }
}

/// The constraint of a slot state, if it is unbound.
pub open spec fn constraint_of(k: FreeKindModel) -> Option<ConstraintModel> {
    match k {
        FreeKindModel::Unbound { constraint, .. } => Option::Some(constraint),
        FreeKindModel::NamedUnbound { constraint, .. } => Option::Some(constraint),
        _ => Option::None,
    }
}

/// The level of a slot state, if it is unbound.
pub open spec fn lev_of(k: FreeKindModel) -> Option<nat> {
    match k {
        FreeKindModel::Unbound { lev, .. } => Option::Some(lev),
        FreeKindModel::NamedUnbound { lev, .. } => Option::Some(lev),
        _ => Option::None,
    }
}

/// The state after recording a reversible link on slot `v`.
pub open spec fn with_undoable_link(
    m: Seq<FreeKindModel>,
    v: int,
    t: TypeModel,
) -> Seq<FreeKindModel> {
    m.update(v, FreeKindModel::UndoableLinked { t, previous: Box::new(m[v]) })
}

/// The state after rolling back the reversible link on slot `v`.
pub open spec fn after_undo(m: Seq<FreeKindModel>, v: int) -> Seq<FreeKindModel> {
    match m[v] {
        FreeKindModel::UndoableLinked { previous, .. } => m.update(v, *previous),
        _ => m,
    }
}

/// Recording a reversible link and rolling it back restores every slot to
/// its previous state, whatever the slot held before.
pub proof fn lemma_undo_round_trip(m: Seq<FreeKindModel>, v: int, t: TypeModel)
    requires
        0 <= v < m.len(),
    ensures
        after_undo(with_undoable_link(m, v, t), v) == m,
{
    assert(after_undo(with_undoable_link(m, v, t), v) =~= m);
}

/// The arena of free-variable slots.  Every occurrence of the same variable
/// in any type tree stores this arena's index for it, so a mutation here is
/// seen by every holder.
#[derive(Debug)]
pub struct FreeVars {
    pub slots: Vec<FreeKind>,
}

impl FreeVars {
    /// The states of all slots, in id order.
    pub open spec fn model(self) -> Seq<FreeKindModel> {
        Seq::new(self.slots@.len(), |i: int| self.slots[i].model())
    }

    /// An empty arena.
    pub fn new() -> (vars: Self)
        ensures
            vars.model() == Seq::<FreeKindModel>::empty(),
    {
        let vars = FreeVars { slots: Vec::new() };
        proof {
            assert(vars.model() =~= Seq::<FreeKindModel>::empty());
        }
        vars
    }

    /// The number of slots.
    pub fn len(&self) -> (n: usize)
        ensures
            n == self.model().len(),
    {
        self.slots.len()
    }

    /// Read access to a slot's state.
    pub fn borrow(&self, v: Id) -> (k: &FreeKind)
        requires
            v < self.model().len(),
        ensures
            k.model() == self.model()[v as int],
    {
        &self.slots[v]
    }

    /// A copy of a slot's state.
    pub fn clone_inner(&self, v: Id) -> (k: FreeKind)
        requires
            v < self.model().len(),
        ensures
            k.model() == self.model()[v as int],
    {
        clone_free_kind(&self.slots[v])
    }

    /// Allocates a fresh anonymous unbound variable; its id is the next
    /// unused index.
    pub fn new_unbound(&mut self, level: Level, constraint: Constraint) -> (v: Id)
        ensures
            v == old(self).model().len(),
            final(self).model() == old(self).model().push(FreeKindModel::Unbound {
                id: v as int,
                lev: level as nat,
                constraint: constraint.model(),
            }),
    {
        let v = self.slots.len();
        self.slots.push(FreeKind::Unbound { id: v, lev: level, constraint });
        proof {
            assert(self.model() =~= old(self).model().push(FreeKindModel::Unbound {
                id: v as int,
                lev: level as nat,
                constraint: constraint.model(),
            }));
        }
        v
    }

    /// Allocates a fresh named unbound variable.
    pub fn new_named_unbound(&mut self, name: String, level: Level, constraint: Constraint) -> (v:
        Id)
        ensures
            v == old(self).model().len(),
            final(self).model() == old(self).model().push(FreeKindModel::NamedUnbound {
                name: name@,
                lev: level as nat,
                constraint: constraint.model(),
            }),
    {
        let v = self.slots.len();
        self.slots.push(FreeKind::NamedUnbound { name, lev: level, constraint });
        proof {
            assert(self.model() =~= old(self).model().push(FreeKindModel::NamedUnbound {
                name: name@,
                lev: level as nat,
                constraint: constraint.model(),
            }));
        }
        v
    }

    /// Allocates a slot already resolved to a type.
    pub fn new_linked(&mut self, t: Type) -> (v: Id)
        ensures
            v == old(self).model().len(),
            final(self).model() == old(self).model().push(FreeKindModel::Linked {
                t: t.model(),
            }),
    {
        let v = self.slots.len();
        self.slots.push(FreeKind::Linked(t));
        proof {
            assert(self.model() =~= old(self).model().push(FreeKindModel::Linked {
                t: t.model(),
            }));
        }
        v
    }

    /// Whether the slot is resolved (permanently or reversibly).
    pub fn is_linked(&self, v: Id) -> (r: bool)
        requires
            v < self.model().len(),
        ensures
            r == (linked_target(self.model()[v as int]) is Some),
    {
        matches!(&self.slots[v], FreeKind::Linked(_) | FreeKind::UndoableLinked { .. })
    }

    /// Whether the slot is unresolved.
    pub fn is_unbound(&self, v: Id) -> (r: bool)
        requires
            v < self.model().len(),
        ensures
            r == (constraint_of(self.model()[v as int]) is Some),
    {
        matches!(&self.slots[v], FreeKind::Unbound { .. } | FreeKind::NamedUnbound { .. })
    }

    /// The resolved type of a linked slot.
    pub fn crack(&self, v: Id) -> (t: &Type)
        requires
            v < self.model().len(),
            linked_target(self.model()[v as int]) is Some,
        ensures
            Option::Some(t.model()) == linked_target(self.model()[v as int]),
    {
        match &self.slots[v] {
            FreeKind::Linked(t) => t,
            FreeKind::UndoableLinked { t, .. } => t,
            _ => unreached(),
        }
    }

    /// The constraint of an unbound slot.
    pub fn crack_constraint(&self, v: Id) -> (c: &Constraint)
        requires
            v < self.model().len(),
            constraint_of(self.model()[v as int]) is Some,
        ensures
            Option::Some(c.model()) == constraint_of(self.model()[v as int]),
    {
        match &self.slots[v] {
            FreeKind::Unbound { constraint, .. } => constraint,
            FreeKind::NamedUnbound { constraint, .. } => constraint,
            _ => unreached(),
        }
    }

    /// Resolves the slot to `to`.  Writing a resolution a slot already
    /// holds leaves the arena as it is, so a self-referential rewrite has
    /// no effect at the storage layer.
    pub fn link(&mut self, v: Id, to: &Type)
        requires
            v < old(self).model().len(),
        ensures
            final(self).model() == old(self).model().update(
                v as int,
                FreeKindModel::Linked { t: to.model() },
            ),
    {
        let already = match &self.slots[v] {
            FreeKind::Linked(t) => type_eq(t, to),
            _ => false,
        };
        if already {
            proof {
                assert(self.model() =~= old(self).model().update(
                    v as int,
                    FreeKindModel::Linked { t: to.model() },
                ));
            }
            return;
        }
        self.slots[v] = FreeKind::Linked(clone_type(to));
        proof {
            assert(self.model() =~= old(self).model().update(
                v as int,
                FreeKindModel::Linked { t: to.model() },
            ));
        }
    }

    /// Replaces the slot's whole state.
    pub fn replace(&mut self, v: Id, kind: FreeKind)
        requires
            v < old(self).model().len(),
        ensures
            final(self).model() == old(self).model().update(v as int, kind.model()),
    {
        self.slots[v] = kind;
        proof {
            assert(self.model() =~= old(self).model().update(v as int, kind.model()));
        }
    }

    /// Resolves the slot to `to` reversibly, keeping the previous state.
    /// Re-recording the resolution a slot already holds is the
    /// self-reference error the caller must rule out.
    pub fn undoable_link(&mut self, v: Id, to: &Type)
        requires
            v < old(self).model().len(),
            linked_target(old(self).model()[v as int]) != Option::Some(to.model()),
        ensures
            final(self).model() == with_undoable_link(old(self).model(), v as int, to.model()),
    {
        let prev = clone_free_kind(&self.slots[v]);
        self.slots[v] = FreeKind::UndoableLinked { t: clone_type(to), previous: Box::new(prev) };
        proof {
            assert(self.model() =~= with_undoable_link(old(self).model(), v as int, to.model()));
        }
    }

    /// Rolls back a reversible link, restoring the state recorded with it.
    pub fn undo(&mut self, v: Id)
        requires
            v < old(self).model().len(),
            old(self).model()[v as int] is UndoableLinked,
        ensures
            final(self).model() == after_undo(old(self).model(), v as int),
    {
        let prev = match &self.slots[v] {
            FreeKind::UndoableLinked { previous, .. } => clone_free_kind(previous),
            _ => unreached(),
        };
        self.slots[v] = prev;
        proof {
            assert(self.model() =~= after_undo(old(self).model(), v as int));
        }
    }

    /// Replaces the constraint of an unbound slot; the id, name and level
    /// are kept, and a resolved slot is left as it is.
    pub fn update_constraint(&mut self, v: Id, new_constraint: Constraint)
        requires
            v < old(self).model().len(),
        ensures
            old(self).model()[v as int] matches FreeKindModel::Unbound { id, lev, .. }
                ==> final(self).model() == old(self).model().update(
                v as int,
                FreeKindModel::Unbound { id, lev, constraint: new_constraint.model() },
            ),
            old(self).model()[v as int] matches FreeKindModel::NamedUnbound { name, lev, .. }
                ==> final(self).model() == old(self).model().update(
                v as int,
                FreeKindModel::NamedUnbound { name, lev, constraint: new_constraint.model() },
            ),
            constraint_of(old(self).model()[v as int]) is None ==> final(self).model() == old(
                self,
            ).model(),
    {
        let k = clone_free_kind(&self.slots[v]);
        match k {
            FreeKind::Unbound { id, lev, .. } => {
                self.slots[v] = FreeKind::Unbound { id, lev, constraint: new_constraint };
                proof {
                    assert(self.model() =~= old(self).model().update(
                        v as int,
                        self.slots[v as int].model(),
                    ));
                }
            },
            FreeKind::NamedUnbound { name, lev, .. } => {
                self.slots[v] = FreeKind::NamedUnbound { name, lev, constraint: new_constraint };
                proof {
                    assert(self.model() =~= old(self).model().update(
                        v as int,
                        self.slots[v as int].model(),
                    ));
                }
            },
            _ => {
                proof {
                    assert(self.model() =~= old(self).model());
                }
            },
        }
    }
}

/// Slot `b` is slot `a` with its recorded level possibly lowered; nothing
/// else may differ.
pub open spec fn lev_lowered_one(a: FreeKindModel, b: FreeKindModel) -> bool {
    match (a, b) {
        (
            FreeKindModel::Unbound { id: i1, lev: l1, constraint: c1 },
            FreeKindModel::Unbound { id: i2, lev: l2, constraint: c2 },
        ) => i1 == i2 && c1 == c2 && l2 <= l1,
        (
            FreeKindModel::NamedUnbound { name: n1, lev: l1, constraint: c1 },
            FreeKindModel::NamedUnbound { name: n2, lev: l2, constraint: c2 },
        ) => n1 == n2 && c1 == c2 && l2 <= l1,
        _ => b == a,
    }
}

/// Every slot of `b` is the slot of `a` with its level possibly lowered.
/// No level ever goes up.
pub open spec fn levs_lowered(a: Seq<FreeKindModel>, b: Seq<FreeKindModel>) -> bool {
    b.len() == a.len() && forall|i: int| 0 <= i < a.len() ==> lev_lowered_one(a[i], b[i])
}

/// Level lowering is reflexive.
pub proof fn lemma_levs_lowered_refl(a: Seq<FreeKindModel>)
    ensures
        levs_lowered(a, a),
{
    assert forall|i: int| 0 <= i < a.len() implies lev_lowered_one(a[i], a[i]) by {
        match a[i] {
            FreeKindModel::Unbound { .. } => {},
            FreeKindModel::NamedUnbound { .. } => {},
            _ => {},
        }
    }
}

/// Level lowering is transitive.
pub proof fn lemma_levs_lowered_trans(
    a: Seq<FreeKindModel>,
    b: Seq<FreeKindModel>,
    c: Seq<FreeKindModel>,
)
    requires
        levs_lowered(a, b),
        levs_lowered(b, c),
    ensures
        levs_lowered(a, c),
{
    assert forall|i: int| 0 <= i < a.len() implies lev_lowered_one(a[i], c[i]) by {
        assert(lev_lowered_one(a[i], b[i]));
        assert(lev_lowered_one(b[i], c[i]));
    }
}

impl FreeVars {
    /// Lowers the recorded level of every variable occurring in `t`,
    /// following resolved links up to `fuel` steps deep, as
    /// [`FreeVars::update_level`] does for a single variable.
    #[verifier::loop_isolation(false)]
    pub fn update_level_type(&mut self, t: &Type, level: Level, fuel: usize)
        ensures
            levs_lowered(old(self).model(), final(self).model()),
        decreases fuel, *t,
    {
        proof {
            lemma_levs_lowered_refl(self.model());
        }
        match t {
            Type::FreeVar(id) => {
                let v = *id;
                if v < self.slots.len() {
                    let is_low_unbound = match &self.slots[v] {
                        FreeKind::Unbound { lev, .. } => level < *lev,
                        FreeKind::NamedUnbound { lev, .. } => level < *lev,
                        _ => false,
                    };
                    if is_low_unbound {
                        let k = clone_free_kind(&self.slots[v]);
                        match k {
                            FreeKind::Unbound { id, constraint, .. } => {
                                self.slots[v] = FreeKind::Unbound { id, lev: level, constraint };
                            },
                            FreeKind::NamedUnbound { name, constraint, .. } => {
                                self.slots[v] = FreeKind::NamedUnbound {
                                    name,
                                    lev: level,
                                    constraint,
                                };
                            },
                            _ => {},
                        }
                        proof {
                            assert(levs_lowered(old(self).model(), self.model()));
                        }
                    } else {
                        let target = match &self.slots[v] {
                            FreeKind::Linked(t2) => Option::Some(clone_type(t2)),
                            _ => Option::None,
                        };
                        if let Option::Some(target) = target {
                            if fuel > 0 {
                                self.update_level_type(&target, level, fuel - 1);
                            }
                        }
                    }
                }
            },
            Type::Poly { params, .. } => {
                let n = params.len();
                let mut i: usize = 0;
                while i < n
                    invariant
                        n == params@.len(),
                        i <= n,
                        levs_lowered(old(self).model(), self.model()),
                    decreases n - i,
                {
                    let ghost mid = self.model();
                    self.update_level_type(&params[i], level, fuel);
                    proof {
                        lemma_levs_lowered_trans(old(self).model(), mid, self.model());
                    }
                    i += 1;
                }
            },
            Type::Record(fields) => {
                let n = fields.len();
                let mut i: usize = 0;
                while i < n
                    invariant
                        n == fields@.len(),
                        i <= n,
                        levs_lowered(old(self).model(), self.model()),
                    decreases n - i,
                {
                    let ghost mid = self.model();
                    self.update_level_type(&fields[i].1, level, fuel);
                    proof {
                        lemma_levs_lowered_trans(old(self).model(), mid, self.model());
                    }
                    i += 1;
                }
            },
            Type::Ref(inner) => {
                self.update_level_type(inner, level, fuel);
            },
            Type::RefMut { before, after } => {
                self.update_level_type(before, level, fuel);
                if let Option::Some(a) = after {
                    let ghost mid = self.model();
                    self.update_level_type(a, level, fuel);
                    proof {
                        lemma_levs_lowered_trans(old(self).model(), mid, self.model());
                    }
                }
            },
            Type::Refinement { t: base, .. } => {
                self.update_level_type(base, level, fuel);
            },
            Type::And(l, r) => {
                self.update_level_type(l, level, fuel);
                let ghost mid = self.model();
                self.update_level_type(r, level, fuel);
                proof {
                    lemma_levs_lowered_trans(old(self).model(), mid, self.model());
                }
            },
            Type::Or(l, r) => {
                self.update_level_type(l, level, fuel);
                let ghost mid = self.model();
                self.update_level_type(r, level, fuel);
                proof {
                    lemma_levs_lowered_trans(old(self).model(), mid, self.model());
                }
            },
            Type::Proj { lhs, .. } => {
                self.update_level_type(lhs, level, fuel);
            },
            Type::Quantified(inner) => {
                self.update_level_type(inner, level, fuel);
            },
            Type::Subr(subr) => {
                self.update_level_list(&subr.non_default_params, level, fuel);
                if let Option::Some(p) = &subr.var_params {
                    let ghost mid1 = self.model();
                    self.update_level_param(p, level, fuel);
                    proof {
                        lemma_levs_lowered_trans(old(self).model(), mid1, self.model());
                    }
                }
                let ghost mid2 = self.model();
                self.update_level_list(&subr.default_params, level, fuel);
                proof {
                    lemma_levs_lowered_trans(old(self).model(), mid2, self.model());
                }
                let ghost mid3 = self.model();
                self.update_level_type(&subr.return_t, level, fuel);
                proof {
                    lemma_levs_lowered_trans(old(self).model(), mid3, self.model());
                }
            },
            _ => {},
        }
    }

    /// Lowers levels through one parameter descriptor.
    fn update_level_param(&mut self, p: &ParamTy, level: Level, fuel: usize)
        ensures
            levs_lowered(old(self).model(), final(self).model()),
        decreases fuel, *p,
    {
        self.update_level_type(&p.t, level, fuel);
        if let Option::Some(d) = &p.default_t {
            let ghost mid = self.model();
            self.update_level_type(d, level, fuel);
            proof {
                lemma_levs_lowered_trans(old(self).model(), mid, self.model());
            }
        }
    }

    /// Lowers levels through a parameter list.
    #[verifier::loop_isolation(false)]
    fn update_level_list(&mut self, ps: &Vec<ParamTy>, level: Level, fuel: usize)
        ensures
            levs_lowered(old(self).model(), final(self).model()),
        decreases fuel, *ps,
    {
        proof {
            lemma_levs_lowered_refl(self.model());
        }
        let n = ps.len();
        let mut i: usize = 0;
        while i < n
            invariant
                n == ps@.len(),
                i <= n,
                levs_lowered(old(self).model(), self.model()),
            decreases n - i,
        {
            let ghost mid = self.model();
            self.update_level_param(&ps[i], level, fuel);
            proof {
                lemma_levs_lowered_trans(old(self).model(), mid, self.model());
            }
            i += 1;
        }
    }

    /// Lowers the variable's recorded level to `level` if that is smaller;
    /// a larger `level` changes nothing.  A resolved variable passes the
    /// update on to the variables of its resolution, link depth bounded by
    /// `fuel`.  No level ever increases.
    pub fn update_level(&mut self, v: Id, level: Level, fuel: usize)
        requires
            v < old(self).model().len(),
        ensures
            levs_lowered(old(self).model(), final(self).model()),
            (match lev_of(old(self).model()[v as int]) {
                Option::Some(l) => level >= l,
                Option::None => false,
            }) ==> final(self).model() == old(self).model(),
            old(self).model()[v as int] matches FreeKindModel::Unbound { id, lev, constraint }
                ==> (level < lev ==> final(self).model() == old(self).model().update(
                v as int,
                FreeKindModel::Unbound { id, lev: level as nat, constraint },
            )),
            old(self).model()[v as int] matches FreeKindModel::NamedUnbound { name, lev, constraint }
                ==> (level < lev ==> final(self).model() == old(self).model().update(
                v as int,
                FreeKindModel::NamedUnbound { name, lev: level as nat, constraint },
            )),
    {
        proof {
            lemma_levs_lowered_refl(self.model());
        }
        let is_low_unbound = match &self.slots[v] {
            FreeKind::Unbound { lev, .. } => level < *lev,
            FreeKind::NamedUnbound { lev, .. } => level < *lev,
            _ => false,
        };
        if is_low_unbound {
            let k = clone_free_kind(&self.slots[v]);
            match k {
                FreeKind::Unbound { id, constraint, .. } => {
                    self.slots[v] = FreeKind::Unbound { id, lev: level, constraint };
                },
                FreeKind::NamedUnbound { name, constraint, .. } => {
                    self.slots[v] = FreeKind::NamedUnbound { name, lev: level, constraint };
                },
                _ => {},
            }
            proof {
                assert(final(self).model() =~= old(self).model().update(
                    v as int,
                    self.slots[v as int].model(),
                ));
                assert(levs_lowered(old(self).model(), self.model()));
            }
        } else {
            let target = match &self.slots[v] {
                FreeKind::Linked(t2) => Option::Some(clone_type(t2)),
                _ => Option::None,
            };
            if let Option::Some(target) = target {
                self.update_level_type(&target, level, fuel);
            }
        }
    }
}

/// Slot `b` is slot `a` with its recorded level possibly raised; nothing
/// else may differ.
pub open spec fn lev_raised_one(a: FreeKindModel, b: FreeKindModel) -> bool {
    match (a, b) {
        (
            FreeKindModel::Unbound { id: i1, lev: l1, constraint: c1 },
            FreeKindModel::Unbound { id: i2, lev: l2, constraint: c2 },
        ) => i1 == i2 && c1 == c2 && l2 >= l1,
        (
            FreeKindModel::NamedUnbound { name: n1, lev: l1, constraint: c1 },
            FreeKindModel::NamedUnbound { name: n2, lev: l2, constraint: c2 },
        ) => n1 == n2 && c1 == c2 && l2 >= l1,
        _ => b == a,
    }
}

/// Every slot of `b` is the slot of `a` with its level possibly raised.
pub open spec fn levs_raised(a: Seq<FreeKindModel>, b: Seq<FreeKindModel>) -> bool {
    b.len() == a.len() && forall|i: int| 0 <= i < a.len() ==> lev_raised_one(a[i], b[i])
}

/// Level raising is reflexive.
pub proof fn lemma_levs_raised_refl(a: Seq<FreeKindModel>)
    ensures
        levs_raised(a, a),
{
    assert forall|i: int| 0 <= i < a.len() implies lev_raised_one(a[i], a[i]) by {
        match a[i] {
            FreeKindModel::Unbound { .. } => {},
            FreeKindModel::NamedUnbound { .. } => {},
            _ => {},
        }
    }
}

/// Level raising is transitive.
pub proof fn lemma_levs_raised_trans(
    a: Seq<FreeKindModel>,
    b: Seq<FreeKindModel>,
    c: Seq<FreeKindModel>,
)
    requires
        levs_raised(a, b),
        levs_raised(b, c),
    ensures
        levs_raised(a, c),
{
    assert forall|i: int| 0 <= i < a.len() implies lev_raised_one(a[i], c[i]) by {
        assert(lev_raised_one(a[i], b[i]));
        assert(lev_raised_one(b[i], c[i]));
    }
}

/// Constraint `b` is constraint `a` with `c` possibly joined into its
/// cyclicity tag; the bounds themselves may not change.
pub open spec fn cyc_joined_constraint(a: ConstraintModel, b: ConstraintModel, c: Cyclicity) -> bool {
    match (a, b) {
        (
            ConstraintModel::Sandwiched { sub: s1, sup: p1, cyclicity: y1 },
            ConstraintModel::Sandwiched { sub: s2, sup: p2, cyclicity: y2 },
        ) => s1 == s2 && p1 == p2 && (y2 == y1 || y2 == spec_combine(y1, c)),
        _ => b == a,
    }
}

/// Slot `b` is slot `a` with `c` possibly joined into its constraint's
/// cyclicity tag; nothing else may differ.
pub open spec fn cyc_joined_one(a: FreeKindModel, b: FreeKindModel, c: Cyclicity) -> bool {
    match (a, b) {
        (
            FreeKindModel::Unbound { id: i1, lev: l1, constraint: c1 },
            FreeKindModel::Unbound { id: i2, lev: l2, constraint: c2 },
        ) => i1 == i2 && l1 == l2 && cyc_joined_constraint(c1, c2, c),
        (
            FreeKindModel::NamedUnbound { name: n1, lev: l1, constraint: c1 },
            FreeKindModel::NamedUnbound { name: n2, lev: l2, constraint: c2 },
        ) => n1 == n2 && l1 == l2 && cyc_joined_constraint(c1, c2, c),
        _ => b == a,
    }
}

/// Every slot of `b` is the slot of `a` with `c` possibly joined into its
/// cyclicity tag.
pub open spec fn cycs_joined(a: Seq<FreeKindModel>, b: Seq<FreeKindModel>, c: Cyclicity) -> bool {
    b.len() == a.len() && forall|i: int| 0 <= i < a.len() ==> cyc_joined_one(a[i], b[i], c)
}

/// Cyclicity joining is reflexive.
pub proof fn lemma_cycs_joined_refl(a: Seq<FreeKindModel>, c: Cyclicity)
    ensures
        cycs_joined(a, a, c),
{
    assert forall|i: int| 0 <= i < a.len() implies cyc_joined_one(a[i], a[i], c) by {
        match a[i] {
            FreeKindModel::Unbound { constraint, .. } => {
                match constraint {
                    ConstraintModel::Sandwiched { .. } => {},
                    _ => {},
                }
            },
            FreeKindModel::NamedUnbound { constraint, .. } => {
                match constraint {
                    ConstraintModel::Sandwiched { .. } => {},
                    _ => {},
                }
            },
            _ => {},
        }
    }
}

/// Cyclicity joining is transitive: joining the same tag twice is joining
/// it once.
pub proof fn lemma_cycs_joined_trans(
    a: Seq<FreeKindModel>,
    b: Seq<FreeKindModel>,
    c: Seq<FreeKindModel>,
    cy: Cyclicity,
)
    requires
        cycs_joined(a, b, cy),
        cycs_joined(b, c, cy),
    ensures
        cycs_joined(a, c, cy),
{
    assert forall|i: int| 0 <= i < a.len() implies cyc_joined_one(a[i], c[i], cy) by {
        assert(cyc_joined_one(a[i], b[i], cy));
        assert(cyc_joined_one(b[i], c[i], cy));
    }
}

impl FreeVars {
    /// Raises by one the level of every variable occurring in `t`,
    /// following links and constraint bounds up to `fuel` steps deep.
    #[verifier::loop_isolation(false)]
    pub fn lift_type(&mut self, t: &Type, fuel: usize)
        ensures
            levs_raised(old(self).model(), final(self).model()),
        decreases fuel, *t,
    {
        proof {
            lemma_levs_raised_refl(self.model());
        }
        match t {
            Type::FreeVar(id) => {
                let v = *id;
                if v < self.slots.len() && fuel > 0 {
                    let k = clone_free_kind(&self.slots[v]);
                    match k {
                        FreeKind::Unbound { id: uid, lev, constraint } => {
                            let new_lev = if lev < usize::MAX {
                                lev + 1
                            } else {
                                lev
                            };
                            self.slots[v] = FreeKind::Unbound {
                                id: uid,
                                lev: new_lev,
                                constraint: clone_constraint(&constraint),
                            };
                            proof {
                                assert(levs_raised(old(self).model(), self.model()));
                            }
                            let ghost mid = self.model();
                            match &constraint {
                                Constraint::Sandwiched { sub, sup, .. } => {
                                    self.lift_type(sub, fuel - 1);
                                    let ghost mid2 = self.model();
                                    self.lift_type(sup, fuel - 1);
                                    proof {
                                        lemma_levs_raised_trans(mid, mid2, self.model());
                                    }
                                },
                                Constraint::TypeOf(t2) => {
                                    self.lift_type(t2, fuel - 1);
                                },
                                Constraint::Uninited => {},
                            }
                            proof {
                                lemma_levs_raised_trans(old(self).model(), mid, self.model());
                            }
                        },
                        FreeKind::NamedUnbound { name, lev, constraint } => {
                            let new_lev = if lev < usize::MAX {
                                lev + 1
                            } else {
                                lev
                            };
                            self.slots[v] = FreeKind::NamedUnbound {
                                name,
                                lev: new_lev,
                                constraint: clone_constraint(&constraint),
                            };
                            proof {
                                assert(levs_raised(old(self).model(), self.model()));
                            }
                            let ghost mid = self.model();
                            match &constraint {
                                Constraint::Sandwiched { sub, sup, .. } => {
                                    self.lift_type(sub, fuel - 1);
                                    let ghost mid2 = self.model();
                                    self.lift_type(sup, fuel - 1);
                                    proof {
                                        lemma_levs_raised_trans(mid, mid2, self.model());
                                    }
                                },
                                Constraint::TypeOf(t2) => {
                                    self.lift_type(t2, fuel - 1);
                                },
                                Constraint::Uninited => {},
                            }
                            proof {
                                lemma_levs_raised_trans(old(self).model(), mid, self.model());
                            }
                        },
                        FreeKind::Linked(t2) => {
                            self.lift_type(&t2, fuel - 1);
                        },
                        FreeKind::UndoableLinked { t: t2, .. } => {
                            self.lift_type(&t2, fuel - 1);
                        },
                    }
                }
            },
            Type::Poly { params, .. } => {
                let n = params.len();
                let mut i: usize = 0;
                while i < n
                    invariant
                        i <= n,
                        levs_raised(old(self).model(), self.model()),
                    decreases n - i,
                {
                    let ghost mid = self.model();
                    self.lift_type(&params[i], fuel);
                    proof {
                        lemma_levs_raised_trans(old(self).model(), mid, self.model());
                    }
                    i += 1;
                }
            },
            Type::Record(fields) => {
                let n = fields.len();
                let mut i: usize = 0;
                while i < n
                    invariant
                        i <= n,
                        levs_raised(old(self).model(), self.model()),
                    decreases n - i,
                {
                    let ghost mid = self.model();
                    self.lift_type(&fields[i].1, fuel);
                    proof {
                        lemma_levs_raised_trans(old(self).model(), mid, self.model());
                    }
                    i += 1;
                }
            },
            Type::Ref(inner) => {
                self.lift_type(inner, fuel);
            },
            Type::RefMut { before, after } => {
                self.lift_type(before, fuel);
                if let Option::Some(a) = after {
                    let ghost mid = self.model();
                    self.lift_type(a, fuel);
                    proof {
                        lemma_levs_raised_trans(old(self).model(), mid, self.model());
                    }
                }
            },
            Type::Refinement { t: base, .. } => {
                self.lift_type(base, fuel);
            },
            Type::And(l, r) => {
                self.lift_type(l, fuel);
                let ghost mid = self.model();
                self.lift_type(r, fuel);
                proof {
                    lemma_levs_raised_trans(old(self).model(), mid, self.model());
                }
            },
            Type::Or(l, r) => {
                self.lift_type(l, fuel);
                let ghost mid = self.model();
                self.lift_type(r, fuel);
                proof {
                    lemma_levs_raised_trans(old(self).model(), mid, self.model());
                }
            },
            Type::Proj { lhs, .. } => {
                self.lift_type(lhs, fuel);
            },
            Type::Quantified(inner) => {
                self.lift_type(inner, fuel);
            },
            Type::Subr(subr) => {
                self.lift_params(&subr.non_default_params, fuel);
                if let Option::Some(p) = &subr.var_params {
                    let ghost mid1 = self.model();
                    self.lift_type(&p.t, fuel);
                    proof {
                        lemma_levs_raised_trans(old(self).model(), mid1, self.model());
                    }
                }
                let ghost mid2 = self.model();
                self.lift_params(&subr.default_params, fuel);
                proof {
                    lemma_levs_raised_trans(old(self).model(), mid2, self.model());
                }
                let ghost mid3 = self.model();
                self.lift_type(&subr.return_t, fuel);
                proof {
                    lemma_levs_raised_trans(old(self).model(), mid3, self.model());
                }
            },
            _ => {},
        }
    }

    /// Raises levels through the bound types of a constraint.
    fn lift_constraint_types(&mut self, c: &Constraint, fuel: usize)
        ensures
            levs_raised(old(self).model(), final(self).model()),
            c.model() is Uninited ==> final(self).model() == old(self).model(),
    {
        proof {
            lemma_levs_raised_refl(self.model());
        }
        match c {
            Constraint::Sandwiched { sub, sup, .. } => {
                self.lift_type(sub, fuel);
                let ghost mid = self.model();
                self.lift_type(sup, fuel);
                proof {
                    lemma_levs_raised_trans(old(self).model(), mid, self.model());
                }
            },
            Constraint::TypeOf(t) => {
                self.lift_type(t, fuel);
            },
            Constraint::Uninited => {},
        }
    }

    /// Raises levels through a parameter list.
    #[verifier::loop_isolation(false)]
    fn lift_params(&mut self, ps: &Vec<ParamTy>, fuel: usize)
        ensures
            levs_raised(old(self).model(), final(self).model()),
        decreases fuel, *ps,
    {
        proof {
            lemma_levs_raised_refl(self.model());
        }
        let n = ps.len();
        let mut i: usize = 0;
        while i < n
            invariant
                i <= n,
                levs_raised(old(self).model(), self.model()),
            decreases n - i,
        {
            let ghost mid = self.model();
            self.lift_type(&ps[i].t, fuel);
            proof {
                lemma_levs_raised_trans(old(self).model(), mid, self.model());
            }
            if let Option::Some(d) = &ps[i].default_t {
                let ghost mid2 = self.model();
                self.lift_type(d, fuel);
                proof {
                    lemma_levs_raised_trans(old(self).model(), mid2, self.model());
                }
            }
            i += 1;
        }
    }

    /// Raises the variable's level by one (an unbound variable leaving its
    /// defining scope is generalized) and passes the lift on into its bound
    /// types or its resolution, link depth bounded by `fuel`.  No level is
    /// ever lowered by this; a variable reachable again through its own
    /// bound types may be raised more than once, so in general only a
    /// lower bound on the raise can be promised, and the raise is exact
    /// where the constraint holds no types to walk into.
    pub fn lift(&mut self, v: Id, fuel: usize)
        requires
            v < old(self).model().len(),
        ensures
            levs_raised(old(self).model(), final(self).model()),
            old(self).model()[v as int] matches FreeKindModel::Unbound { lev, .. }
                ==> (lev < usize::MAX ==> match lev_of(final(self).model()[v as int]) {
                    Option::Some(l2) => l2 >= lev + 1,
                    Option::None => false,
                }),
            old(self).model()[v as int] matches FreeKindModel::NamedUnbound { lev, .. }
                ==> (lev < usize::MAX ==> match lev_of(final(self).model()[v as int]) {
                    Option::Some(l2) => l2 >= lev + 1,
                    Option::None => false,
                }),
            old(self).model()[v as int] matches FreeKindModel::Unbound { id, lev, constraint }
                ==> ((constraint is Uninited && lev < usize::MAX) ==> final(self).model()
                == old(self).model().update(
                v as int,
                FreeKindModel::Unbound { id, lev: (lev + 1) as nat, constraint },
            )),
            old(self).model()[v as int] matches FreeKindModel::NamedUnbound {
                name,
                lev,
                constraint,
            } ==> ((constraint is Uninited && lev < usize::MAX) ==> final(self).model() == old(
                self,
            ).model().update(
                v as int,
                FreeKindModel::NamedUnbound { name, lev: (lev + 1) as nat, constraint },
            )),
{
        proof {
            lemma_levs_raised_refl(self.model());
        }
        let k = clone_free_kind(&self.slots[v]);
        match k {
            FreeKind::Unbound { id, lev, constraint } => {
                let new_lev = if lev < usize::MAX {
                    lev + 1
                } else {
                    lev
                };
                self.slots[v] = FreeKind::Unbound {
                    id,
                    lev: new_lev,
                    constraint: clone_constraint(&constraint),
                };
                proof {
                    assert(levs_raised(old(self).model(), self.model()));
                }
                let ghost mid = self.model();
                self.lift_constraint_types(&constraint, fuel);
                proof {
                    lemma_levs_raised_trans(old(self).model(), mid, self.model());
                }
            },
            FreeKind::NamedUnbound { name, lev, constraint } => {
                let new_lev = if lev < usize::MAX {
                    lev + 1
                } else {
                    lev
                };
                self.slots[v] = FreeKind::NamedUnbound {
                    name,
                    lev: new_lev,
                    constraint: clone_constraint(&constraint),
                };
                proof {
                    assert(levs_raised(old(self).model(), self.model()));
                }
                let ghost mid = self.model();
                self.lift_constraint_types(&constraint, fuel);
                proof {
                    lemma_levs_raised_trans(old(self).model(), mid, self.model());
                }
            },
            FreeKind::Linked(t) => {
                self.lift_type(&t, fuel);
            },
            FreeKind::UndoableLinked { t, .. } => {
                self.lift_type(&t, fuel);
            },
        }
    }

    /// Joins `cyc` into the cyclicity tag of every variable occurring in
    /// `t`, following resolved links up to `fuel` steps deep.
    #[verifier::loop_isolation(false)]
    pub fn update_cyclicity_type(&mut self, t: &Type, cyc: Cyclicity, fuel: usize)
        ensures
            cycs_joined(old(self).model(), final(self).model(), cyc),
        decreases fuel, *t,
    {
        proof {
            lemma_cycs_joined_refl(self.model(), cyc);
        }
        match t {
            Type::FreeVar(id) => {
                let v = *id;
                if v < self.slots.len() {
                    if self.is_linked(v) {
                        if fuel > 0 {
                            let target = clone_type(self.crack(v));
                            self.update_cyclicity_type(&target, cyc, fuel - 1);
                        }
                    } else {
                        self.update_cyclicity(v, cyc);
                    }
                }
            },
            Type::Poly { params, .. } => {
                let n = params.len();
                let mut i: usize = 0;
                while i < n
                    invariant
                        i <= n,
                        cycs_joined(old(self).model(), self.model(), cyc),
                    decreases n - i,
                {
                    let ghost mid = self.model();
                    self.update_cyclicity_type(&params[i], cyc, fuel);
                    proof {
                        lemma_cycs_joined_trans(old(self).model(), mid, self.model(), cyc);
                    }
                    i += 1;
                }
            },
            Type::Record(fields) => {
                let n = fields.len();
                let mut i: usize = 0;
                while i < n
                    invariant
                        i <= n,
                        cycs_joined(old(self).model(), self.model(), cyc),
                    decreases n - i,
                {
                    let ghost mid = self.model();
                    self.update_cyclicity_type(&fields[i].1, cyc, fuel);
                    proof {
                        lemma_cycs_joined_trans(old(self).model(), mid, self.model(), cyc);
                    }
                    i += 1;
                }
            },
            Type::Ref(inner) => {
                self.update_cyclicity_type(inner, cyc, fuel);
            },
            Type::RefMut { before, after } => {
                self.update_cyclicity_type(before, cyc, fuel);
                if let Option::Some(a) = after {
                    let ghost mid = self.model();
                    self.update_cyclicity_type(a, cyc, fuel);
                    proof {
                        lemma_cycs_joined_trans(old(self).model(), mid, self.model(), cyc);
                    }
                }
            },
            Type::Refinement { t: base, .. } => {
                self.update_cyclicity_type(base, cyc, fuel);
            },
            Type::And(l, r) => {
                self.update_cyclicity_type(l, cyc, fuel);
                let ghost mid = self.model();
                self.update_cyclicity_type(r, cyc, fuel);
                proof {
                    lemma_cycs_joined_trans(old(self).model(), mid, self.model(), cyc);
                }
            },
            Type::Or(l, r) => {
                self.update_cyclicity_type(l, cyc, fuel);
                let ghost mid = self.model();
                self.update_cyclicity_type(r, cyc, fuel);
                proof {
                    lemma_cycs_joined_trans(old(self).model(), mid, self.model(), cyc);
                }
            },
            Type::Proj { lhs, .. } => {
                self.update_cyclicity_type(lhs, cyc, fuel);
            },
            Type::Quantified(inner) => {
                self.update_cyclicity_type(inner, cyc, fuel);
            },
            Type::Subr(subr) => {
                self.update_cyclicity_type(&subr.return_t, cyc, fuel);
            },
            _ => {},
        }
    }

    /// Joins `cyc` into the variable's recorded cyclicity tag.  The bounds
    /// and level are untouched; a resolved variable is left as it is (pass
    /// the join on with [`FreeVars::update_cyclicity_type`] instead).
    pub fn update_cyclicity(&mut self, v: Id, cyc: Cyclicity)
        requires
            v < old(self).model().len(),
        ensures
            cycs_joined(old(self).model(), final(self).model(), cyc),
            constraint_of(old(self).model()[v as int]) matches Option::Some(c) ==> (c
                matches ConstraintModel::Sandwiched { sub, sup, cyclicity } ==> constraint_of(
                final(self).model()[v as int],
            ) == Option::Some(ConstraintModel::Sandwiched {
                sub,
                sup,
                cyclicity: spec_combine(cyclicity, cyc),
            })),
    {
        proof {
            lemma_cycs_joined_refl(self.model(), cyc);
        }
        let k = clone_free_kind(&self.slots[v]);
        match k {
            FreeKind::Unbound { id, lev, mut constraint } => {
                constraint.update_cyclicity(cyc);
                self.slots[v] = FreeKind::Unbound { id, lev, constraint };
                proof {
                    assert(cycs_joined(old(self).model(), self.model(), cyc));
                }
            },
            FreeKind::NamedUnbound { name, lev, mut constraint } => {
                constraint.update_cyclicity(cyc);
                self.slots[v] = FreeKind::NamedUnbound { name, lev, constraint };
                proof {
                    assert(cycs_joined(old(self).model(), self.model(), cyc));
                }
            },
            _ => {},
        }
    }

    /// The recorded level of an unresolved variable.
    pub fn level(&self, v: Id) -> (r: Option<Level>)
        requires
            v < self.model().len(),
        ensures
            match r {
                Option::Some(l) => lev_of(self.model()[v as int]) == Option::Some(l as nat),
                Option::None => lev_of(self.model()[v as int]) is None,
            },
    {
        match &self.slots[v] {
            FreeKind::Unbound { lev, .. } => Option::Some(*lev),
            FreeKind::NamedUnbound { lev, .. } => Option::Some(*lev),
            _ => Option::None,
        }
    }

    /// The type an unresolved variable's constraint assigns to it, if
    /// any: the stated type-of type, or the kind of types for an
    /// untyped bound pair.
    pub fn get_type(&self, v: Id) -> (r: Option<Type>)
        requires
            v < self.model().len(),
        ensures
            match r {
                Option::Some(t) => constraint_of(self.model()[v as int]) matches Option::Some(cm)
                    && ((cm matches ConstraintModel::TypeOf { t: m } && t.model() == m) || ((cm
                    matches ConstraintModel::Sandwiched {
                    sub: TypeModel::Never,
                    sup: TypeModel::Obj,
                    ..
                }) && t.model() == TypeModel::Type)),
                Option::None => match constraint_of(self.model()[v as int]) {
                    Option::Some(cm) => !(cm is TypeOf) && !(cm
                        matches ConstraintModel::Sandwiched {
                        sub: TypeModel::Never,
                        sup: TypeModel::Obj,
                        ..
                    }),
                    Option::None => true,
                },
            },
    {
        match &self.slots[v] {
            FreeKind::Unbound { constraint, .. } | FreeKind::NamedUnbound { constraint, .. } => {
                match constraint.get_type() {
                    Option::Some(t) => Option::Some(clone_type(t)),
                    Option::None => Option::None,
                }
            },
            _ => Option::None,
        }
    }

    /// The upper bound of an unresolved variable, if one is recorded.
    pub fn get_sup(&self, v: Id) -> (r: Option<Type>)
        requires
            v < self.model().len(),
        ensures
            match r {
                Option::Some(t) => constraint_of(self.model()[v as int])
                    matches Option::Some(ConstraintModel::Sandwiched { sup, .. }) && t.model()
                    == sup,
                Option::None => !(constraint_of(self.model()[v as int])
                    matches Option::Some(ConstraintModel::Sandwiched { .. })),
            },
    {
        match &self.slots[v] {
            FreeKind::Unbound { constraint, .. } | FreeKind::NamedUnbound { constraint, .. } => {
                match constraint.get_super() {
                    Option::Some(t) => Option::Some(clone_type(t)),
                    Option::None => Option::None,
                }
            },
            _ => Option::None,
        }
    }

    /// Both bounds of an unresolved variable, if they are recorded.
    pub fn get_bound_types(&self, v: Id) -> (r: Option<(Type, Type)>)
        requires
            v < self.model().len(),
        ensures
            match r {
                Option::Some(p) => constraint_of(self.model()[v as int])
                    matches Option::Some(ConstraintModel::Sandwiched { sub, sup, .. })
                    && p.0.model() == sub && p.1.model() == sup,
                Option::None => !(constraint_of(self.model()[v as int])
                    matches Option::Some(ConstraintModel::Sandwiched { .. })),
            },
    {
        match &self.slots[v] {
            FreeKind::Unbound { constraint, .. } | FreeKind::NamedUnbound { constraint, .. } => {
                match constraint.get_sub_sup() {
                    Option::Some((sub, sup)) => Option::Some((clone_type(sub), clone_type(sup))),
                    Option::None => Option::None,
                }
            },
            _ => Option::None,
        }
    }

    /// The recorded cyclicity of an unresolved variable; `Not` for a
    /// resolved one.
    pub fn cyclicity(&self, v: Id) -> (r: Cyclicity)
        requires
            v < self.model().len(),
        ensures
            constraint_of(self.model()[v as int]) matches Option::Some(
                ConstraintModel::Sandwiched { cyclicity, .. },
            ) ==> r == cyclicity,
            (match constraint_of(self.model()[v as int]) {
                Option::Some(c) => !(c is Sandwiched),
                Option::None => true,
            }) ==> r == Cyclicity::Not,
    {
        match &self.slots[v] {
            FreeKind::Unbound { constraint, .. } | FreeKind::NamedUnbound { constraint, .. } => {
                constraint.cyclicicty()
            },
            _ => Cyclicity::Not,
        }
    }

    /// Whether the variable is unresolved under a constraint that
    /// assigns it a type: a stated type-of, or an untyped bound pair.
    pub fn constraint_is_typeof(&self, v: Id) -> (r: bool)
        requires
            v < self.model().len(),
        ensures
            r == (match constraint_of(self.model()[v as int]) {
                Option::Some(cm) => cm is TypeOf || (cm matches ConstraintModel::Sandwiched {
                    sub: TypeModel::Never,
                    sup: TypeModel::Obj,
                    ..
                }),
                Option::None => false,
            }),
    {
        match &self.slots[v] {
            FreeKind::Unbound { constraint, .. } | FreeKind::NamedUnbound { constraint, .. } => {
                constraint.get_type().is_some()
            },
            _ => false,
        }
    }

    /// Whether the variable is unresolved under a bounds pair.
    pub fn constraint_is_sandwiched(&self, v: Id) -> (r: bool)
        requires
            v < self.model().len(),
        ensures
            r == (constraint_of(self.model()[v as int]) matches Option::Some(
                ConstraintModel::Sandwiched { .. },
            )),
    {
        match &self.slots[v] {
            FreeKind::Unbound { constraint, .. } | FreeKind::NamedUnbound { constraint, .. } => {
                constraint.get_sub_sup().is_some()
            },
            _ => false,
        }
    }

    /// The user-given name of an unresolved variable, if it has one.
    pub fn get_unbound_name(&self, v: Id) -> (r: Option<String>)
        requires
            v < self.model().len(),
            linked_target(self.model()[v as int]) is None,
        ensures
            match r {
                Option::Some(n) => self.model()[v as int] matches FreeKindModel::NamedUnbound {
                    name,
                    ..
                } && n@ == name,
                Option::None => self.model()[v as int] is Unbound,
            },
    {
        match &self.slots[v] {
            FreeKind::NamedUnbound { name, .. } => Option::Some(name.clone()),
            FreeKind::Unbound { .. } => Option::None,
            _ => unreached(),
        }
    }

    /// The name, level and constraint of an unresolved variable.
    pub fn unwrap_unbound(&self, v: Id) -> (r: (Option<String>, Level, Constraint))
        requires
            v < self.model().len(),
            linked_target(self.model()[v as int]) is None,
        ensures
            self.model()[v as int] matches FreeKindModel::Unbound { lev, constraint, .. } ==> (
            r.0 is None && r.1 as nat == lev && r.2.model() == constraint),
            self.model()[v as int] matches FreeKindModel::NamedUnbound { name, lev, constraint }
                ==> (r.0 matches Option::Some(n) && n@ == name && r.1 as nat == lev
                && r.2.model() == constraint),
    {
        match &self.slots[v] {
            FreeKind::Unbound { lev, constraint, .. } => (
                Option::None,
                *lev,
                clone_constraint(constraint),
            ),
            FreeKind::NamedUnbound { name, lev, constraint } => (
                Option::Some(name.clone()),
                *lev,
                clone_constraint(constraint),
            ),
            _ => unreached(),
        }
    }

    /// The resolution of a resolved variable, owned.
    pub fn unwrap_linked(&self, v: Id) -> (r: Type)
        requires
            v < self.model().len(),
            linked_target(self.model()[v as int]) is Some,
        ensures
            Option::Some(r.model()) == linked_target(self.model()[v as int]),
    {
        clone_type(self.crack(v))
    }

    /// A display name for an unresolved variable: its own name, or `%`
    /// followed by its id for an anonymous one.
    pub fn unbound_name(&self, v: Id) -> (r: Option<String>)
        requires
            v < self.model().len(),
        ensures
            r is Some <==> constraint_of(self.model()[v as int]) is Some,
    {
        match &self.slots[v] {
            FreeKind::NamedUnbound { name, .. } => Option::Some(name.clone()),
            FreeKind::Unbound { id, .. } => {
                proof {
                    reveal_strlit("%");
                }
                let mut s = String::from_str("%");
                push_decimal(&mut s, *id);
                Option::Some(s)
            },
            _ => Option::None,
        }
    }
}

impl Constraint {
    /// Raises by one the level of every variable occurring in this
    /// constraint's bound types, link depth bounded by `fuel`.
    pub fn lift(&self, vars: &mut FreeVars, fuel: usize)
        ensures
            levs_raised(old(vars).model(), final(vars).model()),
    {
        vars.lift_constraint_types(self, fuel);
    }
}

/// What carries generalization levels: a value can report, lower or lift
/// the levels of the variables it mentions, all through the shared arena.
pub trait HasLevel {
    /// The recorded level, where the value is a single unresolved
    /// variable.
    fn level(&self, vars: &FreeVars) -> Option<Level>;

    /// Lowers the recorded level of every variable the value mentions to
    /// `level` where that is smaller, following links at most `fuel`
    /// steps.  No level ever increases.
    fn update_level(&self, vars: &mut FreeVars, level: Level, fuel: usize)
        ensures
            levs_lowered(old(vars).model(), final(vars).model()),
    ;

    /// Raises by one the level of every variable the value mentions,
    /// following links at most `fuel` steps.  No level ever decreases.
    fn lift(&self, vars: &mut FreeVars, fuel: usize)
        ensures
            levs_raised(old(vars).model(), final(vars).model()),
    ;
}

impl HasLevel for Type {
    fn level(&self, vars: &FreeVars) -> Option<Level> {
        match self {
            Type::FreeVar(id) => {
                if *id < vars.len() {
                    vars.level(*id)
                } else {
                    Option::None
                }
            },
            _ => Option::None,
        }
    }

    fn update_level(&self, vars: &mut FreeVars, level: Level, fuel: usize) {
        vars.update_level_type(self, level, fuel);
    }

    fn lift(&self, vars: &mut FreeVars, fuel: usize) {
        vars.lift_type(self, fuel);
    }
}

} // verus!
