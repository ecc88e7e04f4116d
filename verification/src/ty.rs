//! The type graph: the tagged `Type` variant, subroutine types and their
//! parameter descriptors.
//!
//! Free type variables are not stored inline: a `Type::FreeVar` carries an
//! index into the variable arena of [`crate::free`], so that every structural
//! position referencing the same placeholder shares one slot.
//!
//! Contracts over types are stated against [`TypeModel`], a mathematical
//! image of a type in which names are character sequences and child lists
//! are `Seq`s; two types are the same type exactly when their models are
//! equal.

use vstd::prelude::*;

verus! {

broadcast use vstd::std_specs::vec::axiom_vec_index_decreases;

/// Whether a subroutine is a pure function or a procedure.
#[derive(Clone, Copy, Debug, PartialEq, Eq, Structural)]
pub enum SubrKind {
    Func,
    Proc,
}

/// A declared parameter: an optional keyword name, the parameter type, and,
/// for default parameters, the type of the declared default value.
#[derive(Debug)]
pub struct ParamTy {
    pub name: Option<String>,
    pub t: Type,
    pub default_t: Option<Type>,
}

/// A subroutine type: ordered non-default parameters, an optional variadic
/// parameter, ordered default parameters, and the return type.
#[derive(Debug)]
pub struct SubrType {
    pub kind: SubrKind,
    pub non_default_params: Vec<ParamTy>,
    pub var_params: Option<Box<ParamTy>>,
    pub default_params: Vec<ParamTy>,
    pub return_t: Box<Type>,
}

/// The tagged type variant.
#[derive(Debug)]
pub enum Type {
    /// The top type: every value belongs to it.
    Obj,
    /// The bottom type: no value belongs to it.
    Never,
    /// A named nominal type without parameters.
    Mono(String),
    /// A parametric nominal type with an ordered list of type parameters.
    Poly { name: String, params: Vec<Type> },
    /// A structural record: ordered fields, each a name with a type.
    Record(Vec<(String, Type)>),
    /// An immutable reference wrapper.
    Ref(Box<Type>),
    /// A mutable reference wrapper, with an optional type after mutation.
    RefMut { before: Box<Type>, after: Option<Box<Type>> },
    /// A refinement: a base type narrowed by a predicate over a bound
    /// variable (the predicate itself is evaluated outside this core).
    Refinement { var: String, t: Box<Type> },
    /// Intersection of two types.
    And(Box<Type>, Box<Type>),
    /// Union of two types.
    Or(Box<Type>, Box<Type>),
    /// A projection `Lhs.Attr`, resolved through trait-implementation search.
    Proj { lhs: Box<Type>, rhs: String },
    /// A subroutine type.
    Subr(SubrType),
    /// A universally quantified type.
    Quantified(Box<Type>),
    /// A free type variable: an index into the variable arena.
    FreeVar(usize),
    /// The kind of all types.
    Type,
    /// The kind of class types.
    ClassType,
    /// The kind of trait types.
    TraitType,
    /// A placeholder for a type not yet assigned.
    Uninited,
    /// The type given to expressions whose checking already failed.
    Failure,
}

/// Mathematical image of a [`ParamTy`].
#[verifier::ext_equal]
pub struct ParamModel {
    pub name: Option<Seq<char>>,
    pub t: Box<TypeModel>,
    pub default_t: Option<Box<TypeModel>>,
}

/// Mathematical image of a [`SubrType`].
#[verifier::ext_equal]
pub struct SubrModel {
    pub kind: SubrKind,
    pub non_default_params: Seq<ParamModel>,
    pub var_params: Option<Box<ParamModel>>,
    pub default_params: Seq<ParamModel>,
    pub return_t: Box<TypeModel>,
}

/// Mathematical image of a [`Type`]: names become character sequences and
/// child lists become sequences, so that equality of models is structural.
#[verifier::ext_equal]
pub enum TypeModel {
    Obj,
    Never,
    Mono { name: Seq<char> },
    Poly { name: Seq<char>, params: Seq<TypeModel> },
    Record { fields: Seq<(Seq<char>, TypeModel)> },
    Ref { t: Box<TypeModel> },
    RefMut { before: Box<TypeModel>, after: Option<Box<TypeModel>> },
    Refinement { var: Seq<char>, t: Box<TypeModel> },
    And { lhs: Box<TypeModel>, rhs: Box<TypeModel> },
    Or { lhs: Box<TypeModel>, rhs: Box<TypeModel> },
    Proj { lhs: Box<TypeModel>, rhs: Seq<char> },
    Subr { subr: Box<SubrModel> },
    Quantified { t: Box<TypeModel> },
    FreeVar { id: int },
    Type,
    ClassType,
    TraitType,
    Uninited,
    Failure,
}

impl ParamTy {
    pub open spec fn model(self) -> ParamModel
        decreases self,
    {
        ParamModel {
            name: match self.name {
                Option::Some(n) => Option::Some(n@),
                Option::None => Option::None,
            },
            t: Box::new(self.t.model()),
            default_t: match self.default_t {
                Option::Some(d) => Option::Some(Box::new(d.model())),
                Option::None => Option::None,
            },
        }
    }
}

impl SubrType {
    pub open spec fn model(self) -> SubrModel
        decreases self,
    {
        SubrModel {
            kind: self.kind,
            non_default_params: Seq::new(
                self.non_default_params@.len(),
                |i: int|
                    if 0 <= i < self.non_default_params@.len() {
                        self.non_default_params[i].model()
                    } else {
                        ParamModel { name: Option::None, t: Box::new(TypeModel::Obj), default_t: Option::None }
                    },
            ),
            var_params: match self.var_params {
                Option::Some(p) => Option::Some(Box::new((*p).model())),
                Option::None => Option::None,
            },
            default_params: Seq::new(
                self.default_params@.len(),
                |i: int|
                    if 0 <= i < self.default_params@.len() {
                        self.default_params[i].model()
                    } else {
                        ParamModel { name: Option::None, t: Box::new(TypeModel::Obj), default_t: Option::None }
                    },
            ),
            return_t: Box::new((*self.return_t).model()),
        }
    }
}

impl Type {
    pub open spec fn model(self) -> TypeModel
        decreases self,
    {
        match self {
            Type::Obj => TypeModel::Obj,
            Type::Never => TypeModel::Never,
            Type::Mono(name) => TypeModel::Mono { name: name@ },
            Type::Poly { name, params } => TypeModel::Poly {
                name: name@,
                params: Seq::new(
                    params@.len(),
                    |i: int| if 0 <= i < params@.len() { params[i].model() } else { TypeModel::Obj },
                ),
            },
            Type::Record(fields) => TypeModel::Record {
                fields: Seq::new(
                    fields@.len(),
                    |i: int|
                        if 0 <= i < fields@.len() {
                            (fields[i].0@, fields[i].1.model())
                        } else {
                            (Seq::empty(), TypeModel::Obj)
                        },
                ),
            },
            Type::Ref(t) => TypeModel::Ref { t: Box::new((*t).model()) },
            Type::RefMut { before, after } => TypeModel::RefMut {
                before: Box::new((*before).model()),
                after: match after {
                    Option::Some(a) => Option::Some(Box::new((*a).model())),
                    Option::None => Option::None,
                },
            },
            Type::Refinement { var, t } => TypeModel::Refinement {
                var: var@,
                t: Box::new((*t).model()),
            },
            Type::And(l, r) => TypeModel::And {
                lhs: Box::new((*l).model()),
                rhs: Box::new((*r).model()),
            },
            Type::Or(l, r) => TypeModel::Or {
                lhs: Box::new((*l).model()),
                rhs: Box::new((*r).model()),
            },
            Type::Proj { lhs, rhs } => TypeModel::Proj {
                lhs: Box::new((*lhs).model()),
                rhs: rhs@,
            },
            Type::Subr(subr) => TypeModel::Subr { subr: Box::new(subr.model()) },
            Type::Quantified(t) => TypeModel::Quantified { t: Box::new((*t).model()) },
            Type::FreeVar(id) => TypeModel::FreeVar { id: id as int },
            Type::Type => TypeModel::Type,
            Type::ClassType => TypeModel::ClassType,
            Type::TraitType => TypeModel::TraitType,
            Type::Uninited => TypeModel::Uninited,
            Type::Failure => TypeModel::Failure,
        }
    }
}

/// The models of every type in a list, in order.
pub open spec fn models_of(s: Seq<Type>) -> Seq<TypeModel> {
    Seq::new(s.len(), |i: int| s[i].model())
}

/// The models of every parameter in a list, in order.
pub open spec fn param_models_of(s: Seq<ParamTy>) -> Seq<ParamModel> {
    Seq::new(s.len(), |i: int| s[i].model())
}

/// The models of every record field in a list, in order.
pub open spec fn field_models_of(s: Seq<(String, Type)>) -> Seq<(Seq<char>, TypeModel)> {
    Seq::new(s.len(), |i: int| (s[i].0@, s[i].1.model()))
}

/// Whether two names are the same text.
pub fn string_eq(a: &String, b: &String) -> (r: bool)
    ensures
        r == (a@ == b@),
{
    *a == *b
}

/// The model of a parametric type, written over the whole parameter list.
pub proof fn lemma_poly_model(name: String, params: Vec<Type>)
    ensures
        (Type::Poly { name, params }).model() == (TypeModel::Poly {
            name: name@,
            params: models_of(params@),
        }),
{
    let m = (Type::Poly { name, params }).model();
    match m {
        TypeModel::Poly { name: mn, params: mp } => {
            assert(mp =~= models_of(params@));
        },
        _ => {
            assert(false);
        },
    }
}

/// The model of a record type, written over the whole field list.
pub proof fn lemma_record_model(fields: Vec<(String, Type)>)
    ensures
        (Type::Record(fields)).model() == (TypeModel::Record { fields: field_models_of(fields@) }),
{
    let m = (Type::Record(fields)).model();
    match m {
        TypeModel::Record { fields: mf } => {
            assert(mf =~= field_models_of(fields@));
        },
        _ => {
            assert(false);
        },
    }
}

/// The model of a subroutine type, written over its whole parameter lists.
pub proof fn lemma_subr_model(s: SubrType)
    ensures
        s.model() == (SubrModel {
            kind: s.kind,
            non_default_params: param_models_of(s.non_default_params@),
            var_params: match s.var_params {
                Option::Some(p) => Option::Some(Box::new((*p).model())),
                Option::None => Option::None,
            },
            default_params: param_models_of(s.default_params@),
            return_t: Box::new((*s.return_t).model()),
        }),
{
    let m = s.model();
    assert(m.non_default_params =~= param_models_of(s.non_default_params@));
    assert(m.default_params =~= param_models_of(s.default_params@));
}

/// A type's model is built by the constructor that mirrors the type's own.
pub proof fn lemma_model_variants(t: Type)
    ensures
        t is Obj <==> t.model() is Obj,
        t is Never <==> t.model() is Never,
        t is Mono <==> t.model() is Mono,
        t is Poly <==> t.model() is Poly,
        t is Record <==> t.model() is Record,
        t is Ref <==> t.model() is Ref,
        t is RefMut <==> t.model() is RefMut,
        t is Refinement <==> t.model() is Refinement,
        t is And <==> t.model() is And,
        t is Or <==> t.model() is Or,
        t is Proj <==> t.model() is Proj,
        t is Subr <==> t.model() is Subr,
        t is Quantified <==> t.model() is Quantified,
        t is FreeVar <==> t.model() is FreeVar,
        t is Type <==> t.model() is Type,
        t is ClassType <==> t.model() is ClassType,
        t is TraitType <==> t.model() is TraitType,
        t is Uninited <==> t.model() is Uninited,
        t is Failure <==> t.model() is Failure,
{
    match t {
        Type::Obj => {},
        Type::Never => {},
        Type::Mono(..) => {},
        Type::Poly { .. } => {},
        Type::Record(..) => {},
        Type::Ref(..) => {},
        Type::RefMut { .. } => {},
        Type::Refinement { .. } => {},
        Type::And(..) => {},
        Type::Or(..) => {},
        Type::Proj { .. } => {},
        Type::Subr(..) => {},
        Type::Quantified(..) => {},
        Type::FreeVar(..) => {},
        Type::Type => {},
        Type::ClassType => {},
        Type::TraitType => {},
        Type::Uninited => {},
        Type::Failure => {},
    }
}

/// Whether two parameter descriptors are the same parameter.
pub fn param_eq(a: &ParamTy, b: &ParamTy) -> (r: bool)
    ensures
        r == (a.model() == b.model()),
    decreases *a,
{
    let names_eq = match (&a.name, &b.name) {
        (Option::Some(n1), Option::Some(n2)) => string_eq(n1, n2),
        (Option::None, Option::None) => true,
        _ => false,
    };
    if !names_eq {
        return false;
    }
    if !type_eq(&a.t, &b.t) {
        return false;
    }
    match (&a.default_t, &b.default_t) {
        (Option::Some(d1), Option::Some(d2)) => type_eq(d1, d2),
        (Option::None, Option::None) => true,
        _ => false,
    }
}

/// Whether two parameter lists are the same, element by element.
pub fn param_list_eq(a: &Vec<ParamTy>, b: &Vec<ParamTy>) -> (r: bool)
    ensures
        r == (param_models_of(a@) == param_models_of(b@)),
    decreases *a,
{
    if a.len() != b.len() {
        assert(param_models_of(a@).len() != param_models_of(b@).len());
        return false;
    }
    let n = a.len();
    let mut i: usize = 0;
    while i < n
        invariant
            n == a@.len() && n == b@.len(),
            i <= n,
            forall|j: int| 0 <= j < i ==> param_models_of(a@)[j] == param_models_of(b@)[j],
        decreases n - i,
    {
        if !param_eq(&a[i], &b[i]) {
            assert(param_models_of(a@)[i as int] != param_models_of(b@)[i as int]);
            return false;
        }
        i += 1;
    }
    assert(param_models_of(a@) =~= param_models_of(b@));
    true
}

/// Whether two type lists are the same, element by element.
pub fn type_list_eq(a: &Vec<Type>, b: &Vec<Type>) -> (r: bool)
    ensures
        r == (models_of(a@) == models_of(b@)),
    decreases *a,
{
    if a.len() != b.len() {
        assert(models_of(a@).len() != models_of(b@).len());
        return false;
    }
    let n = a.len();
    let mut i: usize = 0;
    while i < n
        invariant
            n == a@.len() && n == b@.len(),
            i <= n,
            forall|j: int| 0 <= j < i ==> models_of(a@)[j] == models_of(b@)[j],
        decreases n - i,
    {
        if !type_eq(&a[i], &b[i]) {
            assert(models_of(a@)[i as int] != models_of(b@)[i as int]);
            return false;
        }
        i += 1;
    }
    assert(models_of(a@) =~= models_of(b@));
    true
}

/// Whether two record field lists are the same, element by element.
pub fn field_list_eq(a: &Vec<(String, Type)>, b: &Vec<(String, Type)>) -> (r: bool)
    ensures
        r == (field_models_of(a@) == field_models_of(b@)),
    decreases *a,
{
    if a.len() != b.len() {
        assert(field_models_of(a@).len() != field_models_of(b@).len());
        return false;
    }
    let n = a.len();
    let mut i: usize = 0;
    while i < n
        invariant
            n == a@.len() && n == b@.len(),
            i <= n,
            forall|j: int| 0 <= j < i ==> field_models_of(a@)[j] == field_models_of(b@)[j],
        decreases n - i,
    {
        if !(string_eq(&a[i].0, &b[i].0) && type_eq(&a[i].1, &b[i].1)) {
            assert(field_models_of(a@)[i as int] != field_models_of(b@)[i as int]);
            return false;
        }
        i += 1;
    }
    assert(field_models_of(a@) =~= field_models_of(b@));
    true
}

/// Whether two subroutine types are the same subroutine type.
pub fn subr_eq(a: &SubrType, b: &SubrType) -> (r: bool)
    ensures
        r == (a.model() == b.model()),
    decreases *a,
{
    proof {
        lemma_subr_model(*a);
        lemma_subr_model(*b);
    }
    if !(a.kind == b.kind) {
        return false;
    }
    if !param_list_eq(&a.non_default_params, &b.non_default_params) {
        return false;
    }
    let vars_eq = match (&a.var_params, &b.var_params) {
        (Option::Some(p1), Option::Some(p2)) => param_eq(p1, p2),
        (Option::None, Option::None) => true,
        _ => false,
    };
    if !vars_eq {
        return false;
    }
    if !param_list_eq(&a.default_params, &b.default_params) {
        return false;
    }
    type_eq(&a.return_t, &b.return_t)
}

/// Whether two types are the same type: their models are equal.
pub fn type_eq(a: &Type, b: &Type) -> (r: bool)
    ensures
        r == (a.model() == b.model()),
    decreases *a,
{
    proof {
        lemma_model_variants(*a);
        lemma_model_variants(*b);
    }
    match a {
        Type::Obj => matches!(b, Type::Obj),
        Type::Never => matches!(b, Type::Never),
        Type::Mono(n1) => match b {
            Type::Mono(n2) => string_eq(n1, n2),
            _ => false,
        },
        Type::Poly { name: n1, params: p1 } => match b {
            Type::Poly { name: n2, params: p2 } => {
                proof {
                    lemma_poly_model(*n1, *p1);
                    lemma_poly_model(*n2, *p2);
                }
                string_eq(n1, n2) && type_list_eq(p1, p2)
            },
            _ => false,
        },
        Type::Record(f1) => match b {
            Type::Record(f2) => {
                proof {
                    lemma_record_model(*f1);
                    lemma_record_model(*f2);
                }
                field_list_eq(f1, f2)
            },
            _ => false,
        },
        Type::Ref(t1) => match b {
            Type::Ref(t2) => type_eq(t1, t2),
            _ => false,
        },
        Type::RefMut { before: b1, after: a1 } => match b {
            Type::RefMut { before: b2, after: a2 } => {
                type_eq(b1, b2) && match (a1, a2) {
                    (Option::Some(x1), Option::Some(x2)) => type_eq(x1, x2),
                    (Option::None, Option::None) => true,
                    _ => false,
                }
            },
            _ => false,
        },
        Type::Refinement { var: v1, t: t1 } => match b {
            Type::Refinement { var: v2, t: t2 } => string_eq(v1, v2) && type_eq(t1, t2),
            _ => false,
        },
        Type::And(l1, r1) => match b {
            Type::And(l2, r2) => type_eq(l1, l2) && type_eq(r1, r2),
            _ => false,
        },
        Type::Or(l1, r1) => match b {
            Type::Or(l2, r2) => type_eq(l1, l2) && type_eq(r1, r2),
            _ => false,
        },
        Type::Proj { lhs: l1, rhs: r1 } => match b {
            Type::Proj { lhs: l2, rhs: r2 } => type_eq(l1, l2) && string_eq(r1, r2),
            _ => false,
        },
        Type::Subr(s1) => match b {
            Type::Subr(s2) => subr_eq(s1, s2),
            _ => false,
        },
        Type::Quantified(t1) => match b {
            Type::Quantified(t2) => type_eq(t1, t2),
            _ => false,
        },
        Type::FreeVar(id1) => match b {
            Type::FreeVar(id2) => id1 == id2,
            _ => false,
        },
        Type::Type => matches!(b, Type::Type),
        Type::ClassType => matches!(b, Type::ClassType),
        Type::TraitType => matches!(b, Type::TraitType),
        Type::Uninited => matches!(b, Type::Uninited),
        Type::Failure => matches!(b, Type::Failure),
    }
}


/// Copies a name, keeping it the same value.
fn clone_opt_string(n: &Option<String>) -> (r: Option<String>)
    ensures
        r == *n,
{
    match n {
        Option::Some(s) => Option::Some(s.clone()),
        Option::None => Option::None,
    }
}

/// Copies a parameter descriptor; the copy is the same parameter.
pub fn clone_param(p: &ParamTy) -> (r: ParamTy)
    ensures
        r.model() == p.model(),
    decreases *p,
{
    ParamTy {
        name: clone_opt_string(&p.name),
        t: clone_type(&p.t),
        default_t: match &p.default_t {
            Option::Some(d) => Option::Some(clone_type(d)),
            Option::None => Option::None,
        },
    }
}

/// Copies a list of parameter descriptors, keeping each one's model.
pub fn clone_param_list(v: &Vec<ParamTy>) -> (r: Vec<ParamTy>)
    ensures
        param_models_of(r@) == param_models_of(v@),
    decreases *v,
{
    let mut out: Vec<ParamTy> = Vec::new();
    let n = v.len();
    let mut i: usize = 0;
    while i < n
        invariant
            n == v@.len(),
            i <= n,
            out@.len() == i,
            forall|j: int| 0 <= j < i ==> out@[j].model() == v@[j].model(),
        decreases n - i,
    {
        let p = clone_param(&v[i]);
        out.push(p);
        i += 1;
    }
    assert(param_models_of(out@) =~= param_models_of(v@));
    out
}

/// Copies a list of types, keeping each one's model.
pub fn clone_type_list(v: &Vec<Type>) -> (r: Vec<Type>)
    ensures
        models_of(r@) == models_of(v@),
    decreases *v,
{
    let mut out: Vec<Type> = Vec::new();
    let n = v.len();
    let mut i: usize = 0;
    while i < n
        invariant
            n == v@.len(),
            i <= n,
            out@.len() == i,
            forall|j: int| 0 <= j < i ==> out@[j].model() == v@[j].model(),
        decreases n - i,
    {
        let t = clone_type(&v[i]);
        out.push(t);
        i += 1;
    }
    assert(models_of(out@) =~= models_of(v@));
    out
}

/// Copies a list of record fields, keeping each name and type.
pub fn clone_field_list(v: &Vec<(String, Type)>) -> (r: Vec<(String, Type)>)
    ensures
        field_models_of(r@) == field_models_of(v@),
    decreases *v,
{
    let mut out: Vec<(String, Type)> = Vec::new();
    let n = v.len();
    let mut i: usize = 0;
    while i < n
        invariant
            n == v@.len(),
            i <= n,
            out@.len() == i,
            forall|j: int| 0 <= j < i
                ==> out@[j].0@ == v@[j].0@ && out@[j].1.model() == v@[j].1.model(),
        decreases n - i,
    {
        let name = v[i].0.clone();
        let t = clone_type(&v[i].1);
        out.push((name, t));
        i += 1;
    }
    assert(field_models_of(out@) =~= field_models_of(v@));
    out
}

/// Copies a subroutine type; the copy is the same subroutine type.
pub fn clone_subr(s: &SubrType) -> (r: SubrType)
    ensures
        r.model() == s.model(),
    decreases *s,
{
    let r = SubrType {
        kind: s.kind,
        non_default_params: clone_param_list(&s.non_default_params),
        var_params: match &s.var_params {
            Option::Some(p) => Option::Some(Box::new(clone_param(p))),
            Option::None => Option::None,
        },
        default_params: clone_param_list(&s.default_params),
        return_t: Box::new(clone_type(&s.return_t)),
    };
    proof {
        lemma_subr_model(*s);
        lemma_subr_model(r);
    }
    r
}

/// Copies a type; the copy is the same type.
pub fn clone_type(t: &Type) -> (r: Type)
    ensures
        r.model() == t.model(),
    decreases *t,
{
    match t {
        Type::Obj => Type::Obj,
        Type::Never => Type::Never,
        Type::Mono(n) => Type::Mono(n.clone()),
        Type::Poly { name, params } => {
            let r = Type::Poly { name: name.clone(), params: clone_type_list(params) };
            proof {
                lemma_poly_model(*name, *params);
                match &r {
                    Type::Poly { name: rn, params: rp } => lemma_poly_model(*rn, *rp),
                    _ => {},
                }
            }
            r
        },
        Type::Record(fields) => {
            let r = Type::Record(clone_field_list(fields));
            proof {
                lemma_record_model(*fields);
                match &r {
                    Type::Record(rf) => lemma_record_model(*rf),
                    _ => {},
                }
            }
            r
        },
        Type::Ref(inner) => Type::Ref(Box::new(clone_type(inner))),
        Type::RefMut { before, after } => Type::RefMut {
            before: Box::new(clone_type(before)),
            after: match after {
                Option::Some(a) => Option::Some(Box::new(clone_type(a))),
                Option::None => Option::None,
            },
        },
        Type::Refinement { var, t: base } => Type::Refinement {
            var: var.clone(),
            t: Box::new(clone_type(base)),
        },
        Type::And(l, r) => Type::And(Box::new(clone_type(l)), Box::new(clone_type(r))),
        Type::Or(l, r) => Type::Or(Box::new(clone_type(l)), Box::new(clone_type(r))),
        Type::Proj { lhs, rhs } => Type::Proj {
            lhs: Box::new(clone_type(lhs)),
            rhs: rhs.clone(),
        },
        Type::Subr(s) => Type::Subr(clone_subr(s)),
        Type::Quantified(inner) => Type::Quantified(Box::new(clone_type(inner))),
        Type::FreeVar(id) => Type::FreeVar(*id),
        Type::Type => Type::Type,
        Type::ClassType => Type::ClassType,
        Type::TraitType => Type::TraitType,
        Type::Uninited => Type::Uninited,
        Type::Failure => Type::Failure,
    }
}

impl Clone for Type {
    /// The copy is the same type.
    fn clone(&self) -> (r: Self)
        ensures
            r.model() == self.model(),
    {
        clone_type(self)
    }
}

impl Clone for ParamTy {
    /// The copy is the same parameter.
    fn clone(&self) -> (r: Self)
        ensures
            r.model() == self.model(),
    {
        clone_param(self)
    }
}

impl Clone for SubrType {
    /// The copy is the same subroutine type.
    fn clone(&self) -> (r: Self)
        ensures
            r.model() == self.model(),
    {
        clone_subr(self)
    }
}

/// A named nominal type.
pub fn mono(name: &str) -> (t: Type)
    ensures
        t.model() == (TypeModel::Mono { name: name@ }),
{
    Type::Mono(String::from_str(name))
}

/// A parametric nominal type.
pub fn poly(name: &str, params: Vec<Type>) -> (t: Type)
    ensures
        t.model() == (TypeModel::Poly { name: name@, params: models_of(params@) }),
{
    let t = Type::Poly { name: String::from_str(name), params };
    proof {
        match &t {
            Type::Poly { name: tn, params: tp } => lemma_poly_model(*tn, *tp),
            _ => {},
        }
    }
    t
}

/// A structural record type.
pub fn record(fields: Vec<(String, Type)>) -> (t: Type)
    ensures
        t.model() == (TypeModel::Record { fields: field_models_of(fields@) }),
{
    let t = Type::Record(fields);
    proof {
        match &t {
            Type::Record(tf) => lemma_record_model(*tf),
            _ => {},
        }
    }
    t
}

/// An anonymous (positional) parameter of the given type.
pub fn anon(t: Type) -> (p: ParamTy)
    ensures
        p.model() == (ParamModel {
            name: Option::None,
            t: Box::new(t.model()),
            default_t: Option::None,
        }),
{
    ParamTy { name: Option::None, t, default_t: Option::None }
}

/// A named parameter of the given type.
pub fn kw(name: &str, t: Type) -> (p: ParamTy)
    ensures
        p.model() == (ParamModel {
            name: Option::Some(name@),
            t: Box::new(t.model()),
            default_t: Option::None,
        }),
{
    ParamTy { name: Option::Some(String::from_str(name)), t, default_t: Option::None }
}

/// A named default parameter: its type and the type of its default value.
pub fn kw_default(name: &str, t: Type, default_t: Type) -> (p: ParamTy)
    ensures
        p.model() == (ParamModel {
            name: Option::Some(name@),
            t: Box::new(t.model()),
            default_t: Option::Some(Box::new(default_t.model())),
        }),
{
    ParamTy {
        name: Option::Some(String::from_str(name)),
        t,
        default_t: Option::Some(default_t),
    }
}

/// A subroutine type of the given kind.
pub fn subr_t(
    kind: SubrKind,
    non_default_params: Vec<ParamTy>,
    var_params: Option<ParamTy>,
    default_params: Vec<ParamTy>,
    return_t: Type,
) -> (t: Type)
    ensures
        t.model() == (TypeModel::Subr { subr: Box::new(SubrModel {
            kind,
            non_default_params: param_models_of(non_default_params@),
            var_params: match var_params {
                Option::Some(p) => Option::Some(Box::new(p.model())),
                Option::None => Option::None,
            },
            default_params: param_models_of(default_params@),
            return_t: Box::new(return_t.model()),
        }) }),
{
    let s = SubrType {
        kind,
        non_default_params,
        var_params: match var_params {
            Option::Some(p) => Option::Some(Box::new(p)),
            Option::None => Option::None,
        },
        default_params,
        return_t: Box::new(return_t),
    };
    proof {
        lemma_subr_model(s);
    }
    Type::Subr(s)
}

/// A pure function type.
pub fn func(
    non_default_params: Vec<ParamTy>,
    var_params: Option<ParamTy>,
    default_params: Vec<ParamTy>,
    return_t: Type,
) -> (t: Type)
    ensures
        t.model() == (TypeModel::Subr { subr: Box::new(SubrModel {
            kind: SubrKind::Func,
            non_default_params: param_models_of(non_default_params@),
            var_params: match var_params {
                Option::Some(p) => Option::Some(Box::new(p.model())),
                Option::None => Option::None,
            },
            default_params: param_models_of(default_params@),
            return_t: Box::new(return_t.model()),
        }) }),
{
    subr_t(SubrKind::Func, non_default_params, var_params, default_params, return_t)
}

/// A procedure type.
pub fn proc(
    non_default_params: Vec<ParamTy>,
    var_params: Option<ParamTy>,
    default_params: Vec<ParamTy>,
    return_t: Type,
) -> (t: Type)
    ensures
        t.model() == (TypeModel::Subr { subr: Box::new(SubrModel {
            kind: SubrKind::Proc,
            non_default_params: param_models_of(non_default_params@),
            var_params: match var_params {
                Option::Some(p) => Option::Some(Box::new(p.model())),
                Option::None => Option::None,
            },
            default_params: param_models_of(default_params@),
            return_t: Box::new(return_t.model()),
        }) }),
{
    subr_t(SubrKind::Proc, non_default_params, var_params, default_params, return_t)
}

/// The unqualified name of a named nominal type.
pub open spec fn local_name_spec(m: TypeModel) -> Option<Seq<char>> {
    match m {
        TypeModel::Mono { name } => Option::Some(name),
        TypeModel::Poly { name, .. } => Option::Some(name),
        _ => Option::None,
    }
}

/// The unqualified name of a named nominal type.
pub fn local_name(t: &Type) -> (r: Option<&String>)
    ensures
        match r {
            Option::Some(n) => local_name_spec(t.model()) == Option::Some(n@),
            Option::None => local_name_spec(t.model()) is None,
        },
{
    proof {
        lemma_model_variants(*t);
    }
    match t {
        Type::Mono(n) => Option::Some(n),
        Type::Poly { name, .. } => Option::Some(name),
        _ => Option::None,
    }
}

} // verus!
