//! Abstract syntax of the calculus: constants, binary operator tags, types,
//! patterns and expressions, together with their mathematical models
//! (`SpecType`, `SpecPattern`, `SpecExpr`) and deep copies.

use vstd::prelude::*;

verus! {

/// A literal constant: a signed integer or a boolean.
#[derive(Clone, Copy, Debug, PartialEq, Eq, Structural)]
pub enum Constant {
    Integer(i64),
    Boolean(bool),
}

/// A binary operator tag. `Add`..`Ne` take integer operands; `And` and `Or`
/// take boolean operands.
#[derive(Clone, Copy, Debug, PartialEq, Eq, Structural)]
pub enum Binary {
    Add,
    Sub,
    Mul,
    Eq,
    Lt,
    Gt,
    Ne,
    And,
    Or,
}

/// A type of the calculus. The evaluator never computes with types; it only
/// records them in the store, so they are carried around structurally.
#[derive(Debug, PartialEq, Eq)]
pub enum RawType {
    Int,
    Bool,
    /// A type variable.
    Var(String),
    /// A product (tuple) type.
    Prod(Vec<RawType>),
    /// A function type.
    Arrow(Box<RawType>, Box<RawType>),
    /// A universally quantified type: the type of a type abstraction.
    Poly(String, Box<RawType>),
}

/// The mathematical model of a `RawType`.
pub ghost enum SpecType {
    Int,
    Bool,
    Var(Seq<char>),
    Prod(Seq<SpecType>),
    Arrow(Box<SpecType>, Box<SpecType>),
    Poly(Seq<char>, Box<SpecType>),
}

/// A let-binding pattern: a wildcard, a single binding, or a tuple of
/// sub-patterns, each annotated with its declared type.
#[derive(Debug, PartialEq, Eq)]
pub enum RawPattern {
    Wildcard(RawType),
    Binding(String, RawType),
    Tuple(Vec<RawPattern>),
}

/// The mathematical model of a `RawPattern`.
pub ghost enum SpecPattern {
    Wildcard(SpecType),
    Binding(Seq<char>, SpecType),
    Tuple(Seq<SpecPattern>),
}

/// An expression of the calculus. Evaluation returns expressions in
/// weak-head normal form: constants, tuples of values, unapplied lambda and
/// type-abstraction forms, or stuck binary operations over open subterms.
#[derive(Debug, PartialEq, Eq)]
pub enum RawExpr {
    /// A constant literal.
    Con { val: Constant },
    /// A variable reference.
    Var { id: String },
    /// `let pat = exp in body`.
    Let { pat: RawPattern, exp: Box<RawExpr>, body: Box<RawExpr> },
    /// Term application `exp arg`.
    EApp { exp: Box<RawExpr>, arg: Box<RawExpr> },
    /// Type application `exp [arg]`.
    TApp { exp: Box<RawExpr>, arg: RawType },
    /// An ordered tuple of expressions.
    Tuple { entries: Vec<RawExpr> },
    /// A binary operation.
    Binop { lhs: Box<RawExpr>, op: Binary, rhs: Box<RawExpr> },
    /// A lambda abstraction with an annotated parameter.
    Lambda { arg: String, typ: RawType, body: Box<RawExpr> },
    /// A universal type abstraction over the type variable `arg`.
    Any { arg: String, body: Box<RawExpr> },
    /// A conditional.
    If { cond: Box<RawExpr>, branch_t: Box<RawExpr>, branch_f: Box<RawExpr> },
}

/// The mathematical model of a `RawExpr`.
pub ghost enum SpecExpr {
    Con { val: Constant },
    Var { id: Seq<char> },
    Let { pat: SpecPattern, exp: Box<SpecExpr>, body: Box<SpecExpr> },
    EApp { exp: Box<SpecExpr>, arg: Box<SpecExpr> },
    TApp { exp: Box<SpecExpr>, arg: SpecType },
    Tuple { entries: Seq<SpecExpr> },
    Binop { lhs: Box<SpecExpr>, op: Binary, rhs: Box<SpecExpr> },
    Lambda { arg: Seq<char>, typ: SpecType, body: Box<SpecExpr> },
    Any { arg: Seq<char>, body: Box<SpecExpr> },
    If { cond: Box<SpecExpr>, branch_t: Box<SpecExpr>, branch_f: Box<SpecExpr> },
}

pub open spec fn type_view(t: RawType) -> SpecType
    decreases t,
{
    match t {
        RawType::Int => SpecType::Int,
        RawType::Bool => SpecType::Bool,
        RawType::Var(id) => SpecType::Var(id@),
        RawType::Prod(ts) => SpecType::Prod(types_view(ts@)),
        RawType::Arrow(a, b) => SpecType::Arrow(Box::new(type_view(*a)), Box::new(type_view(*b))),
        RawType::Poly(v, b) => SpecType::Poly(v@, Box::new(type_view(*b))),
    }
}

pub open spec fn types_view(ts: Seq<RawType>) -> Seq<SpecType>
    decreases ts,
{
    if ts.len() == 0 {
        Seq::empty()
    } else {
        types_view(ts.drop_last()).push(type_view(ts.last()))
    }
}

impl View for RawType {
    type V = SpecType;

    open spec fn view(&self) -> SpecType {
        type_view(*self)
    }
}

pub open spec fn pattern_view(p: RawPattern) -> SpecPattern
    decreases p,
{
    match p {
        RawPattern::Wildcard(t) => SpecPattern::Wildcard(type_view(t)),
        RawPattern::Binding(id, t) => SpecPattern::Binding(id@, type_view(t)),
        RawPattern::Tuple(ps) => SpecPattern::Tuple(patterns_view(ps@)),
    }
}

pub open spec fn patterns_view(ps: Seq<RawPattern>) -> Seq<SpecPattern>
    decreases ps,
{
    if ps.len() == 0 {
        Seq::empty()
    } else {
        patterns_view(ps.drop_last()).push(pattern_view(ps.last()))
    }
}

impl View for RawPattern {
    type V = SpecPattern;

    open spec fn view(&self) -> SpecPattern {
        pattern_view(*self)
    }
}

pub open spec fn expr_view(e: RawExpr) -> SpecExpr
    decreases e,
{
    match e {
        RawExpr::Con { val } => SpecExpr::Con { val },
        RawExpr::Var { id } => SpecExpr::Var { id: id@ },
        RawExpr::Let { pat, exp, body } => SpecExpr::Let {
            pat: pattern_view(pat),
            exp: Box::new(expr_view(*exp)),
            body: Box::new(expr_view(*body)),
        },
        RawExpr::EApp { exp, arg } => SpecExpr::EApp {
            exp: Box::new(expr_view(*exp)),
            arg: Box::new(expr_view(*arg)),
        },
        RawExpr::TApp { exp, arg } => SpecExpr::TApp {
            exp: Box::new(expr_view(*exp)),
            arg: type_view(arg),
        },
        RawExpr::Tuple { entries } => SpecExpr::Tuple { entries: exprs_view(entries@) },
        RawExpr::Binop { lhs, op, rhs } => SpecExpr::Binop {
            lhs: Box::new(expr_view(*lhs)),
            op,
            rhs: Box::new(expr_view(*rhs)),
        },
        RawExpr::Lambda { arg, typ, body } => SpecExpr::Lambda {
            arg: arg@,
            typ: type_view(typ),
            body: Box::new(expr_view(*body)),
        },
        RawExpr::Any { arg, body } => SpecExpr::Any { arg: arg@, body: Box::new(expr_view(*body)) },
        RawExpr::If { cond, branch_t, branch_f } => SpecExpr::If {
            cond: Box::new(expr_view(*cond)),
            branch_t: Box::new(expr_view(*branch_t)),
            branch_f: Box::new(expr_view(*branch_f)),
        },
    }
}

pub open spec fn exprs_view(es: Seq<RawExpr>) -> Seq<SpecExpr>
    decreases es,
{
    if es.len() == 0 {
        Seq::empty()
    } else {
        exprs_view(es.drop_last()).push(expr_view(es.last()))
    }
}

impl View for RawExpr {
    type V = SpecExpr;

    open spec fn view(&self) -> SpecExpr {
        expr_view(*self)
    }
}

/// The view of a sequence of types is its elementwise view.
pub broadcast proof fn lemma_types_view(ts: Seq<RawType>)
    ensures
        #[trigger] types_view(ts).len() == ts.len(),
        forall|i: int| 0 <= i < ts.len() ==> types_view(ts)[i] == type_view(ts[i]),
    decreases ts.len(),
{
    if ts.len() > 0 {
        lemma_types_view(ts.drop_last());
    }
}

/// The view of a sequence of patterns is its elementwise view.
pub broadcast proof fn lemma_patterns_view(ps: Seq<RawPattern>)
    ensures
        #[trigger] patterns_view(ps).len() == ps.len(),
        forall|i: int| 0 <= i < ps.len() ==> patterns_view(ps)[i] == pattern_view(ps[i]),
    decreases ps.len(),
{
    if ps.len() > 0 {
        lemma_patterns_view(ps.drop_last());
    }
}

/// The view of a sequence of expressions is its elementwise view.
pub broadcast proof fn lemma_exprs_view(es: Seq<RawExpr>)
    ensures
        #[trigger] exprs_view(es).len() == es.len(),
        forall|i: int| 0 <= i < es.len() ==> exprs_view(es)[i] == expr_view(es[i]),
    decreases es.len(),
{
    if es.len() > 0 {
        lemma_exprs_view(es.drop_last());
    }
}

impl RawType {
    /// A structural copy: the copy has the same model as the original.
    #[verifier::loop_isolation(false)]
    pub fn deep_copy(&self) -> (r: RawType)
        ensures
            r@ == self@,
        decreases *self,
    {
        match self {
            RawType::Int => RawType::Int,
            RawType::Bool => RawType::Bool,
            RawType::Var(id) => RawType::Var(id.clone()),
            RawType::Prod(ts) => {
                let mut copies: Vec<RawType> = Vec::new();
                let mut i: usize = 0;
                while i < ts.len()
                    invariant
                        i <= ts.len(),
                        copies@.len() == i as int,
                        forall|j: int| 0 <= j < i ==> copies@[j]@ == ts@[j]@,
                    decreases ts.len() - i,
                {
                    copies.push(ts[i].deep_copy());
                    i = i + 1;
                }
                proof {
                    lemma_types_view(ts@);
                    lemma_types_view(copies@);
                    assert(types_view(copies@) =~= types_view(ts@));
                }
                RawType::Prod(copies)
            },
            RawType::Arrow(a, b) => RawType::Arrow(
                Box::new(a.deep_copy()),
                Box::new(b.deep_copy()),
            ),
            RawType::Poly(v, b) => RawType::Poly(v.clone(), Box::new(b.deep_copy())),
        }
    }
}

impl RawPattern {
    /// A structural copy: the copy has the same model as the original.
    #[verifier::loop_isolation(false)]
    pub fn deep_copy(&self) -> (r: RawPattern)
        ensures
            r@ == self@,
        decreases *self,
    {
        match self {
            RawPattern::Wildcard(t) => RawPattern::Wildcard(t.deep_copy()),
            RawPattern::Binding(id, t) => RawPattern::Binding(id.clone(), t.deep_copy()),
            RawPattern::Tuple(ps) => {
                let mut copies: Vec<RawPattern> = Vec::new();
                let mut i: usize = 0;
                while i < ps.len()
                    invariant
                        i <= ps.len(),
                        copies@.len() == i as int,
                        forall|j: int| 0 <= j < i ==> copies@[j]@ == ps@[j]@,
                    decreases ps.len() - i,
                {
                    copies.push(ps[i].deep_copy());
                    i = i + 1;
                }
                proof {
                    lemma_patterns_view(ps@);
                    lemma_patterns_view(copies@);
                    assert(patterns_view(copies@) =~= patterns_view(ps@));
                }
                RawPattern::Tuple(copies)
            },
        }
    }
}

impl RawExpr {
    /// A structural copy: the copy has the same model as the original.
    #[verifier::loop_isolation(false)]
    pub fn deep_copy(&self) -> (r: RawExpr)
        ensures
            r@ == self@,
        decreases *self,
    {
        match self {
            RawExpr::Con { val } => RawExpr::Con { val: *val },
            RawExpr::Var { id } => RawExpr::Var { id: id.clone() },
            RawExpr::Let { pat, exp, body } => RawExpr::Let {
                pat: pat.deep_copy(),
                exp: Box::new(exp.deep_copy()),
                body: Box::new(body.deep_copy()),
            },
            RawExpr::EApp { exp, arg } => RawExpr::EApp {
                exp: Box::new(exp.deep_copy()),
                arg: Box::new(arg.deep_copy()),
            },
            RawExpr::TApp { exp, arg } => RawExpr::TApp {
                exp: Box::new(exp.deep_copy()),
                arg: arg.deep_copy(),
            },
            RawExpr::Tuple { entries } => {
                let mut copies: Vec<RawExpr> = Vec::new();
                let mut i: usize = 0;
                while i < entries.len()
                    invariant
                        i <= entries.len(),
                        copies@.len() == i as int,
                        forall|j: int| 0 <= j < i ==> copies@[j]@ == entries@[j]@,
                    decreases entries.len() - i,
                {
                    copies.push(entries[i].deep_copy());
                    i = i + 1;
                }
                proof {
                    lemma_exprs_view(entries@);
                    lemma_exprs_view(copies@);
                    assert(exprs_view(copies@) =~= exprs_view(entries@));
                }
                RawExpr::Tuple { entries: copies }
            },
            RawExpr::Binop { lhs, op, rhs } => RawExpr::Binop {
                lhs: Box::new(lhs.deep_copy()),
                op: *op,
                rhs: Box::new(rhs.deep_copy()),
            },
            RawExpr::Lambda { arg, typ, body } => RawExpr::Lambda {
                arg: arg.clone(),
                typ: typ.deep_copy(),
                body: Box::new(body.deep_copy()),
            },
            RawExpr::Any { arg, body } => RawExpr::Any {
                arg: arg.clone(),
                body: Box::new(body.deep_copy()),
            },
            RawExpr::If { cond, branch_t, branch_f } => RawExpr::If {
                cond: Box::new(cond.deep_copy()),
                branch_t: Box::new(branch_t.deep_copy()),
                branch_f: Box::new(branch_f.deep_copy()),
            },
        }
    }
}


/// A top-level declaration: `id` is bound to the value of `body`, whose
/// declared type is `sig`.
#[derive(Debug, PartialEq, Eq)]
pub struct Decl {
    pub id: String,
    pub sig: RawType,
    pub body: RawExpr,
}

/// The mathematical model of a `Decl`.
pub ghost struct SpecDecl {
    pub id: Seq<char>,
    pub sig: SpecType,
    pub body: SpecExpr,
}

impl View for Decl {
    type V = SpecDecl;

    open spec fn view(&self) -> SpecDecl {
        SpecDecl { id: self.id@, sig: self.sig@, body: self.body@ }
    }
}

/// A program: declarations keyed by name, and the order to evaluate them in.
/// A name listed twice in `declarations` refers to its latest entry.
#[derive(Debug, PartialEq, Eq)]
pub struct Prog {
    pub declarations: Vec<(String, Decl)>,
    pub order: Vec<String>,
}

/// The mathematical model of a `Prog`.
pub ghost struct SpecProg {
    pub declarations: Map<Seq<char>, SpecDecl>,
    pub order: Seq<Seq<char>>,
}

/// The map described by a list of named declarations; a later entry for a
/// name overrides an earlier one.
pub open spec fn decl_entries_map(s: Seq<(String, Decl)>) -> Map<Seq<char>, SpecDecl>
    decreases s,
{
    if s.len() == 0 {
        Map::empty()
    } else {
        decl_entries_map(s.drop_last()).insert(s.last().0@, s.last().1@)
    }
}

/// The views of a sequence of names.
pub open spec fn names_view(s: Seq<String>) -> Seq<Seq<char>>
    decreases s,
{
    if s.len() == 0 {
        Seq::empty()
    } else {
        names_view(s.drop_last()).push(s.last()@)
    }
}

/// The view of a sequence of names is its elementwise view.
pub broadcast proof fn lemma_names_view(s: Seq<String>)
    ensures
        #[trigger] names_view(s).len() == s.len(),
        forall|i: int| 0 <= i < s.len() ==> names_view(s)[i] == s[i]@,
    decreases s.len(),
{
    if s.len() > 0 {
        lemma_names_view(s.drop_last());
    }
}

impl View for Prog {
    type V = SpecProg;

    open spec fn view(&self) -> SpecProg {
        SpecProg {
            declarations: decl_entries_map(self.declarations@),
            order: names_view(self.order@),
        }
    }
}

impl Prog {
    /// The declaration `id` names, if any; a later entry wins.
    pub fn find_decl(&self, id: &String) -> (r: Option<&Decl>)
        ensures
            match r {
                Some(d) => self@.declarations.contains_key(id@) && d@ == self@.declarations[id@],
                None => !self@.declarations.contains_key(id@),
            },
    {
        let n = self.declarations.len();
        proof {
            assert(self.declarations@.take(n as int) =~= self.declarations@);
        }
        find_decl_prefix(&self.declarations, id, n)
    }
}

/// The declaration `id` names among the first `n` entries, latest first.
fn find_decl_prefix<'a>(entries: &'a Vec<(String, Decl)>, id: &String, n: usize) -> (r: Option<
    &'a Decl,
>)
    requires
        n <= entries.len(),
    ensures
        match r {
            Some(d) => decl_entries_map(entries@.take(n as int)).contains_key(id@) && d@
                == decl_entries_map(entries@.take(n as int))[id@],
            None => !decl_entries_map(entries@.take(n as int)).contains_key(id@),
        },
    decreases n,
{
    if n == 0 {
        None
    } else {
        proof {
            assert(entries@.take(n as int).drop_last() =~= entries@.take(n as int - 1));
            assert(entries@.take(n as int).last() == entries@[n as int - 1]);
        }
        let entry = &entries[n - 1];
        if entry.0 == *id {
            Some(&entry.1)
        } else {
            find_decl_prefix(entries, id, n - 1)
        }
    }
}

} // verus!

