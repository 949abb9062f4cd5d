//! Names: which names a pattern binds, and whether a name occurs free in an
//! expression.
//!
//! The free-variable predicate mirrors the grammar structurally; it serves
//! as a specification-level oracle for shadowing questions, while actual
//! capture avoidance comes from the evaluator's scope discipline.

use vstd::prelude::*;

use crate::ast::{
    exprs_view, lemma_exprs_view, lemma_patterns_view, patterns_view, RawExpr, RawPattern, RawType,
    SpecExpr, SpecPattern, SpecType,
};

verus! {

/// Relies on `<str as PartialEq>::eq`: two string slices are equal exactly
/// when their character sequences are.
pub assume_specification[ <str as PartialEq<str>>::eq ](x: &str, y: &str) -> (r: bool)
    ensures
        r == (x@ == y@),
;

/// Whether two string slices hold the same characters.
fn str_eq(a: &str, b: &str) -> (r: bool)
    ensures
        r == (a@ == b@),
{
    *a == *b
}

/// Whether the pattern binds the name `var`.
pub open spec fn pattern_binds(p: SpecPattern, var: Seq<char>) -> bool
    decreases p,
{
    match p {
        SpecPattern::Wildcard(_) => false,
        SpecPattern::Binding(id, _) => id == var,
        SpecPattern::Tuple(ps) => pattern_binds_any(ps, var),
    }
}

/// Whether some pattern of the sequence binds the name `var`.
pub open spec fn pattern_binds_any(ps: Seq<SpecPattern>, var: Seq<char>) -> bool
    decreases ps,
{
    if ps.len() == 0 {
        false
    } else {
        pattern_binds_any(ps.drop_last(), var) || pattern_binds(ps.last(), var)
    }
}

/// The pattern's bindings in left-to-right order: each bound name with its
/// declared type.
pub open spec fn pattern_bindings(p: SpecPattern) -> Seq<(Seq<char>, SpecType)>
    decreases p,
{
    match p {
        SpecPattern::Wildcard(_) => Seq::empty(),
        SpecPattern::Binding(id, t) => seq![(id, t)],
        SpecPattern::Tuple(ps) => bindings_cat(ps),
    }
}

/// The bindings of a sequence of patterns, concatenated in order.
pub open spec fn bindings_cat(ps: Seq<SpecPattern>) -> Seq<(Seq<char>, SpecType)>
    decreases ps,
{
    if ps.len() == 0 {
        Seq::empty()
    } else {
        bindings_cat(ps.drop_last()) + pattern_bindings(ps.last())
    }
}

/// A pattern binds a name exactly when the name appears among its bindings.
pub proof fn lemma_pattern_binds_bindings(p: SpecPattern, var: Seq<char>)
    ensures
        pattern_binds(p, var) <==> exists|j: int|
            0 <= j < pattern_bindings(p).len() && (#[trigger] pattern_bindings(p)[j]).0 == var,
    decreases p,
{
    match p {
        SpecPattern::Wildcard(_) => {},
        SpecPattern::Binding(id, t) => {
            assert(pattern_bindings(p) =~= seq![(id, t)]);
            assert(pattern_bindings(p)[0] == (id, t));
            if id == var {
                assert(pattern_bindings(p)[0].0 == var);
            }
        },
        SpecPattern::Tuple(ps) => {
            lemma_bindings_cat(ps, var);
            assert(pattern_bindings(p) == bindings_cat(ps));
            if exists|j: int| 0 <= j < bindings_cat(ps).len() && (#[trigger] bindings_cat(
                ps,
            )[j]).0 == var {
                let j = choose|j: int|
                    0 <= j < bindings_cat(ps).len() && (#[trigger] bindings_cat(ps)[j]).0 == var;
                assert(pattern_bindings(p)[j].0 == var);
            }
            if exists|j: int| 0 <= j < pattern_bindings(p).len() && (#[trigger] pattern_bindings(
                p,
            )[j]).0 == var {
                let j = choose|j: int|
                    0 <= j < pattern_bindings(p).len() && (#[trigger] pattern_bindings(p)[j]).0
                        == var;
                assert(bindings_cat(ps)[j].0 == var);
            }
        },
    }
}

/// Some pattern of a sequence binds a name exactly when the name appears in
/// the concatenation of their bindings.
pub proof fn lemma_bindings_cat(ps: Seq<SpecPattern>, var: Seq<char>)
    ensures
        pattern_binds_any(ps, var) <==> (exists|j: int|
            0 <= j < bindings_cat(ps).len() && (#[trigger] bindings_cat(ps)[j]).0 == var),
    decreases ps,
{
    if ps.len() > 0 {
        lemma_bindings_cat(ps.drop_last(), var);
        lemma_pattern_binds_bindings(ps.last(), var);
        let left = bindings_cat(ps.drop_last());
        let right = pattern_bindings(ps.last());
        if pattern_binds_any(ps.drop_last(), var) {
            let j = choose|j: int| 0 <= j < left.len() && (#[trigger] left[j]).0 == var;
            assert((bindings_cat(ps)[j]).0 == var);
        } else if pattern_binds(ps.last(), var) {
            let j = choose|j: int| 0 <= j < right.len() && (#[trigger] right[j]).0 == var;
            assert((bindings_cat(ps)[left.len() + j]).0 == var);
        }
        if exists|j: int| 0 <= j < bindings_cat(ps).len() && (#[trigger] bindings_cat(ps)[j]).0
            == var {
            let j = choose|j: int|
                0 <= j < bindings_cat(ps).len() && (#[trigger] bindings_cat(ps)[j]).0 == var;
            if j < left.len() {
                assert((left[j]).0 == var);
            } else {
                assert((right[j - left.len()]).0 == var);
            }
        }
    }
}


/// If one pattern of a sequence binds a name, the sequence binds it.
pub proof fn lemma_pattern_binds_any_elem(ps: Seq<SpecPattern>, i: int, var: Seq<char>)
    requires
        0 <= i < ps.len(),
        pattern_binds(ps[i], var),
    ensures
        pattern_binds_any(ps, var),
    decreases ps,
{
    if i < ps.len() - 1 {
        assert(ps.drop_last()[i] == ps[i]);
        lemma_pattern_binds_any_elem(ps.drop_last(), i, var);
    } else {
        assert(ps.last() == ps[i]);
    }
}

/// A type map extended with a list of bindings, in order: each bound name
/// maps to its declared type, a later binding of a name overriding an
/// earlier one.
pub open spec fn typs_extended(
    m: Map<Seq<char>, SpecType>,
    bs: Seq<(Seq<char>, SpecType)>,
) -> Map<Seq<char>, SpecType>
    decreases bs,
{
    if bs.len() == 0 {
        m
    } else {
        typs_extended(m, bs.drop_last()).insert(bs.last().0, bs.last().1)
    }
}

/// Extending by a concatenation extends by the two parts in order.
pub proof fn lemma_typs_extended_app(
    m: Map<Seq<char>, SpecType>,
    a: Seq<(Seq<char>, SpecType)>,
    b: Seq<(Seq<char>, SpecType)>,
)
    ensures
        typs_extended(m, a + b) == typs_extended(typs_extended(m, a), b),
    decreases b,
{
    if b.len() == 0 {
        assert(a + b =~= a);
    } else {
        assert((a + b).drop_last() =~= a + b.drop_last());
        assert((a + b).last() == b.last());
        lemma_typs_extended_app(m, a, b.drop_last());
    }
}

/// The `j`th binding of the pattern is one on which `pred` may return `b`.
pub open spec fn binding_satisfies<F: Fn(&String, &RawType) -> bool>(
    p: SpecPattern,
    pred: F,
    j: int,
    b: bool,
) -> bool {
    exists|v: &String, t: &RawType|
        #![trigger call_ensures(pred, (v, t), b)]
        pattern_bindings(p)[j] == (v@, t@) && call_ensures(pred, (v, t), b)
}

impl RawPattern {
    /// The pattern's bindings in order: each bound name paired with a copy
    /// of its declared type.
    #[verifier::loop_isolation(false)]
    pub fn bindings(&self) -> (r: Vec<(String, RawType)>)
        ensures
            r@.len() == pattern_bindings(self@).len(),
            forall|j: int|
                0 <= j < r@.len() ==> (#[trigger] r@[j].0@, r@[j].1@) == pattern_bindings(self@)[j],
        decreases *self,
    {
        match self {
            RawPattern::Wildcard(_) => Vec::new(),
            RawPattern::Binding(id, t) => {
                let mut out: Vec<(String, RawType)> = Vec::new();
                out.push((id.clone(), t.deep_copy()));
                out
            },
            RawPattern::Tuple(ps) => {
                proof {
                    lemma_patterns_view(ps@);
                }
                let ghost psv = patterns_view(ps@);
                let mut out: Vec<(String, RawType)> = Vec::new();
                let mut i: usize = 0;
                while i < ps.len()
                    invariant
                        i <= ps.len(),
                        out@.len() == bindings_cat(psv.take(i as int)).len(),
                        forall|j: int|
                            0 <= j < out@.len() ==> (#[trigger] out@[j].0@, out@[j].1@)
                                == bindings_cat(psv.take(i as int))[j],
                    decreases ps.len() - i,
                {
                    let mut child = ps[i].bindings();
                    proof {
                        assert(psv.take(i as int + 1) =~= psv.take(i as int) + seq![psv[i as int]]);
                        assert((psv.take(i as int) + seq![psv[i as int]]).drop_last() =~= psv.take(
                            i as int,
                        ));
                        assert((psv.take(i as int) + seq![psv[i as int]]).last() == psv[i as int]);
                    }
                    out.append(&mut child);
                    i = i + 1;
                }
                proof {
                    assert(psv.take(ps@.len() as int) =~= psv);
                }
                out
            },
        }
    }

    /// Whether `self` binds the variable `var`.
    pub fn contains_var(&self, var: &str) -> (res: bool)
        ensures
            res == pattern_binds(self@, var@),
    {
        let pred = |v: &String, _t: &RawType| -> (b: bool)
            ensures
                b == (v@ == var@),
            { str_eq(v.as_str(), var) };
        let res = self.any(pred);
        proof {
            lemma_pattern_binds_bindings(self@, var@);
            if res {
                let j = choose|j: int|
                    0 <= j < pattern_bindings(self@).len() && #[trigger] binding_satisfies(
                        self@,
                        pred,
                        j,
                        true,
                    );
                let (v, t) = choose|v: &String, t: &RawType|
                    #![trigger call_ensures(pred, (v, t), true)]
                    pattern_bindings(self@)[j] == (v@, t@) && call_ensures(pred, (v, t), true);
                assert(pattern_bindings(self@)[j].0 == var@);
            } else {
                assert forall|j: int|
                    0 <= j < pattern_bindings(self@).len() implies (#[trigger] pattern_bindings(
                    self@,
                )[j]).0 != var@ by {
                    assert(binding_satisfies(self@, pred, j, false));
                    let (v, t) = choose|v: &String, t: &RawType|
                        #![trigger call_ensures(pred, (v, t), false)]
                        pattern_bindings(self@)[j] == (v@, t@) && call_ensures(
                            pred,
                            (v, t),
                            false,
                        );
                }
            }
        }
        res
    }

    /// Returns `true` iff every binding in `self` satisfies `pred`.
    #[verifier::loop_isolation(false)]
    pub fn all<F: Fn(&String, &RawType) -> bool>(&self, pred: F) -> (res: bool)
        requires
            forall|v: &String, t: &RawType| #[trigger] call_requires(pred, (v, t)),
        ensures
            res ==> forall|j: int|
                0 <= j < pattern_bindings(self@).len() ==> #[trigger] binding_satisfies(
                    self@,
                    pred,
                    j,
                    true,
                ),
            !res ==> exists|j: int|
                0 <= j < pattern_bindings(self@).len() && #[trigger] binding_satisfies(
                    self@,
                    pred,
                    j,
                    false,
                ),
    {
        let bs = self.bindings();
        let mut i: usize = 0;
        while i < bs.len()
            invariant
                i <= bs.len(),
                forall|j: int| 0 <= j < i ==> #[trigger] binding_satisfies(self@, pred, j, true),
            decreases bs.len() - i,
        {
            let v_ref = &bs[i].0;
            let t_ref = &bs[i].1;
            let b = pred(v_ref, t_ref);
            proof {
                assert(pattern_bindings(self@)[i as int] == (v_ref@, t_ref@) && call_ensures(
                    pred,
                    (v_ref, t_ref),
                    b,
                ));
                assert(binding_satisfies(self@, pred, i as int, b));
            }
            if !b {
                return false;
            }
            i = i + 1;
        }
        true
    }

    /// Returns `true` iff some binding in `self` satisfies `pred`.
    #[verifier::loop_isolation(false)]
    pub fn any<F: Fn(&String, &RawType) -> bool>(&self, pred: F) -> (res: bool)
        requires
            forall|v: &String, t: &RawType| #[trigger] call_requires(pred, (v, t)),
        ensures
            res ==> exists|j: int|
                0 <= j < pattern_bindings(self@).len() && #[trigger] binding_satisfies(
                    self@,
                    pred,
                    j,
                    true,
                ),
            !res ==> forall|j: int|
                0 <= j < pattern_bindings(self@).len() ==> #[trigger] binding_satisfies(
                    self@,
                    pred,
                    j,
                    false,
                ),
    {
        let bs = self.bindings();
        let mut i: usize = 0;
        while i < bs.len()
            invariant
                i <= bs.len(),
                forall|j: int| 0 <= j < i ==> #[trigger] binding_satisfies(self@, pred, j, false),
            decreases bs.len() - i,
        {
            let v_ref = &bs[i].0;
            let t_ref = &bs[i].1;
            let b = pred(v_ref, t_ref);
            proof {
                assert(pattern_bindings(self@)[i as int] == (v_ref@, t_ref@) && call_ensures(
                    pred,
                    (v_ref, t_ref),
                    b,
                ));
                assert(binding_satisfies(self@, pred, i as int, b));
            }
            if b {
                return true;
            }
            i = i + 1;
        }
        false
    }
}

/// Whether `var` occurs free in the model expression: a reference to it that
/// no enclosing binder captures.
pub open spec fn occurs_free(var: Seq<char>, e: SpecExpr) -> bool
    decreases e,
{
    match e {
        SpecExpr::Con { .. } => false,
        SpecExpr::Var { id } => id == var,
        SpecExpr::Let { pat, exp, body } => occurs_free(var, *exp) || (!pattern_binds(pat, var)
            && occurs_free(var, *body)),
        SpecExpr::EApp { exp, arg } => occurs_free(var, *exp) || occurs_free(var, *arg),
        SpecExpr::TApp { exp, .. } => occurs_free(var, *exp),
        SpecExpr::Tuple { entries } => occurs_free_any(var, entries),
        SpecExpr::Binop { lhs, op, rhs } => occurs_free(var, *lhs) || occurs_free(var, *rhs),
        SpecExpr::Lambda { arg, typ, body } => arg != var && occurs_free(var, *body),
        SpecExpr::Any { arg, body } => occurs_free(var, *body),
        SpecExpr::If { cond, branch_t, branch_f } => occurs_free(var, *cond) || occurs_free(
            var,
            *branch_t,
        ) || occurs_free(var, *branch_f),
    }
}

/// Whether `var` occurs free in some expression of the sequence.
pub open spec fn occurs_free_any(var: Seq<char>, es: Seq<SpecExpr>) -> bool
    decreases es,
{
    if es.len() == 0 {
        false
    } else {
        occurs_free_any(var, es.drop_last()) || occurs_free(var, es.last())
    }
}

/// If `var` occurs free in some element, it occurs free in the sequence.
proof fn lemma_occurs_free_any_elem(var: Seq<char>, es: Seq<SpecExpr>, i: int)
    requires
        0 <= i < es.len(),
        occurs_free(var, es[i]),
    ensures
        occurs_free_any(var, es),
    decreases es,
{
    if i < es.len() - 1 {
        assert(es.drop_last()[i] == es[i]);
        lemma_occurs_free_any_elem(var, es.drop_last(), i);
    } else {
        assert(es.last() == es[i]);
    }
}

/// Returns `true` iff `var` is a free variable somewhere in `expression`.
#[verifier::loop_isolation(false)]
pub fn fv(var: &str, expression: &RawExpr) -> (res: bool)
    ensures
        res == occurs_free(var@, expression@),
    decreases *expression,
{
    match expression {
        RawExpr::Con { .. } => false,
        RawExpr::Var { id } => str_eq(id.as_str(), var),
        RawExpr::Let { pat, exp, body } => fv(var, exp) || (!pat.contains_var(var) && fv(
            var,
            body,
        )),
        RawExpr::EApp { exp, arg } => fv(var, exp) || fv(var, arg),
        RawExpr::TApp { exp, .. } => fv(var, exp),
        RawExpr::Tuple { entries } => {
            proof {
                lemma_exprs_view(entries@);
            }
            let ghost es = exprs_view(entries@);
            let mut i: usize = 0;
            while i < entries.len()
                invariant
                    i <= entries.len(),
                    !occurs_free_any(var@, es.take(i as int)),
                decreases entries.len() - i,
            {
                if fv(var, &entries[i]) {
                    proof {
                        lemma_occurs_free_any_elem(var@, es, i as int);
                    }
                    return true;
                }
                proof {
                    assert(es.take(i as int + 1).drop_last() =~= es.take(i as int));
                    assert(es.take(i as int + 1).last() == es[i as int]);
                }
                i = i + 1;
            }
            proof {
                assert(es.take(entries@.len() as int) =~= es);
            }
            false
        },
        RawExpr::Binop { lhs, op: _, rhs } => fv(var, lhs) || fv(var, rhs),
        RawExpr::Lambda { arg, typ: _, body } => !str_eq(arg.as_str(), var) && fv(var, body),
        RawExpr::Any { arg: _, body } => fv(var, body),
        RawExpr::If { cond, branch_t, branch_f } => fv(var, cond) || fv(var, branch_t) || fv(
            var,
            branch_f,
        ),
    }
}

} // verus!
