//! Big-step, call-by-value evaluation.
//!
//! The meaning of evaluation is fixed by the purely functional reference
//! semantics `eval_spec`, stated over the flat environment of visible
//! bindings. The executable evaluator `eval` works on the layered `Snapshot`
//! scope stack, entering a fresh frame around every binder and discarding it
//! afterwards, and is proved to agree with `eval_spec` and to leave the
//! visible store exactly as it found it.
//!
//! Evaluation recurses as deep as the program does, so every evaluation
//! function takes an explicit recursion budget (`fuel`); a budget of one is
//! consumed per recursive step, and running out is reported as
//! `EvalError::OutOfFuel`.

use vstd::prelude::*;

use crate::ast::{
    exprs_view, lemma_exprs_view, lemma_names_view, lemma_patterns_view, names_view, patterns_view,
    Binary, Constant, Decl, Prog, RawExpr, RawPattern, SpecDecl, SpecExpr, SpecPattern, SpecType,
};
use crate::error::EvalError;
use crate::names::{
    bindings_cat, lemma_pattern_binds_any_elem, lemma_typs_extended_app, pattern_binds,
    pattern_bindings, typs_extended,
};
use crate::store::{Snapshot, StoreView};

verus! {

/// The integer constant a model expression stands for, if any.
pub open spec fn as_int(e: SpecExpr) -> Option<i64> {
    match e {
        SpecExpr::Con { val: Constant::Integer(i) } => Some(i),
        _ => None,
    }
}

/// The boolean constant a model expression stands for, if any.
pub open spec fn as_bool(e: SpecExpr) -> Option<bool> {
    match e {
        SpecExpr::Con { val: Constant::Boolean(b) } => Some(b),
        _ => None,
    }
}

/// A stuck binary operation: both operands are reduced, but at least one is
/// not a constant of the operator's family, so the node cannot progress.
pub open spec fn stuck_binop(l: SpecExpr, op: Binary, r: SpecExpr) -> SpecExpr {
    SpecExpr::Binop { lhs: Box::new(l), op, rhs: Box::new(r) }
}

/// What a binary operator yields on two reduced operands. `Add`..`Ne` need
/// two integer constants and `And`/`Or` two boolean constants; on anything
/// else the node is returned stuck. Arithmetic wraps around on overflow.
pub open spec fn apply_binop(op: Binary, l: SpecExpr, r: SpecExpr) -> SpecExpr {
    match op {
        Binary::Add => match (as_int(l), as_int(r)) {
            (Some(a), Some(b)) => SpecExpr::Con { val: Constant::Integer(a.wrapping_add(b)) },
            _ => stuck_binop(l, op, r),
        },
        Binary::Sub => match (as_int(l), as_int(r)) {
            (Some(a), Some(b)) => SpecExpr::Con { val: Constant::Integer(a.wrapping_sub(b)) },
            _ => stuck_binop(l, op, r),
        },
        Binary::Mul => match (as_int(l), as_int(r)) {
            (Some(a), Some(b)) => SpecExpr::Con { val: Constant::Integer(a.wrapping_mul(b)) },
            _ => stuck_binop(l, op, r),
        },
        Binary::Eq => match (as_int(l), as_int(r)) {
            (Some(a), Some(b)) => SpecExpr::Con { val: Constant::Boolean(a == b) },
            _ => stuck_binop(l, op, r),
        },
        Binary::Lt => match (as_int(l), as_int(r)) {
            (Some(a), Some(b)) => SpecExpr::Con { val: Constant::Boolean(a < b) },
            _ => stuck_binop(l, op, r),
        },
        Binary::Gt => match (as_int(l), as_int(r)) {
            (Some(a), Some(b)) => SpecExpr::Con { val: Constant::Boolean(a > b) },
            _ => stuck_binop(l, op, r),
        },
        Binary::Ne => match (as_int(l), as_int(r)) {
            (Some(a), Some(b)) => SpecExpr::Con { val: Constant::Boolean(a != b) },
            _ => stuck_binop(l, op, r),
        },
        Binary::And => match (as_bool(l), as_bool(r)) {
            (Some(a), Some(b)) => SpecExpr::Con { val: Constant::Boolean(a && b) },
            _ => stuck_binop(l, op, r),
        },
        Binary::Or => match (as_bool(l), as_bool(r)) {
            (Some(a), Some(b)) => SpecExpr::Con { val: Constant::Boolean(a || b) },
            _ => stuck_binop(l, op, r),
        },
    }
}

/// The reference semantics: the value of `e` under the visible bindings
/// `env`, or the error evaluation stops with. Every recursive step costs one
/// unit of `fuel`.
///
/// Subexpressions are evaluated left to right. A binder (`Let`, the body of
/// an applied `Lambda`, the body of a type-applied `Any`) extends the
/// environment only for the subterm it scopes over; type application does
/// not change the term-level environment at all.
pub open spec fn eval_spec(env: Map<Seq<char>, SpecExpr>, e: SpecExpr, fuel: nat) -> Result<
    SpecExpr,
    EvalError,
>
    decreases fuel, 0nat,
{
    if fuel == 0 {
        Err(EvalError::OutOfFuel)
    } else {
        let f = (fuel - 1) as nat;
        match e {
            SpecExpr::Con { val } => Ok(e),
            SpecExpr::Var { id } => if env.contains_key(id) {
                Ok(env[id])
            } else {
                Err(EvalError::InvariantViolation)
            },
            SpecExpr::Let { pat, exp, body } => match eval_spec(env, *exp, f) {
                Ok(bound) => match bind_spec(env, bound, pat, f) {
                    Ok(env2) => eval_spec(env2, *body, f),
                    Err(er) => Err(er),
                },
                Err(er) => Err(er),
            },
            SpecExpr::EApp { exp, arg } => match eval_spec(env, *exp, f) {
                Ok(func) => match eval_spec(env, *arg, f) {
                    Ok(param) => match func {
                        SpecExpr::Lambda { arg: x, typ, body } => eval_spec(
                            env.insert(x, param),
                            *body,
                            f,
                        ),
                        _ => Err(EvalError::InvariantViolation),
                    },
                    Err(er) => Err(er),
                },
                Err(er) => Err(er),
            },
            SpecExpr::TApp { exp, arg } => match eval_spec(env, *exp, f) {
                Ok(func) => match func {
                    SpecExpr::Any { arg: t, body } => eval_spec(env, *body, f),
                    _ => Err(EvalError::InvariantViolation),
                },
                Err(er) => Err(er),
            },
            SpecExpr::Tuple { entries } => match eval_entries(env, entries, f) {
                Ok(vs) => Ok(SpecExpr::Tuple { entries: vs }),
                Err(er) => Err(er),
            },
            SpecExpr::Binop { lhs, op, rhs } => match eval_spec(env, *lhs, f) {
                Ok(l) => match eval_spec(env, *rhs, f) {
                    Ok(r) => Ok(apply_binop(op, l, r)),
                    Err(er) => Err(er),
                },
                Err(er) => Err(er),
            },
            SpecExpr::Lambda { .. } => Ok(e),
            SpecExpr::Any { .. } => Ok(e),
            SpecExpr::If { cond, branch_t, branch_f } => match eval_spec(env, *cond, f) {
                Ok(SpecExpr::Con { val: Constant::Boolean(b) }) => if b {
                    eval_spec(env, *branch_t, f)
                } else {
                    eval_spec(env, *branch_f, f)
                },
                Ok(_) => Err(EvalError::InvariantViolation),
                Err(er) => Err(er),
            },
        }
    }
}

/// The values of a sequence of expressions, evaluated left to right under
/// one environment, or the first error.
pub open spec fn eval_entries(env: Map<Seq<char>, SpecExpr>, es: Seq<SpecExpr>, fuel: nat) -> Result<
    Seq<SpecExpr>,
    EvalError,
>
    decreases fuel, es.len(),
{
    if es.len() == 0 {
        Ok(Seq::empty())
    } else {
        match eval_spec(env, es[0], fuel) {
            Ok(v) => match eval_entries(env, es.drop_first(), fuel) {
                Ok(vs) => Ok(seq![v] + vs),
                Err(er) => Err(er),
            },
            Err(er) => Err(er),
        }
    }
}

/// The environment after destructuring `value` against `pat`: a wildcard
/// binds nothing, a name binds the (re-evaluated) value, and a tuple pattern
/// binds its sub-patterns pairwise against a tuple value of the same arity.
/// Any other pairing, and a tuple arity mismatch, is an internal invariant
/// violation.
pub open spec fn bind_spec(
    env: Map<Seq<char>, SpecExpr>,
    value: SpecExpr,
    pat: SpecPattern,
    fuel: nat,
) -> Result<Map<Seq<char>, SpecExpr>, EvalError>
    decreases fuel, 0nat,
{
    if fuel == 0 {
        Err(EvalError::OutOfFuel)
    } else {
        let f = (fuel - 1) as nat;
        match (value, pat) {
            (SpecExpr::Tuple { entries }, SpecPattern::Tuple(ps)) => if entries.len() != ps.len() {
                Err(EvalError::InvariantViolation)
            } else {
                bind_entries(env, entries, ps, f)
            },
            (_, SpecPattern::Wildcard(_)) => Ok(env),
            (_, SpecPattern::Binding(id, _)) => match eval_spec(env, value, f) {
                Ok(v) => Ok(env.insert(id, v)),
                Err(er) => Err(er),
            },
            _ => Err(EvalError::InvariantViolation),
        }
    }
}

/// Destructures values against patterns pairwise, left to right, threading
/// the environment through: a later binding sees the earlier ones.
pub open spec fn bind_entries(
    env: Map<Seq<char>, SpecExpr>,
    vs: Seq<SpecExpr>,
    ps: Seq<SpecPattern>,
    fuel: nat,
) -> Result<Map<Seq<char>, SpecExpr>, EvalError>
    decreases fuel, vs.len(),
{
    if vs.len() == 0 || ps.len() == 0 {
        Ok(env)
    } else {
        match bind_spec(env, vs[0], ps[0], fuel) {
            Ok(env2) => bind_entries(env2, vs.drop_first(), ps.drop_first(), fuel),
            Err(er) => Err(er),
        }
    }
}

/// An executable result and a reference result agree: both succeed with the
/// same model value, or both fail with the same error.
pub open spec fn res_agrees(r: Result<RawExpr, EvalError>, s: Result<SpecExpr, EvalError>) -> bool {
    match (r, s) {
        (Ok(v), Ok(sv)) => v@ == sv,
        (Err(e1), Err(e2)) => e1 == e2,
        _ => false,
    }
}

/// Evaluating a concatenation of entries evaluates the two parts in order.
pub proof fn lemma_eval_entries_split(
    env: Map<Seq<char>, SpecExpr>,
    s1: Seq<SpecExpr>,
    s2: Seq<SpecExpr>,
    fuel: nat,
)
    ensures
        eval_entries(env, s1 + s2, fuel) == (match eval_entries(env, s1, fuel) {
            Ok(v1) => match eval_entries(env, s2, fuel) {
                Ok(v2) => Ok::<Seq<SpecExpr>, EvalError>(v1 + v2),
                Err(er) => Err::<Seq<SpecExpr>, EvalError>(er),
            },
            Err(er) => Err::<Seq<SpecExpr>, EvalError>(er),
        }),
    decreases s1.len(),
{
    if s1.len() == 0 {
        assert(s1 + s2 =~= s2);
        match eval_entries(env, s2, fuel) {
            Ok(v2) => {
                assert(Seq::<SpecExpr>::empty() + v2 =~= v2);
            },
            Err(_) => {},
        }
    } else {
        assert((s1 + s2)[0] == s1[0]);
        assert((s1 + s2).drop_first() =~= s1.drop_first() + s2);
        lemma_eval_entries_split(env, s1.drop_first(), s2, fuel);
        match eval_spec(env, s1[0], fuel) {
            Ok(v) => match eval_entries(env, s1.drop_first(), fuel) {
                Ok(vs) => match eval_entries(env, s2, fuel) {
                    Ok(v2) => {
                        assert(seq![v] + (vs + v2) =~= (seq![v] + vs) + v2);
                    },
                    Err(_) => {},
                },
                Err(_) => {},
            },
            Err(_) => {},
        }
    }
}

/// Destructuring a concatenation of pairs destructures the two parts in
/// order, threading the environment through.
pub proof fn lemma_bind_entries_split(
    env: Map<Seq<char>, SpecExpr>,
    v1: Seq<SpecExpr>,
    p1: Seq<SpecPattern>,
    v2: Seq<SpecExpr>,
    p2: Seq<SpecPattern>,
    fuel: nat,
)
    requires
        v1.len() == p1.len(),
    ensures
        bind_entries(env, v1 + v2, p1 + p2, fuel) == (match bind_entries(env, v1, p1, fuel) {
            Ok(env2) => bind_entries(env2, v2, p2, fuel),
            Err(er) => Err::<Map<Seq<char>, SpecExpr>, EvalError>(er),
        }),
    decreases v1.len(),
{
    if v1.len() == 0 {
        assert(v1 + v2 =~= v2);
        assert(p1 + p2 =~= p2);
    } else {
        assert((v1 + v2)[0] == v1[0]);
        assert((p1 + p2)[0] == p1[0]);
        assert((v1 + v2).drop_first() =~= v1.drop_first() + v2);
        assert((p1 + p2).drop_first() =~= p1.drop_first() + p2);
        match bind_spec(env, v1[0], p1[0], fuel) {
            Ok(env2) => {
                lemma_bind_entries_split(env2, v1.drop_first(), p1.drop_first(), v2, p2, fuel);
            },
            Err(_) => {},
        }
    }
}

/// What a binary operator yields on two reduced operands; see `apply_binop`.
fn apply_binop_exec(op: Binary, lhs: RawExpr, rhs: RawExpr) -> (res: RawExpr)
    ensures
        res@ == apply_binop(op, lhs@, rhs@),
{
    match op {
        Binary::Add => match (lhs, rhs) {
            (
                RawExpr::Con { val: Constant::Integer(l) },
                RawExpr::Con { val: Constant::Integer(r) },
            ) => RawExpr::Con { val: Constant::Integer(l.wrapping_add(r)) },
            (l2, r2) => RawExpr::Binop { lhs: Box::new(l2), op, rhs: Box::new(r2) },
        },
        Binary::Sub => match (lhs, rhs) {
            (
                RawExpr::Con { val: Constant::Integer(l) },
                RawExpr::Con { val: Constant::Integer(r) },
            ) => RawExpr::Con { val: Constant::Integer(l.wrapping_sub(r)) },
            (l2, r2) => RawExpr::Binop { lhs: Box::new(l2), op, rhs: Box::new(r2) },
        },
        Binary::Mul => match (lhs, rhs) {
            (
                RawExpr::Con { val: Constant::Integer(l) },
                RawExpr::Con { val: Constant::Integer(r) },
            ) => RawExpr::Con { val: Constant::Integer(l.wrapping_mul(r)) },
            (l2, r2) => RawExpr::Binop { lhs: Box::new(l2), op, rhs: Box::new(r2) },
        },
        Binary::Eq => match (lhs, rhs) {
            (
                RawExpr::Con { val: Constant::Integer(l) },
                RawExpr::Con { val: Constant::Integer(r) },
            ) => RawExpr::Con { val: Constant::Boolean(l == r) },
            (l2, r2) => RawExpr::Binop { lhs: Box::new(l2), op, rhs: Box::new(r2) },
        },
        Binary::Lt => match (lhs, rhs) {
            (
                RawExpr::Con { val: Constant::Integer(l) },
                RawExpr::Con { val: Constant::Integer(r) },
            ) => RawExpr::Con { val: Constant::Boolean(l < r) },
            (l2, r2) => RawExpr::Binop { lhs: Box::new(l2), op, rhs: Box::new(r2) },
        },
        Binary::Gt => match (lhs, rhs) {
            (
                RawExpr::Con { val: Constant::Integer(l) },
                RawExpr::Con { val: Constant::Integer(r) },
            ) => RawExpr::Con { val: Constant::Boolean(l > r) },
            (l2, r2) => RawExpr::Binop { lhs: Box::new(l2), op, rhs: Box::new(r2) },
        },
        Binary::Ne => match (lhs, rhs) {
            (
                RawExpr::Con { val: Constant::Integer(l) },
                RawExpr::Con { val: Constant::Integer(r) },
            ) => RawExpr::Con { val: Constant::Boolean(l != r) },
            (l2, r2) => RawExpr::Binop { lhs: Box::new(l2), op, rhs: Box::new(r2) },
        },
        Binary::And => match (lhs, rhs) {
            (
                RawExpr::Con { val: Constant::Boolean(l) },
                RawExpr::Con { val: Constant::Boolean(r) },
            ) => RawExpr::Con { val: Constant::Boolean(l && r) },
            (l2, r2) => RawExpr::Binop { lhs: Box::new(l2), op, rhs: Box::new(r2) },
        },
        Binary::Or => match (lhs, rhs) {
            (
                RawExpr::Con { val: Constant::Boolean(l) },
                RawExpr::Con { val: Constant::Boolean(r) },
            ) => RawExpr::Con { val: Constant::Boolean(l || r) },
            (l2, r2) => RawExpr::Binop { lhs: Box::new(l2), op, rhs: Box::new(r2) },
        },
    }
}

/// Evaluates `expr` under `store`, leaving the visible bindings exactly as
/// they were: every frame entered here is exited before returning.
#[verifier::loop_isolation(false)]
#[verifier::rlimit(100)]
pub fn eval(store: &mut Snapshot, expr: &RawExpr, fuel: u64) -> (res: Result<RawExpr, EvalError>)
    requires
        old(store).wf(),
    ensures
        final(store).wf(),
        final(store)@ == old(store)@,
        res_agrees(res, eval_spec(old(store).env(), expr@, fuel as nat)),
    decreases fuel, 0nat,
{
    if fuel == 0 {
        return Err(EvalError::OutOfFuel);
    }
    let f = fuel - 1;
    let ghost env = store.env();
    match expr {
        RawExpr::Con { .. } => Ok(expr.deep_copy()),
        RawExpr::Var { id } => match store.get_val(id) {
            Some(value) => Ok(value.deep_copy()),
            None => Err(EvalError::InvariantViolation),
        },
        RawExpr::Let { pat, exp, body } => {
            let bound = match eval(store, exp, f) {
                Ok(v) => v,
                Err(er) => {
                    return Err(er);
                },
            };
            store.enter();
            match bind_pat(&bound, pat, store, f) {
                Ok(()) => {},
                Err(er) => {
                    let _popped = store.exeunt();
                    proof {
                        assert(store@ =~= old(store)@);
                    }
                    return Err(er);
                },
            }
            let res = eval(store, body, f);
            let _popped = store.exeunt();
            proof {
                assert(store@ =~= old(store)@);
            }
            res
        },
        RawExpr::EApp { exp, arg } => {
            let func = match eval(store, exp, f) {
                Ok(v) => v,
                Err(er) => {
                    return Err(er);
                },
            };
            let param = match eval(store, arg, f) {
                Ok(v) => v,
                Err(er) => {
                    return Err(er);
                },
            };
            match func {
                RawExpr::Lambda { arg: var, typ, body } => {
                    // A fresh frame bounds the parameter binding's lifetime
                    // to the body, exactly as a let-binding's frame does.
                    store.enter();
                    store.insert_val(var.clone(), param);
                    store.insert_typ(var, typ);
                    let res = eval(store, &*body, f);
                    let _popped = store.exeunt();
                    proof {
                        assert(store@ =~= old(store)@);
                    }
                    res
                },
                _ => Err(EvalError::InvariantViolation),
            }
        },
        RawExpr::TApp { exp, arg } => {
            let func = match eval(store, exp, f) {
                Ok(v) => v,
                Err(er) => {
                    return Err(er);
                },
            };
            match func {
                RawExpr::Any { arg: tvar, body } => {
                    store.enter();
                    store.insert_typ(tvar, arg.deep_copy());
                    let res = eval(store, &*body, f);
                    let _popped = store.exeunt();
                    proof {
                        assert(store@ =~= old(store)@);
                    }
                    res
                },
                _ => Err(EvalError::InvariantViolation),
            }
        },
        RawExpr::Tuple { entries } => eval_tuple(store, entries, f),
        RawExpr::Binop { lhs, op, rhs } => {
            let lhs_nf = match eval(store, lhs, f) {
                Ok(v) => v,
                Err(er) => {
                    return Err(er);
                },
            };
            let rhs_nf = match eval(store, rhs, f) {
                Ok(v) => v,
                Err(er) => {
                    return Err(er);
                },
            };
            Ok(apply_binop_exec(*op, lhs_nf, rhs_nf))
        },
        RawExpr::Lambda { .. } => Ok(expr.deep_copy()),
        RawExpr::Any { .. } => Ok(expr.deep_copy()),
        RawExpr::If { cond, branch_t, branch_f } => {
            // The condition is evaluated inside its own frame, so bindings it
            // makes can never leak into the branch taken.
            store.enter();
            let cond_res = eval(store, cond, f);
            let _popped = store.exeunt();
            proof {
                assert(store@ =~= old(store)@);
            }
            let cond_new = match cond_res {
                Ok(v) => v,
                Err(er) => {
                    return Err(er);
                },
            };
            match cond_new {
                RawExpr::Con { val: Constant::Boolean(b) } => if b {
                    eval(store, branch_t, f)
                } else {
                    eval(store, branch_f, f)
                },
                _ => Err(EvalError::InvariantViolation),
            }
        },
    }
}


/// Evaluates the entries of a tuple left to right under one store.
#[verifier::loop_isolation(false)]
#[verifier::rlimit(100)]
fn eval_tuple(store: &mut Snapshot, entries: &Vec<RawExpr>, f: u64) -> (res: Result<
    RawExpr,
    EvalError,
>)
    requires
        old(store).wf(),
    ensures
        final(store).wf(),
        final(store)@ == old(store)@,
        res_agrees(
            res,
            match eval_entries(old(store).env(), exprs_view(entries@), f as nat) {
                Ok(vs) => Ok(SpecExpr::Tuple { entries: vs }),
                Err(er) => Err(er),
            },
        ),
    decreases f, 1nat,
{
    let ghost env = store.env();

    let ghost es = exprs_view(entries@);
    proof {
        lemma_exprs_view(entries@);
    }
    let mut neu: Vec<RawExpr> = Vec::new();
    let mut i: usize = 0;
    while i < entries.len()
        invariant
            i <= entries.len(),
            neu@.len() == i as int,
            store.wf(),
            store@ == old(store)@,
            eval_entries(env, es.take(i as int), f as nat) == Ok::<
                Seq<SpecExpr>,
                EvalError,
            >(exprs_view(neu@)),
        decreases entries.len() - i,
    {
        let ghost old_neu = neu@;
        match eval(store, &entries[i], f) {
            Ok(v) => {
                proof {
                    assert(es.take(i as int + 1) =~= es.take(i as int) + seq![es[i as int]]);
                    lemma_eval_entries_split(
                        env,
                        es.take(i as int),
                        seq![es[i as int]],
                        f as nat,
                    );
                    assert(seq![es[i as int]].drop_first() =~= Seq::<SpecExpr>::empty());
                    assert(eval_entries(env, Seq::<SpecExpr>::empty(), f as nat) == Ok::<
                        Seq<SpecExpr>,
                        EvalError,
                    >(Seq::<SpecExpr>::empty()));
                    assert(seq![es[i as int]][0] == es[i as int]);
                    assert(eval_spec(env, es[i as int], f as nat) == Ok::<
                        SpecExpr,
                        EvalError,
                    >(v@));
                    assert(seq![v@] + Seq::<SpecExpr>::empty() =~= seq![v@]);
                    assert(eval_entries(env, seq![es[i as int]], f as nat) == Ok::<
                        Seq<SpecExpr>,
                        EvalError,
                    >(seq![v@]));
                    assert(eval_entries(env, es.take(i as int + 1), f as nat) == Ok::<
                        Seq<SpecExpr>,
                        EvalError,
                    >(exprs_view(old_neu) + seq![v@]));
                }
                neu.push(v);
                proof {
                    assert(neu@.drop_last() =~= old_neu);
                    assert(exprs_view(neu@) =~= exprs_view(old_neu) + seq![v@]);
                }
            },
            Err(er) => {
                proof {
                    assert(es =~= es.take(i as int) + es.skip(i as int));
                    lemma_eval_entries_split(env, es.take(i as int), es.skip(i as int), f as nat);
                    assert(es.skip(i as int)[0] == es[i as int]);
                }
                return Err(er);
            },
        }
        i = i + 1;
    }
    proof {
        assert(es.take(entries@.len() as int) =~= es);
    }
    Ok(RawExpr::Tuple { entries: neu })
}


/// The bindings a program leaves behind: its declarations are evaluated in
/// `order`, each body under the bindings accumulated so far, and each result
/// is bound to the declaration's name. An order entry naming no declaration
/// is an internal invariant violation.
pub open spec fn run_prog(
    decls: Map<Seq<char>, SpecDecl>,
    order: Seq<Seq<char>>,
    env: Map<Seq<char>, SpecExpr>,
    fuel: nat,
) -> Result<Map<Seq<char>, SpecExpr>, EvalError>
    decreases order.len(),
{
    if order.len() == 0 {
        Ok(env)
    } else if !decls.contains_key(order[0]) {
        Err(EvalError::InvariantViolation)
    } else {
        let d = decls[order[0]];
        match eval_spec(env, d.body, fuel) {
            Ok(v) => run_prog(decls, order.drop_first(), env.insert(d.id, v), fuel),
            Err(er) => Err(er),
        }
    }
}

/// Evaluates `expr` under `store`. The store's visible bindings are exactly
/// the same after the call: no binding made during evaluation survives it.
pub fn eval_expr(expr: &RawExpr, store: &mut Snapshot, fuel: u64) -> (res: Result<
    RawExpr,
    EvalError,
>)
    requires
        old(store).wf(),
    ensures
        final(store).wf(),
        final(store)@ == old(store)@,
        res_agrees(res, eval_spec(old(store).env(), expr@, fuel as nat)),
{
    eval(store, expr, fuel)
}

/// Evaluates the body of `decl` under `store` and, on success, durably binds
/// the declaration's name to the result (and to its declared type) in the
/// innermost frame. On failure the store is unchanged.
pub fn eval_decl(decl: &Decl, store: &mut Snapshot, fuel: u64) -> (res: Result<(), EvalError>)
    requires
        old(store).wf(),
    ensures
        final(store).wf(),
        match eval_spec(old(store).env(), decl@.body, fuel as nat) {
            Ok(v) => res == Ok::<(), EvalError>(())
                && final(store)@.len() == old(store)@.len()
                && final(store)@.drop_last() == old(store)@.drop_last()
                && final(store)@.last().vals == old(store)@.last().vals.insert(decl@.id, v)
                && final(store)@.last().typs == old(store)@.last().typs.insert(decl@.id, decl@.sig)
                && final(store).env() == old(store).env().insert(decl@.id, v),
            Err(er) => res == Err::<(), EvalError>(er) && final(store)@ == old(store)@,
        },
{
    let body = match eval(store, &decl.body, fuel) {
        Ok(v) => v,
        Err(er) => {
            return Err(er);
        },
    };
    store.insert_val(decl.id.clone(), body);
    store.insert_typ(decl.id.clone(), decl.sig.deep_copy());
    Ok(())
}

/// Evaluates a program's declarations in order against a fresh store,
/// stopping at the first failure.
#[verifier::loop_isolation(false)]
pub fn eval_prog(prog: &Prog, fuel: u64) -> (res: Result<(), EvalError>)
    ensures
        res == (match run_prog(prog@.declarations, prog@.order, Map::empty(), fuel as nat) {
            Ok(_) => Ok::<(), EvalError>(()),
            Err(er) => Err::<(), EvalError>(er),
        }),
{
    let ghost decls = prog@.declarations;
    let ghost order = prog@.order;
    proof {
        lemma_names_view(prog.order@);
    }
    let mut store = Snapshot::new();
    let mut i: usize = 0;
    proof {
        assert(order.skip(0) =~= order);
    }
    while i < prog.order.len()
        invariant
            i <= prog.order.len(),
            store.wf(),
            run_prog(decls, order.skip(i as int), store.env(), fuel as nat) == run_prog(
                decls,
                order,
                Map::empty(),
                fuel as nat,
            ),
        decreases prog.order.len() - i,
    {
        proof {
            assert(order.skip(i as int)[0] == order[i as int]);
            assert(order.skip(i as int).drop_first() =~= order.skip(i as int + 1));
        }
        let decl = match prog.find_decl(&prog.order[i]) {
            Some(d) => d,
            None => {
                return Err(EvalError::InvariantViolation);
            },
        };
        match eval_decl(decl, &mut store, fuel) {
            Ok(()) => {},
            Err(er) => {
                return Err(er);
            },
        }
        i = i + 1;
    }
    proof {
        assert(order.skip(prog.order@.len() as int) =~= Seq::<Seq<char>>::empty());
    }
    Ok(())
}

/// Evaluates an expression that needs no ambient bindings: the reference
/// semantics is consulted under the empty environment.
pub fn eval_closed_expr(expr: &RawExpr, fuel: u64) -> (res: Result<RawExpr, EvalError>)
    ensures
        res_agrees(res, eval_spec(Map::empty(), expr@, fuel as nat)),
{
    let mut store = Snapshot::new();
    eval_expr(expr, &mut store, fuel)
}

/// Two frames agree, in their value and their type bindings alike, on every
/// name the pattern does not bind.
pub open spec fn frames_agree_outside(pat: SpecPattern, f1: StoreView, f0: StoreView) -> bool {
    forall|x: Seq<char>|
        !(#[trigger] pattern_binds(pat, x)) ==> f1.vals.get(x) == f0.vals.get(x) && f1.typs.get(x)
            == f0.typs.get(x)
}

/// Destructures the reduced expression `exp` against `pat`, inserting each
/// bound name, with its value and its declared type, into the innermost
/// frame of `store`. Frames below the innermost one are never touched, and
/// no name outside the pattern's bindings changes; a wildcard in particular
/// inserts nothing. On success the innermost frame's type bindings are the
/// old ones extended by exactly the pattern's bound names, each mapped to
/// its declared type.
#[verifier::loop_isolation(false)]
#[verifier::rlimit(100)]
fn bind_pat(exp: &RawExpr, pat: &RawPattern, store: &mut Snapshot, fuel: u64) -> (res: Result<
    (),
    EvalError,
>)
    requires
        old(store).wf(),
    ensures
        final(store).wf(),
        final(store)@.len() == old(store)@.len(),
        final(store)@.drop_last() == old(store)@.drop_last(),
        frames_agree_outside(pat@, final(store)@.last(), old(store)@.last()),
        match bind_spec(old(store).env(), exp@, pat@, fuel as nat) {
            Ok(env2) => res == Ok::<(), EvalError>(()) && final(store).env() == env2
                && final(store)@.last().typs == typs_extended(
                    old(store)@.last().typs,
                    pattern_bindings(pat@),
                ),
            Err(er) => res == Err::<(), EvalError>(er),
        },
    decreases fuel, 0nat,
{
    if fuel == 0 {
        return Err(EvalError::OutOfFuel);
    }
    let f = fuel - 1;
    let ghost env = store.env();
    match (exp, pat) {
        (RawExpr::Tuple { entries }, RawPattern::Tuple(patterns)) => {
            let ghost vs = exprs_view(entries@);
            let ghost ps = patterns_view(patterns@);
            proof {
                lemma_exprs_view(entries@);
                lemma_patterns_view(patterns@);
                assert(pat@ == SpecPattern::Tuple(ps));
                assert(ps.take(0) =~= Seq::<SpecPattern>::empty());
                assert(bindings_cat(Seq::<SpecPattern>::empty())
                    =~= Seq::<(Seq<char>, SpecType)>::empty());
                assert(typs_extended(
                    old(store)@.last().typs,
                    bindings_cat(ps.take(0)),
                ) == old(store)@.last().typs);
            }
            if entries.len() != patterns.len() {
                return Err(EvalError::InvariantViolation);
            }
            let mut i: usize = 0;
            while i < entries.len()
                invariant
                    i <= entries.len(),
                    store.wf(),
                    store@.len() == old(store)@.len(),
                    store@.drop_last() == old(store)@.drop_last(),
                    bind_entries(env, vs.take(i as int), ps.take(i as int), f as nat) == Ok::<
                        Map<Seq<char>, SpecExpr>,
                        EvalError,
                    >(store.env()),
                    store@.last().typs == typs_extended(
                        old(store)@.last().typs,
                        bindings_cat(ps.take(i as int)),
                    ),
                    frames_agree_outside(pat@, store@.last(), old(store)@.last()),
                decreases entries.len() - i,
            {
                let ghost env_i = store.env();
                let ghost frame_i = store@.last();
                match bind_pat(&entries[i], &patterns[i], store, f) {
                    Ok(()) => {
                        proof {
                            let env_next = store.env();
                            assert(ps.take(i as int + 1) =~= ps.take(i as int) + seq![ps[i as int]]);
                            assert((ps.take(i as int) + seq![ps[i as int]]).drop_last() =~= ps.take(
                                i as int,
                            ));
                            assert((ps.take(i as int) + seq![ps[i as int]]).last() == ps[i as int]);
                            assert(bindings_cat(ps.take(i as int + 1)) == bindings_cat(
                                ps.take(i as int),
                            ) + pattern_bindings(ps[i as int]));
                            lemma_typs_extended_app(
                                old(store)@.last().typs,
                                bindings_cat(ps.take(i as int)),
                                pattern_bindings(ps[i as int]),
                            );
                            assert(store@.last().typs == typs_extended(
                                old(store)@.last().typs,
                                bindings_cat(ps.take(i as int + 1)),
                            ));
                            assert forall|x: Seq<char>| !(#[trigger] pattern_binds(pat@, x))
                                implies store@.last().vals.get(x) == old(store)@.last().vals.get(x)
                                && store@.last().typs.get(x) == old(store)@.last().typs.get(
                                x,
                            ) by {
                                if pattern_binds(ps[i as int], x) {
                                    lemma_pattern_binds_any_elem(ps, i as int, x);
                                }
                                assert(store@.last().vals.get(x) == frame_i.vals.get(x));
                                assert(store@.last().typs.get(x) == frame_i.typs.get(x));
                            }
                            assert(vs.take(i as int + 1) =~= vs.take(i as int) + seq![vs[i as int]]);
                            assert(ps.take(i as int + 1) =~= ps.take(i as int) + seq![ps[i as int]]);
                            lemma_bind_entries_split(
                                env,
                                vs.take(i as int),
                                ps.take(i as int),
                                seq![vs[i as int]],
                                seq![ps[i as int]],
                                f as nat,
                            );
                            assert(seq![vs[i as int]].drop_first() =~= Seq::<SpecExpr>::empty());
                            assert(seq![ps[i as int]].drop_first() =~= Seq::<SpecPattern>::empty());
                            assert(seq![vs[i as int]][0] == vs[i as int]);
                            assert(seq![ps[i as int]][0] == ps[i as int]);
                            assert(bind_spec(env_i, vs[i as int], ps[i as int], f as nat) == Ok::<
                                Map<Seq<char>, SpecExpr>,
                                EvalError,
                            >(env_next));
                            assert(bind_entries(
                                env_next,
                                Seq::<SpecExpr>::empty(),
                                Seq::<SpecPattern>::empty(),
                                f as nat,
                            ) == Ok::<Map<Seq<char>, SpecExpr>, EvalError>(env_next));
                            assert(bind_entries(env_i, seq![vs[i as int]], seq![ps[i as int]], f as nat)
                                == Ok::<Map<Seq<char>, SpecExpr>, EvalError>(env_next));
                            assert(bind_entries(env, vs.take(i as int + 1), ps.take(i as int + 1), f as nat)
                                == Ok::<Map<Seq<char>, SpecExpr>, EvalError>(env_next));
                        }
                    },
                    Err(er) => {
                        proof {
                            assert(vs =~= vs.take(i as int) + vs.skip(i as int));
                            assert(ps =~= ps.take(i as int) + ps.skip(i as int));
                            lemma_bind_entries_split(
                                env,
                                vs.take(i as int),
                                ps.take(i as int),
                                vs.skip(i as int),
                                ps.skip(i as int),
                                f as nat,
                            );
                            assert(vs.skip(i as int)[0] == vs[i as int]);
                            assert(ps.skip(i as int)[0] == ps[i as int]);
                            assert forall|x: Seq<char>| !(#[trigger] pattern_binds(pat@, x))
                                implies store@.last().vals.get(x) == old(store)@.last().vals.get(x)
                                && store@.last().typs.get(x) == old(store)@.last().typs.get(
                                x,
                            ) by {
                                if pattern_binds(ps[i as int], x) {
                                    lemma_pattern_binds_any_elem(ps, i as int, x);
                                }
                                assert(store@.last().vals.get(x) == frame_i.vals.get(x));
                                assert(store@.last().typs.get(x) == frame_i.typs.get(x));
                            }
                        }
                        return Err(er);
                    },
                }
                i = i + 1;
            }
            proof {
                assert(vs.take(entries@.len() as int) =~= vs);
                assert(ps.take(patterns@.len() as int) =~= ps);
                assert(pattern_bindings(pat@) == bindings_cat(ps));
            }
            Ok(())
        },
        (_, RawPattern::Wildcard(_)) => {
            proof {
                assert(pattern_bindings(pat@) =~= Seq::<(Seq<char>, SpecType)>::empty());
                assert(typs_extended(old(store)@.last().typs, pattern_bindings(pat@)) == old(
                    store,
                )@.last().typs);
            }
            Ok(())
        },
        (_, RawPattern::Binding(id, typ)) => {
            let value = match eval(store, exp, f) {
                Ok(v) => v,
                Err(er) => {
                    return Err(er);
                },
            };
            store.insert_val(id.clone(), value);
            store.insert_typ(id.clone(), typ.deep_copy());
            proof {
                let bs = pattern_bindings(pat@);
                assert(bs =~= seq![(id@, typ@)]);
                assert(bs.drop_last() =~= Seq::<(Seq<char>, SpecType)>::empty());
                assert(bs.last() == (id@, typ@));
                assert(typs_extended(
                    old(store)@.last().typs,
                    Seq::<(Seq<char>, SpecType)>::empty(),
                ) == old(store)@.last().typs);
                assert(typs_extended(old(store)@.last().typs, bs) == old(
                    store,
                )@.last().typs.insert(id@, typ@));
            }
            Ok(())
        },
        _ => Err(EvalError::InvariantViolation),
    }
}

} // verus!
