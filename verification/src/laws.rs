//! Laws of evaluation, stated against the reference semantics `eval_spec`
//! and proved once and for all.

use vstd::prelude::*;

use crate::ast::{Constant, RawExpr, SpecExpr, SpecType};
use crate::error::EvalError;
use crate::interp::{eval_entries, eval_spec, res_agrees};

verus! {

/// Evaluation is deterministic: the result is a function of the visible
/// bindings, the expression and the recursion budget alone, so any two
/// evaluation results the evaluator's contract allows for the same inputs
/// agree — same success or failure, same value up to its model, same error.
pub proof fn lemma_eval_deterministic(
    env: Map<Seq<char>, SpecExpr>,
    e: SpecExpr,
    fuel: nat,
    r1: Result<RawExpr, EvalError>,
    r2: Result<RawExpr, EvalError>,
)
    requires
        res_agrees(r1, eval_spec(env, e, fuel)),
        res_agrees(r2, eval_spec(env, e, fuel)),
    ensures
        r1 is Ok <==> r2 is Ok,
        r1 is Ok ==> r1.unwrap()@ == r2.unwrap()@,
        r1 is Err ==> r1 == r2,
{
}

/// Tuple evaluation is structural: a pair evaluates to the pair of its
/// entries' values, left to right, and fails with the first entry's error.
pub proof fn lemma_tuple_structural(
    env: Map<Seq<char>, SpecExpr>,
    e1: SpecExpr,
    e2: SpecExpr,
    fuel: nat,
)
    requires
        fuel >= 1,
    ensures
        eval_spec(env, SpecExpr::Tuple { entries: seq![e1, e2] }, fuel) == (match (
            eval_spec(env, e1, (fuel - 1) as nat),
            eval_spec(env, e2, (fuel - 1) as nat),
        ) {
            (Ok(v1), Ok(v2)) => Ok::<SpecExpr, EvalError>(
                SpecExpr::Tuple { entries: seq![v1, v2] },
            ),
            (Err(er), _) => Err::<SpecExpr, EvalError>(er),
            (Ok(_), Err(er)) => Err::<SpecExpr, EvalError>(er),
        }),
{
    let f = (fuel - 1) as nat;
    let es = seq![e1, e2];
    assert(es[0] == e1);
    assert(es.drop_first() =~= seq![e2]);
    assert(seq![e2][0] == e2);
    assert(seq![e2].drop_first() =~= Seq::<SpecExpr>::empty());
    assert(eval_entries(env, Seq::<SpecExpr>::empty(), f) == Ok::<Seq<SpecExpr>, EvalError>(
        Seq::<SpecExpr>::empty(),
    ));
    match eval_spec(env, e1, f) {
        Err(er) => {
            assert(eval_entries(env, es, f) == Err::<Seq<SpecExpr>, EvalError>(er));
        },
        Ok(v1) => {
            match eval_spec(env, e2, f) {
                Err(er) => {
                    assert(eval_entries(env, seq![e2], f) == Err::<Seq<SpecExpr>, EvalError>(er));
                    assert(eval_entries(env, es, f) == Err::<Seq<SpecExpr>, EvalError>(er));
                },
                Ok(v2) => {
                    assert(seq![v2] + Seq::<SpecExpr>::empty() =~= seq![v2]);
                    assert(eval_entries(env, seq![e2], f) == Ok::<Seq<SpecExpr>, EvalError>(
                        seq![v2],
                    ));
                    assert(seq![v1] + seq![v2] =~= seq![v1, v2]);
                    assert(eval_entries(env, es, f) == Ok::<Seq<SpecExpr>, EvalError>(
                        seq![v1, v2],
                    ));
                },
            }
        },
    }
}

/// A conditional whose condition comes out `true` is exactly its then-branch:
/// the else-branch is never consulted, even if evaluating it would fail.
pub proof fn lemma_if_true_ignores_else(
    env: Map<Seq<char>, SpecExpr>,
    cond: SpecExpr,
    branch_t: SpecExpr,
    branch_f: SpecExpr,
    fuel: nat,
)
    requires
        fuel >= 1,
        eval_spec(env, cond, (fuel - 1) as nat) == Ok::<SpecExpr, EvalError>(
            SpecExpr::Con { val: Constant::Boolean(true) },
        ),
    ensures
        eval_spec(
            env,
            SpecExpr::If {
                cond: Box::new(cond),
                branch_t: Box::new(branch_t),
                branch_f: Box::new(branch_f),
            },
            fuel,
        ) == eval_spec(env, branch_t, (fuel - 1) as nat),
{
}

/// A conditional whose condition comes out `false` is exactly its
/// else-branch: the then-branch is never consulted.
pub proof fn lemma_if_false_ignores_then(
    env: Map<Seq<char>, SpecExpr>,
    cond: SpecExpr,
    branch_t: SpecExpr,
    branch_f: SpecExpr,
    fuel: nat,
)
    requires
        fuel >= 1,
        eval_spec(env, cond, (fuel - 1) as nat) == Ok::<SpecExpr, EvalError>(
            SpecExpr::Con { val: Constant::Boolean(false) },
        ),
    ensures
        eval_spec(
            env,
            SpecExpr::If {
                cond: Box::new(cond),
                branch_t: Box::new(branch_t),
                branch_f: Box::new(branch_f),
            },
            fuel,
        ) == eval_spec(env, branch_f, (fuel - 1) as nat),
{
}

/// Applying a lambda evaluates its body with the parameter bound to the
/// argument's value, and binds nothing else: the ambient environment is
/// extended only for the body.
pub proof fn lemma_application_beta(
    env: Map<Seq<char>, SpecExpr>,
    x: Seq<char>,
    t: SpecType,
    body: SpecExpr,
    arg: SpecExpr,
    fuel: nat,
)
    requires
        fuel >= 2,
    ensures
        eval_spec(
            env,
            SpecExpr::EApp {
                exp: Box::new(SpecExpr::Lambda { arg: x, typ: t, body: Box::new(body) }),
                arg: Box::new(arg),
            },
            fuel,
        ) == (match eval_spec(env, arg, (fuel - 1) as nat) {
            Ok(v) => eval_spec(env.insert(x, v), body, (fuel - 1) as nat),
            Err(er) => Err::<SpecExpr, EvalError>(er),
        }),
{
    let f = (fuel - 1) as nat;
    assert(eval_spec(env, SpecExpr::Lambda { arg: x, typ: t, body: Box::new(body) }, f)
        == Ok::<SpecExpr, EvalError>(SpecExpr::Lambda { arg: x, typ: t, body: Box::new(body) }));
}

/// The term-level result of a type application does not depend on which
/// concrete type is applied: the type argument is recorded, never computed
/// on.
pub proof fn lemma_tapp_type_irrelevant(
    env: Map<Seq<char>, SpecExpr>,
    exp: SpecExpr,
    t1: SpecType,
    t2: SpecType,
    fuel: nat,
)
    ensures
        eval_spec(env, SpecExpr::TApp { exp: Box::new(exp), arg: t1 }, fuel) == eval_spec(
            env,
            SpecExpr::TApp { exp: Box::new(exp), arg: t2 },
            fuel,
        ),
{
}

} // verus!
