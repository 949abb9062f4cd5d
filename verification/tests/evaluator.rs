use system_f::ast::{Binary, Constant, Decl, Prog, RawExpr, RawPattern, RawType};
use system_f::error::EvalError;
use system_f::interp::{eval_closed_expr, eval_decl, eval_expr, eval_prog};
use system_f::names::fv;
use system_f::store::Snapshot;

const FUEL: u64 = 1000;

fn num(n: i64) -> RawExpr {
    RawExpr::Con { val: Constant::Integer(n) }
}

fn boolean(b: bool) -> RawExpr {
    RawExpr::Con { val: Constant::Boolean(b) }
}

fn var(name: &str) -> RawExpr {
    RawExpr::Var { id: name.to_string() }
}

fn binop(lhs: RawExpr, op: Binary, rhs: RawExpr) -> RawExpr {
    RawExpr::Binop { lhs: Box::new(lhs), op, rhs: Box::new(rhs) }
}

fn lambda(arg: &str, typ: RawType, body: RawExpr) -> RawExpr {
    RawExpr::Lambda { arg: arg.to_string(), typ, body: Box::new(body) }
}

fn apply(f: RawExpr, a: RawExpr) -> RawExpr {
    RawExpr::EApp { exp: Box::new(f), arg: Box::new(a) }
}

fn tuple(entries: Vec<RawExpr>) -> RawExpr {
    RawExpr::Tuple { entries }
}

fn let_in(pat: RawPattern, exp: RawExpr, body: RawExpr) -> RawExpr {
    RawExpr::Let { pat: pat, exp: Box::new(exp), body: Box::new(body) }
}

fn bind(name: &str, typ: RawType) -> RawPattern {
    RawPattern::Binding(name.to_string(), typ)
}

fn if_then_else(cond: RawExpr, bt: RawExpr, bf: RawExpr) -> RawExpr {
    RawExpr::If { cond: Box::new(cond), branch_t: Box::new(bt), branch_f: Box::new(bf) }
}

fn any_abs(arg: &str, body: RawExpr) -> RawExpr {
    RawExpr::Any { arg: arg.to_string(), body: Box::new(body) }
}

fn tapp(exp: RawExpr, arg: RawType) -> RawExpr {
    RawExpr::TApp { exp: Box::new(exp), arg }
}

#[test]
fn arithmetic_add() {
    assert_eq!(eval_closed_expr(&binop(num(3), Binary::Add, num(4)), FUEL), Ok(num(7)));
}

#[test]
fn arithmetic_sub() {
    assert_eq!(eval_closed_expr(&binop(num(5), Binary::Sub, num(2)), FUEL), Ok(num(3)));
}

#[test]
fn arithmetic_mul() {
    assert_eq!(eval_closed_expr(&binop(num(2), Binary::Mul, num(6)), FUEL), Ok(num(12)));
}

#[test]
fn arithmetic_wraps_on_overflow() {
    let e = binop(num(i64::MAX), Binary::Add, num(1));
    assert_eq!(eval_closed_expr(&e, FUEL), Ok(num(i64::MIN)));
}

#[test]
fn relational_lt() {
    assert_eq!(eval_closed_expr(&binop(num(3), Binary::Lt, num(4)), FUEL), Ok(boolean(true)));
}

#[test]
fn relational_gt() {
    assert_eq!(eval_closed_expr(&binop(num(4), Binary::Gt, num(4)), FUEL), Ok(boolean(false)));
}

#[test]
fn relational_eq() {
    assert_eq!(eval_closed_expr(&binop(num(4), Binary::Eq, num(4)), FUEL), Ok(boolean(true)));
}

#[test]
fn relational_ne() {
    assert_eq!(eval_closed_expr(&binop(num(4), Binary::Ne, num(4)), FUEL), Ok(boolean(false)));
}

#[test]
fn boolean_and_or_are_eager_but_exact() {
    assert_eq!(
        eval_closed_expr(&binop(boolean(true), Binary::And, boolean(false)), FUEL),
        Ok(boolean(false))
    );
    assert_eq!(
        eval_closed_expr(&binop(boolean(true), Binary::Or, boolean(false)), FUEL),
        Ok(boolean(true))
    );
}

#[test]
fn determinism_same_expression_same_result() {
    let e = let_in(
        bind("x", RawType::Int),
        binop(num(2), Binary::Mul, num(21)),
        binop(var("x"), Binary::Sub, num(5)),
    );
    let r1 = eval_closed_expr(&e, FUEL);
    let r2 = eval_closed_expr(&e, FUEL);
    assert_eq!(r1, r2);
    assert_eq!(r1, Ok(num(37)));
}

#[test]
fn tuple_evaluation_is_structural() {
    let e1 = binop(num(3), Binary::Add, num(4));
    let e2 = binop(num(5), Binary::Sub, num(2));
    let pair = tuple(vec![e1.deep_copy(), e2.deep_copy()]);
    let v1 = eval_closed_expr(&e1, FUEL).unwrap();
    let v2 = eval_closed_expr(&e2, FUEL).unwrap();
    assert_eq!(eval_closed_expr(&pair, FUEL), Ok(tuple(vec![v1, v2])));
}

#[test]
fn empty_tuple_evaluates_to_itself() {
    assert_eq!(eval_closed_expr(&tuple(vec![]), FUEL), Ok(tuple(vec![])));
}

#[test]
fn let_binding_does_not_leak_into_store() {
    let mut store = Snapshot::new();
    let e = let_in(bind("x", RawType::Int), num(1), var("x"));
    assert_eq!(eval_expr(&e, &mut store, FUEL), Ok(num(1)));
    assert!(store.get_val(&"x".to_string()).is_none());
    assert_eq!(eval_expr(&var("x"), &mut store, FUEL), Err(EvalError::InvariantViolation));
}

#[test]
fn application_binding_does_not_leak_into_store() {
    let mut store = Snapshot::new();
    let e = apply(lambda("x", RawType::Int, binop(var("x"), Binary::Add, num(1))), num(5));
    assert_eq!(eval_expr(&e, &mut store, FUEL), Ok(num(6)));
    assert!(store.get_val(&"x".to_string()).is_none());
}

#[test]
fn conditional_true_never_evaluates_else() {
    // The else-branch is an unbound variable: evaluating it would fail.
    let e = if_then_else(boolean(true), num(1), var("boom"));
    assert_eq!(eval_closed_expr(&e, FUEL), Ok(num(1)));
}

#[test]
fn conditional_false_never_evaluates_then() {
    let e = if_then_else(boolean(false), var("boom"), num(2));
    assert_eq!(eval_closed_expr(&e, FUEL), Ok(num(2)));
}

#[test]
fn conditional_non_boolean_condition_is_invariant_violation() {
    let e = if_then_else(num(1), num(1), num(2));
    assert_eq!(eval_closed_expr(&e, FUEL), Err(EvalError::InvariantViolation));
}

#[test]
fn application_of_lambda() {
    let e = apply(lambda("x", RawType::Int, binop(var("x"), Binary::Add, num(1))), num(5));
    assert_eq!(eval_closed_expr(&e, FUEL), Ok(num(6)));
}

#[test]
fn application_of_non_function_is_invariant_violation() {
    assert_eq!(eval_closed_expr(&apply(num(1), num(2)), FUEL), Err(EvalError::InvariantViolation));
}

#[test]
fn type_application_result_is_type_independent() {
    let poly = any_abs("a", num(42));
    let with_int = tapp(poly.deep_copy(), RawType::Int);
    let with_bool = tapp(poly, RawType::Bool);
    let r1 = eval_closed_expr(&with_int, FUEL);
    let r2 = eval_closed_expr(&with_bool, FUEL);
    assert_eq!(r1, Ok(num(42)));
    assert_eq!(r1, r2);
}

#[test]
fn type_application_of_non_abstraction_is_invariant_violation() {
    assert_eq!(
        eval_closed_expr(&tapp(num(1), RawType::Int), FUEL),
        Err(EvalError::InvariantViolation)
    );
}

#[test]
fn pattern_destructuring_pair() {
    let pat = RawPattern::Tuple(vec![bind("a", RawType::Int), bind("b", RawType::Int)]);
    let e = let_in(pat, tuple(vec![num(1), num(2)]), binop(var("a"), Binary::Sub, var("b")));
    assert_eq!(eval_closed_expr(&e, FUEL), Ok(num(-1)));
}

#[test]
fn pattern_wildcard_binds_nothing() {
    let pat = RawPattern::Tuple(vec![RawPattern::Wildcard(RawType::Int), bind("b", RawType::Int)]);
    let e = let_in(pat, tuple(vec![num(1), num(2)]), var("b"));
    assert_eq!(eval_closed_expr(&e, FUEL), Ok(num(2)));
}

#[test]
fn pattern_arity_mismatch_is_invariant_violation() {
    let pat = RawPattern::Tuple(vec![bind("a", RawType::Int), bind("b", RawType::Int)]);
    let e = let_in(pat, tuple(vec![num(1), num(2), num(3)]), var("a"));
    assert_eq!(eval_closed_expr(&e, FUEL), Err(EvalError::InvariantViolation));
}

#[test]
fn pattern_tuple_against_non_tuple_is_invariant_violation() {
    let pat = RawPattern::Tuple(vec![bind("a", RawType::Int)]);
    let e = let_in(pat, num(1), var("a"));
    assert_eq!(eval_closed_expr(&e, FUEL), Err(EvalError::InvariantViolation));
}

#[test]
fn shadowing_inner_binding_wins() {
    let inner = let_in(bind("x", RawType::Int), num(2), var("x"));
    let e = let_in(bind("x", RawType::Int), num(1), inner);
    assert_eq!(eval_closed_expr(&e, FUEL), Ok(num(2)));
}

#[test]
fn shadowing_outer_binding_restored_after_inner_scope() {
    // (let x = 2 in x) + x under x = 1: the inner scope has closed by the
    // time the right operand is evaluated, so the outer binding is visible.
    let inner = let_in(bind("x", RawType::Int), num(2), var("x"));
    let e = let_in(bind("x", RawType::Int), num(1), binop(inner, Binary::Add, var("x")));
    assert_eq!(eval_closed_expr(&e, FUEL), Ok(num(3)));
}

#[test]
fn unbound_variable_is_invariant_violation() {
    assert_eq!(eval_closed_expr(&var("nope"), FUEL), Err(EvalError::InvariantViolation));
}

#[test]
fn stuck_binop_is_returned_unreduced() {
    let e = binop(lambda("x", RawType::Int, var("x")), Binary::Add, num(1));
    let r = eval_closed_expr(&e, FUEL).unwrap();
    assert_eq!(r, binop(lambda("x", RawType::Int, var("x")), Binary::Add, num(1)));
}

#[test]
fn fuel_zero_reports_out_of_fuel() {
    assert_eq!(eval_closed_expr(&num(1), 0), Err(EvalError::OutOfFuel));
}

#[test]
fn self_application_exhausts_fuel() {
    let omega_half = lambda("x", RawType::Int, apply(var("x"), var("x")));
    let omega = apply(omega_half.deep_copy(), omega_half);
    assert_eq!(eval_closed_expr(&omega, 50), Err(EvalError::OutOfFuel));
}

#[test]
fn lambda_and_abstraction_are_values() {
    let l = lambda("x", RawType::Int, var("x"));
    assert_eq!(eval_closed_expr(&l, FUEL), Ok(lambda("x", RawType::Int, var("x"))));
    let a = any_abs("t", num(1));
    assert_eq!(eval_closed_expr(&a, FUEL), Ok(any_abs("t", num(1))));
}

#[test]
fn declaration_grows_the_store() {
    let mut store = Snapshot::new();
    let decl = Decl {
        id: "answer".to_string(),
        sig: RawType::Int,
        body: binop(num(6), Binary::Mul, num(7)),
    };
    assert_eq!(eval_decl(&decl, &mut store, FUEL), Ok(()));
    assert_eq!(eval_expr(&var("answer"), &mut store, FUEL), Ok(num(42)));
}

#[test]
fn failed_declaration_leaves_store_unchanged() {
    let mut store = Snapshot::new();
    let decl = Decl { id: "bad".to_string(), sig: RawType::Int, body: var("missing") };
    assert_eq!(eval_decl(&decl, &mut store, FUEL), Err(EvalError::InvariantViolation));
    assert!(store.get_val(&"bad".to_string()).is_none());
}

#[test]
fn program_runs_declarations_in_order() {
    let first = Decl { id: "one".to_string(), sig: RawType::Int, body: num(1) };
    let second = Decl {
        id: "two".to_string(),
        sig: RawType::Int,
        body: binop(var("one"), Binary::Add, num(1)),
    };
    let prog = Prog {
        declarations: vec![("one".to_string(), first), ("two".to_string(), second)],
        order: vec!["one".to_string(), "two".to_string()],
    };
    assert_eq!(eval_prog(&prog, FUEL), Ok(()));
}

#[test]
fn program_stops_at_first_failure() {
    let first = Decl { id: "bad".to_string(), sig: RawType::Int, body: var("missing") };
    let second = Decl { id: "ok".to_string(), sig: RawType::Int, body: num(1) };
    let prog = Prog {
        declarations: vec![("bad".to_string(), first), ("ok".to_string(), second)],
        order: vec!["bad".to_string(), "ok".to_string()],
    };
    assert_eq!(eval_prog(&prog, FUEL), Err(EvalError::InvariantViolation));
}

#[test]
fn program_with_unknown_order_entry_fails() {
    let prog = Prog { declarations: vec![], order: vec!["ghostly".to_string()] };
    assert_eq!(eval_prog(&prog, FUEL), Err(EvalError::InvariantViolation));
}

#[test]
fn empty_program_succeeds() {
    let prog = Prog { declarations: vec![], order: vec![] };
    assert_eq!(eval_prog(&prog, FUEL), Ok(()));
}

#[test]
fn free_variable_in_reference() {
    assert!(fv("x", &var("x")));
    assert!(!fv("x", &var("y")));
    assert!(!fv("x", &num(1)));
}

#[test]
fn lambda_parameter_is_not_free_in_body() {
    assert!(!fv("x", &lambda("x", RawType::Int, var("x"))));
    assert!(fv("y", &lambda("x", RawType::Int, var("y"))));
}

#[test]
fn let_pattern_shadows_body_occurrences() {
    let shadowed = let_in(bind("x", RawType::Int), num(1), var("x"));
    assert!(!fv("x", &shadowed));
    let in_bound_expr = let_in(bind("x", RawType::Int), var("x"), num(1));
    assert!(fv("x", &in_bound_expr));
    let unshadowed = let_in(bind("y", RawType::Int), num(1), var("x"));
    assert!(fv("x", &unshadowed));
}

#[test]
fn free_variable_in_tuple_and_conditional() {
    assert!(fv("x", &tuple(vec![num(1), var("x")])));
    assert!(!fv("x", &tuple(vec![num(1), num(2)])));
    assert!(fv("x", &if_then_else(boolean(true), num(1), var("x"))));
}

#[test]
fn contains_var_looks_through_tuples() {
    let pat = RawPattern::Tuple(vec![
        RawPattern::Wildcard(RawType::Int),
        RawPattern::Tuple(vec![bind("deep", RawType::Bool)]),
    ]);
    assert!(pat.contains_var("deep"));
    assert!(!pat.contains_var("shallow"));
}

#[test]
fn all_and_any_inspect_every_binding() {
    let pat = RawPattern::Tuple(vec![bind("a", RawType::Int), bind("b", RawType::Bool)]);
    assert!(pat.all(|_v: &String, _t: &RawType| true));
    assert!(!pat.all(|v: &String, _t: &RawType| v.as_str() == "a"));
    assert!(pat.any(|v: &String, _t: &RawType| v.as_str() == "b"));
    assert!(!pat.any(|v: &String, _t: &RawType| v.as_str() == "c"));
    let wild = RawPattern::Wildcard(RawType::Int);
    assert!(wild.all(|_v: &String, _t: &RawType| false));
    assert!(!wild.any(|_v: &String, _t: &RawType| true));
}

#[test]
fn bindings_lists_names_in_order() {
    let pat = RawPattern::Tuple(vec![
        bind("a", RawType::Int),
        RawPattern::Wildcard(RawType::Bool),
        RawPattern::Tuple(vec![bind("b", RawType::Bool)]),
    ]);
    let bs = pat.bindings();
    assert_eq!(bs.len(), 2);
    assert_eq!(bs[0].0.as_str(), "a");
    assert_eq!(bs[1].0.as_str(), "b");
}

#[test]
fn later_pattern_binding_sees_earlier_sibling() {
    // let (a, b) = (1, 2) in a + b: both bindings land in the same frame.
    let pat = RawPattern::Tuple(vec![bind("a", RawType::Int), bind("b", RawType::Int)]);
    let e = let_in(pat, tuple(vec![num(1), num(2)]), binop(var("a"), Binary::Add, var("b")));
    assert_eq!(eval_closed_expr(&e, FUEL), Ok(num(3)));
}
