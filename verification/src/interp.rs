//! The tree-walking evaluator. `eval_s` is the mathematical semantics: a
//! total function from (frame abstraction, node abstraction, fuel) to the
//! frame after evaluation and the produced value or error. The executable
//! `eval` is proved to compute exactly `eval_s`; `run` drives a whole program
//! against one fresh global frame.

use vstd::prelude::*;
use vstd::string::StringExecFns;

use crate::ast::{asts_view, clone_ast_vec, lemma_asts_view, AstNodeType, AstV};
use crate::frame::{
    val_eq, val_ge, val_gt, val_le, val_lt, val_ne, val_ok, Frame, FrameV, Scope, ScopeStruct,
    ValType, ValV,
};

verus! {

/// Evaluation-time failures. Every error aborts the enclosing evaluation and
/// propagates to the caller of `run`; there is no recovery.
#[derive(Debug, Clone, Copy, PartialEq, Eq, Structural)]
pub enum EvalError {
    /// A name was read or assigned before any scope in the chain declared it.
    UndeclaredVariable,
    /// An operation received a value of the wrong kind: a non-number in an
    /// additive or multiplicative fold, or a non-boolean condition.
    TypeMismatch,
    /// A call's callee did not evaluate to a closure.
    NotCallable,
    /// A comparison operator outside `>`, `<`, `>=`, `<=`, `==`.
    UnsupportedOperator,
    /// A node shape the evaluator has no case for, such as a declaration
    /// without an initializer or a statement node with no children.
    UnhandledNode,
    /// The nesting depth limit was reached; reported instead of exhausting
    /// the native stack.
    DepthExceeded,
}

/// How many levels of evaluation may nest before `DepthExceeded` is reported.
pub const DEPTH_LIMIT: u64 = 1024;

/// Comparison over two values: defined (as a boolean) for every value pair
/// and exactly the five listed operators; `None` means the operator itself is
/// unsupported, never that the values are.
pub open spec fn judge_val(l: ValV, r: ValV, op: Seq<char>) -> Option<bool> {
    if op == ">"@ {
        Some(val_gt(l, r))
    } else if op == "<"@ {
        Some(val_lt(l, r))
    } else if op == ">="@ {
        Some(val_ge(l, r))
    } else if op == "<="@ {
        Some(val_le(l, r))
    } else if op == "=="@ {
        Some(val_eq(l, r))
    } else {
        None
    }
}

/// The semantics of one node. Fuel bounds the nesting depth of the
/// evaluation; each step into a child consumes one unit.
pub open spec fn eval_s(st: FrameV, ast: AstV, fuel: nat) -> (FrameV, Result<ValV, EvalError>)
    decreases fuel, 1int, 0int,
{
    if fuel == 0 {
        (st, Err(EvalError::DepthExceeded))
    } else {
        let f = (fuel - 1) as nat;
        match ast {
            // A statement evaluates each child in order against the same
            // frame; its result is the last child's value. An empty child
            // list is not valid front-end output.
            AstV::Statement { child } => {
                if child.len() == 0 {
                    (st, Err(EvalError::UnhandledNode))
                } else {
                    eval_list_s(st, child, f, ValV::Bool(false))
                }
            },
            AstV::IntLiteral(v) => (st, Ok(ValV::Num(v))),
            // Left-folds from the identity; a closure child short-circuits
            // the whole expression (with its formals cleared), any other
            // non-number child is a type error.
            AstV::AdditiveExp { child } => eval_fold_s(st, child, f, 0i32, false),
            AstV::MulitiExp { child } => eval_fold_s(st, child, f, 1i32, true),
            AstV::Identifier { ident } => match st.lookup(ident) {
                Some(v) => (st, Ok(v)),
                None => (st, Err(EvalError::UndeclaredVariable)),
            },
            AstV::JudgeExp { left, right, judge } => {
                let (st1, r1) = eval_s(st, *left, f);
                match r1 {
                    Err(e) => (st1, Err(e)),
                    Ok(lv) => {
                        let (st2, r2) = eval_s(st1, *right, f);
                        match r2 {
                            Err(e) => (st2, Err(e)),
                            Ok(rv) => match judge_val(lv, rv, judge) {
                                Some(b) => (st2, Ok(ValV::Bool(b))),
                                None => (st2, Err(EvalError::UnsupportedOperator)),
                            },
                        }
                    },
                }
            },
            // A declaration needs its initializer; it binds in the current
            // scope only and yields true.
            AstV::Declaration { identifier, additive } => match additive {
                Some(init) => {
                    let (st1, r1) = eval_s(st, *init, f);
                    match r1 {
                        Err(e) => (st1, Err(e)),
                        Ok(v) => (st1.declare(identifier, v), Ok(ValV::Bool(true))),
                    }
                },
                None => (st, Err(EvalError::UnhandledNode)),
            },
            // Assignment never creates a binding: an undeclared name fails
            // before the right-hand side is even evaluated.
            AstV::AssignmentStatement { ident, additive } => {
                if st.contains(ident) {
                    let (st1, r1) = eval_s(st, *additive, f);
                    match r1 {
                        Err(e) => (st1, Err(e)),
                        Ok(v) => (st1.assign(ident, v).0, Ok(v)),
                    }
                } else {
                    (st, Err(EvalError::UndeclaredVariable))
                }
            },
            // The condition must yield a boolean; the statement's own value
            // is true whatever branch ran.
            AstV::IfStatement { judge_stat, if_stat, else_stat } => {
                let (st1, r1) = eval_s(st, *judge_stat, f);
                match r1 {
                    Err(e) => (st1, Err(e)),
                    Ok(ValV::Bool(b)) => {
                        if b {
                            let (st2, r2) = eval_s(st1, *if_stat, f);
                            match r2 {
                                Err(e) => (st2, Err(e)),
                                Ok(_) => (st2, Ok(ValV::Bool(true))),
                            }
                        } else {
                            match else_stat {
                                Some(es) => {
                                    let (st2, r2) = eval_s(st1, *es, f);
                                    match r2 {
                                        Err(e) => (st2, Err(e)),
                                        Ok(_) => (st2, Ok(ValV::Bool(true))),
                                    }
                                },
                                None => (st1, Ok(ValV::Bool(true))),
                            }
                        }
                    },
                    Ok(_) => (st1, Err(EvalError::TypeMismatch)),
                }
            },
            // Return supplies a value for the statement position it occupies;
            // it does not unwind the call stack.
            AstV::ReturnExp { exp } => match exp {
                Some(e) => eval_s(st, *e, f),
                None => (st, Ok(ValV::Bool(false))),
            },
            // A block owns a transient child scope: pushed on entry, popped
            // on every exit path, error or not.
            AstV::Block { statements } => {
                let st1 = st.push_scope(Map::empty());
                let stmts = match statements {
                    Some(s) => s,
                    None => Seq::empty(),
                };
                let (st2, r) = eval_list_s(st1, stmts, f, ValV::Bool(false));
                (pop_s(st2), r)
            },
            // The closure captures the current scope by index — sharing it,
            // not copying it — so later mutations of that scope are visible
            // through the closure.
            AstV::FnDeclaration { identifier, argu_list, block } => {
                let clos = ValV::Clos {
                    scope: st.cur,
                    block: *block,
                    name: identifier,
                    args: argu_list,
                };
                (st.declare(identifier, clos), Ok(ValV::Bool(true)))
            },
            AstV::FnCall { identifier, argu_list } => {
                let (st1, r1) = eval_s(st, *identifier, f);
                match r1 {
                    Err(e) => (st1, Err(e)),
                    Ok(calv) => call_s(st1, calv, argu_list, f),
                }
            },
        }
    }
}

/// What a call does once its callee has been evaluated: the callee must be
/// a closure; with no actual arguments its body runs directly in a frame at
/// the captured scope, otherwise a parameter scope is layered under the
/// captured scope, the actuals are evaluated and bound there — in the
/// callee's lexical context — and the body statements follow in that same
/// scope. Either way the caller's scope is restored afterwards.
pub open spec fn call_s(st1: FrameV, calv: ValV, argu_list: Seq<AstV>, f: nat) -> (
    FrameV,
    Result<ValV, EvalError>,
)
    decreases f, 3int, 0int,
{
    match calv {
        ValV::Clos { scope, block, name: _, args } => {
            if argu_list.len() == 0 {
                let entered = FrameV { scopes: st1.scopes, cur: scope };
                let (st2, r2) = eval_s(entered, block, f);
                (FrameV { scopes: st2.scopes, cur: st1.cur }, r2)
            } else {
                match block {
                    AstV::Block { statements } => {
                        let stmts = match statements {
                            Some(s) => s,
                            None => Seq::empty(),
                        };
                        let entered = FrameV {
                            scopes: st1.scopes.push(param_scope_v(scope)),
                            cur: st1.scopes.len() as int,
                        };
                        let (st2, r2) = eval_params_s(entered, args, argu_list, f, ValV::Bool(false));
                        match r2 {
                            Err(e) => (FrameV { scopes: pop_s(st2).scopes, cur: st1.cur }, Err(e)),
                            Ok(v0) => {
                                let (st3, r3) = eval_list_s(st2, stmts, f, v0);
                                (FrameV { scopes: pop_s(st3).scopes, cur: st1.cur }, r3)
                            },
                        }
                    },
                    _ => (st1, Err(EvalError::UnhandledNode)),
                }
            }
        },
        _ => (st1, Err(EvalError::NotCallable)),
    }
}

/// The empty parameter scope a call pushes under the captured scope.
pub open spec fn param_scope_v(parent: int) -> crate::frame::ScopeV {
    crate::frame::ScopeV { map: Map::empty(), parent: Some(parent) }
}

/// Restore the current scope to its parent, if it has one — what
/// `drop_scope` does.
pub open spec fn pop_s(st: FrameV) -> FrameV {
    match st.scopes[st.cur].parent {
        Some(p) => FrameV { scopes: st.scopes, cur: p },
        None => st,
    }
}

/// Evaluates statements in order against the running frame; the result is
/// the last statement's value, or `val` when there are none. Each statement
/// gets `cfuel` fuel.
pub open spec fn eval_list_s(st: FrameV, stmts: Seq<AstV>, cfuel: nat, val: ValV) -> (
    FrameV,
    Result<ValV, EvalError>,
)
    decreases cfuel, 2int, stmts.len(),
{
    if stmts.len() == 0 {
        (st, Ok(val))
    } else {
        let (st1, r1) = eval_s(st, stmts[0], cfuel);
        match r1 {
            Err(e) => (st1, Err(e)),
            Ok(v) => eval_list_s(st1, stmts.drop_first(), cfuel, v),
        }
    }
}

/// Left-fold of an additive or multiplicative expression: every child must
/// yield a number — folded with wrapping arithmetic — except that a closure
/// child short-circuits the whole expression, its formals cleared.
pub open spec fn eval_fold_s(st: FrameV, child: Seq<AstV>, cfuel: nat, acc: i32, is_mul: bool) -> (
    FrameV,
    Result<ValV, EvalError>,
)
    decreases cfuel, 2int, child.len(),
{
    if child.len() == 0 {
        (st, Ok(ValV::Num(acc)))
    } else {
        let (st1, r1) = eval_s(st, child[0], cfuel);
        match r1 {
            Err(e) => (st1, Err(e)),
            Ok(ValV::Num(n)) => eval_fold_s(
                st1,
                child.drop_first(),
                cfuel,
                if is_mul {
                    vstd::wrapping::i32_specs::wrapping_mul(acc, n)
                } else {
                    vstd::wrapping::i32_specs::wrapping_add(acc, n)
                },
                is_mul,
            ),
            Ok(ValV::Clos { scope, block, name, args: _ }) => (
                st1,
                Ok(ValV::Clos { scope, block, name, args: Seq::empty() }),
            ),
            Ok(_) => (st1, Err(EvalError::TypeMismatch)),
        }
    }
}

/// Binds formal parameters to actual-argument expressions, position by
/// position, inside the already-entered callee frame: each actual is
/// evaluated there and declared under the formal's name. Formals that are
/// not declaration nodes are skipped, as are positions past the shorter
/// list. `val` threads the last produced statement value.
pub open spec fn eval_params_s(
    st: FrameV,
    formals: Seq<AstV>,
    actuals: Seq<AstV>,
    cfuel: nat,
    val: ValV,
) -> (FrameV, Result<ValV, EvalError>)
    decreases cfuel, 2int, formals.len(),
{
    if formals.len() == 0 || actuals.len() == 0 {
        (st, Ok(val))
    } else {
        match formals[0] {
            AstV::Declaration { identifier, additive: _ } => {
                let (st1, r1) = eval_s(st, actuals[0], cfuel);
                match r1 {
                    Err(e) => (st1, Err(e)),
                    Ok(v) => eval_params_s(
                        st1.declare(identifier, v),
                        formals.drop_first(),
                        actuals.drop_first(),
                        cfuel,
                        ValV::Bool(true),
                    ),
                }
            },
            _ => eval_params_s(st, formals.drop_first(), actuals.drop_first(), cfuel, val),
        }
    }
}

/// A whole program: every top-level node in order against one global frame,
/// the last node's value as the result (true for the empty program).
pub open spec fn run_s(prog: Seq<AstV>, fuel: nat) -> (FrameV, Result<ValV, EvalError>) {
    eval_list_s(FrameV::init(), prog, fuel, ValV::Bool(true))
}

/// The abstraction of an evaluation outcome.
pub open spec fn res_view(r: Result<ValType, EvalError>) -> Result<ValV, EvalError> {
    match r {
        Ok(v) => Ok(v@),
        Err(e) => Err(e),
    }
}


/// Whether the operator text equals the given literal.
fn op_eq(a: &String, lit: &str) -> (r: bool)
    ensures
        r == (a@ == lit@),
{
    let l = lit.to_owned();
    *a == l
}

/// Evaluates statements in order, threading the frame and the running last
/// value; computes exactly `eval_list_s`.
#[verifier::loop_isolation(false)]
fn eval_stmt_list(frame: &mut Frame, stmts: &Vec<AstNodeType>, cfuel: u64, val0: ValType) -> (r:
    Result<ValType, EvalError>)
    requires
        old(frame).wf(),
        val_ok(val0@, old(frame)@.scopes.len() as int),
    ensures
        final(frame).wf(),
        old(frame)@.scopes.len() <= final(frame)@.scopes.len(),
        (final(frame)@, res_view(r)) == eval_list_s(
            old(frame)@,
            asts_view(stmts@),
            cfuel as nat,
            val0@,
        ),
        r matches Ok(v) ==> val_ok(v@, final(frame)@.scopes.len() as int),
    decreases cfuel, 1int,
{
    let ghost st0 = frame@;
    let ghost cv = asts_view(stmts@);
    proof {
        lemma_asts_view(stmts@);
        assert(cv.skip(0) =~= cv);
    }
    let mut val = val0;
    let mut i: usize = 0;
    while i < stmts.len()
        invariant
            frame.wf(),
            st0.scopes.len() <= frame@.scopes.len(),
            i <= stmts@.len(),
            val_ok(val@, frame@.scopes.len() as int),
            eval_list_s(st0, cv, cfuel as nat, val0@) == eval_list_s(
                frame@,
                cv.skip(i as int),
                cfuel as nat,
                val@,
            ),
        decreases stmts@.len() - i,
    {
        proof {
            assert(cv.skip(i as int)[0] == cv[i as int]);
            assert(cv.skip(i as int).drop_first() =~= cv.skip(i as int + 1));
        }
        let r = eval(frame, &stmts[i], cfuel);
        match r {
            Err(e) => {
                return Err(e);
            },
            Ok(v) => {
                val = v;
                i = i + 1;
            },
        }
    }
    proof {
        assert(cv.skip(stmts@.len() as int).len() == 0);
    }
    Ok(val)
}

/// Left-folds an additive or multiplicative child list; computes exactly
/// `eval_fold_s`.
#[verifier::loop_isolation(false)]
fn eval_fold(frame: &mut Frame, child: &Vec<AstNodeType>, cfuel: u64, acc0: i32, is_mul: bool) -> (
    r: Result<ValType, EvalError>)
    requires
        old(frame).wf(),
    ensures
        final(frame).wf(),
        old(frame)@.scopes.len() <= final(frame)@.scopes.len(),
        (final(frame)@, res_view(r)) == eval_fold_s(
            old(frame)@,
            asts_view(child@),
            cfuel as nat,
            acc0,
            is_mul,
        ),
        r matches Ok(v) ==> val_ok(v@, final(frame)@.scopes.len() as int),
    decreases cfuel, 1int,
{
    let ghost st0 = frame@;
    let ghost cv = asts_view(child@);
    proof {
        lemma_asts_view(child@);
        assert(cv.skip(0) =~= cv);
    }
    let mut acc: i32 = acc0;
    let mut i: usize = 0;
    while i < child.len()
        invariant
            frame.wf(),
            st0.scopes.len() <= frame@.scopes.len(),
            i <= child@.len(),
            eval_fold_s(st0, cv, cfuel as nat, acc0, is_mul) == eval_fold_s(
                frame@,
                cv.skip(i as int),
                cfuel as nat,
                acc,
                is_mul,
            ),
        decreases child@.len() - i,
    {
        proof {
            assert(cv.skip(i as int)[0] == cv[i as int]);
            assert(cv.skip(i as int).drop_first() =~= cv.skip(i as int + 1));
        }
        let r = eval(frame, &child[i], cfuel);
        match r {
            Err(e) => {
                return Err(e);
            },
            Ok(ValType::Number(n)) => {
                acc = if is_mul {
                    acc.wrapping_mul(n)
                } else {
                    acc.wrapping_add(n)
                };
                i = i + 1;
            },
            Ok(ValType::Closure { scope, block, name, args: _ }) => {
                return Ok(ValType::Closure { scope, block, name, args: Vec::new() });
            },
            Ok(_) => {
                return Err(EvalError::TypeMismatch);
            },
        }
    }
    proof {
        assert(cv.skip(child@.len() as int).len() == 0);
    }
    Ok(ValType::Number(acc))
}

/// Binds formal parameters to actual-argument expressions inside the
/// already-entered callee frame; computes exactly `eval_params_s`.
#[verifier::loop_isolation(false)]
fn eval_params(
    frame: &mut Frame,
    formals: &Vec<AstNodeType>,
    actuals: &Vec<AstNodeType>,
    cfuel: u64,
    val0: ValType,
) -> (r: Result<ValType, EvalError>)
    requires
        old(frame).wf(),
        val_ok(val0@, old(frame)@.scopes.len() as int),
    ensures
        final(frame).wf(),
        old(frame)@.scopes.len() <= final(frame)@.scopes.len(),
        (final(frame)@, res_view(r)) == eval_params_s(
            old(frame)@,
            asts_view(formals@),
            asts_view(actuals@),
            cfuel as nat,
            val0@,
        ),
        r matches Ok(v) ==> val_ok(v@, final(frame)@.scopes.len() as int),
    decreases cfuel, 1int,
{
    let ghost st0 = frame@;
    let ghost fv = asts_view(formals@);
    let ghost av = asts_view(actuals@);
    proof {
        lemma_asts_view(formals@);
        lemma_asts_view(actuals@);
        assert(fv.skip(0) =~= fv);
        assert(av.skip(0) =~= av);
    }
    let nf = formals.len();
    let na = actuals.len();
    let n = if nf < na {
        nf
    } else {
        na
    };
    let mut val = val0;
    let mut i: usize = 0;
    while i < n
        invariant
            frame.wf(),
            st0.scopes.len() <= frame@.scopes.len(),
            i <= n,
            val_ok(val@, frame@.scopes.len() as int),
            eval_params_s(st0, fv, av, cfuel as nat, val0@) == eval_params_s(
                frame@,
                fv.skip(i as int),
                av.skip(i as int),
                cfuel as nat,
                val@,
            ),
        decreases n - i,
    {
        proof {
            assert(fv.skip(i as int)[0] == fv[i as int]);
            assert(av.skip(i as int)[0] == av[i as int]);
            assert(fv.skip(i as int).drop_first() =~= fv.skip(i as int + 1));
            assert(av.skip(i as int).drop_first() =~= av.skip(i as int + 1));
        }
        match &formals[i] {
            AstNodeType::Declaration { declare_type: _, identifier: pid, additive: _ } => {
                let pr = eval(frame, &actuals[i], cfuel);
                match pr {
                    Err(e) => {
                        return Err(e);
                    },
                    Ok(pv) => {
                        frame.set(pid.clone(), pv, true);
                        val = ValType::Boolean(true);
                        i = i + 1;
                    },
                }
            },
            _ => {
                i = i + 1;
            },
        }
    }
    proof {
        assert(fv.skip(n as int).len() == 0 || av.skip(n as int).len() == 0);
    }
    Ok(val)
}

/// Evaluates one node against the running frame, computing exactly `eval_s`
/// of the frame's and the node's abstractions. Verified functions do not
/// panic, so inputs the front end never produces (an empty statement node, a
/// declaration without an initializer) are reported as `UnhandledNode`, and
/// nesting beyond `fuel` levels as `DepthExceeded`.
#[verifier::rlimit(100)]
pub fn eval(frame: &mut Frame, ast: &AstNodeType, fuel: u64) -> (r: Result<ValType, EvalError>)
    requires
        old(frame).wf(),
    ensures
        final(frame).wf(),
        old(frame)@.scopes.len() <= final(frame)@.scopes.len(),
        (final(frame)@, res_view(r)) == eval_s(old(frame)@, ast@, fuel as nat),
        r matches Ok(v) ==> val_ok(v@, final(frame)@.scopes.len() as int),
    decreases fuel, 0int,
{
    if fuel == 0 {
        return Err(EvalError::DepthExceeded);
    }
    match ast {
        AstNodeType::Statement { child } => {
            let stmts: &Vec<AstNodeType> = &**child;
            if stmts.len() == 0 {
                proof {
                    lemma_asts_view(stmts@);
                }
                return Err(EvalError::UnhandledNode);
            }
            proof {
                lemma_asts_view(stmts@);
            }
            let rr = eval_stmt_list(frame, stmts, fuel - 1, ValType::Boolean(false));
            proof {
                assert((frame@, res_view(rr)) == eval_s(old(frame)@, ast@, fuel as nat));
            }
            rr
        },
        AstNodeType::IntLiteral(v) => {
            let rr = Ok(ValType::Number(*v));
            proof {
                assert((frame@, res_view(rr)) == eval_s(old(frame)@, ast@, fuel as nat));
            }
            rr
        },
        AstNodeType::AdditiveExp { child } => {
            let rr = eval_fold(frame, child, fuel - 1, 0, false);
            proof {
                assert((frame@, res_view(rr)) == eval_s(old(frame)@, ast@, fuel as nat));
            }
            rr
        },
        AstNodeType::MulitiExp { child } => {
            let rr = eval_fold(frame, child, fuel - 1, 1, true);
            proof {
                assert((frame@, res_view(rr)) == eval_s(old(frame)@, ast@, fuel as nat));
            }
            rr
        },
        AstNodeType::Identifier { ident } => {
            if frame.contains_key(ident) {
                match frame.get(ident) {
                    Some(v) => {
                        let rr = Ok(v);
                        proof {
                            assert(old(frame)@.scopes.len() <= frame@.scopes.len());
                            assert(match rr { Ok(v) => val_ok(v@, frame@.scopes.len() as int), Err(_) => true, });
                        }
                        rr
                    },
                    None => vstd::pervasive::unreached(),
                }
            } else {
                Err(EvalError::UndeclaredVariable)
            }
        },
        AstNodeType::JudgeExp { left, right, judge } => {
            let lv = match eval(frame, &**left, fuel - 1) {
                Err(e) => {
                    return Err(e);
                },
                Ok(v) => v,
            };
            let rv = match eval(frame, &**right, fuel - 1) {
                Err(e) => {
                    return Err(e);
                },
                Ok(v) => v,
            };
            let b: bool;
            if op_eq(judge, ">") {
                b = lv.gt(&rv);
            } else if op_eq(judge, "<") {
                b = lv.lt(&rv);
            } else if op_eq(judge, ">=") {
                b = lv.ge(&rv);
            } else if op_eq(judge, "<=") {
                b = lv.le(&rv);
            } else if op_eq(judge, "==") {
                b = lv.eq(&rv);
            } else {
                return Err(EvalError::UnsupportedOperator);
            }
            let rr = Ok(ValType::Boolean(b));
            proof {
                assert((frame@, res_view(rr)) == eval_s(old(frame)@, ast@, fuel as nat));
                assert(old(frame)@.scopes.len() <= frame@.scopes.len());
            }
            rr
        },
        AstNodeType::Declaration { declare_type: _, identifier, additive } => match additive {
            Some(init) => match eval(frame, &**init, fuel - 1) {
                Err(e) => Err(e),
                Ok(v) => {
                    frame.set(identifier.clone(), v, true);
                    let rr = Ok(ValType::Boolean(true));
                    proof {
                        assert((frame@, res_view(rr)) == eval_s(old(frame)@, ast@, fuel as nat));
                        assert(old(frame)@.scopes.len() <= frame@.scopes.len());
                    }
                    rr
                },
            },
            None => Err(EvalError::UnhandledNode),
        },
        AstNodeType::AssignmentStatement { ident, additive } => {
            let is_contains = frame.contains_key(ident);
            if !is_contains {
                return Err(EvalError::UndeclaredVariable);
            }
            match eval(frame, &**additive, fuel - 1) {
                Err(e) => Err(e),
                Ok(v) => {
                    let v2 = v.clone();
                    frame.set(ident.clone(), v2, false);
                    let rr = Ok(v);
                    proof {
                        assert((frame@, res_view(rr)) == eval_s(old(frame)@, ast@, fuel as nat));
                        assert(old(frame)@.scopes.len() <= frame@.scopes.len());
                        assert(match rr { Ok(v) => val_ok(v@, frame@.scopes.len() as int), Err(_) => true, });
                    }
                    rr
                },
            }
        },
        AstNodeType::IfStatement { judge_stat, if_stat, else_stat } => {
            let cond = match eval(frame, &**judge_stat, fuel - 1) {
                Err(e) => {
                    return Err(e);
                },
                Ok(v) => v,
            };
            match cond {
                ValType::Boolean(b) => {
                    if b {
                        match eval(frame, &**if_stat, fuel - 1) {
                            Err(e) => Err(e),
                            Ok(_) => {
                                proof {
                                    assert(old(frame)@.scopes.len() <= frame@.scopes.len());
                                }
                                Ok(ValType::Boolean(true))
                            },
                        }
                    } else {
                        match else_stat {
                            Some(es) => match eval(frame, &**es, fuel - 1) {
                                Err(e) => Err(e),
                                Ok(_) => {
                                    proof {
                                        assert(old(frame)@.scopes.len() <= frame@.scopes.len());
                                    }
                                    Ok(ValType::Boolean(true))
                                },
                            },
                            None => Ok(ValType::Boolean(true)),
                        }
                    }
                },
                _ => Err(EvalError::TypeMismatch),
            }
        },
        AstNodeType::ReturnExp { exp } => match exp {
            Some(e) => eval(frame, &**e, fuel - 1),
            None => Ok(ValType::Boolean(false)),
        },
        AstNodeType::Block { statements } => {
            let ghost st0 = frame@;
            frame.create_scope(Scope::Block(ScopeStruct::new(None)));
            proof {
                assert(frame@ == st0.push_scope(Map::empty()));
            }
            let ghost st1 = frame@;
            match statements {
                Some(stmts) => {
                    let r = eval_stmt_list(frame, stmts, fuel - 1, ValType::Boolean(false));
                    proof {
                        lemma_asts_view(stmts@);
                    }
                    frame.drop_scope();
                    proof {
                        assert((frame@, res_view(r)) == eval_s(old(frame)@, ast@, fuel as nat));
                        assert(old(frame)@.scopes.len() <= frame@.scopes.len());
                        assert(match r { Ok(v) => val_ok(v@, frame@.scopes.len() as int), Err(_) => true, });
                    }
                    r
                },
                None => {
                    frame.drop_scope();
                    let rr = Ok(ValType::Boolean(false));
                    proof {
                        assert(ast@ == (AstV::Block { statements: None }));
                        let e = eval_list_s(st1, Seq::<AstV>::empty(), (fuel - 1) as nat, ValV::Bool(false));
                        assert(e == (st1, Ok::<ValV, EvalError>(ValV::Bool(false))));
                        assert(frame@ == pop_s(st1));
                        assert(eval_s(old(frame)@, ast@, fuel as nat) == (pop_s(e.0), e.1));
                        assert((frame@, res_view(rr)) == eval_s(old(frame)@, ast@, fuel as nat));
                    }
                    rr
                },
            }
        },
        AstNodeType::FnDeclaration { return_type: _, identifier, argu_list, block } => {
            let cs = frame.scope;
            let clos = ValType::Closure {
                scope: cs,
                block: Box::new((&**block).clone()),
                name: identifier.clone(),
                args: clone_ast_vec(argu_list),
            };
            frame.set(identifier.clone(), clos, true);
            let rr = Ok(ValType::Boolean(true));
            proof {
                assert((frame@, res_view(rr)) == eval_s(old(frame)@, ast@, fuel as nat));
                assert(old(frame)@.scopes.len() <= frame@.scopes.len());
            }
            rr
        },
        AstNodeType::FnCall { identifier, argu_list } => {
            let cal = match eval(frame, &**identifier, fuel - 1) {
                Err(e) => {
                    return Err(e);
                },
                Ok(v) => v,
            };
            proof {
                lemma_asts_view(argu_list@);
            }
            eval_call(frame, cal, argu_list, fuel - 1)
        },
    }
}

/// Performs a call whose callee has already been evaluated; computes exactly
/// `call_s`. The callee must be a closure; its captured scope is entered,
/// never copied, and the caller's scope is restored on every path.
#[verifier::loop_isolation(false)]
fn eval_call(frame: &mut Frame, cal: ValType, argu_list: &Vec<AstNodeType>, cfuel: u64) -> (r:
    Result<ValType, EvalError>)
    requires
        old(frame).wf(),
        val_ok(cal@, old(frame)@.scopes.len() as int),
    ensures
        final(frame).wf(),
        old(frame)@.scopes.len() <= final(frame)@.scopes.len(),
        (final(frame)@, res_view(r)) == call_s(
            old(frame)@,
            cal@,
            asts_view(argu_list@),
            cfuel as nat,
        ),
        r matches Ok(v) ==> val_ok(v@, final(frame)@.scopes.len() as int),
    decreases cfuel, 2int,
{
    let ghost calv = cal@;
    let ghost st1 = frame@;
    proof {
        lemma_asts_view(argu_list@);
    }
    match cal {
        ValType::Closure { scope: cs, block, name: _, args } => {
            let saved = frame.scope;
            if argu_list.len() == 0 {
                frame.set_current(cs);
                let r2 = eval(frame, &*block, cfuel);
                frame.set_current(saved);
                proof {
                    assert((frame@, res_view(r2)) == call_s(st1, calv, asts_view(argu_list@), cfuel as nat));
                }
                r2
            } else {
                match *block {
                    AstNodeType::Block { statements } => {
                        let ghost sv = match statements {
                            Some(ref s) => asts_view(s@),
                            None => Seq::<AstV>::empty(),
                        };
                        frame.set_current(cs);
                        frame.create_scope(Scope::Block(ScopeStruct::new(None)));
                        let ghost st2 = frame@;
                        proof {
                            assert(st2 == (FrameV {
                                scopes: st1.scopes.push(param_scope_v(cs as int)),
                                cur: st1.scopes.len() as int,
                            }));
                        }
                        let rp = eval_params(frame, &args, argu_list, cfuel, ValType::Boolean(false));
                        match rp {
                            Err(e) => {
                                frame.drop_scope();
                                frame.set_current(saved);
                                let rr = Err(e);
                                proof {
                                    assert((frame@, res_view(rr)) == call_s(st1, calv, asts_view(argu_list@), cfuel as nat));
                                }
                                rr
                            },
                            Ok(v0) => {
                                let ghost st3 = frame@;
                                let ghost v0v = v0@;
                                let rb = match &statements {
                                    Some(stmts) => {
                                        let r = eval_stmt_list(frame, stmts, cfuel, v0);
                                        proof {
                                            lemma_asts_view(stmts@);
                                        }
                                        r
                                    },
                                    None => Ok(v0),
                                };
                                let ghost st4 = frame@;
                                frame.drop_scope();
                                frame.set_current(saved);
                                proof {
                                    assert(eval_params_s(st2, asts_view(args@), asts_view(argu_list@), cfuel as nat, ValV::Bool(false)) == (st3, Ok::<ValV, EvalError>(v0v)));
                                    assert(eval_list_s(st3, sv, cfuel as nat, v0v) == (st4, res_view(rb)));
                                    assert(frame@ == (FrameV { scopes: pop_s(st4).scopes, cur: st1.cur }));
                                    assert((frame@, res_view(rb)) == call_s(st1, calv, asts_view(argu_list@), cfuel as nat));
                                    assert(st1.scopes.len() < st2.scopes.len());
                                    assert(st2.scopes.len() <= st3.scopes.len());
                                    assert(st3.scopes.len() <= st4.scopes.len());
                                }
                                rb
                            },
                        }
                    },
                    _ => Err(EvalError::UnhandledNode),
                }
            }
        },
        _ => Err(EvalError::NotCallable),
    }
}

/// Evaluates every top-level node against one freshly created global frame,
/// in order, and returns the value of the last node — or the first error,
/// which aborts the remaining nodes. The empty program yields true.
pub fn run(program: &Vec<AstNodeType>) -> (r: Result<ValType, EvalError>)
    ensures
        res_view(r) == run_s(asts_view(program@), DEPTH_LIMIT as nat).1,
{
    let mut frame = Frame::new_global();
    eval_stmt_list(&mut frame, program, DEPTH_LIMIT, ValType::Boolean(true))
}

/// What of a program's result is reported: numbers and booleans as
/// themselves, a closure as the text `closure ` followed by its name, and
/// anything else as true.
pub open spec fn summary_v(v: ValV) -> ValV {
    match v {
        ValV::Num(n) => ValV::Num(n),
        ValV::Bool(b) => ValV::Bool(b),
        ValV::Clos { name, .. } => ValV::Str("closure "@ + name),
        ValV::Str(_) => ValV::Bool(true),
    }
}

/// Runs a program and reports its result as `summary_v` describes; errors
/// pass through unchanged.
pub fn test_entry(program: &Vec<AstNodeType>) -> (r: Result<ValType, EvalError>)
    ensures
        res_view(r) == match run_s(asts_view(program@), DEPTH_LIMIT as nat).1 {
            Ok(v) => Ok::<ValV, EvalError>(summary_v(v)),
            Err(e) => Err::<ValV, EvalError>(e),
        },
{
    match run(program) {
        Err(e) => Err(e),
        Ok(v) => match v {
            ValType::Number(n) => Ok(ValType::Number(n)),
            ValType::Boolean(b) => Ok(ValType::Boolean(b)),
            ValType::Closure { scope: _, block: _, name, args: _ } => {
                let s = String::from_str("closure ").concat(name.as_str());
                Ok(ValType::String(s))
            },
            ValType::String(_) => Ok(ValType::Boolean(true)),
        },
    }
}

} // verus!
