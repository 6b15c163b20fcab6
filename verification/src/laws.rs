//! The laws of the scoping model and the evaluator, each proved once and for
//! all inputs: shadowing, outward assignment, failure of undeclared
//! assignment, capture by reference, totality of comparison, the fold
//! identities, the shape of a zero-argument call, and the
//! declare-then-read round trip.

use vstd::prelude::*;

use crate::ast::AstV;
use crate::frame::{FrameV, ScopeV, ValV};
use crate::interp::{call_s, eval_s, judge_val, EvalError};

verus! {

/// `lookup_from` reads only arena slots up to its starting index, so any
/// frame agreeing on those slots — however many more it holds — resolves
/// names identically.
proof fn lemma_lookup_prefix(st: FrameV, st2: FrameV, i: int, q: Seq<char>)
    requires
        0 <= i < st.scopes.len(),
        st.scopes.len() <= st2.scopes.len(),
        forall|j: int| 0 <= j <= i ==> st2.scopes[j] == st.scopes[j],
    ensures
        st2.lookup_from(i, q) == st.lookup_from(i, q),
    decreases i,
{
    if !st.scopes[i].map.contains_key(q) {
        match st.scopes[i].parent {
            Some(p) => {
                if 0 <= p < i {
                    lemma_lookup_prefix(st, st2, p, q);
                }
            },
            None => {},
        }
    }
}

/// The scope an assignment would mutate is on the chain, holds the name,
/// and holds exactly the value that lookup sees; when no scope holds the
/// name, lookup fails too.
proof fn lemma_target_props(st: FrameV, i: int, q: Seq<char>)
    requires
        0 <= i < st.scopes.len(),
    ensures
        match st.target_from(i, q) {
            Some(t) => 0 <= t <= i && st.scopes[t].map.contains_key(q) && st.lookup_from(i, q)
                == Some(st.scopes[t].map[q]),
            None => st.lookup_from(i, q) is None,
        },
    decreases i,
{
    if !st.scopes[i].map.contains_key(q) {
        match st.scopes[i].parent {
            Some(p) => {
                if 0 <= p < i {
                    lemma_target_props(st, p, q);
                }
            },
            None => {},
        }
    }
}

/// After overwriting the target scope's binding, lookup from the same
/// starting point sees the new value.
proof fn lemma_lookup_after_update(st: FrameV, i: int, q: Seq<char>, v: ValV)
    requires
        0 <= i < st.scopes.len(),
        st.target_from(i, q) is Some,
    ensures
        ({
            let t = st.target_from(i, q)->Some_0;
            let st2 = FrameV {
                scopes: st.scopes.update(
                    t,
                    ScopeV { map: st.scopes[t].map.insert(q, v), parent: st.scopes[t].parent },
                ),
                cur: st.cur,
            };
            st2.lookup_from(i, q) == Some(v)
        }),
    decreases i,
{
    lemma_target_props(st, i, q);
    if !st.scopes[i].map.contains_key(q) {
        match st.scopes[i].parent {
            Some(p) => {
                if 0 <= p < i {
                    lemma_lookup_after_update(st, p, q, v);
                }
            },
            None => {},
        }
    }
}

/// Shadowing: a declaration made inside a nested scope binds in that scope
/// only. While the scope is live the name answers to the new value; once
/// the scope is popped, every name — the shadowed one included — resolves
/// exactly as it did before the block.
pub proof fn lemma_shadowing(st: FrameV, name: Seq<char>, v: ValV, q: Seq<char>)
    requires
        st.wf(),
    ensures
        st.push_scope(Map::empty()).declare(name, v).lookup(name) == Some(v),
        (FrameV {
            scopes: st.push_scope(Map::empty()).declare(name, v).scopes,
            cur: st.cur,
        }).lookup(q) == st.lookup(q),
{
    let st1 = st.push_scope(Map::empty());
    let st2 = st1.declare(name, v);
    let n = st.scopes.len() as int;
    assert(st2.scopes[n].map == Map::empty().insert(name, v));
    assert(st2.lookup_from(n, name) == Some(v));
    let st3 = FrameV { scopes: st2.scopes, cur: st.cur };
    assert forall|j: int| 0 <= j <= st.cur implies st3.scopes[j] == st.scopes[j] by {}
    lemma_lookup_prefix(st, st3, st.cur, q);
}

/// Assignment resolves outward: assigning to a name not declared in the
/// innermost scope mutates the nearest enclosing scope that declared it —
/// that scope's binding becomes the new value, every other scope is left
/// untouched, and the name thereafter reads as the new value.
pub proof fn lemma_assign_outward(st: FrameV, name: Seq<char>, v: ValV)
    requires
        st.wf(),
        st.contains(name),
        !st.scopes[st.cur].map.contains_key(name),
    ensures
        ({
            let (st2, ok) = st.assign(name, v);
            let t = st.target_from(st.cur, name)->Some_0;
            &&& ok
            &&& t != st.cur
            &&& st2.cur == st.cur
            &&& st2.lookup(name) == Some(v)
            &&& st2.scopes[t].map == st.scopes[t].map.insert(name, v)
            &&& forall|j: int|
                0 <= j < st.scopes.len() && j != t ==> st2.scopes[j] == st.scopes[j]
        }),
{
    lemma_target_props(st, st.cur, name);
    lemma_lookup_after_update(st, st.cur, name, v);
}

/// Assigning to a name never declared anywhere in the chain fails with
/// `UndeclaredVariable`, both at the environment (no mutation at all) and
/// at the evaluator (the right-hand side is not even evaluated).
pub proof fn lemma_undeclared_assign(
    st: FrameV,
    name: Seq<char>,
    v: ValV,
    rhs: Box<AstV>,
    fuel: nat,
)
    requires
        st.wf(),
        !st.contains(name),
        fuel > 0,
    ensures
        st.assign(name, v) == (st, false),
        eval_s(st, AstV::AssignmentStatement { ident: name, additive: rhs }, fuel) == (
            st,
            Err::<ValV, EvalError>(EvalError::UndeclaredVariable),
        ),
{
    lemma_target_props(st, st.cur, name);
}

/// Closures capture by reference, not by value: declaring a function binds
/// a closure that records the *index* of the scope current at declaration —
/// no copy of its bindings is made — so every later mutation of that scope
/// is observed by every call of the closure, and mutations the closure's
/// body makes persist across repeated calls.
pub proof fn lemma_closure_capture(
    st: FrameV,
    identifier: Seq<char>,
    argu_list: Seq<AstV>,
    bx: Box<AstV>,
    fuel: nat,
)
    requires
        fuel > 0,
    ensures
        eval_s(st, AstV::FnDeclaration { identifier, argu_list, block: bx }, fuel) == (
            st.declare(
                identifier,
                ValV::Clos { scope: st.cur, block: *bx, name: identifier, args: argu_list },
            ),
            Ok::<ValV, EvalError>(ValV::Bool(true)),
        ),
{
}

/// Comparing any two values with any supported operator is defined and
/// yields a boolean — never an error; on any pair that is not two numbers
/// the answer is false.
pub proof fn lemma_compare_total(l: ValV, r: ValV, op: Seq<char>)
    requires
        op == ">"@ || op == "<"@ || op == ">="@ || op == "<="@ || op == "=="@,
    ensures
        judge_val(l, r, op) is Some,
        !(l is Num && r is Num) ==> judge_val(l, r, op) == Some(false),
{
}

/// At the evaluator: once both operands of a supported comparison have
/// evaluated, the comparison itself always succeeds with a boolean —
/// non-number operands never raise `TypeMismatch`.
pub proof fn lemma_compare_never_errors(
    st: FrameV,
    left: Box<AstV>,
    right: Box<AstV>,
    op: Seq<char>,
    fuel: nat,
    st1: FrameV,
    lv: ValV,
    st2: FrameV,
    rv: ValV,
)
    requires
        fuel > 0,
        eval_s(st, *left, (fuel - 1) as nat) == (st1, Ok::<ValV, EvalError>(lv)),
        eval_s(st1, *right, (fuel - 1) as nat) == (st2, Ok::<ValV, EvalError>(rv)),
        op == ">"@ || op == "<"@ || op == ">="@ || op == "<="@ || op == "=="@,
    ensures
        eval_s(st, AstV::JudgeExp { left, right, judge: op }, fuel) == (
            st2,
            Ok::<ValV, EvalError>(ValV::Bool(judge_val(lv, rv, op)->Some_0)),
        ),
{
    lemma_compare_total(lv, rv, op);
}

/// The additive fold starts from 0: an additive expression over a single
/// child returns that child's numeric value unchanged.
pub proof fn lemma_additive_identity(st: FrameV, a: AstV, fuel: nat, st1: FrameV, n: i32)
    requires
        fuel > 0,
        eval_s(st, a, (fuel - 1) as nat) == (st1, Ok::<ValV, EvalError>(ValV::Num(n))),
    ensures
        eval_s(st, AstV::AdditiveExp { child: seq![a] }, fuel) == (
            st1,
            Ok::<ValV, EvalError>(ValV::Num(n)),
        ),
{
    let f = (fuel - 1) as nat;
    assert(seq![a][0] == a);
    assert(seq![a].drop_first() =~= Seq::<AstV>::empty());
    assert(vstd::wrapping::i32_specs::wrapping_add(0i32, n) == n);
    assert(crate::interp::eval_fold_s(st1, Seq::<AstV>::empty(), f, n, false) == (
        st1,
        Ok::<ValV, EvalError>(ValV::Num(n)),
    ));
    assert(eval_s(st, AstV::AdditiveExp { child: seq![a] }, fuel) == crate::interp::eval_fold_s(
        st,
        seq![a],
        f,
        0i32,
        false,
    ));
    assert(crate::interp::eval_fold_s(st, seq![a], f, 0i32, false)
        == crate::interp::eval_fold_s(st1, Seq::<AstV>::empty(), f, n, false));
}

/// The multiplicative fold starts from 1: a multiplicative expression over
/// a single child returns that child's numeric value unchanged.
pub proof fn lemma_multiplicative_identity(st: FrameV, a: AstV, fuel: nat, st1: FrameV, n: i32)
    requires
        fuel > 0,
        eval_s(st, a, (fuel - 1) as nat) == (st1, Ok::<ValV, EvalError>(ValV::Num(n))),
    ensures
        eval_s(st, AstV::MulitiExp { child: seq![a] }, fuel) == (
            st1,
            Ok::<ValV, EvalError>(ValV::Num(n)),
        ),
{
    let f = (fuel - 1) as nat;
    assert(seq![a][0] == a);
    assert(seq![a].drop_first() =~= Seq::<AstV>::empty());
    assert(vstd::wrapping::i32_specs::wrapping_mul(1i32, n) == n);
    assert(crate::interp::eval_fold_s(st1, Seq::<AstV>::empty(), f, n, true) == (
        st1,
        Ok::<ValV, EvalError>(ValV::Num(n)),
    ));
    assert(eval_s(st, AstV::MulitiExp { child: seq![a] }, fuel) == crate::interp::eval_fold_s(
        st,
        seq![a],
        f,
        1i32,
        true,
    ));
    assert(crate::interp::eval_fold_s(st, seq![a], f, 1i32, true)
        == crate::interp::eval_fold_s(st1, Seq::<AstV>::empty(), f, n, true));
}

/// A zero-argument call executes the closure's body directly against its
/// captured scope — no parameter scope is layered, nothing is copied — and
/// the caller's own scope is restored afterwards, whatever the outcome.
pub proof fn lemma_no_arg_call(
    st1: FrameV,
    scope: int,
    block: AstV,
    name: Seq<char>,
    args: Seq<AstV>,
    fuel: nat,
)
    ensures
        ({
            let entered = FrameV { scopes: st1.scopes, cur: scope };
            let (st2, r2) = eval_s(entered, block, fuel);
            call_s(st1, ValV::Clos { scope, block, name, args }, Seq::empty(), fuel) == (
                FrameV { scopes: st2.scopes, cur: st1.cur },
                r2,
            )
        }),
{
}

/// Round trip of declaration then read: declaring any value under any name
/// and looking the name up yields that value exactly — every kind of value,
/// no coercion.
pub proof fn lemma_declare_then_lookup(st: FrameV, name: Seq<char>, v: ValV)
    requires
        st.wf(),
    ensures
        st.declare(name, v).lookup(name) == Some(v),
{
}

} // verus!
