//! Runtime values and the environment model: a chain of lexical scopes held
//! in a grow-only arena and addressed by stable indices, so that a closure's
//! captured scope is shared — not copied — and outlives the block that
//! created it. A frame is the evaluator's position in that chain.
//!
//! The abstraction of a frame is `FrameV`: a sequence of scope abstractions
//! (a map from names to value abstractions plus a parent index) and the index
//! of the innermost active scope. Every operation's contract is stated over
//! this abstraction.

use vstd::prelude::*;

use crate::ast::{asts_view, ast_view, clone_ast_vec, AstNodeType, AstV};

verus! {

/// Abstraction of a runtime value. A closure records the index of its
/// captured scope: two closures capturing the same scope observe the same
/// bindings.
pub enum ValV {
    Num(i32),
    Bool(bool),
    Str(Seq<char>),
    Clos { scope: int, block: AstV, name: Seq<char>, args: Seq<AstV> },
}

/// A runtime value. Values are immutable once constructed; a closure shares
/// (does not copy) its captured scope, identified by an arena index.
#[derive(Debug)]
pub enum ValType {
    String(String),
    Number(i32),
    Boolean(bool),
    Closure {
        /// Arena index of the scope that was current when the closure was
        /// declared.
        scope: usize,
        /// The function body.
        block: Box<AstNodeType>,
        name: String,
        /// The formal parameters, as declaration nodes.
        args: Vec<AstNodeType>,
    },
}

impl View for ValType {
    type V = ValV;

    open spec fn view(&self) -> ValV {
        match *self {
            ValType::String(ref s) => ValV::Str(s@),
            ValType::Number(n) => ValV::Num(n),
            ValType::Boolean(b) => ValV::Bool(b),
            ValType::Closure { scope, ref block, ref name, ref args } => ValV::Clos {
                scope: scope as int,
                block: ast_view(**block),
                name: name@,
                args: asts_view(args@),
            },
        }
    }
}

/// A value is meaningful relative to an arena of `n` scopes when any scope
/// index it carries points into the arena.
pub open spec fn val_ok(v: ValV, n: int) -> bool {
    match v {
        ValV::Clos { scope, .. } => 0 <= scope < n,
        _ => true,
    }
}

/// Every value of a bindings map points into an arena of `n` scopes.
pub open spec fn vals_ok(m: Map<Seq<char>, ValV>, n: int) -> bool {
    forall|k: Seq<char>| m.contains_key(k) ==> val_ok(#[trigger] m[k], n)
}

pub open spec fn val_gt(l: ValV, r: ValV) -> bool {
    match (l, r) {
        (ValV::Num(a), ValV::Num(b)) => a > b,
        _ => false,
    }
}

pub open spec fn val_ge(l: ValV, r: ValV) -> bool {
    match (l, r) {
        (ValV::Num(a), ValV::Num(b)) => a >= b,
        _ => false,
    }
}

pub open spec fn val_lt(l: ValV, r: ValV) -> bool {
    match (l, r) {
        (ValV::Num(a), ValV::Num(b)) => a < b,
        _ => false,
    }
}

pub open spec fn val_le(l: ValV, r: ValV) -> bool {
    match (l, r) {
        (ValV::Num(a), ValV::Num(b)) => a <= b,
        _ => false,
    }
}

pub open spec fn val_eq(l: ValV, r: ValV) -> bool {
    match (l, r) {
        (ValV::Num(a), ValV::Num(b)) => a == b,
        _ => false,
    }
}

pub open spec fn val_ne(l: ValV, r: ValV) -> bool {
    match (l, r) {
        (ValV::Num(a), ValV::Num(b)) => a != b,
        _ => false,
    }
}

impl ValType {
    /// Ordering and equality are defined only over number pairs; any other
    /// combination compares as `false`, never as an error.
    pub fn gt(&self, other: &ValType) -> (r: bool)
        ensures
            r == val_gt(self@, other@),
    {
        match (self, other) {
            (ValType::Number(a), ValType::Number(b)) => *a > *b,
            _ => false,
        }
    }

    pub fn ge(&self, other: &ValType) -> (r: bool)
        ensures
            r == val_ge(self@, other@),
    {
        match (self, other) {
            (ValType::Number(a), ValType::Number(b)) => *a >= *b,
            _ => false,
        }
    }

    pub fn lt(&self, other: &ValType) -> (r: bool)
        ensures
            r == val_lt(self@, other@),
    {
        match (self, other) {
            (ValType::Number(a), ValType::Number(b)) => *a < *b,
            _ => false,
        }
    }

    pub fn le(&self, other: &ValType) -> (r: bool)
        ensures
            r == val_le(self@, other@),
    {
        match (self, other) {
            (ValType::Number(a), ValType::Number(b)) => *a <= *b,
            _ => false,
        }
    }

    pub fn eq(&self, other: &ValType) -> (r: bool)
        ensures
            r == val_eq(self@, other@),
    {
        match (self, other) {
            (ValType::Number(a), ValType::Number(b)) => *a == *b,
            _ => false,
        }
    }

    pub fn ne(&self, other: &ValType) -> (r: bool)
        ensures
            r == val_ne(self@, other@),
    {
        match (self, other) {
            (ValType::Number(a), ValType::Number(b)) => *a != *b,
            _ => false,
        }
    }

    /// The number a value holds; defined only on numbers.
    pub fn to_number(&self) -> (r: i32)
        requires
            self@ is Num,
        ensures
            self@ == ValV::Num(r),
    {
        match self {
            ValType::Number(n) => *n,
            _ => vstd::pervasive::unreached(),
        }
    }
}

impl Clone for ValType {
    /// A clone denotes the same value: its abstraction is unchanged. This is
    /// how sharing a value between a scope and the evaluation result is
    /// modelled.
    fn clone(&self) -> (res: Self)
        ensures
            res@ == self@,
    {
        match self {
            ValType::String(s) => ValType::String(s.clone()),
            ValType::Number(n) => ValType::Number(*n),
            ValType::Boolean(b) => ValType::Boolean(*b),
            ValType::Closure { scope, block, name, args } => ValType::Closure {
                scope: *scope,
                block: Box::new((&**block).clone()),
                name: name.clone(),
                args: clone_ast_vec(args),
            },
        }
    }
}

/// Abstraction of one scope: its bindings and the arena index of its parent.
pub struct ScopeV {
    pub map: Map<Seq<char>, ValV>,
    pub parent: Option<int>,
}

/// Abstraction of a frame: the whole scope arena and the index of the
/// innermost active scope.
pub struct FrameV {
    pub scopes: Seq<ScopeV>,
    pub cur: int,
}

impl FrameV {
    /// The abstraction of a freshly created global frame: one scope, no
    /// parent, no bindings.
    pub open spec fn init() -> FrameV {
        FrameV { scopes: seq![ScopeV { map: Map::empty(), parent: None }], cur: 0 }
    }

    pub open spec fn parent_ok(self, i: int) -> bool {
        match self.scopes[i].parent {
            Some(p) => 0 <= p < i,
            None => true,
        }
    }

    /// Well-formedness: the current scope exists, every parent link points to
    /// an earlier arena slot (so the chain is acyclic and ends at a root),
    /// and every stored closure's captured scope is in the arena.
    pub open spec fn wf(self) -> bool {
        &&& 0 <= self.cur < self.scopes.len()
        &&& forall|i: int| 0 <= i < self.scopes.len() ==> #[trigger] self.parent_ok(i)
        &&& forall|i: int|
            0 <= i < self.scopes.len() ==> vals_ok(
                (#[trigger] self.scopes[i]).map,
                self.scopes.len() as int,
            )
    }

    /// The first binding of `name` found when searching scope `i`, then each
    /// ancestor in order.
    pub open spec fn lookup_from(self, i: int, name: Seq<char>) -> Option<ValV>
        decreases i,
    {
        if 0 <= i < self.scopes.len() {
            if self.scopes[i].map.contains_key(name) {
                Some(self.scopes[i].map[name])
            } else {
                match self.scopes[i].parent {
                    Some(p) => if 0 <= p < i {
                        self.lookup_from(p, name)
                    } else {
                        None
                    },
                    None => None,
                }
            }
        } else {
            None
        }
    }

    /// The binding visible from the current scope.
    pub open spec fn lookup(self, name: Seq<char>) -> Option<ValV> {
        self.lookup_from(self.cur, name)
    }

    pub open spec fn contains(self, name: Seq<char>) -> bool {
        self.lookup(name) is Some
    }

    /// The nearest scope, from `i` outward, that itself holds `name`: the
    /// scope an assignment mutates.
    pub open spec fn target_from(self, i: int, name: Seq<char>) -> Option<int>
        decreases i,
    {
        if 0 <= i < self.scopes.len() {
            if self.scopes[i].map.contains_key(name) {
                Some(i)
            } else {
                match self.scopes[i].parent {
                    Some(p) => if 0 <= p < i {
                        self.target_from(p, name)
                    } else {
                        None
                    },
                    None => None,
                }
            }
        } else {
            None
        }
    }

    /// Declaration: bind `name` in the current scope only, shadowing any
    /// outer binding of the same name.
    pub open spec fn declare(self, name: Seq<char>, v: ValV) -> FrameV {
        FrameV {
            scopes: self.scopes.update(
                self.cur,
                ScopeV {
                    map: self.scopes[self.cur].map.insert(name, v),
                    parent: self.scopes[self.cur].parent,
                },
            ),
            cur: self.cur,
        }
    }

    /// Assignment: overwrite `name` in the nearest scope that already holds
    /// it; fail without mutation when no scope in the chain does.
    pub open spec fn assign(self, name: Seq<char>, v: ValV) -> (FrameV, bool) {
        match self.target_from(self.cur, name) {
            Some(t) => (
                FrameV {
                    scopes: self.scopes.update(
                        t,
                        ScopeV {
                            map: self.scopes[t].map.insert(name, v),
                            parent: self.scopes[t].parent,
                        },
                    ),
                    cur: self.cur,
                },
                true,
            ),
            None => (self, false),
        }
    }

    /// A new innermost scope with the given bindings, linked to the previous
    /// current scope.
    pub open spec fn push_scope(self, map: Map<Seq<char>, ValV>) -> FrameV {
        FrameV {
            scopes: self.scopes.push(ScopeV { map, parent: Some(self.cur) }),
            cur: self.scopes.len() as int,
        }
    }
}

/// Bindings stored as an association list; later entries win, and
/// well-formed scopes keep at most one entry per name.
pub open spec fn bindings_view(s: Seq<(String, ValType)>) -> Map<Seq<char>, ValV>
    decreases s.len(),
{
    if s.len() == 0 {
        Map::empty()
    } else {
        bindings_view(s.drop_last()).insert(s.last().0@, s.last().1@)
    }
}

pub open spec fn keys_unique(s: Seq<(String, ValType)>) -> bool {
    forall|i: int, j: int| 0 <= i < j < s.len() ==> (#[trigger] s[i]).0@ != (#[trigger] s[j]).0@
}

proof fn lemma_bindings_view_index(s: Seq<(String, ValType)>, i: int)
    requires
        keys_unique(s),
        0 <= i < s.len(),
    ensures
        bindings_view(s).contains_key(s[i].0@),
        bindings_view(s)[s[i].0@] == s[i].1@,
    decreases s.len(),
{
    if i < s.len() - 1 {
        assert(s.drop_last()[i] == s[i]);
        lemma_bindings_view_index(s.drop_last(), i);
        assert(s[i].0@ != s.last().0@);
    }
}

proof fn lemma_bindings_view_absent(s: Seq<(String, ValType)>, k: Seq<char>)
    requires
        forall|i: int| 0 <= i < s.len() ==> (#[trigger] s[i]).0@ != k,
    ensures
        !bindings_view(s).contains_key(k),
    decreases s.len(),
{
    if s.len() > 0 {
        assert(forall|i: int|
            0 <= i < s.drop_last().len() ==> (#[trigger] s.drop_last()[i]).0@ != k);
        lemma_bindings_view_absent(s.drop_last(), k);
        assert(s.last() == s[s.len() - 1]);
    }
}

proof fn lemma_bindings_view_push(s: Seq<(String, ValType)>, p: (String, ValType))
    ensures
        bindings_view(s.push(p)) == bindings_view(s).insert(p.0@, p.1@),
{
    assert(s.push(p).drop_last() =~= s);
    assert(s.push(p).last() == p);
}

proof fn lemma_bindings_view_update(s: Seq<(String, ValType)>, i: int, p: (String, ValType))
    requires
        keys_unique(s),
        0 <= i < s.len(),
        s[i].0@ == p.0@,
    ensures
        keys_unique(s.update(i, p)),
        bindings_view(s.update(i, p)) == bindings_view(s).insert(p.0@, p.1@),
    decreases s.len(),
{
    let t = s.update(i, p);
    assert forall|a: int, b: int| 0 <= a < b < t.len() implies (#[trigger] t[a]).0@ != (
    #[trigger] t[b]).0@ by {
        assert(s[a].0@ != s[b].0@);
    }
    if i == s.len() - 1 {
        assert(t.drop_last() =~= s.drop_last());
        assert(t.last() == p);
        assert(bindings_view(t) == bindings_view(s.drop_last()).insert(p.0@, p.1@));
        assert(bindings_view(s.drop_last()).insert(s.last().0@, s.last().1@).insert(p.0@, p.1@)
            =~= bindings_view(s.drop_last()).insert(p.0@, p.1@));
    } else {
        assert(t.drop_last() =~= s.drop_last().update(i, p));
        assert(s.drop_last()[i] == s[i]);
        lemma_bindings_view_update(s.drop_last(), i, p);
        assert(t.last() == s.last());
        assert(s.last().0@ != p.0@);
        assert(bindings_view(s.drop_last()).insert(p.0@, p.1@).insert(s.last().0@, s.last().1@)
            =~= bindings_view(s.drop_last()).insert(s.last().0@, s.last().1@).insert(
            p.0@,
            p.1@,
        ));
    }
}

/// One level of name-to-value bindings plus a link to its parent scope.
#[derive(Debug)]
pub struct ScopeStruct {
    pub play_object: Vec<(String, ValType)>,
    pub parent_scope: Option<usize>,
}

impl View for ScopeStruct {
    type V = ScopeV;

    open spec fn view(&self) -> ScopeV {
        ScopeV {
            map: bindings_view(self.play_object@),
            parent: match self.parent_scope {
                Some(p) => Some(p as int),
                None => None,
            },
        }
    }
}

/// A scope is either a closure scope or a block scope; the two kinds behave
/// identically and the distinction is informational only.
#[derive(Debug)]
pub enum Scope {
    Closure(ScopeStruct),
    Block(ScopeStruct),
}

impl View for Scope {
    type V = ScopeV;

    open spec fn view(&self) -> ScopeV {
        match *self {
            Scope::Closure(ref s) => s@,
            Scope::Block(ref s) => s@,
        }
    }
}

impl ScopeStruct {
    pub open spec fn keys_ok(self) -> bool {
        keys_unique(self.play_object@)
    }

    pub fn new(parent_scope: Option<usize>) -> (s: Self)
        ensures
            s.keys_ok(),
            s@.map == Map::<Seq<char>, ValV>::empty(),
            s@.parent == match parent_scope {
                Some(p) => Some(p as int),
                None => None::<int>,
            },
    {
        ScopeStruct { play_object: Vec::new(), parent_scope }
    }

    /// The value bound to `q` in this scope alone; walking the chain of
    /// parents is the frame's business, since only the frame holds the arena.
    pub fn get(&self, q: &String) -> (r: Option<ValType>)
        requires
            self.keys_ok(),
        ensures
            match r {
                Some(v) => self@.map.contains_key(q@) && v@ == self@.map[q@],
                None => !self@.map.contains_key(q@),
            },
    {
        let n = self.play_object.len();
        for j in 0..n
            invariant
                n == self.play_object@.len(),
                self.keys_ok(),
                forall|m: int| 0 <= m < j ==> (#[trigger] self.play_object@[m]).0@ != q@,
            decreases n - j,
        {
            if self.play_object[j].0.eq(q) {
                proof {
                    lemma_bindings_view_index(self.play_object@, j as int);
                }
                return Some(self.play_object[j].1.clone());
            }
        }
        proof {
            lemma_bindings_view_absent(self.play_object@, q@);
        }
        None
    }

    pub fn get_parent_scope(&self) -> (r: Option<usize>)
        ensures
            self@.parent == match r {
                Some(p) => Some(p as int),
                None => None::<int>,
            },
    {
        self.parent_scope
    }

    /// Whether `q` is bound in this scope alone.
    pub fn contains_key(&self, q: &String) -> (r: bool)
        requires
            self.keys_ok(),
        ensures
            r == self@.map.contains_key(q@),
    {
        let n = self.play_object.len();
        for j in 0..n
            invariant
                n == self.play_object@.len(),
                self.keys_ok(),
                forall|m: int| 0 <= m < j ==> (#[trigger] self.play_object@[m]).0@ != q@,
            decreases n - j,
        {
            if self.play_object[j].0.eq(q) {
                proof {
                    lemma_bindings_view_index(self.play_object@, j as int);
                }
                return true;
            }
        }
        proof {
            lemma_bindings_view_absent(self.play_object@, q@);
        }
        false
    }

    /// Bind in this scope alone: declaration inserts or overwrites; plain
    /// assignment only overwrites and reports failure when `q` is not bound
    /// here.
    pub fn set(&mut self, q: String, val: ValType, is_declare: bool) -> (r: bool)
        requires
            old(self).keys_ok(),
        ensures
            final(self).keys_ok(),
            final(self)@.parent == old(self)@.parent,
            r == (is_declare || old(self)@.map.contains_key(q@)),
            r ==> final(self)@.map == old(self)@.map.insert(q@, val@),
            !r ==> *final(self) == *old(self),
    {
        let n = self.play_object.len();
        for j in 0..n
            invariant
                n == self.play_object@.len(),
                *self == *old(self),
                self.keys_ok(),
                forall|m: int| 0 <= m < j ==> (#[trigger] self.play_object@[m]).0@ != q@,
            decreases n - j,
        {
            if self.play_object[j].0.eq(&q) {
                proof {
                    lemma_bindings_view_index(self.play_object@, j as int);
                    lemma_bindings_view_update(self.play_object@, j as int, (q, val));
                }
                self.play_object.set(j, (q, val));
                return true;
            }
        }
        proof {
            lemma_bindings_view_absent(self.play_object@, q@);
        }
        if is_declare {
            proof {
                lemma_bindings_view_push(self.play_object@, (q, val));
            }
            self.play_object.push((q, val));
            true
        } else {
            false
        }
    }

    pub fn set_parent(&mut self, parent: usize) -> (r: bool)
        ensures
            r,
            final(self)@.map == old(self)@.map,
            final(self)@.parent == Some(parent as int),
            final(self).keys_ok() == old(self).keys_ok(),
    {
        self.parent_scope = Some(parent);
        true
    }
}

impl Scope {
    pub open spec fn keys_ok(self) -> bool {
        match self {
            Scope::Closure(s) => s.keys_ok(),
            Scope::Block(s) => s.keys_ok(),
        }
    }

    pub fn get(&self, q: &String) -> (r: Option<ValType>)
        requires
            self.keys_ok(),
        ensures
            match r {
                Some(v) => self@.map.contains_key(q@) && v@ == self@.map[q@],
                None => !self@.map.contains_key(q@),
            },
    {
        match self {
            Scope::Closure(s) => s.get(q),
            Scope::Block(s) => s.get(q),
        }
    }

    pub fn contains_key(&self, q: &String) -> (r: bool)
        requires
            self.keys_ok(),
        ensures
            r == self@.map.contains_key(q@),
    {
        match self {
            Scope::Closure(s) => s.contains_key(q),
            Scope::Block(s) => s.contains_key(q),
        }
    }

    pub fn get_parent_scope(&self) -> (r: Option<usize>)
        ensures
            self@.parent == match r {
                Some(p) => Some(p as int),
                None => None::<int>,
            },
    {
        match self {
            Scope::Closure(s) => s.get_parent_scope(),
            Scope::Block(s) => s.get_parent_scope(),
        }
    }

    pub fn set(&mut self, q: String, val: ValType, is_declare: bool) -> (r: bool)
        requires
            old(self).keys_ok(),
        ensures
            final(self).keys_ok(),
            final(self)@.parent == old(self)@.parent,
            r == (is_declare || old(self)@.map.contains_key(q@)),
            r ==> final(self)@.map == old(self)@.map.insert(q@, val@),
            !r ==> *final(self) == *old(self),
    {
        match self {
            Scope::Closure(s) => s.set(q, val, is_declare),
            Scope::Block(s) => s.set(q, val, is_declare),
        }
    }

    pub fn set_parent(&mut self, parent: usize) -> (r: bool)
        ensures
            r,
            final(self)@.map == old(self)@.map,
            final(self)@.parent == Some(parent as int),
            final(self).keys_ok() == old(self).keys_ok(),
    {
        match self {
            Scope::Closure(s) => s.set_parent(parent),
            Scope::Block(s) => s.set_parent(parent),
        }
    }
}

/// The evaluator's position: the scope arena together with the index of the
/// innermost active scope.
#[derive(Debug)]
pub struct Frame {
    /// The arena of all scopes created so far; scopes are never removed, so
    /// indices held by closures stay valid.
    pub scopes: Vec<Scope>,
    /// Arena index of the innermost active scope.
    pub scope: usize,
}

impl View for Frame {
    type V = FrameV;

    open spec fn view(&self) -> FrameV {
        FrameV {
            scopes: Seq::new(self.scopes@.len(), |i: int| self.scopes@[i]@),
            cur: self.scope as int,
        }
    }
}

impl Frame {
    /// Well-formedness of the concrete frame: the abstraction is well formed
    /// and every scope keeps one entry per name.
    pub open spec fn wf(self) -> bool {
        &&& self@.wf()
        &&& forall|i: int| 0 <= i < self.scopes@.len() ==> (#[trigger] self.scopes@[i]).keys_ok()
    }

    /// A fresh global frame: one root scope, no bindings.
    pub fn new_global() -> (f: Frame)
        ensures
            f.wf(),
            f@ == FrameV::init(),
    {
        let mut scopes: Vec<Scope> = Vec::new();
        scopes.push(Scope::Block(ScopeStruct { play_object: Vec::new(), parent_scope: None }));
        let f = Frame { scopes, scope: 0 };
        proof {
            assert(f@.scopes =~= FrameV::init().scopes);
        }
        f
    }

    /// Whether `q` is visible from the current scope, searching the chain of
    /// parents outward.
    pub fn contains_key(&self, q: &String) -> (r: bool)
        requires
            self.wf(),
        ensures
            r == self@.contains(q@),
    {
        let mut i: usize = self.scope;
        loop
            invariant
                self.wf(),
                i < self.scopes.len(),
                self@.lookup_from(i as int, q@) == self@.lookup(q@),
            decreases i,
        {
            proof {
                assert(self@.scopes[i as int] == self.scopes@[i as int]@);
                assert(self@.parent_ok(i as int));
            }
            if self.scopes[i].contains_key(q) {
                return true;
            }
            match self.scopes[i].get_parent_scope() {
                Some(p) => {
                    i = p;
                }
                None => {
                    return false;
                }
            }
        }
    }

    /// The first binding of `q` found in the chain, innermost scope first.
    pub fn get(&self, q: &String) -> (r: Option<ValType>)
        requires
            self.wf(),
        ensures
            match r {
                Some(v) => self@.lookup(q@) == Some(v@) && val_ok(
                    v@,
                    self@.scopes.len() as int,
                ),
                None => self@.lookup(q@) is None,
            },
    {
        let mut i: usize = self.scope;
        loop
            invariant
                self.wf(),
                i < self.scopes.len(),
                self@.lookup_from(i as int, q@) == self@.lookup(q@),
            decreases i,
        {
            proof {
                assert(self@.scopes[i as int] == self.scopes@[i as int]@);
                assert(self@.parent_ok(i as int));
                assert(vals_ok(self@.scopes[i as int].map, self@.scopes.len() as int));
            }
            match self.scopes[i].get(q) {
                Some(v) => {
                    return Some(v);
                }
                None => {}
            }
            match self.scopes[i].get_parent_scope() {
                Some(p) => {
                    i = p;
                }
                None => {
                    return None;
                }
            }
        }
    }

    /// Bind `q` to `val`. Declaration binds in the current scope only —
    /// shadowing any outer binding; assignment overwrites the nearest scope
    /// already holding `q` and fails without mutation when none does.
    pub fn set(&mut self, q: String, val: ValType, is_declare: bool) -> (r: bool)
        requires
            old(self).wf(),
            val_ok(val@, old(self)@.scopes.len() as int),
        ensures
            final(self).wf(),
            final(self)@.scopes.len() == old(self)@.scopes.len(),
            is_declare ==> r && final(self)@ == old(self)@.declare(q@, val@),
            !is_declare ==> ({
                let (st2, ok) = old(self)@.assign(q@, val@);
                r == ok && final(self)@ == st2
            }),
    {
        if is_declare {
            let cur = self.scope;
            let r = self.set_in_scope(cur, q, val, true);
            proof {
                assert(self@.scopes =~= old(self)@.declare(q@, val@).scopes);
            }
            r
        } else {
            let mut i: usize = self.scope;
            loop
                invariant
                    !is_declare,
                    self.wf(),
                    *self == *old(self),
                    i < self.scopes.len(),
                    val_ok(val@, self@.scopes.len() as int),
                    self@.target_from(i as int, q@) == self@.target_from(self@.cur, q@),
                decreases i,
            {
                proof {
                    assert(self@.scopes[i as int] == self.scopes@[i as int]@);
                    assert(self@.parent_ok(i as int));
                }
                if self.scopes[i].contains_key(&q) {
                    proof {
                        assert(old(self)@.target_from(old(self)@.cur, q@) == Some(i as int));
                    }
                    let r = self.set_in_scope(i, q, val, false);
                    proof {
                        assert(self@.scopes =~= old(self)@.assign(q@, val@).0.scopes);
                    }
                    return r;
                }
                match self.scopes[i].get_parent_scope() {
                    Some(p) => {
                        i = p;
                    }
                    None => {
                        return false;
                    }
                }
            }
        }
    }

    /// Overwrites or inserts a binding in scope `i` alone.
    fn set_in_scope(&mut self, i: usize, q: String, val: ValType, is_declare: bool) -> (r: bool)
        requires
            old(self).wf(),
            i < old(self)@.scopes.len(),
            val_ok(val@, old(self)@.scopes.len() as int),
            is_declare || old(self)@.scopes[i as int].map.contains_key(q@),
        ensures
            final(self).wf(),
            r,
            final(self).scope == old(self).scope,
            final(self)@.scopes.len() == old(self)@.scopes.len(),
            final(self)@.scopes[i as int].map == old(self)@.scopes[i as int].map.insert(q@, val@),
            final(self)@.scopes[i as int].parent == old(self)@.scopes[i as int].parent,
            forall|j: int|
                0 <= j < old(self)@.scopes.len() && j != i ==> final(self)@.scopes[j] == old(
                    self,
                )@.scopes[j],
    {
        proof {
            assert(old(self)@.scopes[i as int] == old(self).scopes@[i as int]@);
            assert((old(self).scopes@[i as int]).keys_ok());
        }
        let mut tmp = Scope::Block(ScopeStruct { play_object: Vec::new(), parent_scope: None });
        self.scopes.set_and_swap(i, &mut tmp);
        let r = tmp.set(q, val, is_declare);
        self.scopes.set_and_swap(i, &mut tmp);
        proof {
            assert(self.scopes@ =~= old(self).scopes@.update(i as int, self.scopes@[i as int]));
            assert(self@.scopes[i as int] == self.scopes@[i as int]@);
            assert(self@.scopes[i as int].map == old(self)@.scopes[i as int].map.insert(q@, val@));
            assert forall|j: int|
                0 <= j < old(self)@.scopes.len() && j != i implies self@.scopes[j] == old(
                self,
            )@.scopes[j] by {
                assert(self.scopes@[j] == old(self).scopes@[j]);
            }
            assert forall|j: int| 0 <= j < self.scopes@.len() implies (
            #[trigger] self.scopes@[j]).keys_ok() by {
                if j != i {
                    assert((old(self).scopes@[j]).keys_ok());
                }
            }
            assert forall|j: int| 0 <= j < self@.scopes.len() implies #[trigger] self@.parent_ok(
                j,
            ) by {
                assert(old(self)@.parent_ok(j));
            }
            assert forall|j: int| 0 <= j < self@.scopes.len() implies vals_ok(
                (#[trigger] self@.scopes[j]).map,
                self@.scopes.len() as int,
            ) by {
                assert(vals_ok(old(self)@.scopes[j].map, old(self)@.scopes.len() as int));
                if j == i {
                    assert forall|k: Seq<char>| self@.scopes[j].map.contains_key(k) implies val_ok(
                        #[trigger] self@.scopes[j].map[k],
                        self@.scopes.len() as int,
                    ) by {
                        if k != q@ {
                            assert(old(self)@.scopes[j].map.contains_key(k));
                        }
                    }
                }
            }
        }
        r
    }

    /// Makes `new_scope` the current scope, attaching the previous current
    /// scope as its parent.
    pub fn create_scope(&mut self, new_scope: Scope) -> (r: bool)
        requires
            old(self).wf(),
            new_scope.keys_ok(),
            vals_ok(new_scope@.map, old(self)@.scopes.len() as int + 1),
        ensures
            r,
            final(self).wf(),
            final(self)@ == old(self)@.push_scope(new_scope@.map),
    {
        let mut ns = new_scope;
        ns.set_parent(self.scope);
        self.scopes.push(ns);
        self.scope = self.scopes.len() - 1;
        proof {
            let n = old(self)@.scopes.len() as int;
            assert forall|j: int| 0 <= j < self@.scopes.len() implies self@.scopes[j]
                == self.scopes@[j]@ by {}
            assert forall|j: int| 0 <= j < n implies self.scopes@[j] == old(self).scopes@[j] by {}
            assert(self@.scopes =~= old(self)@.push_scope(new_scope@.map).scopes);
            assert forall|j: int| 0 <= j < self.scopes@.len() implies (
            #[trigger] self.scopes@[j]).keys_ok() by {
                if j < n {
                    assert((old(self).scopes@[j]).keys_ok());
                }
            }
            assert forall|j: int| 0 <= j < self@.scopes.len() implies #[trigger] self@.parent_ok(
                j,
            ) by {
                if j < n {
                    assert(old(self)@.parent_ok(j));
                    assert(self@.scopes[j] == old(self)@.scopes[j]);
                }
            }
            assert forall|j: int| 0 <= j < self@.scopes.len() implies vals_ok(
                (#[trigger] self@.scopes[j]).map,
                self@.scopes.len() as int,
            ) by {
                if j < n {
                    assert(vals_ok(old(self)@.scopes[j].map, n));
                    assert(self@.scopes[j] == old(self)@.scopes[j]);
                    assert forall|k: Seq<char>| self@.scopes[j].map.contains_key(k) implies val_ok(
                        #[trigger] self@.scopes[j].map[k],
                        self@.scopes.len() as int,
                    ) by {
                        assert(val_ok(old(self)@.scopes[j].map[k], n));
                    }
                } else {
                    assert(self@.scopes[j].map == new_scope@.map);
                }
            }
        }
        true
    }

    /// Re-enters an existing scope: what a call does with the callee's
    /// captured scope, and what finishing the call does with the caller's.
    pub fn set_current(&mut self, s: usize) -> (r: bool)
        requires
            old(self).wf(),
            (s as int) < old(self)@.scopes.len(),
        ensures
            r,
            final(self).wf(),
            final(self)@ == (FrameV { scopes: old(self)@.scopes, cur: s as int }),
    {
        self.scope = s;
        proof {
            assert(self@.scopes =~= old(self)@.scopes);
            assert forall|j: int| 0 <= j < self@.scopes.len() implies #[trigger] self@.parent_ok(
                j,
            ) by {
                assert(old(self)@.parent_ok(j));
                assert(self@.scopes[j] == old(self)@.scopes[j]);
            }
        }
        true
    }

    /// Restores the current scope to its parent; fails without mutation when
    /// the current scope is the root.
    pub fn drop_scope(&mut self) -> (r: bool)
        requires
            old(self).wf(),
        ensures
            final(self).wf(),
            match old(self)@.scopes[old(self)@.cur].parent {
                Some(p) => r && final(self)@ == (FrameV {
                    scopes: old(self)@.scopes,
                    cur: p,
                }),
                None => !r && final(self)@ == old(self)@,
            },
    {
        proof {
            assert(old(self)@.scopes[old(self)@.cur] == old(self).scopes@[old(self).scope as int]@);
            assert(old(self)@.parent_ok(old(self)@.cur));
        }
        match self.scopes[self.scope].get_parent_scope() {
            Some(p) => {
                self.scope = p;
                proof {
                    assert(self@.scopes =~= old(self)@.scopes);
                    assert forall|j: int|
                        0 <= j < self@.scopes.len() implies #[trigger] self@.parent_ok(j) by {
                        assert(old(self)@.parent_ok(j));
                        assert(self@.scopes[j] == old(self)@.scopes[j]);
                    }
                }
                true
            }
            None => false,
        }
    }
}

} // verus!
