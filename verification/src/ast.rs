//! The program-tree model consumed by the evaluator, together with its
//! mathematical abstraction: identifiers become character sequences, child
//! lists become `Seq`, and declared-type tags are dropped (they are metadata
//! only and never consulted during evaluation).

use vstd::prelude::*;

verus! {

/// Declared type tag carried by declarations. Tags are informational: the
/// evaluator never enforces them.
#[derive(Debug)]
pub enum DeclareType {
    Int,
    String,
    FnType {
        return_type: Option<Box<DeclareType>>,
        argu_list: Box<Vec<DeclareType>>,
    },
}

fn clone_type_vec(v: &Vec<DeclareType>) -> Vec<DeclareType>
    decreases *v,
{
    let mut out: Vec<DeclareType> = Vec::new();
    let n = v.len();
    for i in 0..n
        invariant
            n == v@.len(),
        decreases n - i,
    {
        proof {
            assert(decreases_to!(*v => v@));
            assert(decreases_to!(v@ => v@[i as int]));
        }
        let c = v[i].clone();
        out.push(c);
    }
    out
}

impl Clone for DeclareType {
    /// Type tags carry no meaning at evaluation time, so nothing is claimed
    /// of the copy beyond its existence.
    fn clone(&self) -> Self
        decreases *self,
    {
        match self {
            DeclareType::Int => DeclareType::Int,
            DeclareType::String => DeclareType::String,
            DeclareType::FnType { return_type, argu_list } => DeclareType::FnType {
                return_type: match return_type {
                    Some(t) => Some(Box::new((&**t).clone())),
                    None => None,
                },
                argu_list: Box::new(clone_type_vec(argu_list)),
            },
        }
    }
}

/// One node of the program tree. Trees are produced by an external front end
/// and owned by the evaluator for the duration of one evaluation pass.
#[derive(Debug)]
pub enum AstNodeType {
    Statement {
        child: Box<Vec<AstNodeType>>,
    },
    IntLiteral(i32),
    AdditiveExp {
        child: Vec<AstNodeType>,
    },
    MulitiExp {
        child: Vec<AstNodeType>,
    },
    JudgeExp {
        left: Box<AstNodeType>,
        right: Box<AstNodeType>,
        judge: String,
    },
    IfStatement {
        judge_stat: Box<AstNodeType>,
        if_stat: Box<AstNodeType>,
        else_stat: Option<Box<AstNodeType>>,
    },
    Block {
        statements: Option<Vec<AstNodeType>>,
    },
    Identifier {
        ident: String,
    },
    AssignmentStatement {
        ident: String,
        additive: Box<AstNodeType>,
    },
    FnDeclaration {
        return_type: Option<Box<DeclareType>>,
        identifier: String,
        argu_list: Vec<AstNodeType>,
        block: Box<AstNodeType>,
    },
    FnCall {
        identifier: Box<AstNodeType>,
        argu_list: Vec<AstNodeType>,
    },
    Declaration {
        declare_type: DeclareType,
        identifier: String,
        additive: Option<Box<AstNodeType>>,
    },
    ReturnExp {
        exp: Option<Box<AstNodeType>>,
    },
}

/// Abstraction of a program tree. Identifiers are character sequences and
/// child lists are sequences; declared-type tags do not appear because no
/// evaluation step depends on them.
pub enum AstV {
    Statement { child: Seq<AstV> },
    IntLiteral(i32),
    AdditiveExp { child: Seq<AstV> },
    MulitiExp { child: Seq<AstV> },
    JudgeExp { left: Box<AstV>, right: Box<AstV>, judge: Seq<char> },
    IfStatement { judge_stat: Box<AstV>, if_stat: Box<AstV>, else_stat: Option<Box<AstV>> },
    Block { statements: Option<Seq<AstV>> },
    Identifier { ident: Seq<char> },
    AssignmentStatement { ident: Seq<char>, additive: Box<AstV> },
    FnDeclaration { identifier: Seq<char>, argu_list: Seq<AstV>, block: Box<AstV> },
    FnCall { identifier: Box<AstV>, argu_list: Seq<AstV> },
    Declaration { identifier: Seq<char>, additive: Option<Box<AstV>> },
    ReturnExp { exp: Option<Box<AstV>> },
}

pub open spec fn ast_view(ast: AstNodeType) -> AstV
    decreases ast,
{
    match ast {
        AstNodeType::Statement { child } => AstV::Statement { child: asts_view((*child)@) },
        AstNodeType::IntLiteral(v) => AstV::IntLiteral(v),
        AstNodeType::AdditiveExp { child } => AstV::AdditiveExp { child: asts_view(child@) },
        AstNodeType::MulitiExp { child } => AstV::MulitiExp { child: asts_view(child@) },
        AstNodeType::JudgeExp { left, right, judge } => AstV::JudgeExp {
            left: Box::new(ast_view(*left)),
            right: Box::new(ast_view(*right)),
            judge: judge@,
        },
        AstNodeType::IfStatement { judge_stat, if_stat, else_stat } => AstV::IfStatement {
            judge_stat: Box::new(ast_view(*judge_stat)),
            if_stat: Box::new(ast_view(*if_stat)),
            else_stat: match else_stat {
                Some(e) => Some(Box::new(ast_view(*e))),
                None => None,
            },
        },
        AstNodeType::Block { statements } => AstV::Block {
            statements: match statements {
                Some(s) => Some(asts_view(s@)),
                None => None,
            },
        },
        AstNodeType::Identifier { ident } => AstV::Identifier { ident: ident@ },
        AstNodeType::AssignmentStatement { ident, additive } => AstV::AssignmentStatement {
            ident: ident@,
            additive: Box::new(ast_view(*additive)),
        },
        AstNodeType::FnDeclaration { return_type: _, identifier, argu_list, block } => AstV::FnDeclaration {
            identifier: identifier@,
            argu_list: asts_view(argu_list@),
            block: Box::new(ast_view(*block)),
        },
        AstNodeType::FnCall { identifier, argu_list } => AstV::FnCall {
            identifier: Box::new(ast_view(*identifier)),
            argu_list: asts_view(argu_list@),
        },
        AstNodeType::Declaration { declare_type: _, identifier, additive } => AstV::Declaration {
            identifier: identifier@,
            additive: match additive {
                Some(a) => Some(Box::new(ast_view(*a))),
                None => None,
            },
        },
        AstNodeType::ReturnExp { exp } => AstV::ReturnExp {
            exp: match exp {
                Some(e) => Some(Box::new(ast_view(*e))),
                None => None,
            },
        },
    }
}

pub open spec fn asts_view(asts: Seq<AstNodeType>) -> Seq<AstV>
    decreases asts,
{
    if asts.len() == 0 {
        Seq::empty()
    } else {
        asts_view(asts.drop_last()).push(ast_view(asts.last()))
    }
}

/// The abstraction of a child list is elementwise.
pub proof fn lemma_asts_view(asts: Seq<AstNodeType>)
    ensures
        asts_view(asts).len() == asts.len(),
        forall|i: int| 0 <= i < asts.len() ==> asts_view(asts)[i] == ast_view(#[trigger] asts[i]),
    decreases asts.len(),
{
    if asts.len() > 0 {
        lemma_asts_view(asts.drop_last());
        assert forall|i: int| 0 <= i < asts.len() implies asts_view(asts)[i] == ast_view(
            #[trigger] asts[i],
        ) by {
            if i < asts.len() - 1 {
                assert(asts.drop_last()[i] == asts[i]);
            } else {
                assert(asts[i] == asts.last());
            }
        }
    }
}

impl View for AstNodeType {
    type V = AstV;

    open spec fn view(&self) -> AstV {
        ast_view(*self)
    }
}

/// Clones every node of a child list, preserving the abstraction of each
/// element and of the list as a whole.
pub(crate) fn clone_ast_vec(v: &Vec<AstNodeType>) -> (res: Vec<AstNodeType>)
    ensures
        res@.len() == v@.len(),
        asts_view(res@) == asts_view(v@),
    decreases *v,
{
    let mut out: Vec<AstNodeType> = Vec::new();
    let n = v.len();
    for i in 0..n
        invariant
            n == v@.len(),
            out@.len() == i,
            forall|j: int| 0 <= j < i ==> ast_view(#[trigger] out@[j]) == ast_view(v@[j]),
        decreases n - i,
    {
        proof {
            assert(decreases_to!(*v => v@));
            assert(decreases_to!(v@ => v@[i as int]));
        }
        let c = v[i].clone();
        out.push(c);
    }
    proof {
        lemma_asts_view(out@);
        lemma_asts_view(v@);
        assert forall|j: int| 0 <= j < n implies asts_view(out@)[j] == asts_view(v@)[j] by {
            assert(ast_view(out@[j]) == ast_view(v@[j]));
        }
        assert(asts_view(out@) =~= asts_view(v@));
    }
    out
}

impl Clone for AstNodeType {
    /// A clone denotes the same program tree: its abstraction is unchanged.
    fn clone(&self) -> (res: Self)
        ensures
            res@ == self@,
        decreases *self,
    {
        match self {
            AstNodeType::Statement { child } => AstNodeType::Statement {
                child: Box::new(clone_ast_vec(child)),
            },
            AstNodeType::IntLiteral(v) => AstNodeType::IntLiteral(*v),
            AstNodeType::AdditiveExp { child } => AstNodeType::AdditiveExp {
                child: clone_ast_vec(child),
            },
            AstNodeType::MulitiExp { child } => AstNodeType::MulitiExp {
                child: clone_ast_vec(child),
            },
            AstNodeType::JudgeExp { left, right, judge } => AstNodeType::JudgeExp {
                left: Box::new((&**left).clone()),
                right: Box::new((&**right).clone()),
                judge: judge.clone(),
            },
            AstNodeType::IfStatement { judge_stat, if_stat, else_stat } => AstNodeType::IfStatement {
                judge_stat: Box::new((&**judge_stat).clone()),
                if_stat: Box::new((&**if_stat).clone()),
                else_stat: match else_stat {
                    Some(e) => Some(Box::new((&**e).clone())),
                    None => None,
                },
            },
            AstNodeType::Block { statements } => AstNodeType::Block {
                statements: match statements {
                    Some(s) => Some(clone_ast_vec(s)),
                    None => None,
                },
            },
            AstNodeType::Identifier { ident } => AstNodeType::Identifier { ident: ident.clone() },
            AstNodeType::AssignmentStatement { ident, additive } => AstNodeType::AssignmentStatement {
                ident: ident.clone(),
                additive: Box::new((&**additive).clone()),
            },
            AstNodeType::FnDeclaration { return_type, identifier, argu_list, block } => AstNodeType::FnDeclaration {
                return_type: match return_type {
                    Some(t) => Some(Box::new((&**t).clone())),
                    None => None,
                },
                identifier: identifier.clone(),
                argu_list: clone_ast_vec(argu_list),
                block: Box::new((&**block).clone()),
            },
            AstNodeType::FnCall { identifier, argu_list } => AstNodeType::FnCall {
                identifier: Box::new((&**identifier).clone()),
                argu_list: clone_ast_vec(argu_list),
            },
            AstNodeType::Declaration { declare_type, identifier, additive } => AstNodeType::Declaration {
                declare_type: declare_type.clone(),
                identifier: identifier.clone(),
                additive: match additive {
                    Some(a) => Some(Box::new((&**a).clone())),
                    None => None,
                },
            },
            AstNodeType::ReturnExp { exp } => AstNodeType::ReturnExp {
                exp: match exp {
                    Some(e) => Some(Box::new((&**e).clone())),
                    None => None,
                },
            },
        }
    }
}

} // verus!
