//! The abstract intermediate representation that code generation builds:
//! variables, scopes, basic blocks of statements and their terminators.
use vstd::prelude::*;

use crate::sorted::views;
use crate::types::{SpecType, Type};

verus! {

/// A variable, by its place in the list of variables.
#[derive(Debug, Clone, Copy, PartialEq, Eq, Structural)]
pub struct VarId(pub usize);

/// A scope, by its place in the list of scopes.
#[derive(Debug, Clone, Copy, PartialEq, Eq, Structural)]
pub struct ScopeId(pub usize);

/// A basic block, by its place in the list of blocks.
#[derive(Debug, Clone, Copy, PartialEq, Eq, Structural)]
pub struct BlockId(pub usize);

/// The name under which a value is linked: no name, a card or a version,
/// each given by the 128 bits of its identifier.
#[derive(Debug, Clone, Copy, PartialEq, Eq, Structural)]
pub enum LinkName {
    Unnamed,
    Card(u128),
    Version(u128),
}

/// A value referenced by link: its type and the name it is linked under.
#[derive(Debug)]
pub struct LinkId {
    pub ty: Type,
    pub name: LinkName,
}

/// The statements that building a representation creates by itself: taking
/// a parameter, and taking a linked value.
#[derive(Debug, Clone, Copy, PartialEq, Eq, Structural)]
pub enum AStmt {
    Parameter,
    Link(LinkName),
}

/// A statement whose value is bound to a variable.
#[derive(Debug, Clone, Copy, PartialEq, Eq, Structural)]
pub struct StmtBind {
    pub var: VarId,
    pub stmt: AStmt,
}

/// A case of a match: the type of the matched variant and the block to go
/// to.
#[derive(Debug)]
pub struct MatchCase {
    pub ty: Type,
    pub next: BlockId,
}

/// How a basic block ends.
#[derive(Debug)]
pub enum ATerminator {
    Return(VarId),
    Match { var: VarId, cases: Vec<MatchCase> },
    Goto(BlockId),
}

/// A finished basic block.
#[derive(Debug)]
pub struct ABasicBlock {
    pub stmts: Vec<StmtBind>,
    pub terminator: ATerminator,
}

/// A variable: the scope it belongs to and its type.
#[derive(Debug)]
pub struct AVar {
    pub scope: ScopeId,
    pub ty: Type,
}

/// A scope: the scope it is nested in, if any.
#[derive(Debug)]
pub struct Scope {
    pub super_scope: Option<ScopeId>,
}

/// A built representation of one function.
#[derive(Debug)]
pub struct Amir {
    pub parameters: Vec<Type>,
    pub captured: Vec<Type>,
    pub output: Type,
    pub vars: Vec<AVar>,
    pub scopes: Vec<Scope>,
    pub blocks: Vec<ABasicBlock>,
    pub links: Vec<LinkId>,
}

/// Mathematical model of [`ATerminator`].
pub enum SpecTerminator {
    Return(usize),
    Match { var: usize, cases: Seq<(SpecType, usize)> },
    Goto(usize),
}

/// Mathematical model of [`ABasicBlock`].
pub struct SpecBasicBlock {
    pub stmts: Seq<StmtBind>,
    pub terminator: SpecTerminator,
}

/// Mathematical model of [`AVar`].
pub struct SpecAVar {
    pub scope: usize,
    pub ty: SpecType,
}

/// Mathematical model of [`LinkId`].
pub struct SpecLinkId {
    pub ty: SpecType,
    pub name: LinkName,
}

/// Mathematical model of [`Amir`].
pub struct SpecAmir {
    pub parameters: Seq<SpecType>,
    pub captured: Seq<SpecType>,
    pub output: SpecType,
    pub vars: Seq<SpecAVar>,
    pub scopes: Seq<Option<usize>>,
    pub blocks: Seq<SpecBasicBlock>,
    pub links: Seq<SpecLinkId>,
}

impl View for ATerminator {
    type V = SpecTerminator;

    open spec fn view(&self) -> SpecTerminator {
        match self {
            ATerminator::Return(v) => SpecTerminator::Return(v.0),
            ATerminator::Match { var, cases } => SpecTerminator::Match {
                var: var.0,
                cases: Seq::new(cases@.len(), |i: int| (cases@[i].ty@, cases@[i].next.0)),
            },
            ATerminator::Goto(b) => SpecTerminator::Goto(b.0),
        }
    }
}

impl View for ABasicBlock {
    type V = SpecBasicBlock;

    open spec fn view(&self) -> SpecBasicBlock {
        SpecBasicBlock { stmts: self.stmts@, terminator: self.terminator@ }
    }
}

impl View for AVar {
    type V = SpecAVar;

    open spec fn view(&self) -> SpecAVar {
        SpecAVar { scope: self.scope.0, ty: self.ty@ }
    }
}

impl View for LinkId {
    type V = SpecLinkId;

    open spec fn view(&self) -> SpecLinkId {
        SpecLinkId { ty: self.ty@, name: self.name }
    }
}

impl View for Amir {
    type V = SpecAmir;

    open spec fn view(&self) -> SpecAmir {
        SpecAmir {
            parameters: views(self.parameters@),
            captured: views(self.captured@),
            output: self.output@,
            vars: views(self.vars@),
            scopes: Seq::new(self.scopes@.len(), |i: int| match self.scopes@[i].super_scope {
                Some(s) => Some(s.0),
                None => None,
            }),
            blocks: views(self.blocks@),
            links: views(self.links@),
        }
    }
}

impl AVar {
    /// A copy with the same model.
    pub fn clone_var(&self) -> (r: AVar)
        ensures
            r@ == self@,
    {
        AVar { scope: self.scope, ty: self.ty.clone_type() }
    }
}

impl LinkId {
    /// A copy with the same model.
    pub fn clone_link(&self) -> (r: LinkId)
        ensures
            r@ == self@,
    {
        LinkId { ty: self.ty.clone_type(), name: self.name }
    }
}

} // verus!
