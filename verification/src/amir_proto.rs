//! The state of building the representation of one function: the scopes and
//! their named variables, the blocks being built or finished, the variables,
//! and the stacks of current scopes and blocks.
use vstd::prelude::*;

use crate::amir::{
    ABasicBlock, AStmt, ATerminator, AVar, Amir, BlockId, LinkId, LinkName, Scope, ScopeId, SpecAVar,
    SpecAmir, SpecBasicBlock, SpecLinkId, SpecTerminator, StmtBind, VarId,
};
use crate::sorted::views;
use crate::types::{SpecType, Type};

verus! {

/// Pairs of a type and a variable, by their models.
pub open spec fn pairs_view(s: Seq<(Type, VarId)>) -> Seq<(SpecType, usize)> {
    Seq::new(s.len(), |i: int| (s[i].0@, s[i].1.0))
}

/// The place of the first pair whose type is `k`, or -1 when there is none.
pub open spec fn assoc_pos(s: Seq<(SpecType, usize)>, k: SpecType) -> int
    decreases s.len(),
{
    if s.len() == 0 {
        -1
    } else if s[0].0 == k {
        0
    } else {
        let p = assoc_pos(s.drop_first(), k);
        if p < 0 { -1 } else { p + 1 }
    }
}

/// The variable paired with the type `k`.
pub open spec fn assoc_get(s: Seq<(SpecType, usize)>, k: SpecType) -> Option<usize> {
    let p = assoc_pos(s, k);
    if p < 0 { None } else { Some(s[p].1) }
}

/// The pairs with `k` paired with `v`: in place of its pair, or at the end.
pub open spec fn assoc_insert(s: Seq<(SpecType, usize)>, k: SpecType, v: usize) -> Seq<(SpecType, usize)> {
    let p = assoc_pos(s, k);
    if p < 0 { s.push((k, v)) } else { s.update(p, (k, v)) }
}

pub proof fn lemma_assoc_pos(s: Seq<(SpecType, usize)>, k: SpecType)
    ensures
        -1 <= assoc_pos(s, k) < s.len(),
        assoc_pos(s, k) >= 0 ==> s[assoc_pos(s, k)].0 == k,
        forall|j: int| 0 <= j < assoc_pos(s, k) ==> s[j].0 != k,
        assoc_pos(s, k) == -1 ==> forall|j: int| 0 <= j < s.len() ==> s[j].0 != k,
    decreases s.len(),
{
    if s.len() > 0 {
        lemma_assoc_pos(s.drop_first(), k);
        if s[0].0 != k {
            assert forall|j: int| 0 <= j < s.len() && assoc_pos(s, k) == -1 implies s[j].0 != k by {
                if j > 0 {
                    assert(s[j] == s.drop_first()[j - 1]);
                }
            }
            assert forall|j: int| 0 <= j < assoc_pos(s, k) implies s[j].0 != k by {
                if j > 0 {
                    assert(s[j] == s.drop_first()[j - 1]);
                }
            }
        }
    }
}

/// The place of the pair whose type has the model of `k`.
fn assoc_find(s: &Vec<(Type, VarId)>, k: &Type) -> (r: Option<usize>)
    ensures
        match r {
            Some(i) => i < s@.len() && i == assoc_pos(pairs_view(s@), k@),
            None => assoc_pos(pairs_view(s@), k@) == -1,
        },
{
    let ghost p = pairs_view(s@);
    proof { lemma_assoc_pos(p, k@); }
    let mut i: usize = 0;
    while i < s.len()
        invariant
            i <= s@.len(),
            p == pairs_view(s@),
            forall|j: int| 0 <= j < i ==> p[j].0 != k@,
            -1 <= assoc_pos(p, k@) < p.len(),
            assoc_pos(p, k@) == -1 ==> forall|j: int| 0 <= j < p.len() ==> p[j].0 != k@,
            assoc_pos(p, k@) >= 0 ==> p[assoc_pos(p, k@)].0 == k@,
            forall|j: int| 0 <= j < assoc_pos(p, k@) ==> p[j].0 != k@,
        decreases s@.len() - i,
    {
        if s[i].0.same(k) {
            assert(p[i as int].0 == k@);
            return Some(i);
        }
        i += 1;
    }
    None
}

/// A scope being built: the scope it is nested in and its named variables,
/// at most one for each type.
#[derive(Debug)]
pub struct ScopeProto {
    pub super_id: Option<ScopeId>,
    pub named_vars: Vec<(Type, VarId)>,
}

/// Mathematical model of [`ScopeProto`].
pub struct SpecScopeProto {
    pub super_id: Option<usize>,
    pub named_vars: Seq<(SpecType, usize)>,
}

impl View for ScopeProto {
    type V = SpecScopeProto;

    open spec fn view(&self) -> SpecScopeProto {
        SpecScopeProto {
            super_id: match self.super_id {
                Some(s) => Some(s.0),
                None => None,
            },
            named_vars: pairs_view(self.named_vars@),
        }
    }
}

impl ScopeProto {
    /// The scope as it stands in the built representation.
    pub fn into_scope(self) -> (r: Scope)
        ensures
            r.super_scope == self.super_id,
    {
        Scope { super_scope: self.super_id }
    }
}

/// A block being built: its statements so far.
#[derive(Debug)]
pub struct BlockProto {
    pub stmts: Vec<StmtBind>,
}

impl BlockProto {
    /// Appends a bound statement.
    pub fn push_stmt_bind(&mut self, stmt_bind: StmtBind)
        ensures
            final(self).stmts@ == old(self).stmts@.push(stmt_bind),
    {
        self.stmts.push(stmt_bind);
    }
}

/// A block, being built or finished.
#[derive(Debug)]
pub enum BlockState {
    Building(BlockProto),
    Finished(ABasicBlock),
}

/// Mathematical model of [`BlockState`].
pub enum SpecBlock {
    Building(Seq<StmtBind>),
    Finished(SpecBasicBlock),
}

impl View for BlockState {
    type V = SpecBlock;

    open spec fn view(&self) -> SpecBlock {
        match self {
            BlockState::Building(p) => SpecBlock::Building(p.stmts@),
            BlockState::Finished(b) => SpecBlock::Finished(b@),
        }
    }
}

/// The state of building the representation of one function.
///
/// Blocks are kept in one list indexed by their identifiers, each being
/// built or finished; a new block takes the next identifier.
#[derive(Debug)]
pub struct AmirProto {
    parameters: Vec<Type>,
    scopes: Vec<ScopeProto>,
    blocks: Vec<BlockState>,
    vars: Vec<AVar>,
    current_scope: Vec<ScopeId>,
    current_block: Vec<BlockId>,
    deferred_block: Vec<BlockId>,
    captured_values: Vec<(Type, VarId)>,
    links: Vec<LinkId>,
}

/// Mathematical model of [`AmirProto`].
pub struct SpecAmirProto {
    pub parameters: Seq<SpecType>,
    pub scopes: Seq<SpecScopeProto>,
    pub blocks: Seq<SpecBlock>,
    pub vars: Seq<SpecAVar>,
    pub current_scope: Seq<usize>,
    pub current_block: Seq<usize>,
    pub deferred_block: Seq<usize>,
    /// The types referenced but not bound in any enclosing scope, each with
    /// the parameter variable that stands for it.
    pub captured_values: Seq<(SpecType, usize)>,
    pub links: Seq<SpecLinkId>,
}

pub open spec fn ids_view<T>(s: Seq<T>, f: spec_fn(T) -> usize) -> Seq<usize> {
    Seq::new(s.len(), |i: int| f(s[i]))
}

impl View for AmirProto {
    type V = SpecAmirProto;

    closed spec fn view(&self) -> SpecAmirProto {
        SpecAmirProto {
            parameters: views(self.parameters@),
            scopes: views(self.scopes@),
            blocks: views(self.blocks@),
            vars: views(self.vars@),
            current_scope: Seq::new(self.current_scope@.len(), |i: int| self.current_scope@[i].0),
            current_block: Seq::new(self.current_block@.len(), |i: int| self.current_block@[i].0),
            deferred_block: Seq::new(self.deferred_block@.len(), |i: int| self.deferred_block@[i].0),
            captured_values: pairs_view(self.captured_values@),
            links: views(self.links@),
        }
    }
}

impl SpecAmirProto {
    /// The blocks on the stack of current blocks or of deferred blocks.
    pub open spec fn stacked(self) -> Seq<usize> {
        self.current_block + self.deferred_block
    }

    /// The invariant of the building state: scopes are nested only in
    /// earlier scopes, every scope and block referred to exists, no block is
    /// on the stacks twice, and a block is being built exactly when it is on
    /// one of the stacks.
    pub open spec fn wf(self) -> bool {
        &&& forall|i: int| 0 <= i < self.scopes.len() ==> ((#[trigger] self.scopes[i]).super_id matches Some(p) ==> p < i)
        &&& forall|j: int| 0 <= j < self.current_scope.len() ==> #[trigger] self.current_scope[j] < self.scopes.len()
        &&& forall|j: int| 0 <= j < self.vars.len() ==> (#[trigger] self.vars[j]).scope < self.scopes.len()
        &&& forall|j: int| 0 <= j < self.stacked().len() ==> #[trigger] self.stacked()[j] < self.blocks.len()
        &&& self.stacked().no_duplicates()
        &&& forall|b: int|
            0 <= b < self.blocks.len() ==> ((#[trigger] self.blocks[b] is Building) <==> self.stacked().contains(
                b as usize,
            ))
    }

    pub open spec fn current_scope_id(self) -> usize {
        self.current_scope.last()
    }

    pub open spec fn current_block_id(self) -> usize {
        self.current_block.last()
    }

    /// The state with `stmt` bound to `var` at the end of the current block.
    pub open spec fn bind_to(self, var: usize, stmt: AStmt) -> SpecAmirProto {
        let b = self.current_block_id();
        SpecAmirProto {
            blocks: self.blocks.update(
                b as int,
                SpecBlock::Building(self.blocks[b as int]->Building_0.push(StmtBind { var: VarId(var), stmt })),
            ),
            ..self
        }
    }

    /// The state with a new variable of type `ty` in the current scope.
    pub open spec fn create_var(self, ty: SpecType) -> SpecAmirProto {
        SpecAmirProto { vars: self.vars.push(SpecAVar { scope: self.current_scope_id(), ty }), ..self }
    }

    /// The variable named by `ty` in the scope `id` or, nearest first, in
    /// the scopes it is nested in.
    pub open spec fn find_in_scopes(self, id: usize, ty: SpecType) -> Option<usize>
        decreases id,
    {
        if id >= self.scopes.len() {
            None
        } else {
            match assoc_get(self.scopes[id as int].named_vars, ty) {
                Some(v) => Some(v),
                None => match self.scopes[id as int].super_id {
                    Some(p) => if p < id { self.find_in_scopes(p, ty) } else { None },
                    None => None,
                },
            }
        }
    }

    /// The variable that stands for `ty` and the state afterwards: the
    /// nearest named variable of that type, else the parameter already
    /// captured for it, else a new parameter variable, captured and bound in
    /// the current block.
    /// Whether a variable for `ty` is already there: named in the current
    /// scopes or captured.
    pub open spec fn has_var_for(self, ty: SpecType) -> bool {
        self.find_in_scopes(self.current_scope_id(), ty) is Some || assoc_get(self.captured_values, ty) is Some
    }

    pub open spec fn find_var(self, ty: SpecType) -> (usize, SpecAmirProto) {
        match self.find_in_scopes(self.current_scope_id(), ty) {
            Some(v) => (v, self),
            None => match assoc_get(self.captured_values, ty) {
                Some(v) => (v, self),
                None => {
                    let v = self.vars.len() as usize;
                    let s1 = self.create_var(ty);
                    let s2 = SpecAmirProto { captured_values: s1.captured_values.push((ty, v)), ..s1 };
                    (v, s2.bind_to(v, AStmt::Parameter))
                },
            },
        }
    }

    /// The state with a new scope, nested in the current one, as the current
    /// scope.
    pub open spec fn begin_scope(self) -> SpecAmirProto {
        SpecAmirProto {
            current_scope: self.current_scope.push(self.scopes.len() as usize),
            scopes: self.scopes.push(SpecScopeProto { super_id: Some(self.current_scope_id()), named_vars: seq![] }),
            ..self
        }
    }

    /// The state with the innermost current scope closed.
    pub open spec fn end_scope(self) -> SpecAmirProto {
        SpecAmirProto {
            current_scope: if self.current_scope.len() > 0 {
                self.current_scope.drop_last()
            } else {
                self.current_scope
            },
            ..self
        }
    }

    /// The state with a new block, with the next identifier, as the current
    /// block.
    pub open spec fn begin_block(self) -> SpecAmirProto {
        SpecAmirProto {
            current_block: self.current_block.push(self.blocks.len() as usize),
            blocks: self.blocks.push(SpecBlock::Building(seq![])),
            ..self
        }
    }

    /// The state with the current block moved to the deferred blocks.
    pub open spec fn defer_block(self) -> SpecAmirProto {
        SpecAmirProto {
            current_block: self.current_block.drop_last(),
            deferred_block: self.deferred_block.push(self.current_block_id()),
            ..self
        }
    }

    /// The state with the last deferred block back as the current block.
    pub open spec fn pop_deferred_block(self) -> SpecAmirProto {
        SpecAmirProto {
            current_block: self.current_block.push(self.deferred_block.last()),
            deferred_block: self.deferred_block.drop_last(),
            ..self
        }
    }

    /// The state with the current block finished by `terminator`.
    pub open spec fn end_block(self, terminator: SpecTerminator) -> SpecAmirProto {
        let b = self.current_block_id();
        SpecAmirProto {
            current_block: self.current_block.drop_last(),
            blocks: self.blocks.update(
                b as int,
                SpecBlock::Finished(SpecBasicBlock { stmts: self.blocks[b as int]->Building_0, terminator }),
            ),
            ..self
        }
    }

    /// The state with `var` named, in the current scope, by its type
    /// without effects.
    pub open spec fn create_named_var(self, var: usize) -> SpecAmirProto {
        let c = self.current_scope_id();
        let scope = self.scopes[c as int];
        SpecAmirProto {
            scopes: self.scopes.update(
                c as int,
                SpecScopeProto {
                    named_vars: assoc_insert(scope.named_vars, without_effects(self.vars[var as int].ty), var),
                    ..scope
                },
            ),
            ..self
        }
    }

    /// The finished blocks once the current block returns `var`.
    pub open spec fn finished_blocks(self, var: usize) -> Seq<SpecBasicBlock> {
        let b = self.current_block_id();
        Seq::new(
            self.blocks.len(),
            |i: int|
                if i == b {
                    SpecBasicBlock { stmts: self.blocks[i]->Building_0, terminator: SpecTerminator::Return(var) }
                } else {
                    self.blocks[i]->Finished_0
                },
        )
    }

    /// The built representation once the current block returns `var`.
    pub open spec fn into_amir(self, var: usize, output: SpecType) -> SpecAmir {
        SpecAmir {
            parameters: self.parameters,
            captured: Seq::new(self.captured_values.len(), |i: int| self.captured_values[i].0),
            output,
            vars: self.vars,
            scopes: Seq::new(self.scopes.len(), |i: int| self.scopes[i].super_id),
            blocks: self.finished_blocks(var),
            links: self.links,
        }
    }
}

/// The type without its effects, if it has any.
pub open spec fn without_effects(t: SpecType) -> SpecType {
    match t {
        SpecType::Effectful { ty, effects: _ } => *ty,
        _ => t,
    }
}

impl Default for AmirProto {
    /// The building state of a function: one scope, one block being built.
    fn default() -> (r: AmirProto)
        ensures
            r@.wf(),
            r@.parameters.len() == 0,
            r@.scopes == seq![SpecScopeProto { super_id: None, named_vars: seq![] }],
            r@.blocks == seq![SpecBlock::Building(seq![])],
            r@.vars.len() == 0,
            r@.current_scope == seq![0usize],
            r@.current_block == seq![0usize],
            r@.deferred_block.len() == 0,
            r@.captured_values.len() == 0,
            r@.links.len() == 0,
    {
        AmirProto::new()
    }
}

impl AmirProto {
    /// The building state of a function: one scope, one block being built.
    pub fn new() -> (r: AmirProto)
        ensures
            r@.wf(),
            r@.parameters.len() == 0,
            r@.scopes == seq![SpecScopeProto { super_id: None, named_vars: seq![] }],
            r@.blocks == seq![SpecBlock::Building(seq![])],
            r@.vars.len() == 0,
            r@.current_scope == seq![0usize],
            r@.current_block == seq![0usize],
            r@.deferred_block.len() == 0,
            r@.captured_values.len() == 0,
            r@.links.len() == 0,
    {
        let mut scopes: Vec<ScopeProto> = Vec::new();
        scopes.push(ScopeProto { super_id: None, named_vars: Vec::new() });
        let mut blocks: Vec<BlockState> = Vec::new();
        blocks.push(BlockState::Building(BlockProto { stmts: Vec::new() }));
        let mut current_scope: Vec<ScopeId> = Vec::new();
        current_scope.push(ScopeId(0));
        let mut current_block: Vec<BlockId> = Vec::new();
        current_block.push(BlockId(0));
        let r = AmirProto {
            parameters: Vec::new(),
            scopes,
            blocks,
            vars: Vec::new(),
            current_scope,
            current_block,
            deferred_block: Vec::new(),
            captured_values: Vec::new(),
            links: Vec::new(),
        };
        proof {
            assert(r@.scopes =~= seq![SpecScopeProto { super_id: None, named_vars: seq![] }]) by {
                assert(pairs_view(r.scopes@[0].named_vars@) =~= seq![]);
            }
            assert(r@.blocks =~= seq![SpecBlock::Building(seq![])]);
            assert(r@.current_scope =~= seq![0usize]);
            assert(r@.current_block =~= seq![0usize]);
            assert(r@.stacked() =~= seq![0usize]);
            assert(r@.stacked()[0] == 0);
            assert(r@.blocks[0] is Building);
        }
        r
    }

    /// The innermost current scope.
    pub fn current_scope_id(&self) -> (r: ScopeId)
        requires
            self@.current_scope.len() > 0,
        ensures
            r.0 == self@.current_scope_id(),
    {
        *self.current_scope.last().unwrap()
    }

    /// The scope `id`.
    pub fn get_scope(&self, id: &ScopeId) -> (r: &ScopeProto)
        requires
            id.0 < self@.scopes.len(),
        ensures
            r@ == self@.scopes[id.0 as int],
    {
        &self.scopes[id.0]
    }

    /// The innermost current scope.
    pub fn current_scope(&self) -> (r: &ScopeProto)
        requires
            self@.wf(),
            self@.current_scope.len() > 0,
        ensures
            r@ == self@.scopes[self@.current_scope_id() as int],
    {
        let id = self.current_scope_id();
        assert(self@.current_scope[self@.current_scope.len() - 1] < self@.scopes.len());
        self.get_scope(&id)
    }

    /// The innermost current block.
    pub fn current_block_id(&self) -> (r: BlockId)
        requires
            self@.current_block.len() > 0,
        ensures
            r.0 == self@.current_block_id(),
    {
        *self.current_block.last().unwrap()
    }

    /// The variable `var`.
    pub fn get_var(&self, var: &VarId) -> (r: &AVar)
        requires
            var.0 < self@.vars.len(),
        ensures
            r@ == self@.vars[var.0 as int],
    {
        &self.vars[var.0]
    }

    /// Binds `stmt` to `var` at the end of the current block.
    pub fn bind_to(&mut self, var: VarId, stmt: AStmt) -> (r: VarId)
        requires
            old(self)@.wf(),
            old(self)@.current_block.len() > 0,
        ensures
            r == var,
            final(self)@ == old(self)@.bind_to(var.0, stmt),
            final(self)@.wf(),
    {
        let b = self.current_block_id();
        proof {
            let s = self@;
            assert(s.stacked()[s.current_block.len() - 1] == s.current_block_id());
            assert(s.stacked().contains(s.current_block_id()));
        }
        let ghost before = self@;
        let mut slot = BlockState::Building(BlockProto { stmts: Vec::new() });
        std::mem::swap(&mut self.blocks[b.0], &mut slot);
        let slot = match slot {
            BlockState::Building(mut proto) => {
                proto.push_stmt_bind(StmtBind { var, stmt });
                BlockState::Building(proto)
            },
            other => other,
        };
        self.blocks.set(b.0, slot);
        proof {
            assert(self@.blocks =~= before.blocks.update(
                b.0 as int,
                SpecBlock::Building(before.blocks[b.0 as int]->Building_0.push(StmtBind { var, stmt })),
            ));
            assert(self@ == before.bind_to(var.0, stmt));
        }
        var
    }

    /// A new variable of type `ty` in the current scope.
    pub fn create_var(&mut self, ty: Type) -> (r: VarId)
        requires
            old(self)@.wf(),
            old(self)@.current_scope.len() > 0,
        ensures
            r.0 == old(self)@.vars.len(),
            final(self)@ == old(self)@.create_var(ty@),
            final(self)@.wf(),
    {
        let id = VarId(self.vars.len());
        let scope = self.current_scope_id();
        let ghost before = self@;
        self.vars.push(AVar { scope, ty });
        proof {
            assert(self@.vars =~= before.vars.push(SpecAVar { scope: scope.0, ty: ty@ }));
            assert(before.current_scope[before.current_scope.len() - 1] < before.scopes.len());
        }
        id
    }

    /// A new variable of type `ty` with `stmt` bound to it.
    pub fn bind_stmt(&mut self, ty: Type, stmt: AStmt) -> (r: VarId)
        requires
            old(self)@.wf(),
            old(self)@.current_scope.len() > 0,
            old(self)@.current_block.len() > 0,
        ensures
            r.0 == old(self)@.vars.len(),
            final(self)@ == old(self)@.create_var(ty@).bind_to(r.0, stmt),
            final(self)@.wf(),
    {
        let var = self.create_var(ty);
        self.bind_to(var, stmt)
    }

    /// A new variable of type `ty` bound to the value linked under `name`;
    /// the link is recorded once.
    pub fn bind_link(&mut self, ty: Type, name: LinkName) -> (r: VarId)
        requires
            old(self)@.wf(),
            old(self)@.current_scope.len() > 0,
            old(self)@.current_block.len() > 0,
        ensures
            r.0 == old(self)@.vars.len(),
            final(self)@.wf(),
            final(self)@.links == if old(self)@.links.contains(SpecLinkId { ty: ty@, name }) {
                old(self)@.links
            } else {
                old(self)@.links.push(SpecLinkId { ty: ty@, name })
            },
            (SpecAmirProto { links: old(self)@.links, ..final(self)@ })
                == old(self)@.create_var(ty@).bind_to(r.0, AStmt::Link(name)),
    {
        let link = LinkId { ty: ty.clone_type(), name };
        let ghost lv = link@;
        let mut found = false;
        let mut i: usize = 0;
        while i < self.links.len() && !found
            invariant
                i <= self.links@.len(),
                lv == link@,
                found ==> self@.links.contains(lv),
                !found ==> forall|j: int| 0 <= j < i ==> self@.links[j] != lv,
            decreases self.links@.len() - i,
        {
            if self.links[i].ty.same(&link.ty) && self.links[i].name == link.name {
                assert(self@.links[i as int] == lv);
                found = true;
            }
            i += 1;
        }
        let ghost before = self@;
        if !found {
            self.links.push(link);
            proof { assert(self@.links =~= before.links.push(lv)); }
        }
        proof {
            if found {
                assert(before.links.contains(lv));
            } else {
                assert(!before.links.contains(lv));
            }
        }
        self.bind_stmt(ty, AStmt::Link(name))
    }

    /// Opens a scope nested in the current one.
    pub fn begin_scope(&mut self)
        requires
            old(self)@.wf(),
            old(self)@.current_scope.len() > 0,
        ensures
            final(self)@ == old(self)@.begin_scope(),
            final(self)@.wf(),
    {
        let super_scope_id = self.current_scope_id();
        let id = ScopeId(self.scopes.len());
        let ghost before = self@;
        self.current_scope.push(id);
        self.scopes.push(ScopeProto { super_id: Some(super_scope_id), named_vars: Vec::new() });
        proof {
            assert(pairs_view(self.scopes@[id.0 as int].named_vars@) =~= seq![]);
            assert(self@.scopes =~= before.scopes.push(
                SpecScopeProto { super_id: Some(super_scope_id.0), named_vars: seq![] },
            ));
            assert(self@.current_scope =~= before.current_scope.push(id.0));
            assert(before.current_scope[before.current_scope.len() - 1] < before.scopes.len());
        }
    }

    /// Closes the innermost current scope and gives back `var`.
    pub fn end_scope_then_return<T>(&mut self, var: T) -> (r: T)
        requires
            old(self)@.wf(),
        ensures
            r == var,
            final(self)@ == old(self)@.end_scope(),
            final(self)@.wf(),
    {
        let ghost before = self@;
        self.current_scope.pop();
        proof {
            if before.current_scope.len() > 0 {
                assert(self@.current_scope =~= before.current_scope.drop_last());
            } else {
                assert(self@.current_scope =~= before.current_scope);
            }
        }
        var
    }

    /// Opens a new block, with the next identifier, as the current block.
    pub fn begin_block(&mut self) -> (r: BlockId)
        requires
            old(self)@.wf(),
        ensures
            r.0 == old(self)@.blocks.len(),
            final(self)@ == old(self)@.begin_block(),
            final(self)@.wf(),
    {
        let id = BlockId(self.blocks.len());
        let ghost before = self@;
        self.current_block.push(id);
        self.blocks.push(BlockState::Building(BlockProto { stmts: Vec::new() }));
        proof {
            let s = self@;
            assert(s.current_block =~= before.current_block.push(id.0));
            assert(s.blocks =~= before.blocks.push(SpecBlock::Building(seq![])));
            assert(!before.stacked().contains(id.0));
            assert forall|x: usize| s.stacked().contains(x) <==> (before.stacked().contains(x) || x == id.0) by {
                if s.stacked().contains(x) {
                    let k = choose|k: int| 0 <= k < s.stacked().len() && s.stacked()[k] == x;
                    if k < before.current_block.len() {
                        assert(before.stacked()[k] == x);
                    } else if k > before.current_block.len() {
                        assert(before.stacked()[k - 1] == x);
                    }
                }
                if before.stacked().contains(x) {
                    let k = choose|k: int| 0 <= k < before.stacked().len() && before.stacked()[k] == x;
                    if k < before.current_block.len() {
                        assert(s.stacked()[k] == x);
                    } else {
                        assert(s.stacked()[k + 1] == x);
                    }
                }
                if x == id.0 {
                    assert(s.stacked()[before.current_block.len() as int] == x);
                }
            }
            assert(s.stacked().no_duplicates()) by {
                assert forall|a: int, b: int| 0 <= a < b < s.stacked().len() implies s.stacked()[a] != s.stacked()[b] by {
                    let n = before.current_block.len() as int;
                    let ia = if a < n { a } else if a == n { -1 } else { a - 1 };
                    let ib = if b < n { b } else if b == n { -1 } else { b - 1 };
                    if a == n {
                        assert(before.stacked().contains(s.stacked()[b]) || s.stacked()[b] == id.0);
                        assert(before.stacked()[ib] == s.stacked()[b]);
                    } else if b == n {
                        assert(before.stacked()[ia] == s.stacked()[a]);
                    } else {
                        assert(before.stacked()[ia] == s.stacked()[a]);
                        assert(before.stacked()[ib] == s.stacked()[b]);
                    }
                }
            }
            assert forall|x: int| 0 <= x < s.blocks.len() implies ((#[trigger] s.blocks[x] is Building)
                <==> s.stacked().contains(x as usize)) by {
                if x < before.blocks.len() {
                    assert(s.blocks[x] == before.blocks[x]);
                    assert(before.blocks[x] is Building <==> before.stacked().contains(x as usize));
                    assert((x as usize) != id.0);
                } else {
                    assert(x == id.0);
                }
            }
            assert forall|j: int| 0 <= j < s.stacked().len() implies #[trigger] s.stacked()[j] < s.blocks.len() by {
                assert(before.stacked().contains(s.stacked()[j]) || s.stacked()[j] == id.0);
                if before.stacked().contains(s.stacked()[j]) {
                    let k = choose|k: int| 0 <= k < before.stacked().len() && before.stacked()[k] == s.stacked()[j];
                    assert(before.stacked()[k] < before.blocks.len());
                }
            }
        }
        id
    }

    /// Moves the current block to the stack of deferred blocks.
    pub fn defer_block(&mut self)
        requires
            old(self)@.wf(),
            old(self)@.current_block.len() > 0,
        ensures
            final(self)@ == old(self)@.defer_block(),
            final(self)@.wf(),
    {
        let ghost before = self@;
        let b = self.current_block.pop().unwrap();
        self.deferred_block.push(b);
        proof {
            let s = self@;
            assert(s.current_block =~= before.current_block.drop_last());
            assert(s.deferred_block =~= before.deferred_block.push(b.0));
            lemma_move_between_stacks(before.current_block, before.deferred_block);
            assert(b.0 == before.current_block.last());
            assert(s.stacked() =~= before.current_block.drop_last() + before.deferred_block.push(
                before.current_block.last(),
            ));
            lemma_wf_restack(before, s);
        }
    }

    /// Moves the last deferred block back to the stack of current blocks.
    pub fn pop_deferred_block(&mut self)
        requires
            old(self)@.wf(),
            old(self)@.deferred_block.len() > 0,
        ensures
            final(self)@ == old(self)@.pop_deferred_block(),
            final(self)@.wf(),
    {
        let ghost before = self@;
        let b = self.deferred_block.pop().unwrap();
        self.current_block.push(b);
        proof {
            let s = self@;
            assert(s.current_block =~= before.current_block.push(b.0));
            assert(s.deferred_block =~= before.deferred_block.drop_last());
            lemma_move_back_between_stacks(before.current_block, before.deferred_block);
            assert(b.0 == before.deferred_block.last());
            assert(s.stacked() =~= before.current_block.push(before.deferred_block.last())
                + before.deferred_block.drop_last());
            lemma_wf_restack(before, s);
        }
    }

    /// Finishes the current block with `terminator` and returns its
    /// identifier.
    pub fn end_block(&mut self, terminator: ATerminator) -> (r: BlockId)
        requires
            old(self)@.wf(),
            old(self)@.current_block.len() > 0,
        ensures
            r.0 == old(self)@.current_block_id(),
            final(self)@ == old(self)@.end_block(terminator@),
            final(self)@.wf(),
    {
        let ghost before = self@;
        let ghost tv = terminator@;
        proof {
            assert(before.stacked()[before.current_block.len() - 1] == before.current_block_id());
            assert(before.stacked().contains(before.current_block_id()));
        }
        let id = self.current_block.pop().unwrap();
        let mut slot = BlockState::Building(BlockProto { stmts: Vec::new() });
        std::mem::swap(&mut self.blocks[id.0], &mut slot);
        let stmts = match slot {
            BlockState::Building(proto) => proto.stmts,
            BlockState::Finished(b) => b.stmts,
        };
        self.blocks.set(id.0, BlockState::Finished(ABasicBlock { stmts, terminator }));
        let n = self.blocks.len();
        proof {
            let s = self@;
            assert(s.current_block =~= before.current_block.drop_last());
            assert(s.blocks =~= before.blocks.update(
                id.0 as int,
                SpecBlock::Finished(SpecBasicBlock { stmts: before.blocks[id.0 as int]->Building_0, terminator: tv }),
            ));
            lemma_pop_stack(before.current_block, before.deferred_block);
            assert(s.stacked() =~= before.current_block.drop_last() + before.deferred_block);
            assert(id.0 == before.current_block.last());
            assert forall|b: int| 0 <= b < s.blocks.len() implies ((#[trigger] s.blocks[b] is Building) <==> s.stacked().contains(
                b as usize,
            )) by {
                if b == id.0 {
                    assert(!s.stacked().contains(id.0));
                } else {
                    assert(s.blocks.len() == n);
                    let x = b as usize;
                    assert(x as int == b);
                    assert(x != before.current_block.last());
                    assert((before.current_block.drop_last() + before.deferred_block).contains(x)
                        <==> (before.current_block + before.deferred_block).contains(x));
                }
            }
            assert forall|j: int| 0 <= j < s.stacked().len() implies #[trigger] s.stacked()[j] < s.blocks.len() by {
                assert((before.current_block + before.deferred_block).contains(s.stacked()[j]));
                let k = choose|k: int| 0 <= k < before.stacked().len() && before.stacked()[k] == s.stacked()[j];
                assert(before.stacked()[k] < before.blocks.len());
            }
            assert(s.scopes == before.scopes);
            assert(s.vars == before.vars);
            assert(s.current_scope == before.current_scope);
        }
        id
    }
}

impl AmirProto {
    /// The variable named by `ty` in the scope `id` or, nearest first, in
    /// the scopes it is nested in.
    fn find_in_scopes(&self, id: ScopeId, ty: &Type) -> (r: Option<VarId>)
        requires
            self@.wf(),
            id.0 < self@.scopes.len(),
        ensures
            match r {
                Some(v) => self@.find_in_scopes(id.0, ty@) == Some(v.0),
                None => self@.find_in_scopes(id.0, ty@) is None,
            },
    {
        let ghost goal = self@.find_in_scopes(id.0, ty@);
        let mut next: Option<ScopeId> = Some(id);
        while next.is_some()
            invariant
                self@.wf(),
                goal == self@.find_in_scopes(id.0, ty@),
                match next {
                    Some(c) => c.0 < self@.scopes.len() && goal == self@.find_in_scopes(c.0, ty@),
                    None => goal is None,
                },
            decreases
                match next {
                    Some(c) => c.0 + 1,
                    None => 0,
                },
        {
            let c = next.unwrap();
            let scope = self.get_scope(&c);
            proof {
                assert(self@.scopes[c.0 as int] == self@.scopes[c.0 as int]);
            }
            match assoc_find(&scope.named_vars, ty) {
                Some(i) => {
                    return Some(scope.named_vars[i].1);
                },
                None => {},
            }
            next = scope.super_id;
            proof {
                let sc = self@.scopes[c.0 as int];
                if let Some(p) = sc.super_id {
                    assert(p < c.0);
                }
            }
        }
        None
    }

    /// The variable that stands for `ty`: the nearest named variable of that
    /// type, else the parameter already captured for it, else a new
    /// parameter variable, captured and bound in the current block.
    pub fn find_var(&mut self, ty: &Type) -> (r: VarId)
        requires
            old(self)@.wf(),
            old(self)@.current_scope.len() > 0,
            old(self)@.current_block.len() > 0 || old(self)@.has_var_for(ty@),
        ensures
            (r.0, final(self)@) == old(self)@.find_var(ty@),
            final(self)@.wf(),
    {
        let c = self.current_scope_id();
        proof {
            assert(self@.current_scope[self@.current_scope.len() - 1] < self@.scopes.len());
        }
        match self.find_in_scopes(c, ty) {
            Some(v) => {
                return v;
            },
            None => {},
        }
        match assoc_find(&self.captured_values, ty) {
            Some(i) => {
                return self.captured_values[i].1;
            },
            None => {},
        }
        let ghost before = self@;
        let var = self.create_var(ty.clone_type());
        let ghost s1 = self@;
        self.captured_values.push((ty.clone_type(), var));
        proof {
            assert(self@.captured_values =~= s1.captured_values.push((ty@, var.0)));
            assert(self@ == SpecAmirProto { captured_values: s1.captured_values.push((ty@, var.0)), ..s1 });
        }
        self.bind_to(var, AStmt::Parameter)
    }

    /// Names `var`, in the current scope, by its type without effects; a
    /// variable named earlier by the same type there is no longer named.
    pub fn create_named_var(&mut self, var: VarId)
        requires
            old(self)@.wf(),
            old(self)@.current_scope.len() > 0,
            var.0 < old(self)@.vars.len(),
        ensures
            final(self)@ == old(self)@.create_named_var(var.0),
            final(self)@.wf(),
    {
        let ty = match &self.get_var(&var).ty {
            Type::Effectful { ty, effects: _ } => ty.clone_type(),
            other => other.clone_type(),
        };
        let c = self.current_scope_id();
        let ghost before = self@;
        proof {
            assert(before.current_scope[before.current_scope.len() - 1] < before.scopes.len());
            assert(ty@ == without_effects(before.vars[var.0 as int].ty));
        }
        let mut slot = ScopeProto { super_id: None, named_vars: Vec::new() };
        std::mem::swap(&mut self.scopes[c.0], &mut slot);
        let ghost old_pairs = pairs_view(slot.named_vars@);
        match assoc_find(&slot.named_vars, &ty) {
            Some(i) => {
                slot.named_vars.set(i, (ty, var));
            },
            None => {
                slot.named_vars.push((ty, var));
            },
        }
        proof {
            assert(pairs_view(slot.named_vars@) =~= assoc_insert(old_pairs, ty@, var.0));
        }
        self.scopes.set(c.0, slot);
        proof {
            let s = self@;
            assert(s.scopes =~= before.create_named_var(var.0).scopes);
            assert(s.scopes.len() == before.scopes.len());
            assert forall|i: int| 0 <= i < s.scopes.len() implies ((#[trigger] s.scopes[i]).super_id matches Some(
                p,
            ) ==> p < i) by {
                assert(s.scopes[i].super_id == before.scopes[i].super_id);
            }
        }
    }

    /// Opens a new block, with the next identifier, to be taken up after the
    /// current block: the new block is placed below the current one on the
    /// stack of current blocks.
    pub fn begin_block_defer(&mut self) -> (r: BlockId)
        requires
            old(self)@.wf(),
            old(self)@.current_block.len() > 0,
        ensures
            r.0 == old(self)@.blocks.len(),
            final(self)@ == (SpecAmirProto {
                current_block: old(self)@.current_block.drop_last().push(r.0).push(old(self)@.current_block_id()),
                ..old(self)@.begin_block()
            }),
            final(self)@.wf(),
    {
        let ghost before = self@;
        let id = self.begin_block();
        let ghost mid = self@;
        let len = self.current_block.len();
        let ghost raw = self.current_block@;
        let top = self.current_block[len - 1];
        let below = self.current_block[len - 2];
        self.current_block.set(len - 1, below);
        self.current_block.set(len - 2, top);
        proof {
            let s = self@;
            assert(self.current_block@ =~= raw.update(len - 1, below).update(len - 2, top));
            assert(mid.current_block =~= before.current_block.push(id.0));
            assert(mid.current_block[len - 1] == raw[len - 1].0);
            assert(mid.current_block[len - 2] == raw[len - 2].0);
            assert(top.0 == id.0);
            assert(below.0 == before.current_block.last());
            assert(mid.current_block =~= before.current_block.push(id.0));
            let target = before.current_block.drop_last().push(id.0).push(before.current_block_id());
            assert forall|i: int| 0 <= i < len implies s.current_block[i] == target[i] by {
                assert(s.current_block[i] == self.current_block@[i].0);
                if i < len - 2 {
                    assert(self.current_block@[i] == raw[i]);
                    assert(mid.current_block[i] == raw[i].0);
                }
            }
            assert(s.current_block =~= target);
            assert(s.blocks == mid.blocks);
            assert(s.deferred_block == mid.deferred_block);
            let n = len as int;
            let f = |j: int| if j == n - 1 { n - 2 } else if j == n - 2 { n - 1 } else { j };
            assert forall|j: int| 0 <= j < s.stacked().len() implies s.stacked()[j] == mid.stacked()[f(j)] by {}
            assert forall|a: int, b: int| 0 <= a < b < s.stacked().len() implies s.stacked()[a] != s.stacked()[b] by {
                assert(s.stacked()[a] == mid.stacked()[f(a)]);
                assert(s.stacked()[b] == mid.stacked()[f(b)]);
            }
            assert forall|x: usize| s.stacked().contains(x) <==> mid.stacked().contains(x) by {
                if s.stacked().contains(x) {
                    let j = choose|j: int| 0 <= j < s.stacked().len() && s.stacked()[j] == x;
                    assert(mid.stacked()[f(j)] == x);
                }
                if mid.stacked().contains(x) {
                    let k = choose|k: int| 0 <= k < mid.stacked().len() && mid.stacked()[k] == x;
                    assert(s.stacked()[f(k)] == x);
                }
            }
            lemma_wf_restack(mid, s);
        }
        id
    }

    /// The built representation: the current block, the only block still
    /// being built, returns `var`, and the function's output type is
    /// `output`.
    pub fn into_amir(self, var: VarId, output: Type) -> (r: Amir)
        requires
            self@.wf(),
            self@.deferred_block.len() == 0,
            self@.current_block.len() == 1,
        ensures
            r@ == self@.into_amir(var.0, output@),
    {
        let ghost sv = self@;
        let b = self.current_block_id();
        let AmirProto { parameters, scopes, blocks, vars, captured_values, links, .. } = self;
        let mut blocks = blocks;
        let mut finished: Vec<ABasicBlock> = Vec::new();
        let mut i: usize = 0;
        while i < blocks.len()
            invariant
                sv.wf(),
                sv.deferred_block.len() == 0,
                sv.current_block.len() == 1,
                b.0 == sv.current_block_id(),
                blocks@.len() == sv.blocks.len(),
                i <= blocks@.len(),
                forall|j: int| i <= j < blocks@.len() ==> (#[trigger] blocks@[j])@ == sv.blocks[j],
                finished@.len() == i,
                forall|j: int| 0 <= j < i ==> (#[trigger] finished@[j])@ == sv.finished_blocks(var.0)[j],
            decreases blocks@.len() - i,
        {
            let mut slot = BlockState::Building(BlockProto { stmts: Vec::new() });
            std::mem::swap(&mut blocks[i], &mut slot);
            proof {
                assert(slot@ == sv.blocks[i as int]);
                assert(sv.stacked() =~= sv.current_block);
                if i != b.0 {
                    assert(!sv.stacked().contains(i)) by {
                        if sv.stacked().contains(i) {
                            let k = choose|k: int| 0 <= k < sv.stacked().len() && sv.stacked()[k] == i;
                            assert(k == 0);
                        }
                    }
                } else {
                    assert(sv.stacked()[0] == i);
                }
            }
            let block = match slot {
                BlockState::Building(proto) => ABasicBlock { stmts: proto.stmts, terminator: ATerminator::Return(var) },
                BlockState::Finished(done) => done,
            };
            finished.push(block);
            i += 1;
        }
        let mut scope_list: Vec<Scope> = Vec::new();
        let mut k: usize = 0;
        while k < scopes.len()
            invariant
                k <= scopes@.len(),
                scope_list@.len() == k,
                forall|j: int| 0 <= j < k ==> (#[trigger] scope_list@[j]).super_scope == scopes@[j].super_id,
            decreases scopes@.len() - k,
        {
            scope_list.push(Scope { super_scope: scopes[k].super_id });
            k += 1;
        }
        let mut captured: Vec<Type> = Vec::new();
        let mut m: usize = 0;
        while m < captured_values.len()
            invariant
                m <= captured_values@.len(),
                captured@.len() == m,
                forall|j: int| 0 <= j < m ==> (#[trigger] captured@[j])@ == captured_values@[j].0@,
            decreases captured_values@.len() - m,
        {
            captured.push(captured_values[m].0.clone_type());
            m += 1;
        }
        let r = Amir { parameters, captured, output, vars, scopes: scope_list, blocks: finished, links };
        proof {
            assert(r@.blocks =~= sv.finished_blocks(var.0));
            assert(r@.scopes =~= sv.into_amir(var.0, output@).scopes);
            assert(r@.captured =~= sv.into_amir(var.0, output@).captured);
            assert(r@.parameters =~= sv.parameters);
            assert(r@.vars =~= sv.vars);
            assert(r@.links =~= sv.links);
        }
        r
    }
}

/// A state that differs from a well-formed one only in how the same blocks
/// are placed on the two stacks is well-formed.
proof fn lemma_wf_restack(before: SpecAmirProto, after: SpecAmirProto)
    requires
        before.wf(),
        after.scopes == before.scopes,
        after.vars == before.vars,
        after.current_scope == before.current_scope,
        after.blocks == before.blocks,
        after.stacked().no_duplicates(),
        forall|x: usize| after.stacked().contains(x) <==> before.stacked().contains(x),
    ensures
        after.wf(),
{
    assert forall|b: int| 0 <= b < after.blocks.len() implies ((#[trigger] after.blocks[b] is Building)
        <==> after.stacked().contains(b as usize)) by {
        assert(after.stacked().contains(b as usize) <==> before.stacked().contains(b as usize));
    }
    assert forall|j: int| 0 <= j < after.stacked().len() implies #[trigger] after.stacked()[j] < after.blocks.len() by {
        assert(after.stacked().contains(after.stacked()[j]));
        assert(before.stacked().contains(after.stacked()[j]));
        let k = choose|k: int| 0 <= k < before.stacked().len() && before.stacked()[k] == after.stacked()[j];
        assert(before.stacked()[k] < before.blocks.len());
    }
}

proof fn lemma_move_between_stacks(c: Seq<usize>, d: Seq<usize>)
    requires
        c.len() > 0,
        (c + d).no_duplicates(),
    ensures
        (c.drop_last() + d.push(c.last())).no_duplicates(),
        forall|x: usize| (c.drop_last() + d.push(c.last())).contains(x) <==> (c + d).contains(x),
        forall|j: int|
            0 <= j < (c.drop_last() + d.push(c.last())).len() ==> (c + d).contains(
                #[trigger] (c.drop_last() + d.push(c.last()))[j],
            ),
{
    let a = c + d;
    let b = c.drop_last() + d.push(c.last());
    let n = c.len() as int;
    let m = d.len() as int;
    // b is a with the element at n - 1 moved to the end.
    let f = |j: int| if j < n - 1 { j } else if j < n - 1 + m { j + 1 } else { n - 1 };
    assert forall|j: int| 0 <= j < b.len() implies b[j] == a[f(j)] && 0 <= f(j) < a.len() by {}
    assert forall|x: int, y: int| 0 <= x < y < b.len() implies b[x] != b[y] by {
        assert(f(x) != f(y));
    }
    assert forall|x: usize| b.contains(x) <==> a.contains(x) by {
        if b.contains(x) {
            let j = choose|j: int| 0 <= j < b.len() && b[j] == x;
            assert(a[f(j)] == x);
        }
        if a.contains(x) {
            let k = choose|k: int| 0 <= k < a.len() && a[k] == x;
            if k < n - 1 {
                assert(b[k] == x);
            } else if k == n - 1 {
                assert(b[n - 1 + m] == x);
            } else {
                assert(b[k - 1] == x);
            }
        }
    }
    assert forall|j: int| 0 <= j < b.len() implies a.contains(b[j]) by {
        assert(a[f(j)] == b[j]);
    }
}

proof fn lemma_move_back_between_stacks(c: Seq<usize>, d: Seq<usize>)
    requires
        d.len() > 0,
        (c + d).no_duplicates(),
    ensures
        (c.push(d.last()) + d.drop_last()).no_duplicates(),
        forall|x: usize| (c.push(d.last()) + d.drop_last()).contains(x) <==> (c + d).contains(x),
        forall|j: int|
            0 <= j < (c.push(d.last()) + d.drop_last()).len() ==> (c + d).contains(
                #[trigger] (c.push(d.last()) + d.drop_last())[j],
            ),
{
    let a = c + d;
    let b = c.push(d.last()) + d.drop_last();
    let n = c.len() as int;
    let m = d.len() as int;
    let f = |j: int| if j < n { j } else if j == n { n + m - 1 } else { j - 1 };
    assert forall|j: int| 0 <= j < b.len() implies b[j] == a[f(j)] && 0 <= f(j) < a.len() by {}
    assert forall|x: int, y: int| 0 <= x < y < b.len() implies b[x] != b[y] by {
        assert(f(x) != f(y));
    }
    assert forall|x: usize| b.contains(x) <==> a.contains(x) by {
        if b.contains(x) {
            let j = choose|j: int| 0 <= j < b.len() && b[j] == x;
            assert(a[f(j)] == x);
        }
        if a.contains(x) {
            let k = choose|k: int| 0 <= k < a.len() && a[k] == x;
            if k < n {
                assert(b[k] == x);
            } else if k == n + m - 1 {
                assert(b[n] == x);
            } else {
                assert(b[k + 1] == x);
            }
        }
    }
    assert forall|j: int| 0 <= j < b.len() implies a.contains(b[j]) by {
        assert(a[f(j)] == b[j]);
    }
}

proof fn lemma_pop_stack(c: Seq<usize>, d: Seq<usize>)
    requires
        c.len() > 0,
        (c + d).no_duplicates(),
    ensures
        (c.drop_last() + d).no_duplicates(),
        !(c.drop_last() + d).contains(c.last()),
        forall|x: usize| x != c.last() ==> ((c.drop_last() + d).contains(x) <==> (c + d).contains(x)),
        forall|j: int| 0 <= j < (c.drop_last() + d).len() ==> (c + d).contains(#[trigger] (c.drop_last() + d)[j]),
{
    let a = c + d;
    let b = c.drop_last() + d;
    let n = c.len() as int;
    let f = |j: int| if j < n - 1 { j } else { j + 1 };
    assert forall|j: int| 0 <= j < b.len() implies b[j] == a[f(j)] && 0 <= f(j) < a.len() by {}
    assert forall|x: int, y: int| 0 <= x < y < b.len() implies b[x] != b[y] by {
        assert(f(x) != f(y));
    }
    if b.contains(c.last()) {
        let j = choose|j: int| 0 <= j < b.len() && b[j] == c.last();
        assert(a[f(j)] == a[n - 1]);
    }
    assert forall|x: usize| x != c.last() implies (b.contains(x) <==> a.contains(x)) by {
        if b.contains(x) {
            let j = choose|j: int| 0 <= j < b.len() && b[j] == x;
            assert(a[f(j)] == x);
        }
        if a.contains(x) {
            let k = choose|k: int| 0 <= k < a.len() && a[k] == x;
            if k < n - 1 {
                assert(b[k] == x);
            } else {
                assert(k != n - 1);
                assert(b[k - 1] == x);
            }
        }
    }
    assert forall|j: int| 0 <= j < b.len() implies a.contains(b[j]) by {
        assert(a[f(j)] == b[j]);
    }
}


/// After naming a type, the pairs give its new variable.
pub proof fn lemma_assoc_insert_get(s: Seq<(SpecType, usize)>, k: SpecType, v: usize)
    ensures
        assoc_get(assoc_insert(s, k, v), k) == Some(v),
{
    lemma_assoc_pos(s, k);
    let p = assoc_pos(s, k);
    let t = assoc_insert(s, k, v);
    lemma_assoc_pos(t, k);
    if p < 0 {
        assert(t[s.len() as int] == (k, v));
        assert(assoc_pos(t, k) == s.len()) by {
            if assoc_pos(t, k) < s.len() && assoc_pos(t, k) >= 0 {
                assert(t[assoc_pos(t, k)] == s[assoc_pos(t, k)]);
            }
        }
    } else {
        assert(t[p] == (k, v));
        assert(assoc_pos(t, k) == p) by {
            if assoc_pos(t, k) < p && assoc_pos(t, k) >= 0 {
                assert(t[assoc_pos(t, k)] == s[assoc_pos(t, k)]);
            }
        }
    }
}

/// The variable found in the scopes depends on the scopes alone.
proof fn lemma_find_in_same_scopes(a: SpecAmirProto, b: SpecAmirProto, id: usize, ty: SpecType)
    requires
        a.scopes == b.scopes,
    ensures
        a.find_in_scopes(id, ty) == b.find_in_scopes(id, ty),
    decreases id,
{
    if id < a.scopes.len() {
        if let Some(p) = a.scopes[id as int].super_id {
            if p < id {
                lemma_find_in_same_scopes(a, b, p, ty);
            }
        }
    }
}

/// Deferring the current block and taking it back restores the state.
pub proof fn law_defer_then_pop(s: SpecAmirProto)
    requires
        s.wf(),
        s.current_block.len() > 0,
    ensures
        s.defer_block().pop_deferred_block() == s,
{
    let t = s.defer_block().pop_deferred_block();
    assert(t.current_block =~= s.current_block);
    assert(t.deferred_block =~= s.deferred_block);
}

/// Closing a scope just opened restores the current scopes; the closed
/// scope stays, nested in the scope that was current.
pub proof fn law_scope_round_trip(s: SpecAmirProto)
    requires
        s.wf(),
        s.current_scope.len() > 0,
    ensures
        s.begin_scope().end_scope() == (SpecAmirProto {
            scopes: s.scopes.push(SpecScopeProto { super_id: Some(s.current_scope_id()), named_vars: seq![] }),
            ..s
        }),
{
    let t = s.begin_scope().end_scope();
    assert(t.current_scope =~= s.current_scope);
}

/// Ending a block just begun restores the current blocks and leaves the new
/// block, with no statements, finished by the terminator.
pub proof fn law_block_round_trip(s: SpecAmirProto, terminator: SpecTerminator)
    requires
        s.wf(),
        s.blocks.len() <= usize::MAX,
    ensures
        s.begin_block().current_block_id() == s.blocks.len(),
        s.begin_block().end_block(terminator) == (SpecAmirProto {
            blocks: s.blocks.push(SpecBlock::Finished(SpecBasicBlock { stmts: seq![], terminator })),
            ..s
        }),
{
    let t = s.begin_block().end_block(terminator);
    assert(t.current_block =~= s.current_block);
    assert(t.blocks =~= s.blocks.push(SpecBlock::Finished(SpecBasicBlock { stmts: seq![], terminator })));
}

/// A variable named in the current scope is what its type, without
/// effects, is found as, and finding it changes nothing.
pub proof fn law_named_var_found(s: SpecAmirProto, var: usize)
    requires
        s.wf(),
        s.current_scope.len() > 0,
        var < s.vars.len(),
    ensures
        s.create_named_var(var).find_var(without_effects(s.vars[var as int].ty)) == (var, s.create_named_var(var)),
{
    let t = s.create_named_var(var);
    let k = without_effects(s.vars[var as int].ty);
    let c = s.current_scope_id();
    assert(s.current_scope[s.current_scope.len() - 1] < s.scopes.len());
    assert(t.current_scope_id() == c);
    lemma_assoc_insert_get(s.scopes[c as int].named_vars, k, var);
    assert(t.scopes[c as int].named_vars == assoc_insert(s.scopes[c as int].named_vars, k, var));
    assert(t.find_in_scopes(c, k) == Some(var));
}

/// Finding the variable for a type a second time gives the same variable
/// and changes nothing more.
pub proof fn law_find_var_stable(s: SpecAmirProto, ty: SpecType)
    requires
        s.wf(),
        s.current_scope.len() > 0,
        s.current_block.len() > 0 || s.has_var_for(ty),
    ensures
        s.find_var(ty).1.find_var(ty) == s.find_var(ty),
{
    let (v, t) = s.find_var(ty);
    let c = s.current_scope_id();
    match s.find_in_scopes(c, ty) {
        Some(_) => {},
        None => match assoc_get(s.captured_values, ty) {
            Some(_) => {},
            None => {
                lemma_find_in_same_scopes(s, t, c, ty);
                assert(t.current_scope_id() == c);
                let cv = s.captured_values;
                lemma_assoc_pos(cv, ty);
                assert(assoc_pos(cv, ty) == -1);
                let cw = cv.push((ty, v));
                assert(t.captured_values == cw);
                lemma_assoc_pos(cw, ty);
                assert(cw[cv.len() as int] == (ty, v));
                assert(assoc_pos(cw, ty) == cv.len()) by {
                    if 0 <= assoc_pos(cw, ty) < cv.len() {
                        assert(cw[assoc_pos(cw, ty)] == cv[assoc_pos(cw, ty)]);
                    }
                }
                assert(assoc_get(t.captured_values, ty) == Some(v));
            },
        },
    }
}

} // verus!
