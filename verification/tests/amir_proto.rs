use deskc::amir::{AStmt, ATerminator, LinkName, ScopeId, StmtBind, VarId};
use deskc::amir_proto::AmirProto;
use deskc::types::{EffectExpr, Type};

fn dbg<T: std::fmt::Debug>(t: &T) -> String {
    format!("{:?}", t)
}

#[test]
fn single_block_function() {
    let mut proto = AmirProto::new();
    let var = proto.bind_stmt(Type::Number, AStmt::Parameter);
    assert_eq!(var, VarId(0));
    let amir = proto.into_amir(var, Type::Number);
    assert_eq!(amir.parameters.len(), 0);
    assert_eq!(amir.scopes.len(), 1);
    assert_eq!(amir.scopes[0].super_scope, None);
    assert_eq!(amir.vars.len(), 1);
    assert_eq!(amir.vars[0].scope, ScopeId(0));
    assert_eq!(dbg(&amir.vars[0].ty), dbg(&Type::Number));
    assert_eq!(amir.blocks.len(), 1);
    assert_eq!(amir.blocks[0].stmts, vec![StmtBind { var: VarId(0), stmt: AStmt::Parameter }]);
    assert_eq!(dbg(&amir.blocks[0].terminator), dbg(&ATerminator::Return(VarId(0))));
}

#[test]
fn named_variables_are_found_in_inner_scopes() {
    let mut proto = AmirProto::new();
    let outer = proto.bind_stmt(Type::Number, AStmt::Parameter);
    proto.create_named_var(outer);
    proto.begin_scope();
    let inner = proto.bind_stmt(Type::String, AStmt::Parameter);
    proto.create_named_var(inner);
    assert_eq!(proto.find_var(&Type::Number), outer);
    assert_eq!(proto.find_var(&Type::String), inner);
    assert_eq!(proto.end_scope_then_return(7), 7);
    assert_eq!(proto.current_scope_id(), ScopeId(0));
    assert_eq!(proto.find_var(&Type::Number), outer);
}

#[test]
fn named_variables_drop_effects() {
    let mut proto = AmirProto::new();
    let effectful = Type::Effectful { ty: Box::new(Type::Number), effects: EffectExpr::Add(vec![]) };
    let var = proto.bind_stmt(effectful, AStmt::Parameter);
    proto.create_named_var(var);
    assert_eq!(proto.find_var(&Type::Number), var);
}

#[test]
fn unknown_types_are_captured_once() {
    let mut proto = AmirProto::new();
    let captured = proto.find_var(&Type::String);
    assert_eq!(captured, VarId(0));
    assert_eq!(proto.find_var(&Type::String), captured);
    let amir = proto.into_amir(captured, Type::String);
    assert_eq!(amir.captured.len(), 1);
    assert_eq!(dbg(&amir.captured[0]), dbg(&Type::String));
    assert_eq!(amir.blocks[0].stmts, vec![StmtBind { var: VarId(0), stmt: AStmt::Parameter }]);
}

#[test]
fn blocks_get_the_next_identifiers() {
    let mut proto = AmirProto::new();
    let first = proto.begin_block();
    assert_eq!(first.0, 1);
    let v = proto.bind_stmt(Type::Number, AStmt::Parameter);
    proto.defer_block();
    assert_eq!(proto.current_block_id().0, 0);
    proto.pop_deferred_block();
    assert_eq!(proto.current_block_id(), first);
    assert_eq!(proto.end_block(ATerminator::Goto(first)), first);
    let deferred = proto.begin_block_defer();
    assert_eq!(deferred.0, 2);
    assert_eq!(proto.current_block_id().0, 0);
    assert_eq!(proto.end_block(ATerminator::Goto(deferred)).0, 0);
    assert_eq!(proto.current_block_id(), deferred);
    let amir = proto.into_amir(v, Type::Number);
    assert_eq!(amir.blocks.len(), 3);
    assert_eq!(dbg(&amir.blocks[0].terminator), dbg(&ATerminator::Goto(deferred)));
    assert_eq!(dbg(&amir.blocks[1].terminator), dbg(&ATerminator::Goto(first)));
    assert_eq!(dbg(&amir.blocks[2].terminator), dbg(&ATerminator::Return(v)));
    assert_eq!(amir.blocks[1].stmts, vec![StmtBind { var: v, stmt: AStmt::Parameter }]);
}

#[test]
fn links_are_recorded_once() {
    let mut proto = AmirProto::new();
    let a = proto.bind_link(Type::Number, LinkName::Card(5));
    let b = proto.bind_link(Type::Number, LinkName::Card(5));
    assert_ne!(a, b);
    let c = proto.bind_link(Type::Number, LinkName::Unnamed);
    let amir = proto.into_amir(c, Type::Number);
    assert_eq!(amir.links.len(), 2);
    assert_eq!(amir.links[0].name, LinkName::Card(5));
    assert_eq!(amir.links[1].name, LinkName::Unnamed);
    assert_eq!(amir.blocks[0].stmts.len(), 3);
}


#[test]
fn default_is_a_fresh_function() {
    let mut proto = AmirProto::default();
    let block = proto.begin_block_defer();
    assert_eq!(block.0, 1);
}
