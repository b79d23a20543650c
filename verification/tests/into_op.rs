use deskc::into_op::{into_op, BuiltinOp, Op};

#[test]
fn operators_map_one_to_one() {
    assert_eq!(into_op(&BuiltinOp::Add), Op::Add);
    assert_eq!(into_op(&BuiltinOp::Mod), Op::Mod);
    assert_eq!(into_op(&BuiltinOp::Neq), Op::Neq);
    assert_eq!(into_op(&BuiltinOp::Not), Op::Not);
    assert_eq!(into_op(&BuiltinOp::BitXor), Op::BitXor);
    assert_eq!(into_op(&BuiltinOp::Shr), Op::Shr);
}
