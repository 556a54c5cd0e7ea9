use msc::{Cmd, Command, Script};
use msc_jit::ast::{
    binop_cmd_type, cmd_to_assignop, cmd_to_binop, cmd_to_unaryop, group_structures, take_list, take_node,
    unaryop_cmd_type, var_cmd_type, AsAst, AssignOp, BinOp, Const, InterForm, Node, Type, UnaryOp, ONE_F32,
};
use msc_jit::lower::{CompileError, Violation};

fn script(cmds: Vec<(Cmd, bool)>) -> Script {
    let mut commands = Vec::new();
    let mut position = 0u32;
    for (cmd, push_bit) in cmds {
        commands.push(Command { cmd, push_bit, position });
        position += 4;
    }
    Script { commands, bounds: (0, position) }
}

fn begin() -> (Cmd, bool) {
    (Cmd::Begin { arg_count: 2, var_count: 3 }, false)
}

fn number(v: u32) -> Node {
    Node::Const { val: Const::U32(v) }
}

fn single(bits: u32) -> Node {
    Node::Const { val: Const::F32(bits) }
}

fn local(var_num: u16) -> Node {
    Node::Var { is_global: false, var_num }
}

fn nodes(cmds: Vec<(Cmd, bool)>) -> Vec<Node> {
    script(cmds).as_ast().unwrap().nodes
}

#[test]
fn binary_operators() {
    assert_eq!(cmd_to_binop(Cmd::AddI), BinOp::Add(Type::Int));
    assert_eq!(cmd_to_binop(Cmd::SubF), BinOp::Sub(Type::Float));
    assert_eq!(cmd_to_binop(Cmd::ModI), BinOp::Mod);
    assert_eq!(cmd_to_binop(Cmd::AndI), BinOp::BitAnd);
    assert_eq!(cmd_to_binop(Cmd::OrI), BinOp::BitOr);
    assert_eq!(cmd_to_binop(Cmd::XorI), BinOp::BitXor);
    assert_eq!(cmd_to_binop(Cmd::ShiftL), BinOp::ShiftL);
    assert_eq!(cmd_to_binop(Cmd::ShiftR), BinOp::ShiftR);
    assert_eq!(cmd_to_binop(Cmd::LessOrEqual), BinOp::LessThanOrEqual(Type::Int));
    assert_eq!(cmd_to_binop(Cmd::GreaterF), BinOp::GreaterThan(Type::Float));
    assert_eq!(cmd_to_binop(Cmd::GreaterOrEqualF), BinOp::GreaterThanOrEqual(Type::Float));
    assert_eq!(cmd_to_binop(Cmd::NotEqualsF), BinOp::NotEqual(Type::Float));
    assert_eq!(binop_cmd_type(Cmd::MultI), Type::Int);
    assert_eq!(binop_cmd_type(Cmd::Equals), Type::Int);
    assert_eq!(binop_cmd_type(Cmd::MultF), Type::Float);
    assert_eq!(binop_cmd_type(Cmd::LessThanF), Type::Float);
}

#[test]
fn assignment_operators() {
    let v = |cmd: fn(u8, u16) -> Cmd| cmd(0, 1);
    assert_eq!(cmd_to_assignop(v(|var_type, var_num| Cmd::IncI { var_type, var_num })), AssignOp::Add(Type::Int));
    assert_eq!(cmd_to_assignop(v(|var_type, var_num| Cmd::DecI { var_type, var_num })), AssignOp::Sub(Type::Int));
    assert_eq!(cmd_to_assignop(v(|var_type, var_num| Cmd::SetVar { var_type, var_num })), AssignOp::Assign(Type::Int));
    assert_eq!(cmd_to_assignop(v(|var_type, var_num| Cmd::ModVarBy { var_type, var_num })), AssignOp::Mod);
    assert_eq!(cmd_to_assignop(v(|var_type, var_num| Cmd::AndVarBy { var_type, var_num })), AssignOp::And);
    assert_eq!(cmd_to_assignop(v(|var_type, var_num| Cmd::OrVarBy { var_type, var_num })), AssignOp::Or);
    assert_eq!(cmd_to_assignop(v(|var_type, var_num| Cmd::XorVarBy { var_type, var_num })), AssignOp::Xor);
    assert_eq!(cmd_to_assignop(v(|var_type, var_num| Cmd::IncF { var_type, var_num })), AssignOp::Add(Type::Float));
    assert_eq!(cmd_to_assignop(v(|var_type, var_num| Cmd::DecF { var_type, var_num })), AssignOp::Sub(Type::Float));
    assert_eq!(cmd_to_assignop(v(|var_type, var_num| Cmd::VarSetF { var_type, var_num })), AssignOp::Assign(Type::Float));
    assert_eq!(cmd_to_assignop(v(|var_type, var_num| Cmd::DivVarByF { var_type, var_num })), AssignOp::Div(Type::Float));
    assert_eq!(var_cmd_type(v(|var_type, var_num| Cmd::MultVarBy { var_type, var_num })), Type::Int);
    assert_eq!(var_cmd_type(v(|var_type, var_num| Cmd::MultVarByF { var_type, var_num })), Type::Float);
    assert_eq!(var_cmd_type(v(|var_type, var_num| Cmd::DecF { var_type, var_num })), Type::Float);
}

#[test]
fn unary_operators() {
    assert_eq!(cmd_to_unaryop(Cmd::Not), UnaryOp::Not);
    assert_eq!(cmd_to_unaryop(Cmd::NotI), UnaryOp::BitNot);
    assert_eq!(cmd_to_unaryop(Cmd::NegI), UnaryOp::Negate(Type::Int));
    assert_eq!(cmd_to_unaryop(Cmd::NegF), UnaryOp::Negate(Type::Float));
    assert_eq!(unaryop_cmd_type(Cmd::Not), Type::Int);
    assert_eq!(unaryop_cmd_type(Cmd::NegF), Type::Float);
}

#[test]
fn constants() {
    assert_eq!(Node::const_from_type(1, Type::Int), number(1));
    assert_eq!(Node::const_from_type(-1, Type::Int), number(0xffff_ffff));
    assert_eq!(Node::const_from_type(i32::MIN, Type::Int), number(0x8000_0000));
    assert_eq!(Node::const_from_type(1, Type::Float), single(0x3f80_0000));
    assert_eq!(ONE_F32, 1.0f32.to_bits());
    assert_eq!(number(7).as_u32(), Some(7));
    assert_eq!(single(7).as_u32(), None);
    assert_eq!(Node::Const { val: Const::Str("7".to_string()) }.as_u32(), None);
    assert_eq!(local(7).as_u32(), None);
}

#[test]
fn tree_of_an_addition() {
    let ast = script(vec![
        begin(),
        (Cmd::PushShort { val: 2 }, true),
        (Cmd::PushShort { val: 3 }, true),
        (Cmd::AddI, true),
        (Cmd::Return6, false),
    ])
    .as_ast()
    .unwrap();
    assert_eq!(ast.arg_count, 2);
    assert_eq!(ast.var_count, 3);
    assert_eq!(
        ast.nodes,
        vec![Node::Return {
            val: Some(Box::new(Node::BinOp {
                op: BinOp::Add(Type::Int),
                left: Box::new(number(2)),
                right: Box::new(number(3)),
            })),
        }]
    );
}

#[test]
fn statements_keep_the_order_of_the_script() {
    let got = nodes(vec![
        begin(),
        (Cmd::PushShort { val: 5 }, true),
        (Cmd::SetVar { var_type: 0, var_num: 1 }, false),
        (Cmd::IncI { var_type: 1, var_num: 2 }, false),
        (Cmd::DecF { var_type: 0, var_num: 0 }, false),
        (Cmd::PushVar { var_type: 0, var_num: 1 }, true),
        (Cmd::VarSetF { var_type: 1, var_num: 9 }, false),
        (Cmd::End, false),
    ]);
    assert_eq!(
        got,
        vec![
            Node::Assign { op: AssignOp::Assign(Type::Int), is_global: false, var_num: 1, right: Box::new(number(5)) },
            Node::Assign { op: AssignOp::Add(Type::Int), is_global: true, var_num: 2, right: Box::new(number(1)) },
            Node::Assign {
                op: AssignOp::Sub(Type::Float),
                is_global: false,
                var_num: 0,
                right: Box::new(single(0x3f80_0000)),
            },
            Node::Assign { op: AssignOp::Assign(Type::Float), is_global: true, var_num: 9, right: Box::new(local(1)) },
            Node::Return { val: None },
        ]
    );
}

#[test]
fn tree_of_a_float_product() {
    let got = nodes(vec![
        begin(),
        (Cmd::PushInt { val: 0x40400000 }, true),
        (Cmd::PushInt { val: 0x40000000 }, true),
        (Cmd::MultF, true),
        (Cmd::FloatToInt { stack_pos: 0 }, false),
        (Cmd::Return6, false),
    ]);
    assert_eq!(
        got,
        vec![Node::Return {
            val: Some(Box::new(Node::UnaryOp {
                op: UnaryOp::ToInt,
                left: Box::new(Node::BinOp {
                    op: BinOp::Mult(Type::Float),
                    left: Box::new(single(0x40400000)),
                    right: Box::new(single(0x40000000)),
                }),
            })),
        }]
    );
}

#[test]
fn constant_type_follows_the_operator() {
    let got = nodes(vec![begin(), (Cmd::PushInt { val: 9 }, true), (Cmd::NegF, true), (Cmd::PushInt { val: 9 }, true), (Cmd::NegI, true)]);
    assert_eq!(
        got,
        vec![
            Node::UnaryOp { op: UnaryOp::Negate(Type::Float), left: Box::new(single(9)) },
            Node::UnaryOp { op: UnaryOp::Negate(Type::Int), left: Box::new(number(9)) },
        ]
    );
    let got = nodes(vec![begin(), (Cmd::PushInt { val: 9 }, true), (Cmd::IntToFloat { stack_pos: 0 }, false)]);
    assert_eq!(got, vec![Node::UnaryOp { op: UnaryOp::ToFloat, left: Box::new(number(9)) }]);
    let got = nodes(vec![begin(), (Cmd::PushShort { val: 9 }, true), (Cmd::NegF, true)]);
    assert_eq!(got, vec![Node::UnaryOp { op: UnaryOp::Negate(Type::Float), left: Box::new(number(9)) }]);
}

#[test]
fn print_takes_its_format_first() {
    let got = nodes(vec![
        begin(),
        (Cmd::PushShort { val: 0 }, true),
        (Cmd::PushShort { val: 10 }, true),
        (Cmd::PushInt { val: 20 }, true),
        (Cmd::PrintF { arg_count: 3 }, false),
    ]);
    assert_eq!(got, vec![Node::Printf { str_num: Box::new(number(0)), args: vec![number(10), single(20)] }]);
    let got = nodes(vec![begin(), (Cmd::PushShort { val: 4 }, true), (Cmd::PrintF { arg_count: 1 }, false)]);
    assert_eq!(got, vec![Node::Printf { str_num: Box::new(number(4)), args: vec![] }]);
}

#[test]
fn system_call_takes_its_arguments_in_order() {
    let got = nodes(vec![
        begin(),
        (Cmd::PushVar { var_type: 0, var_num: 1 }, true),
        (Cmd::PushVar { var_type: 1, var_num: 2 }, true),
        (Cmd::Sys { arg_count: 2, sys_num: 9 }, true),
        (Cmd::Sys { arg_count: 0, sys_num: 1 }, false),
    ]);
    assert_eq!(
        got,
        vec![
            Node::SysCall { sys_num: 9, args: vec![local(1), Node::Var { is_global: true, var_num: 2 }] },
            Node::SysCall { sys_num: 1, args: vec![] },
        ]
    );
}

#[test]
fn commands_without_a_result_are_passed_over() {
    let got = nodes(vec![
        begin(),
        (Cmd::Nop, false),
        (Cmd::PushShort { val: 1 }, false),
        (Cmd::PushShort { val: 2 }, true),
        (Cmd::Exit, false),
        (Cmd::AddI, false),
        (Cmd::Not, false),
        (Cmd::PushVar { var_type: 0, var_num: 0 }, false),
        (Cmd::Push, true),
        (Cmd::Pop, false),
        (Cmd::If { loc: 0 }, false),
        (Cmd::Try { loc: 0 }, true),
        (Cmd::CallFunc { arg_count: 0 }, false),
        (Cmd::Not, true),
    ]);
    assert_eq!(got, vec![Node::UnaryOp { op: UnaryOp::Not, left: Box::new(number(2)) }]);
}

#[test]
fn print_without_arguments_is_passed_over() {
    let got = nodes(vec![
        begin(),
        (Cmd::PushShort { val: 2 }, true),
        (Cmd::PrintF { arg_count: 0 }, false),
        (Cmd::Not, true),
    ]);
    assert_eq!(got, vec![Node::UnaryOp { op: UnaryOp::Not, left: Box::new(number(2)) }]);
}

#[test]
fn operator_without_operands_yields_nothing() {
    assert_eq!(nodes(vec![begin(), (Cmd::AddI, true)]), vec![]);
    assert_eq!(nodes(vec![begin(), (Cmd::PushShort { val: 1 }, true), (Cmd::AddI, true)]), vec![]);
    assert_eq!(nodes(vec![begin(), (Cmd::Return6, false)]), vec![]);
    assert_eq!(nodes(vec![begin()]), vec![]);
}

#[test]
fn scripts_without_a_tree() {
    let refused = |cmds: Vec<(Cmd, bool)>| script(cmds).as_ast().unwrap_err();
    assert_eq!(
        refused(vec![begin(), (Cmd::Jump { loc: 0 }, false), (Cmd::End, false)]),
        CompileError::UnsupportedOpcode { position: 4, opcode: 4 }
    );
    assert_eq!(
        refused(vec![begin(), (Cmd::Else { loc: 0 }, false)]),
        CompileError::UnsupportedOpcode { position: 4, opcode: 0x36 }
    );
    assert_eq!(
        refused(vec![begin(), (Cmd::PushShort { val: 1 }, true), (Cmd::FloatToInt { stack_pos: 1 }, false)]),
        CompileError::StructuralViolation { position: 8, opcode: Some(0x39), violation: Violation::CastSlot }
    );
    assert_eq!(
        refused(vec![(Cmd::Nop, false)]),
        CompileError::StructuralViolation { position: 0, opcode: Some(0), violation: Violation::MissingBegin }
    );
    assert_eq!(
        Script { commands: vec![], bounds: (0, 0) }.as_ast().unwrap_err(),
        CompileError::StructuralViolation { position: 0, opcode: None, violation: Violation::MissingBegin }
    );
}

#[test]
fn the_error_nearest_the_end_is_reported() {
    let s = script(vec![begin(), (Cmd::Jump { loc: 0 }, false), (Cmd::IntToFloat { stack_pos: 3 }, false)]);
    assert_eq!(
        s.as_ast().unwrap_err(),
        CompileError::StructuralViolation { position: 8, opcode: Some(0x38), violation: Violation::CastSlot }
    );
}

#[test]
fn grouping_wraps_each_command() {
    let s = script(vec![begin(), (Cmd::Nop, true), (Cmd::End, false)]);
    let forms = group_structures(&s.commands, 1);
    assert_eq!(forms.len(), 2);
    match &forms[0] {
        InterForm::Cmd { cmd } => {
            assert!(matches!(cmd.cmd, Cmd::Nop));
            assert!(cmd.push_bit);
            assert_eq!(cmd.position, 4);
        }
        _ => panic!("a command was expected"),
    }
    assert!(group_structures(&s.commands, 3).is_empty());
}

#[test]
fn reading_reports_what_is_left() {
    let s = script(vec![(Cmd::PushShort { val: 1 }, true), (Cmd::PushShort { val: 2 }, true), (Cmd::Nop, false)]);
    let forms = group_structures(&s.commands, 0);
    assert_eq!(take_node(&forms, 3, None), Ok(Some((number(2), 1))));
    assert_eq!(take_node(&forms, 1, Some(Type::Float)), Ok(Some((number(1), 0))));
    assert_eq!(take_node(&forms, 0, None), Ok(None));
    assert_eq!(take_node(&forms, 4, None), Ok(None));
    assert_eq!(take_list(&forms, 3, 2, Type::Int), Ok(Some((vec![number(1), number(2)], 0))));
    assert_eq!(take_list(&forms, 3, 3, Type::Int), Ok(None));
    assert_eq!(take_list(&forms, 3, 0, Type::Int), Ok(Some((vec![], 3))));
}

#[test]
fn forms_that_are_no_commands_are_passed_over() {
    let forms = vec![
        InterForm::Cmd { cmd: Command { cmd: Cmd::PushShort { val: 1 }, push_bit: true, position: 0 } },
        InterForm::Node { node: number(5) },
        InterForm::IfElseBlock { if_block: vec![], else_block: None },
    ];
    assert_eq!(take_node(&forms, 3, None), Ok(Some((number(1), 0))));
}
