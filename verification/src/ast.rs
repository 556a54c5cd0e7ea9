//! A syntax tree over the bytecode of one script.
//!
//! The commands of a script are in postfix order: an operator follows its
//! operands. Reading them from the last to the first therefore yields each
//! operator before its operands, the right operand before the left. The tree
//! knows no jumps: a script that holds one has no tree.

use vstd::prelude::*;
use msc::{Cmd, Command, Script};
use crate::lower::{refuse_unsupported, refuse_violating, unsupported, violating, CompileError, Violation};

verus! {

#[derive(Debug, Clone, Copy, PartialEq, Eq, Structural)]
pub enum Type {
    Int,
    Float,
}

#[derive(Debug, Clone, Copy, PartialEq, Eq, Structural)]
pub enum Fix {
    Pre,
    Post,
}

#[derive(Debug, Clone, Copy, PartialEq, Eq, Structural)]
pub enum BinOp {
    Add(Type),
    Sub(Type),
    Mult(Type),
    Div(Type),
    Mod,
    BitAnd,
    BitOr,
    BitXor,
    And,
    Or,
    ShiftR,
    ShiftL,
    LessThan(Type),
    LessThanOrEqual(Type),
    Equal(Type),
    NotEqual(Type),
    GreaterThanOrEqual(Type),
    GreaterThan(Type),
}

#[derive(Debug, Clone, Copy, PartialEq, Eq, Structural)]
pub enum UnaryOp {
    Not,
    BitNot,
    ToFloat,
    ToInt,
    Negate(Type),
}

#[derive(Debug, Clone, Copy, PartialEq, Eq, Structural)]
pub enum AssignOp {
    Assign(Type),
    Add(Type),
    Sub(Type),
    Mult(Type),
    Div(Type),
    Mod,
    And,
    Or,
    Xor,
}

/// A constant. A float is held as its IEEE 754 single-precision bits.
#[derive(Debug, Clone, PartialEq, Eq)]
pub enum Const {
    U32(u32),
    F32(u32),
    Str(String),
}

#[derive(Debug, PartialEq, Eq)]
pub enum Node {
    Assign { op: AssignOp, is_global: bool, var_num: u16, right: Box<Node> },
    Const { val: Const },
    BinOp { op: BinOp, left: Box<Node>, right: Box<Node> },
    UnaryOp { op: UnaryOp, left: Box<Node> },
    If { cond: Box<Node>, if_block: Vec<Node>, else_block: Vec<Node> },
    Return { val: Option<Box<Node>> },
    FuncCall { func_offset: u32, args: Vec<Node> },
    SysCall { sys_num: u8, args: Vec<Node> },
    Printf { str_num: Box<Node>, args: Vec<Node> },
    Var { is_global: bool, var_num: u16 },
}

/// What the commands of a script are grouped into before they are read.
#[derive(Debug)]
pub enum InterForm {
    IfElseBlock { if_block: Vec<InterForm>, else_block: Option<Vec<InterForm>> },
    Node { node: Node },
    Cmd { cmd: Command },
}

#[derive(Debug)]
pub struct ScriptAst {
    pub var_count: u16,
    pub arg_count: u16,
    pub nodes: Vec<Node>,
}

/// A node as a value: its lists are sequences.
pub enum Tree {
    Assign { op: AssignOp, is_global: bool, var_num: u16, right: Box<Tree> },
    Const { val: Const },
    BinOp { op: BinOp, left: Box<Tree>, right: Box<Tree> },
    UnaryOp { op: UnaryOp, left: Box<Tree> },
    If { cond: Box<Tree>, if_block: Seq<Tree>, else_block: Seq<Tree> },
    Return { val: Option<Box<Tree>> },
    FuncCall { func_offset: u32, args: Seq<Tree> },
    SysCall { sys_num: u8, args: Seq<Tree> },
    Printf { str_num: Box<Tree>, args: Seq<Tree> },
    Var { is_global: bool, var_num: u16 },
}

pub struct ScriptTree {
    pub var_count: u16,
    pub arg_count: u16,
    pub nodes: Seq<Tree>,
}

pub open spec fn tree_of(n: Node) -> Tree
    decreases n,
{
    match n {
        Node::Assign { op, is_global, var_num, right } => Tree::Assign {
            op,
            is_global,
            var_num,
            right: Box::new(tree_of(*right)),
        },
        Node::Const { val } => Tree::Const { val },
        Node::BinOp { op, left, right } => Tree::BinOp {
            op,
            left: Box::new(tree_of(*left)),
            right: Box::new(tree_of(*right)),
        },
        Node::UnaryOp { op, left } => Tree::UnaryOp { op, left: Box::new(tree_of(*left)) },
        Node::If { cond, if_block, else_block } => Tree::If {
            cond: Box::new(tree_of(*cond)),
            if_block: Seq::new(
                if_block@.len(),
                |i: int|
                    if 0 <= i < if_block@.len() {
                        tree_of(if_block@[i])
                    } else {
                        Tree::Return { val: None }
                    },
            ),
            else_block: Seq::new(
                else_block@.len(),
                |i: int|
                    if 0 <= i < else_block@.len() {
                        tree_of(else_block@[i])
                    } else {
                        Tree::Return { val: None }
                    },
            ),
        },
        Node::Return { val } => Tree::Return {
            val: match val {
                Some(v) => Some(Box::new(tree_of(*v))),
                None => None,
            },
        },
        Node::FuncCall { func_offset, args } => Tree::FuncCall { func_offset, args: trees_of(args@) },
        Node::SysCall { sys_num, args } => Tree::SysCall { sys_num, args: trees_of(args@) },
        Node::Printf { str_num, args } => Tree::Printf {
            str_num: Box::new(tree_of(*str_num)),
            args: trees_of(args@),
        },
        Node::Var { is_global, var_num } => Tree::Var { is_global, var_num },
    }
}

/// The trees of a list of nodes.
pub open spec fn trees_of(nodes: Seq<Node>) -> Seq<Tree>
    decreases nodes,
{
    Seq::new(
        nodes.len(),
        |i: int|
            if 0 <= i < nodes.len() {
                tree_of(nodes[i])
            } else {
                Tree::Return { val: None }
            },
    )
}

impl View for Node {
    type V = Tree;

    open spec fn view(&self) -> Tree {
        tree_of(*self)
    }
}

impl View for ScriptAst {
    type V = ScriptTree;

    open spec fn view(&self) -> ScriptTree {
        ScriptTree { var_count: self.var_count, arg_count: self.arg_count, nodes: trees_of(self.nodes@) }
    }
}

/// The binary operator that a command stands for.
pub open spec fn binop_of(c: Cmd) -> Option<BinOp> {
    match c {
        Cmd::AddI => Some(BinOp::Add(Type::Int)),
        Cmd::SubI => Some(BinOp::Sub(Type::Int)),
        Cmd::MultI => Some(BinOp::Mult(Type::Int)),
        Cmd::DivI => Some(BinOp::Div(Type::Int)),
        Cmd::ModI => Some(BinOp::Mod),
        Cmd::AndI => Some(BinOp::BitAnd),
        Cmd::OrI => Some(BinOp::BitOr),
        Cmd::XorI => Some(BinOp::BitXor),
        Cmd::ShiftL => Some(BinOp::ShiftL),
        Cmd::ShiftR => Some(BinOp::ShiftR),
        Cmd::AddF => Some(BinOp::Add(Type::Float)),
        Cmd::SubF => Some(BinOp::Sub(Type::Float)),
        Cmd::MultF => Some(BinOp::Mult(Type::Float)),
        Cmd::DivF => Some(BinOp::Div(Type::Float)),
        Cmd::Equals => Some(BinOp::Equal(Type::Int)),
        Cmd::NotEquals => Some(BinOp::NotEqual(Type::Int)),
        Cmd::LessThan => Some(BinOp::LessThan(Type::Int)),
        Cmd::LessOrEqual => Some(BinOp::LessThanOrEqual(Type::Int)),
        Cmd::Greater => Some(BinOp::GreaterThan(Type::Int)),
        Cmd::GreaterOrEqual => Some(BinOp::GreaterThanOrEqual(Type::Int)),
        Cmd::EqualsF => Some(BinOp::Equal(Type::Float)),
        Cmd::NotEqualsF => Some(BinOp::NotEqual(Type::Float)),
        Cmd::LessThanF => Some(BinOp::LessThan(Type::Float)),
        Cmd::LessOrEqualF => Some(BinOp::LessThanOrEqual(Type::Float)),
        Cmd::GreaterF => Some(BinOp::GreaterThan(Type::Float)),
        Cmd::GreaterOrEqualF => Some(BinOp::GreaterThanOrEqual(Type::Float)),
        _ => None,
    }
}

/// The type of the operands of a binary operator command.
pub open spec fn binop_type(c: Cmd) -> Type {
    match c {
        Cmd::AddF | Cmd::SubF | Cmd::MultF | Cmd::DivF => Type::Float,
        Cmd::EqualsF | Cmd::NotEqualsF | Cmd::LessThanF | Cmd::LessOrEqualF | Cmd::GreaterF
        | Cmd::GreaterOrEqualF => Type::Float,
        _ => Type::Int,
    }
}

/// The assignment that a command on a variable stands for.
pub open spec fn assignop_of(c: Cmd) -> Option<AssignOp> {
    match c {
        Cmd::IncI { var_type, var_num } => Some(AssignOp::Add(Type::Int)),
        Cmd::DecI { var_type, var_num } => Some(AssignOp::Sub(Type::Int)),
        Cmd::SetVar { var_type, var_num } => Some(AssignOp::Assign(Type::Int)),
        Cmd::AddVarBy { var_type, var_num } => Some(AssignOp::Add(Type::Int)),
        Cmd::SubVarBy { var_type, var_num } => Some(AssignOp::Sub(Type::Int)),
        Cmd::MultVarBy { var_type, var_num } => Some(AssignOp::Mult(Type::Int)),
        Cmd::DivVarBy { var_type, var_num } => Some(AssignOp::Div(Type::Int)),
        Cmd::ModVarBy { var_type, var_num } => Some(AssignOp::Mod),
        Cmd::AndVarBy { var_type, var_num } => Some(AssignOp::And),
        Cmd::OrVarBy { var_type, var_num } => Some(AssignOp::Or),
        Cmd::XorVarBy { var_type, var_num } => Some(AssignOp::Xor),
        Cmd::IncF { var_type, var_num } => Some(AssignOp::Add(Type::Float)),
        Cmd::DecF { var_type, var_num } => Some(AssignOp::Sub(Type::Float)),
        Cmd::VarSetF { var_type, var_num } => Some(AssignOp::Assign(Type::Float)),
        Cmd::AddVarByF { var_type, var_num } => Some(AssignOp::Add(Type::Float)),
        Cmd::SubVarByF { var_type, var_num } => Some(AssignOp::Sub(Type::Float)),
        Cmd::MultVarByF { var_type, var_num } => Some(AssignOp::Mult(Type::Float)),
        Cmd::DivVarByF { var_type, var_num } => Some(AssignOp::Div(Type::Float)),
        _ => None,
    }
}

/// The type of the variable that a command works on.
pub open spec fn var_type_of(c: Cmd) -> Type {
    match c {
        Cmd::IncF { var_type, var_num } | Cmd::DecF { var_type, var_num } | Cmd::VarSetF {
            var_type,
            var_num,
        } | Cmd::AddVarByF { var_type, var_num } | Cmd::SubVarByF { var_type, var_num } | Cmd::MultVarByF {
            var_type,
            var_num,
        } | Cmd::DivVarByF { var_type, var_num } => Type::Float,
        _ => Type::Int,
    }
}

/// The variable that a command works on: whether it is global, and its number.
pub open spec fn variable_of(c: Cmd) -> (bool, u16) {
    match c {
        Cmd::IncI { var_type, var_num } | Cmd::DecI { var_type, var_num } | Cmd::SetVar {
            var_type,
            var_num,
        } | Cmd::AddVarBy { var_type, var_num } | Cmd::SubVarBy { var_type, var_num } | Cmd::MultVarBy {
            var_type,
            var_num,
        } | Cmd::DivVarBy { var_type, var_num } | Cmd::ModVarBy { var_type, var_num } | Cmd::AndVarBy {
            var_type,
            var_num,
        } | Cmd::OrVarBy { var_type, var_num } | Cmd::XorVarBy { var_type, var_num } | Cmd::IncF {
            var_type,
            var_num,
        } | Cmd::DecF { var_type, var_num } | Cmd::VarSetF { var_type, var_num } | Cmd::AddVarByF {
            var_type,
            var_num,
        } | Cmd::SubVarByF { var_type, var_num } | Cmd::MultVarByF { var_type, var_num } | Cmd::DivVarByF {
            var_type,
            var_num,
        } | Cmd::PushVar { var_type, var_num } => (var_type == 1, var_num),
        _ => (false, 0u16),
    }
}

/// Whether the command adds or takes one: it has no operand on the stack.
pub open spec fn is_step(c: Cmd) -> bool {
    match c {
        Cmd::IncI { var_type, var_num } | Cmd::DecI { var_type, var_num } | Cmd::IncF {
            var_type,
            var_num,
        } | Cmd::DecF { var_type, var_num } => true,
        _ => false,
    }
}

/// The unary operator that a command stands for; the casts are not among them.
pub open spec fn unaryop_of(c: Cmd) -> Option<UnaryOp> {
    match c {
        Cmd::Not => Some(UnaryOp::Not),
        Cmd::NotI => Some(UnaryOp::BitNot),
        Cmd::NegI => Some(UnaryOp::Negate(Type::Int)),
        Cmd::NegF => Some(UnaryOp::Negate(Type::Float)),
        _ => None,
    }
}

pub open spec fn unaryop_type(c: Cmd) -> Type {
    match c {
        Cmd::NegF => Type::Float,
        _ => Type::Int,
    }
}

/// The bits of the float 1.0.
pub const ONE_F32: u32 = 0x3f80_0000;

/// The constant `val` of type `t`: an integer in two's complement.
pub open spec fn constant(val: i32, t: Type) -> Const {
    match t {
        Type::Int => Const::U32(
            if val >= 0 {
                val as u32
            } else {
                (val + 0x1_0000_0000) as u32
            },
        ),
        Type::Float => Const::F32(ONE_F32),
    }
}

pub fn cmd_to_binop(c: Cmd) -> (op: BinOp)
    requires
        binop_of(c) is Some,
    ensures
        binop_of(c) == Some(op),
{
    match c {
        Cmd::AddI => BinOp::Add(Type::Int),
        Cmd::SubI => BinOp::Sub(Type::Int),
        Cmd::MultI => BinOp::Mult(Type::Int),
        Cmd::DivI => BinOp::Div(Type::Int),
        Cmd::ModI => BinOp::Mod,
        Cmd::AndI => BinOp::BitAnd,
        Cmd::OrI => BinOp::BitOr,
        Cmd::XorI => BinOp::BitXor,
        Cmd::ShiftL => BinOp::ShiftL,
        Cmd::ShiftR => BinOp::ShiftR,
        Cmd::AddF => BinOp::Add(Type::Float),
        Cmd::SubF => BinOp::Sub(Type::Float),
        Cmd::MultF => BinOp::Mult(Type::Float),
        Cmd::DivF => BinOp::Div(Type::Float),
        Cmd::Equals => BinOp::Equal(Type::Int),
        Cmd::NotEquals => BinOp::NotEqual(Type::Int),
        Cmd::LessThan => BinOp::LessThan(Type::Int),
        Cmd::LessOrEqual => BinOp::LessThanOrEqual(Type::Int),
        Cmd::Greater => BinOp::GreaterThan(Type::Int),
        Cmd::GreaterOrEqual => BinOp::GreaterThanOrEqual(Type::Int),
        Cmd::EqualsF => BinOp::Equal(Type::Float),
        Cmd::NotEqualsF => BinOp::NotEqual(Type::Float),
        Cmd::LessThanF => BinOp::LessThan(Type::Float),
        Cmd::LessOrEqualF => BinOp::LessThanOrEqual(Type::Float),
        Cmd::GreaterF => BinOp::GreaterThan(Type::Float),
        _ => BinOp::GreaterThanOrEqual(Type::Float),
    }
}

pub fn binop_cmd_type(c: Cmd) -> (t: Type)
    requires
        binop_of(c) is Some,
    ensures
        t == binop_type(c),
{
    match c {
        Cmd::AddF | Cmd::SubF | Cmd::MultF | Cmd::DivF => Type::Float,
        Cmd::EqualsF | Cmd::NotEqualsF | Cmd::LessThanF | Cmd::LessOrEqualF | Cmd::GreaterF
        | Cmd::GreaterOrEqualF => Type::Float,
        _ => Type::Int,
    }
}

pub fn var_cmd_type(c: Cmd) -> (t: Type)
    requires
        assignop_of(c) is Some,
    ensures
        t == var_type_of(c),
{
    match c {
        Cmd::IncF { var_type, var_num } | Cmd::DecF { var_type, var_num } | Cmd::VarSetF {
            var_type,
            var_num,
        } | Cmd::AddVarByF { var_type, var_num } | Cmd::SubVarByF { var_type, var_num } | Cmd::MultVarByF {
            var_type,
            var_num,
        } | Cmd::DivVarByF { var_type, var_num } => Type::Float,
        _ => Type::Int,
    }
}

pub fn cmd_to_assignop(c: Cmd) -> (op: AssignOp)
    requires
        assignop_of(c) is Some,
    ensures
        assignop_of(c) == Some(op),
{
    match c {
        Cmd::IncI { var_type, var_num } => AssignOp::Add(Type::Int),
        Cmd::DecI { var_type, var_num } => AssignOp::Sub(Type::Int),
        Cmd::SetVar { var_type, var_num } => AssignOp::Assign(Type::Int),
        Cmd::AddVarBy { var_type, var_num } => AssignOp::Add(Type::Int),
        Cmd::SubVarBy { var_type, var_num } => AssignOp::Sub(Type::Int),
        Cmd::MultVarBy { var_type, var_num } => AssignOp::Mult(Type::Int),
        Cmd::DivVarBy { var_type, var_num } => AssignOp::Div(Type::Int),
        Cmd::ModVarBy { var_type, var_num } => AssignOp::Mod,
        Cmd::AndVarBy { var_type, var_num } => AssignOp::And,
        Cmd::OrVarBy { var_type, var_num } => AssignOp::Or,
        Cmd::XorVarBy { var_type, var_num } => AssignOp::Xor,
        Cmd::IncF { var_type, var_num } => AssignOp::Add(Type::Float),
        Cmd::DecF { var_type, var_num } => AssignOp::Sub(Type::Float),
        Cmd::VarSetF { var_type, var_num } => AssignOp::Assign(Type::Float),
        Cmd::AddVarByF { var_type, var_num } => AssignOp::Add(Type::Float),
        Cmd::SubVarByF { var_type, var_num } => AssignOp::Sub(Type::Float),
        Cmd::MultVarByF { var_type, var_num } => AssignOp::Mult(Type::Float),
        _ => AssignOp::Div(Type::Float),
    }
}

pub fn cmd_to_unaryop(c: Cmd) -> (op: UnaryOp)
    requires
        unaryop_of(c) is Some,
    ensures
        unaryop_of(c) == Some(op),
{
    match c {
        Cmd::Not => UnaryOp::Not,
        Cmd::NotI => UnaryOp::BitNot,
        Cmd::NegI => UnaryOp::Negate(Type::Int),
        _ => UnaryOp::Negate(Type::Float),
    }
}

pub fn unaryop_cmd_type(c: Cmd) -> (t: Type)
    requires
        unaryop_of(c) is Some,
    ensures
        t == unaryop_type(c),
{
    match c {
        Cmd::NegF => Type::Float,
        _ => Type::Int,
    }
}

impl Node {
    /// The constant `val` of type `t`. Of the floats only 1.0 is offered:
    /// it is the one that the tree of a script needs.
    pub fn const_from_type(val: i32, t: Type) -> (n: Node)
        requires
            t == Type::Float ==> val == 1,
        ensures
            n@ == (Tree::Const { val: constant(val, t) }),
    {
        match t {
            Type::Int => {
                let bits: u32 = if val >= 0 {
                    val as u32
                } else {
                    (u32::MAX - ((-(val + 1)) as u32))
                };
                Node::Const { val: Const::U32(bits) }
            },
            Type::Float => Node::Const { val: Const::F32(ONE_F32) },
        }
    }

    /// The value of an integer constant.
    pub fn as_u32(&self) -> (r: Option<u64>)
        ensures
            r == match self@ {
                Tree::Const { val: Const::U32(v) } => Some(v as u64),
                _ => None,
            },
    {
        match self {
            Node::Const { val: Const::U32(v) } => Some(*v as u64),
            _ => None,
        }
    }
}

/// The command that a form holds, if it holds one.
pub open spec fn form_command(f: InterForm) -> Option<Command> {
    match f {
        InterForm::Cmd { cmd } => Some(cmd),
        _ => None,
    }
}

/// Each command from `from` on as a form of its own.
pub fn group_structures(commands: &Vec<Command>, from: usize) -> (forms: Vec<InterForm>)
    requires
        from <= commands@.len(),
    ensures
        forms@.len() == commands@.len() - from,
        forall|i: int| 0 <= i < forms@.len() ==> form_command(#[trigger] forms@[i]) == Some(commands@[from + i]),
{
    let mut forms: Vec<InterForm> = Vec::new();
    let mut i: usize = from;
    while i < commands.len()
        invariant
            from <= i <= commands@.len(),
            forms@.len() == i - from,
            forall|k: int| 0 <= k < forms@.len() ==> form_command(#[trigger] forms@[k]) == Some(commands@[from + k]),
        decreases commands@.len() - i,
    {
        let c = &commands[i];
        forms.push(InterForm::Cmd { cmd: Command { cmd: c.cmd, push_bit: c.push_bit, position: c.position } });
        i = i + 1;
    }
    forms
}

/// What reading one node yields: the node and the number of forms left, or
/// nothing where the forms ran out.
pub type Taken = Option<(Tree, nat)>;

pub open spec fn bad_cast(cmd: Command) -> CompileError {
    violating(cmd, Violation::CastSlot)
}

/// The node read from the first `remaining` forms, the last first. Forms
/// that leave nothing on the stack to read are passed over.
pub open spec fn parsed(forms: Seq<InterForm>, remaining: nat, suspect: Option<Type>) -> Result<
    Taken,
    CompileError,
>
    decreases remaining, 0nat,
{
    if remaining == 0 || remaining > forms.len() {
        Ok(None)
    } else {
        let rest = (remaining - 1) as nat;
        match form_command(forms[rest as int]) {
            None => parsed(forms, rest, suspect),
            Some(c) => {
                let skip = parsed(forms, rest, suspect);
                let (is_global, var_num) = variable_of(c.cmd);
                match c.cmd {
                    Cmd::PushInt { val } => if c.push_bit {
                        Ok(
                            Some(
                                (
                                    Tree::Const {
                                        val: if suspect == Some(Type::Float) {
                                            Const::F32(val)
                                        } else {
                                            Const::U32(val)
                                        },
                                    },
                                    rest,
                                ),
                            ),
                        )
                    } else {
                        skip
                    },
                    Cmd::PushShort { val } => if c.push_bit {
                        Ok(Some((Tree::Const { val: Const::U32(val as u32) }, rest)))
                    } else {
                        skip
                    },
                    Cmd::PushVar { var_type, var_num } => if c.push_bit {
                        Ok(Some((Tree::Var { is_global: var_type == 1, var_num }, rest)))
                    } else {
                        skip
                    },
                    Cmd::Return6 | Cmd::Return8 => match parsed(forms, rest, None) {
                        Err(e) => Err(e),
                        Ok(None) => Ok(None),
                        Ok(Some((v, left2))) => Ok(Some((Tree::Return { val: Some(Box::new(v)) }, left2))),
                    },
                    Cmd::Return7 | Cmd::Return9 | Cmd::End => Ok(Some((Tree::Return { val: None }, rest))),
                    Cmd::IntToFloat { stack_pos } => if stack_pos != 0 {
                        Err(bad_cast(c))
                    } else {
                        match parsed(forms, rest, Some(Type::Int)) {
                            Err(e) => Err(e),
                            Ok(None) => Ok(None),
                            Ok(Some((v, left2))) => Ok(
                                Some((Tree::UnaryOp { op: UnaryOp::ToFloat, left: Box::new(v) }, left2)),
                            ),
                        }
                    },
                    Cmd::FloatToInt { stack_pos } => if stack_pos != 0 {
                        Err(bad_cast(c))
                    } else {
                        match parsed(forms, rest, Some(Type::Float)) {
                            Err(e) => Err(e),
                            Ok(None) => Ok(None),
                            Ok(Some((v, left2))) => Ok(
                                Some((Tree::UnaryOp { op: UnaryOp::ToInt, left: Box::new(v) }, left2)),
                            ),
                        }
                    },
                    Cmd::PrintF { arg_count } => if arg_count == 0 {
                        skip
                    } else {
                        match parsed_list(forms, rest, (arg_count - 1) as nat, Type::Float) {
                            Err(e) => Err(e),
                            Ok(None) => Ok(None),
                            Ok(Some((args, left))) => if left <= rest {
                                match parsed(forms, left, Some(Type::Int)) {
                                    Err(e) => Err(e),
                                    Ok(None) => Ok(None),
                                    Ok(Some((v, left2))) => Ok(
                                        Some((Tree::Printf { str_num: Box::new(v), args }, left2)),
                                    ),
                                }
                            } else {
                                Ok(None)
                            },
                        }
                    },
                    Cmd::Sys { arg_count, sys_num } => match parsed_list(
                        forms,
                        rest,
                        arg_count as nat,
                        Type::Float,
                    ) {
                        Err(e) => Err(e),
                        Ok(None) => Ok(None),
                        Ok(Some((args, left))) => Ok(Some((Tree::SysCall { sys_num, args }, left))),
                    },
                    Cmd::Jump { loc } | Cmd::Jump5 { loc } | Cmd::Else { loc } => Err(unsupported(c)),
                    _ => if binop_of(c.cmd) is Some {
                        if c.push_bit {
                            match parsed(forms, rest, Some(binop_type(c.cmd))) {
                                Err(e) => Err(e),
                                Ok(None) => Ok(None),
                                Ok(Some((right, left))) => if left <= rest {
                                    match parsed(forms, left, Some(binop_type(c.cmd))) {
                                        Err(e) => Err(e),
                                        Ok(None) => Ok(None),
                                        Ok(Some((v, left2))) => Ok(
                                            Some(
                                                (
                                                    Tree::BinOp {
                                                        op: binop_of(c.cmd)->Some_0,
                                                        left: Box::new(v),
                                                        right: Box::new(right),
                                                    },
                                                    left2,
                                                ),
                                            ),
                                        ),
                                    }
                                } else {
                                    Ok(None)
                                },
                            }
                        } else {
                            skip
                        }
                    } else if unaryop_of(c.cmd) is Some {
                        if c.push_bit {
                            match parsed(forms, rest, Some(unaryop_type(c.cmd))) {
                                Err(e) => Err(e),
                                Ok(None) => Ok(None),
                                Ok(Some((v, left2))) => Ok(
                                    Some(
                                        (Tree::UnaryOp { op: unaryop_of(c.cmd)->Some_0, left: Box::new(v) }, left2),
                                    ),
                                ),
                            }
                        } else {
                            skip
                        }
                    } else if assignop_of(c.cmd) is Some {
                        if is_step(c.cmd) {
                            Ok(
                                Some(
                                    (
                                        Tree::Assign {
                                            op: assignop_of(c.cmd)->Some_0,
                                            is_global,
                                            var_num,
                                            right: Box::new(Tree::Const { val: constant(1, var_type_of(c.cmd)) }),
                                        },
                                        rest,
                                    ),
                                ),
                            )
                        } else {
                            match parsed(forms, rest, None) {
                                Err(e) => Err(e),
                                Ok(None) => Ok(None),
                                Ok(Some((v, left2))) => Ok(
                                    Some(
                                        (
                                            Tree::Assign {
                                                op: assignop_of(c.cmd)->Some_0,
                                                is_global,
                                                var_num,
                                                right: Box::new(v),
                                            },
                                            left2,
                                        ),
                                    ),
                                ),
                            }
                        }
                    } else {
                        skip
                    },
                }
            },
        }
    }
}

/// `count` nodes read one after the other, in the order of the script: the
/// node read first stands last.
pub open spec fn parsed_list(forms: Seq<InterForm>, remaining: nat, count: nat, suspect: Type) -> Result<
    Option<(Seq<Tree>, nat)>,
    CompileError,
>
    decreases remaining, count + 2,
{
    if count == 0 {
        Ok(Some((Seq::<Tree>::empty(), remaining)))
    } else {
        match parsed(forms, remaining, Some(suspect)) {
            Err(e) => Err(e),
            Ok(None) => Ok(None),
            Ok(Some((last, left))) => if left <= remaining {
                match parsed_list(forms, left, (count - 1) as nat, suspect) {
                    Err(e) => Err(e),
                    Ok(None) => Ok(None),
                    Ok(Some((before, left2))) => Ok(Some((before.push(last), left2))),
                }
            } else {
                Ok(None)
            },
        }
    }
}

/// All the nodes read from the first `remaining` forms, in the order of the
/// script.
pub open spec fn all_nodes(forms: Seq<InterForm>, remaining: nat) -> Result<Seq<Tree>, CompileError>
    decreases remaining,
{
    match parsed(forms, remaining, None) {
        Err(e) => Err(e),
        Ok(None) => Ok(Seq::<Tree>::empty()),
        Ok(Some((last, left))) => if left < remaining {
            match all_nodes(forms, left) {
                Err(e) => Err(e),
                Ok(before) => Ok(before.push(last)),
            }
        } else {
            Ok(Seq::<Tree>::empty())
        },
    }
}

/// The commands behind the first, each as a form of its own.
pub open spec fn forms_of(commands: Seq<Command>) -> Seq<InterForm> {
    Seq::new((commands.len() - 1) as nat, |i: int| InterForm::Cmd { cmd: commands[i + 1] })
}

/// The tree of a script: the counts of its `Begin` and the nodes of the
/// commands behind it.
pub open spec fn script_tree(script: Script) -> Result<ScriptTree, CompileError> {
    let commands = script.commands@;
    match crate::script::script_header(commands) {
        None => Err(crate::script::missing_begin(commands)),
        Some((arg_count, var_count)) => match all_nodes(forms_of(commands), (commands.len() - 1) as nat) {
            Err(e) => Err(e),
            Ok(nodes) => Ok(ScriptTree { var_count, arg_count, nodes }),
        },
    }
}

fn is_binop(c: Cmd) -> (b: bool)
    ensures
        b == (binop_of(c) is Some),
{
    match c {
        Cmd::AddI | Cmd::SubI | Cmd::MultI | Cmd::DivI | Cmd::ModI => true,
        Cmd::AndI | Cmd::OrI | Cmd::XorI | Cmd::ShiftL | Cmd::ShiftR => true,
        Cmd::AddF | Cmd::SubF | Cmd::MultF | Cmd::DivF => true,
        Cmd::Equals | Cmd::NotEquals | Cmd::LessThan | Cmd::LessOrEqual | Cmd::Greater | Cmd::GreaterOrEqual => true,
        Cmd::EqualsF | Cmd::NotEqualsF | Cmd::LessThanF | Cmd::LessOrEqualF | Cmd::GreaterF
        | Cmd::GreaterOrEqualF => true,
        _ => false,
    }
}

fn is_unaryop(c: Cmd) -> (b: bool)
    ensures
        b == (unaryop_of(c) is Some),
{
    match c {
        Cmd::Not | Cmd::NotI | Cmd::NegI | Cmd::NegF => true,
        _ => false,
    }
}

fn is_assignop(c: Cmd) -> (b: bool)
    ensures
        b == (assignop_of(c) is Some),
{
    match c {
        Cmd::IncI { var_type, var_num } | Cmd::DecI { var_type, var_num } | Cmd::SetVar {
            var_type,
            var_num,
        } | Cmd::AddVarBy { var_type, var_num } | Cmd::SubVarBy { var_type, var_num } | Cmd::MultVarBy {
            var_type,
            var_num,
        } | Cmd::DivVarBy { var_type, var_num } | Cmd::ModVarBy { var_type, var_num } | Cmd::AndVarBy {
            var_type,
            var_num,
        } | Cmd::OrVarBy { var_type, var_num } | Cmd::XorVarBy { var_type, var_num } | Cmd::IncF {
            var_type,
            var_num,
        } | Cmd::DecF { var_type, var_num } | Cmd::VarSetF { var_type, var_num } | Cmd::AddVarByF {
            var_type,
            var_num,
        } | Cmd::SubVarByF { var_type, var_num } | Cmd::MultVarByF { var_type, var_num } | Cmd::DivVarByF {
            var_type,
            var_num,
        } => true,
        _ => false,
    }
}

fn variable(c: Cmd) -> (v: (bool, u16))
    ensures
        v == variable_of(c),
{
    match c {
        Cmd::IncI { var_type, var_num } | Cmd::DecI { var_type, var_num } | Cmd::SetVar {
            var_type,
            var_num,
        } | Cmd::AddVarBy { var_type, var_num } | Cmd::SubVarBy { var_type, var_num } | Cmd::MultVarBy {
            var_type,
            var_num,
        } | Cmd::DivVarBy { var_type, var_num } | Cmd::ModVarBy { var_type, var_num } | Cmd::AndVarBy {
            var_type,
            var_num,
        } | Cmd::OrVarBy { var_type, var_num } | Cmd::XorVarBy { var_type, var_num } | Cmd::IncF {
            var_type,
            var_num,
        } | Cmd::DecF { var_type, var_num } | Cmd::VarSetF { var_type, var_num } | Cmd::AddVarByF {
            var_type,
            var_num,
        } | Cmd::SubVarByF { var_type, var_num } | Cmd::MultVarByF { var_type, var_num } | Cmd::DivVarByF {
            var_type,
            var_num,
        } | Cmd::PushVar { var_type, var_num } => (var_type == 1, var_num),
        _ => (false, 0),
    }
}

fn check_step(c: Cmd) -> (b: bool)
    ensures
        b == is_step(c),
{
    match c {
        Cmd::IncI { var_type, var_num } | Cmd::DecI { var_type, var_num } | Cmd::IncF {
            var_type,
            var_num,
        } | Cmd::DecF { var_type, var_num } => true,
        _ => false,
    }
}

/// What was read agrees with what the forms hold.
pub open spec fn agrees(r: Result<Option<(Node, usize)>, CompileError>, expected: Result<Taken, CompileError>) -> bool {
    match expected {
        Err(e) => r matches Err(e2) && e2 == e,
        Ok(None) => r matches Ok(None),
        Ok(Some((tree, left))) => r matches Ok(Some((node, l))) && node@ == tree && l == left,
    }
}

/// Reads one node from the first `remaining` forms, the last first.
/// `type_suspect` is the type that a bare constant is taken to have.
pub fn take_node(forms: &Vec<InterForm>, remaining: usize, type_suspect: Option<Type>) -> (r: Result<
    Option<(Node, usize)>,
    CompileError,
>)
    ensures
        agrees(r, parsed(forms@, remaining as nat, type_suspect)),
        r matches Ok(Some((_, left))) ==> left < remaining,
    decreases remaining, 0nat,
{
    if remaining == 0 || remaining > forms.len() {
        return Ok(None);
    }
    let rest = remaining - 1;
    let c: &Command = match &forms[rest] {
        InterForm::Cmd { cmd } => cmd,
        _ => {
            return take_node(forms, rest, type_suspect);
        },
    };
    match c.cmd {
        Cmd::PushInt { val } => {
            if c.push_bit {
                let float = match type_suspect {
                    Some(Type::Float) => true,
                    _ => false,
                };
                let val = if float {
                    Const::F32(val)
                } else {
                    Const::U32(val)
                };
                return Ok(Some((Node::Const { val }, rest)));
            }
            return take_node(forms, rest, type_suspect);
        },
        Cmd::PushShort { val } => {
            if c.push_bit {
                return Ok(Some((Node::Const { val: Const::U32(val as u32) }, rest)));
            }
            return take_node(forms, rest, type_suspect);
        },
        Cmd::PushVar { var_type, var_num } => {
            if c.push_bit {
                return Ok(Some((Node::Var { is_global: var_type == 1, var_num }, rest)));
            }
            return take_node(forms, rest, type_suspect);
        },
        Cmd::Return6 | Cmd::Return8 => {
            return match take_node(forms, rest, None) {
                Err(e) => Err(e),
                Ok(None) => Ok(None),
                Ok(Some((v, left))) => Ok(Some((Node::Return { val: Some(Box::new(v)) }, left))),
            };
        },
        Cmd::Return7 | Cmd::Return9 | Cmd::End => {
            return Ok(Some((Node::Return { val: None }, rest)));
        },
        Cmd::IntToFloat { stack_pos } => {
            if stack_pos != 0 {
                return Err(refuse_violating(c, Violation::CastSlot));
            }
            return match take_node(forms, rest, Some(Type::Int)) {
                Err(e) => Err(e),
                Ok(None) => Ok(None),
                Ok(Some((v, left))) => Ok(Some((Node::UnaryOp { op: UnaryOp::ToFloat, left: Box::new(v) }, left))),
            };
        },
        Cmd::FloatToInt { stack_pos } => {
            if stack_pos != 0 {
                return Err(refuse_violating(c, Violation::CastSlot));
            }
            return match take_node(forms, rest, Some(Type::Float)) {
                Err(e) => Err(e),
                Ok(None) => Ok(None),
                Ok(Some((v, left))) => Ok(Some((Node::UnaryOp { op: UnaryOp::ToInt, left: Box::new(v) }, left))),
            };
        },
        Cmd::PrintF { arg_count } => {
            if arg_count == 0 {
                return take_node(forms, rest, type_suspect);
            }
            return match take_list(forms, rest, (arg_count - 1) as usize, Type::Float) {
                Err(e) => Err(e),
                Ok(None) => Ok(None),
                Ok(Some((args, left))) => match take_node(forms, left, Some(Type::Int)) {
                    Err(e) => Err(e),
                    Ok(None) => Ok(None),
                    Ok(Some((v, left2))) => Ok(Some((Node::Printf { str_num: Box::new(v), args }, left2))),
                },
            };
        },
        Cmd::Sys { arg_count, sys_num } => {
            return match take_list(forms, rest, arg_count as usize, Type::Float) {
                Err(e) => Err(e),
                Ok(None) => Ok(None),
                Ok(Some((args, left))) => Ok(Some((Node::SysCall { sys_num, args }, left))),
            };
        },
        Cmd::Jump { loc } | Cmd::Jump5 { loc } | Cmd::Else { loc } => {
            return Err(refuse_unsupported(c));
        },
        _ => {},
    }
    let cmd = c.cmd;
    let push_bit = c.push_bit;
    if is_binop(cmd) {
        if !push_bit {
            return take_node(forms, rest, type_suspect);
        }
        let operand_type = binop_cmd_type(cmd);
        match take_node(forms, rest, Some(operand_type)) {
            Err(e) => Err(e),
            Ok(None) => Ok(None),
            Ok(Some((right, left))) => match take_node(forms, left, Some(operand_type)) {
                Err(e) => Err(e),
                Ok(None) => Ok(None),
                Ok(Some((first, left2))) => Ok(
                    Some(
                        (Node::BinOp { op: cmd_to_binop(cmd), left: Box::new(first), right: Box::new(right) }, left2),
                    ),
                ),
            },
        }
    } else if is_unaryop(cmd) {
        if !push_bit {
            return take_node(forms, rest, type_suspect);
        }
        match take_node(forms, rest, Some(unaryop_cmd_type(cmd))) {
            Err(e) => Err(e),
            Ok(None) => Ok(None),
            Ok(Some((v, left))) => Ok(Some((Node::UnaryOp { op: cmd_to_unaryop(cmd), left: Box::new(v) }, left))),
        }
    } else if is_assignop(cmd) {
        let (is_global, var_num) = variable(cmd);
        if check_step(cmd) {
            let one = Node::const_from_type(1, var_cmd_type(cmd));
            Ok(Some((Node::Assign { op: cmd_to_assignop(cmd), is_global, var_num, right: Box::new(one) }, rest)))
        } else {
            match take_node(forms, rest, None) {
                Err(e) => Err(e),
                Ok(None) => Ok(None),
                Ok(Some((v, left))) => Ok(
                    Some((Node::Assign { op: cmd_to_assignop(cmd), is_global, var_num, right: Box::new(v) }, left)),
                ),
            }
        }
    } else {
        take_node(forms, rest, type_suspect)
    }
}

/// Reads `count` nodes and hands them back in the order of the script.
pub fn take_list(forms: &Vec<InterForm>, remaining: usize, count: usize, suspect: Type) -> (r: Result<
    Option<(Vec<Node>, usize)>,
    CompileError,
>)
    ensures
        match parsed_list(forms@, remaining as nat, count as nat, suspect) {
            Err(e) => r matches Err(e2) && e2 == e,
            Ok(None) => r matches Ok(None),
            Ok(Some((trees, left))) => r matches Ok(Some((nodes, l))) && trees_of(nodes@) == trees && l == left,
        },
        r matches Ok(Some((_, left))) ==> left <= remaining,
    decreases remaining, count + 2,
{
    if count == 0 {
        let nodes: Vec<Node> = Vec::new();
        assert(trees_of(nodes@) =~= Seq::<Tree>::empty());
        return Ok(Some((nodes, remaining)));
    }
    match take_node(forms, remaining, Some(suspect)) {
        Err(e) => Err(e),
        Ok(None) => Ok(None),
        Ok(Some((last, left))) => match take_list(forms, left, count - 1, suspect) {
            Err(e) => Err(e),
            Ok(None) => Ok(None),
            Ok(Some((mut nodes, left2))) => {
                let ghost before = nodes@;
                let ghost added = last@;
                nodes.push(last);
                assert(trees_of(nodes@) =~= trees_of(before).push(added));
                Ok(Some((nodes, left2)))
            },
        },
    }
}

fn take_all(forms: &Vec<InterForm>, remaining: usize) -> (r: Result<Vec<Node>, CompileError>)
    ensures
        match all_nodes(forms@, remaining as nat) {
            Err(e) => r matches Err(e2) && e2 == e,
            Ok(trees) => r matches Ok(nodes) && trees_of(nodes@) == trees,
        },
    decreases remaining,
{
    match take_node(forms, remaining, None) {
        Err(e) => Err(e),
        Ok(None) => {
            let nodes: Vec<Node> = Vec::new();
            assert(trees_of(nodes@) =~= Seq::<Tree>::empty());
            Ok(nodes)
        },
        Ok(Some((last, left))) => match take_all(forms, left) {
            Err(e) => Err(e),
            Ok(mut nodes) => {
                let ghost before = nodes@;
                let ghost added = last@;
                nodes.push(last);
                assert(trees_of(nodes@) =~= trees_of(before).push(added));
                Ok(nodes)
            },
        },
    }
}

/// Scripts that can be read as a tree.
pub trait AsAst {
    /// The tree of the script.
    spec fn tree(&self) -> Result<ScriptTree, CompileError>;

    fn as_ast(&self) -> (r: Result<ScriptAst, CompileError>)
        ensures
            match self.tree() {
                Err(e) => r matches Err(e2) && e2 == e,
                Ok(t) => r matches Ok(ast) && ast@ == t,
            },
    ;
}

impl AsAst for Script {
    open spec fn tree(&self) -> Result<ScriptTree, CompileError> {
        script_tree(*self)
    }

    fn as_ast(&self) -> (r: Result<ScriptAst, CompileError>) {
        if self.commands.len() == 0 {
            return Err(
                CompileError::StructuralViolation { position: 0, opcode: None, violation: Violation::MissingBegin },
            );
        }
        let (arg_count, var_count) = match self.commands[0].cmd {
            Cmd::Begin { arg_count, var_count } => (arg_count, var_count),
            _ => {
                return Err(refuse_violating(&self.commands[0], Violation::MissingBegin));
            },
        };
        let forms = group_structures(&self.commands, 1);
        assert(forms@ =~= forms_of(self.commands@)) by {
            assert forall|i: int| 0 <= i < forms@.len() implies forms@[i] == forms_of(self.commands@)[i] by {
                assert(form_command(forms@[i]) == Some(self.commands@[1 + i]));
            }
        }
        match take_all(&forms, forms.len()) {
            Err(e) => Err(e),
            Ok(nodes) => Ok(ScriptAst { var_count, arg_count, nodes }),
        }
    }
}

} // verus!
