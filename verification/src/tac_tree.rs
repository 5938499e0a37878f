//! Three-address code: the flat intermediate representation produced from
//! the syntax tree, its specification-level mirror, and the structural
//! invariants that hold of every generated function.

use vstd::prelude::*;

use crate::ast_tree::{BinaryOperatorNode, UnaryOperatorNode};

verus! {

/// A value: an integer constant or a named virtual register.
#[derive(Debug, PartialEq, Eq)]
pub enum TValNode {
    Constant(usize),
    Var(String),
}

impl Clone for TValNode {
    /// A clone is equal to the original, field for field.
    fn clone(&self) -> (r: Self)
        ensures
            r == *self,
    {
        match self {
            TValNode::Constant(c) => TValNode::Constant(*c),
            TValNode::Var(s) => TValNode::Var(s.clone()),
        }
    }
}

/// One three-address instruction.
#[derive(Debug, PartialEq, Eq)]
pub enum TInstructionNode {
    Return(TValNode),
    Unary(UnaryOperatorNode, TValNode, TValNode),
    Binary(BinaryOperatorNode, TValNode, TValNode, TValNode),
    Copy(TValNode, TValNode),
    Jump(String),
    JumpIfZero(TValNode, String),
    JumpIfNotZero(TValNode, String),
    Label(String),
}

#[derive(Debug, PartialEq, Eq)]
pub enum TFunctionDefinitionNode {
    Function(String, Vec<TInstructionNode>),
}

#[derive(Debug, PartialEq, Eq)]
pub enum TProgramNode {
    Program(TFunctionDefinitionNode),
}

/// The model of a value.
pub enum SpecTVal {
    Constant(int),
    Var(Seq<char>),
}

/// The model of an instruction.
pub enum SpecTInstr {
    Return(SpecTVal),
    Unary(UnaryOperatorNode, SpecTVal, SpecTVal),
    Binary(BinaryOperatorNode, SpecTVal, SpecTVal, SpecTVal),
    Copy(SpecTVal, SpecTVal),
    Jump(Seq<char>),
    JumpIfZero(SpecTVal, Seq<char>),
    JumpIfNotZero(SpecTVal, Seq<char>),
    Label(Seq<char>),
}

pub enum SpecTFunction {
    Function(Seq<char>, Seq<SpecTInstr>),
}

pub enum SpecTProgram {
    Program(SpecTFunction),
}

impl View for TValNode {
    type V = SpecTVal;

    open spec fn view(&self) -> SpecTVal {
        match self {
            TValNode::Constant(c) => SpecTVal::Constant(*c as int),
            TValNode::Var(s) => SpecTVal::Var(s@),
        }
    }
}

impl View for TInstructionNode {
    type V = SpecTInstr;

    open spec fn view(&self) -> SpecTInstr {
        match self {
            TInstructionNode::Return(v) => SpecTInstr::Return(v@),
            TInstructionNode::Unary(op, s, d) => SpecTInstr::Unary(*op, s@, d@),
            TInstructionNode::Binary(op, a, b, d) => SpecTInstr::Binary(*op, a@, b@, d@),
            TInstructionNode::Copy(s, d) => SpecTInstr::Copy(s@, d@),
            TInstructionNode::Jump(l) => SpecTInstr::Jump(l@),
            TInstructionNode::JumpIfZero(v, l) => SpecTInstr::JumpIfZero(v@, l@),
            TInstructionNode::JumpIfNotZero(v, l) => SpecTInstr::JumpIfNotZero(v@, l@),
            TInstructionNode::Label(l) => SpecTInstr::Label(l@),
        }
    }
}

/// The model of an instruction vector.
pub open spec fn tinstrs_view(ins: Seq<TInstructionNode>) -> Seq<SpecTInstr> {
    ins.map(|i: int, t: TInstructionNode| t@)
}

impl View for TFunctionDefinitionNode {
    type V = SpecTFunction;

    open spec fn view(&self) -> SpecTFunction {
        match self {
            TFunctionDefinitionNode::Function(name, ins) => SpecTFunction::Function(
                name@,
                tinstrs_view(ins@),
            ),
        }
    }
}

impl View for TProgramNode {
    type V = SpecTProgram;

    open spec fn view(&self) -> SpecTProgram {
        match self {
            TProgramNode::Program(f) => SpecTProgram::Program(f@),
        }
    }
}

/// The destination written by an instruction, if any, is a virtual register.
pub open spec fn instr_dst_is_var(i: SpecTInstr) -> bool {
    match i {
        SpecTInstr::Unary(_, _, d) => d is Var,
        SpecTInstr::Binary(_, _, _, d) => d is Var,
        SpecTInstr::Copy(_, d) => d is Var,
        _ => true,
    }
}

/// Every destination in the sequence is a virtual register.
pub open spec fn all_dsts_vars(ins: Seq<SpecTInstr>) -> bool {
    forall|k: int| 0 <= k < ins.len() ==> instr_dst_is_var(#[trigger] ins[k])
}

/// The label an instruction jumps to, if it is a jump.
pub open spec fn jump_target(i: SpecTInstr) -> Option<Seq<char>> {
    match i {
        SpecTInstr::Jump(l) => Some(l),
        SpecTInstr::JumpIfZero(_, l) => Some(l),
        SpecTInstr::JumpIfNotZero(_, l) => Some(l),
        _ => None,
    }
}

/// Whether the sequence holds a label of the given name.
pub open spec fn has_label(ins: Seq<SpecTInstr>, name: Seq<char>) -> bool {
    exists|k: int| 0 <= k < ins.len() && ins[k] == SpecTInstr::Label(name)
}

/// Every jump's target has a matching label in the sequence.
pub open spec fn jumps_resolved(ins: Seq<SpecTInstr>) -> bool {
    forall|k: int|
        0 <= k < ins.len() ==> match jump_target(#[trigger] ins[k]) {
            Some(l) => has_label(ins, l),
            None => true,
        }
}

/// No two label instructions carry the same name.
pub open spec fn labels_unique(ins: Seq<SpecTInstr>) -> bool {
    forall|i: int, j: int|
        0 <= i < j < ins.len() && #[trigger] ins[i] is Label && #[trigger] ins[j] is Label
            ==> ins[i]->Label_0 != ins[j]->Label_0
}

} // verus!
