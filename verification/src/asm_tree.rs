//! The abstract x86-64 assembly representation: a small instruction set
//! over immediates, hardware registers, named pseudo-registers and stack
//! slots, with its specification-level mirror and the encoding rules that
//! the post-generation pass establishes.

use vstd::prelude::*;

verus! {

/// The hardware registers the generator uses.
#[derive(Debug, Clone, Copy, PartialEq, Eq, Structural)]
pub enum ARegisterNode {
    AX,
    DX,
    R10,
    R11,
}

/// Condition codes for conditional jumps and byte sets.
#[derive(Debug, Clone, Copy, PartialEq, Eq, Structural)]
pub enum AConditionCode {
    E,
    NE,
    G,
    GE,
    L,
    LE,
}

/// An instruction operand. `Pseudo` names a virtual register that the
/// post-generation pass resolves onto the call frame.
#[derive(Debug, PartialEq, Eq)]
pub enum AOperandNode {
    Imm(usize),
    Reg(ARegisterNode),
    Pseudo(String),
    Stack(isize),
}

impl Clone for AOperandNode {
    /// A clone is equal to the original, field for field.
    fn clone(&self) -> (r: Self)
        ensures
            r == *self,
    {
        match self {
            AOperandNode::Imm(c) => AOperandNode::Imm(*c),
            AOperandNode::Reg(reg) => AOperandNode::Reg(*reg),
            AOperandNode::Pseudo(s) => AOperandNode::Pseudo(s.clone()),
            AOperandNode::Stack(off) => AOperandNode::Stack(*off),
        }
    }
}

#[derive(Debug, Clone, Copy, PartialEq, Eq, Structural)]
pub enum AUnaryOperatorNode {
    Neg,
    Not,
}

#[derive(Debug, Clone, Copy, PartialEq, Eq, Structural)]
pub enum ABinaryOperatorNode {
    Add,
    Sub,
    Mult,
}

/// One abstract assembly instruction.
#[derive(Debug, PartialEq, Eq)]
pub enum AInstructionNode {
    Mov(AOperandNode, AOperandNode),
    Unary(AUnaryOperatorNode, AOperandNode),
    Binary(ABinaryOperatorNode, AOperandNode, AOperandNode),
    Cmp(AOperandNode, AOperandNode),
    Idiv(AOperandNode),
    Cdq,
    Jmp(String),
    JmpCC(AConditionCode, String),
    SetCC(AConditionCode, AOperandNode),
    Label(String),
    AllocateStack(usize),
    Ret,
}

impl Clone for AInstructionNode {
    /// A clone is equal to the original, field for field.
    fn clone(&self) -> (r: Self)
        ensures
            r == *self,
    {
        match self {
            AInstructionNode::Mov(a, b) => AInstructionNode::Mov(a.clone(), b.clone()),
            AInstructionNode::Unary(op, o) => AInstructionNode::Unary(*op, o.clone()),
            AInstructionNode::Binary(op, a, b) => AInstructionNode::Binary(
                *op,
                a.clone(),
                b.clone(),
            ),
            AInstructionNode::Cmp(a, b) => AInstructionNode::Cmp(a.clone(), b.clone()),
            AInstructionNode::Idiv(o) => AInstructionNode::Idiv(o.clone()),
            AInstructionNode::Cdq => AInstructionNode::Cdq,
            AInstructionNode::Jmp(l) => AInstructionNode::Jmp(l.clone()),
            AInstructionNode::JmpCC(cc, l) => AInstructionNode::JmpCC(*cc, l.clone()),
            AInstructionNode::SetCC(cc, o) => AInstructionNode::SetCC(*cc, o.clone()),
            AInstructionNode::Label(l) => AInstructionNode::Label(l.clone()),
            AInstructionNode::AllocateStack(n) => AInstructionNode::AllocateStack(*n),
            AInstructionNode::Ret => AInstructionNode::Ret,
        }
    }
}

#[derive(Debug, PartialEq, Eq)]
pub enum AFunctionDefinitionNode {
    Function(String, Vec<AInstructionNode>),
}

#[derive(Debug, PartialEq, Eq)]
pub enum AProgramNode {
    Program(AFunctionDefinitionNode),
}

/// The model of an operand.
pub enum SpecAOperand {
    Imm(int),
    Reg(ARegisterNode),
    Pseudo(Seq<char>),
    Stack(int),
}

/// The model of an instruction.
pub enum SpecAInstr {
    Mov(SpecAOperand, SpecAOperand),
    Unary(AUnaryOperatorNode, SpecAOperand),
    Binary(ABinaryOperatorNode, SpecAOperand, SpecAOperand),
    Cmp(SpecAOperand, SpecAOperand),
    Idiv(SpecAOperand),
    Cdq,
    Jmp(Seq<char>),
    JmpCC(AConditionCode, Seq<char>),
    SetCC(AConditionCode, SpecAOperand),
    Label(Seq<char>),
    AllocateStack(int),
    Ret,
}

pub enum SpecAFunction {
    Function(Seq<char>, Seq<SpecAInstr>),
}

pub enum SpecAProgram {
    Program(SpecAFunction),
}

impl View for AOperandNode {
    type V = SpecAOperand;

    open spec fn view(&self) -> SpecAOperand {
        match self {
            AOperandNode::Imm(c) => SpecAOperand::Imm(*c as int),
            AOperandNode::Reg(r) => SpecAOperand::Reg(*r),
            AOperandNode::Pseudo(s) => SpecAOperand::Pseudo(s@),
            AOperandNode::Stack(off) => SpecAOperand::Stack(*off as int),
        }
    }
}

impl View for AInstructionNode {
    type V = SpecAInstr;

    open spec fn view(&self) -> SpecAInstr {
        match self {
            AInstructionNode::Mov(a, b) => SpecAInstr::Mov(a@, b@),
            AInstructionNode::Unary(op, o) => SpecAInstr::Unary(*op, o@),
            AInstructionNode::Binary(op, a, b) => SpecAInstr::Binary(*op, a@, b@),
            AInstructionNode::Cmp(a, b) => SpecAInstr::Cmp(a@, b@),
            AInstructionNode::Idiv(o) => SpecAInstr::Idiv(o@),
            AInstructionNode::Cdq => SpecAInstr::Cdq,
            AInstructionNode::Jmp(l) => SpecAInstr::Jmp(l@),
            AInstructionNode::JmpCC(cc, l) => SpecAInstr::JmpCC(*cc, l@),
            AInstructionNode::SetCC(cc, o) => SpecAInstr::SetCC(*cc, o@),
            AInstructionNode::Label(l) => SpecAInstr::Label(l@),
            AInstructionNode::AllocateStack(n) => SpecAInstr::AllocateStack(*n as int),
            AInstructionNode::Ret => SpecAInstr::Ret,
        }
    }
}

/// The model of an instruction vector.
pub open spec fn ainstrs_view(ins: Seq<AInstructionNode>) -> Seq<SpecAInstr> {
    ins.map(|i: int, t: AInstructionNode| t@)
}

impl View for AFunctionDefinitionNode {
    type V = SpecAFunction;

    open spec fn view(&self) -> SpecAFunction {
        match self {
            AFunctionDefinitionNode::Function(name, ins) => SpecAFunction::Function(
                name@,
                ainstrs_view(ins@),
            ),
        }
    }
}

impl View for AProgramNode {
    type V = SpecAProgram;

    open spec fn view(&self) -> SpecAProgram {
        match self {
            AProgramNode::Program(f) => SpecAProgram::Program(f@),
        }
    }
}

/// Whether one instruction respects the machine's encoding rules: no
/// two-memory-operand form, no immediate divisor, no memory destination for
/// a multiply, no immediate in the second comparison position, and no
/// pseudo-register anywhere.
pub open spec fn legal_instr(i: SpecAInstr) -> bool {
    match i {
        SpecAInstr::Mov(a, b) => !(a is Stack && b is Stack) && !(a is Pseudo) && !(b is Pseudo),
        SpecAInstr::Unary(_, o) => !(o is Pseudo),
        SpecAInstr::Binary(op, a, b) => {
            &&& !(a is Stack && b is Stack)
            &&& !(op == ABinaryOperatorNode::Mult && b is Stack)
            &&& !(a is Pseudo)
            &&& !(b is Pseudo)
        },
        SpecAInstr::Cmp(a, b) => !(a is Stack && b is Stack) && !(b is Imm) && !(a is Pseudo) && !(
        b is Pseudo),
        SpecAInstr::Idiv(o) => !(o is Imm) && !(o is Pseudo),
        SpecAInstr::SetCC(_, o) => !(o is Pseudo),
        _ => true,
    }
}

/// Every instruction in the sequence respects the encoding rules.
pub open spec fn legalized(ins: Seq<SpecAInstr>) -> bool {
    forall|k: int| 0 <= k < ins.len() ==> legal_instr(#[trigger] ins[k])
}

} // verus!
