//! Textual emission: the abstract assembly printed in GNU assembler
//! (AT&T) syntax for x86-64 System V, one function with its prologue and
//! epilogue, and the non-executable-stack section marker at the end.
//!
//! The exact output text is pinned by [`program_text`]; the emitter is
//! proved to append precisely that text. A pseudo-register reaching the
//! emitter would be an internal invariant violation, so the contracts
//! require the resolved form that the post-generation pass guarantees.

use vstd::prelude::*;

use crate::asm_tree::{
    legal_instr, legalized, ABinaryOperatorNode, AConditionCode, AFunctionDefinitionNode,
    AInstructionNode, AOperandNode, AProgramNode, ARegisterNode, AUnaryOperatorNode,
    SpecAFunction, SpecAInstr, SpecAOperand, SpecAProgram,
};
use crate::generator::instr_pseudos;
use crate::numerals::{dec_rep, dec_string};

verus! {

/// The 4-byte spelling of a register.
pub open spec fn reg32_text(r: ARegisterNode) -> Seq<char> {
    match r {
        ARegisterNode::AX => "eax"@,
        ARegisterNode::DX => "edx"@,
        ARegisterNode::R10 => "r10d"@,
        ARegisterNode::R11 => "r11d"@,
    }
}

/// The byte spelling of a register, used by `SetCC`.
pub open spec fn reg8_text(r: ARegisterNode) -> Seq<char> {
    match r {
        ARegisterNode::AX => "al"@,
        ARegisterNode::DX => "dl"@,
        ARegisterNode::R10 => "r10b"@,
        ARegisterNode::R11 => "r11b"@,
    }
}

/// The mnemonic suffix of a condition code, for both `j` and `set`.
pub open spec fn cc_text(cc: AConditionCode) -> Seq<char> {
    match cc {
        AConditionCode::E => "e"@,
        AConditionCode::NE => "ne"@,
        AConditionCode::G => "g"@,
        AConditionCode::GE => "ge"@,
        AConditionCode::L => "l"@,
        AConditionCode::LE => "le"@,
    }
}

pub open spec fn unop_text(op: AUnaryOperatorNode) -> Seq<char> {
    match op {
        AUnaryOperatorNode::Neg => "negl"@,
        AUnaryOperatorNode::Not => "notl"@,
    }
}

pub open spec fn binop_text(op: ABinaryOperatorNode) -> Seq<char> {
    match op {
        ABinaryOperatorNode::Add => "addl"@,
        ABinaryOperatorNode::Sub => "subl"@,
        ABinaryOperatorNode::Mult => "imull"@,
    }
}

/// Decimal text of a possibly negative integer.
pub open spec fn int_text(n: int) -> Seq<char> {
    if n < 0 {
        "-"@ + dec_rep((-n) as nat)
    } else {
        dec_rep(n as nat)
    }
}

/// The text of an operand in a 4-byte instruction. A pseudo-register has
/// no spelling: the emitter's contracts exclude it.
pub open spec fn operand_text(o: SpecAOperand) -> Seq<char> {
    match o {
        SpecAOperand::Imm(c) => "$"@ + int_text(c),
        SpecAOperand::Reg(r) => "%"@ + reg32_text(r),
        SpecAOperand::Stack(off) => int_text(off) + "(%rbp)"@,
        SpecAOperand::Pseudo(_) => Seq::<char>::empty(),
    }
}

/// The text of a `SetCC` destination: registers take their byte spelling.
pub open spec fn byte_operand_text(o: SpecAOperand) -> Seq<char> {
    match o {
        SpecAOperand::Reg(r) => "%"@ + reg8_text(r),
        _ => operand_text(o),
    }
}

/// The text of one instruction, newline included. `Ret` expands to the
/// canonical epilogue.
pub open spec fn instr_text(i: SpecAInstr) -> Seq<char> {
    match i {
        SpecAInstr::Mov(a, b) => "\tmovl\t"@ + operand_text(a) + ", "@ + operand_text(b) + "\n"@,
        SpecAInstr::Unary(op, o) => "\t"@ + unop_text(op) + "\t"@ + operand_text(o) + "\n"@,
        SpecAInstr::Binary(op, a, b) => "\t"@ + binop_text(op) + "\t"@ + operand_text(a) + ", "@
            + operand_text(b) + "\n"@,
        SpecAInstr::Cmp(a, b) => "\tcmpl\t"@ + operand_text(a) + ", "@ + operand_text(b) + "\n"@,
        SpecAInstr::Idiv(o) => "\tidivl\t"@ + operand_text(o) + "\n"@,
        SpecAInstr::Cdq => "\tcdq\n"@,
        SpecAInstr::Jmp(l) => "\tjmp\t.L"@ + l + "\n"@,
        SpecAInstr::JmpCC(cc, l) => "\tj"@ + cc_text(cc) + "\t.L"@ + l + "\n"@,
        SpecAInstr::SetCC(cc, o) => "\tset"@ + cc_text(cc) + "\t"@ + byte_operand_text(o) + "\n"@,
        SpecAInstr::Label(l) => ".L"@ + l + ":\n"@,
        SpecAInstr::AllocateStack(n) => "\tsubq\t$"@ + int_text(n) + ", %rsp\n"@,
        SpecAInstr::Ret => "\tmovq\t%rbp, %rsp\n\tpopq\t%rbp\n\tret\n"@,
    }
}

/// The prologue every function starts with.
pub open spec fn prologue_text() -> Seq<char> {
    "\tpushq\t%rbp\n\tmovq\t%rsp, %rbp\n"@
}

/// The concatenated text of an instruction sequence.
pub open spec fn instrs_text(ins: Seq<SpecAInstr>) -> Seq<char>
    decreases ins.len(),
{
    if ins.len() == 0 {
        Seq::<char>::empty()
    } else {
        instrs_text(ins.drop_last()) + instr_text(ins.last())
    }
}

/// The text of one function: directive, label, prologue, body.
pub open spec fn function_text(f: SpecAFunction) -> Seq<char> {
    match f {
        SpecAFunction::Function(name, ins) => "\t.globl "@ + name + "\n"@ + name + ":\n"@
            + prologue_text() + instrs_text(ins),
    }
}

/// The text of a whole program, with the non-executable-stack marker.
pub open spec fn program_text(p: SpecAProgram) -> Seq<char> {
    match p {
        SpecAProgram::Program(f) => function_text(f) + "\t.section .note.GNU-stack,\"\",@progbits\n"@,
    }
}

/// No instruction of the sequence mentions a pseudo-register.
pub open spec fn no_pseudos(ins: Seq<SpecAInstr>) -> bool {
    forall|k: int| 0 <= k < ins.len() ==> instr_pseudos(#[trigger] ins[k]).len() == 0
}

/// No instruction of the program mentions a pseudo-register.
pub open spec fn program_no_pseudos(p: SpecAProgram) -> bool {
    match p {
        SpecAProgram::Program(f) => match f {
            SpecAFunction::Function(name, ins) => no_pseudos(ins),
        },
    }
}

/// Code that respects the encoding rules mentions no pseudo-register.
pub proof fn lemma_legalized_no_pseudos(ins: Seq<SpecAInstr>)
    requires
        legalized(ins),
    ensures
        no_pseudos(ins),
{
    assert forall|k: int| 0 <= k < ins.len() implies instr_pseudos(#[trigger] ins[k]).len()
        == 0 by {
        assert(legal_instr(ins[k]));
    }
}

fn register_name(reg: &ARegisterNode) -> (r: &'static str)
    ensures
        r@ == reg32_text(*reg),
{
    match reg {
        ARegisterNode::AX => "eax",
        ARegisterNode::DX => "edx",
        ARegisterNode::R10 => "r10d",
        ARegisterNode::R11 => "r11d",
    }
}

fn byte_register_name(reg: &ARegisterNode) -> (r: &'static str)
    ensures
        r@ == reg8_text(*reg),
{
    match reg {
        ARegisterNode::AX => "al",
        ARegisterNode::DX => "dl",
        ARegisterNode::R10 => "r10b",
        ARegisterNode::R11 => "r11b",
    }
}

fn condition_name(cc: &AConditionCode) -> (r: &'static str)
    ensures
        r@ == cc_text(*cc),
{
    match cc {
        AConditionCode::E => "e",
        AConditionCode::NE => "ne",
        AConditionCode::G => "g",
        AConditionCode::GE => "ge",
        AConditionCode::L => "l",
        AConditionCode::LE => "le",
    }
}

fn unary_name(op: &AUnaryOperatorNode) -> (r: &'static str)
    ensures
        r@ == unop_text(*op),
{
    match op {
        AUnaryOperatorNode::Neg => "negl",
        AUnaryOperatorNode::Not => "notl",
    }
}

fn binary_name(op: &ABinaryOperatorNode) -> (r: &'static str)
    ensures
        r@ == binop_text(*op),
{
    match op {
        ABinaryOperatorNode::Add => "addl",
        ABinaryOperatorNode::Sub => "subl",
        ABinaryOperatorNode::Mult => "imull",
    }
}

/// Decimal text of a signed machine integer.
fn int_string(n: isize) -> (r: String)
    ensures
        r@ == int_text(n as int),
{
    if n >= 0 {
        dec_string(n as u64)
    } else {
        let m: u64 = ((-(n + 1)) as u64) + 1;
        proof {
            assert(m as int == -(n as int));
        }
        let mut s = String::from_str("-");
        s.append(dec_string(m).as_str());
        s
    }
}

/// The text of one operand.
fn operand_string(operand: &AOperandNode) -> (r: String)
    requires
        !(operand@ is Pseudo),
    ensures
        r@ == operand_text(operand@),
{
    match operand {
        AOperandNode::Imm(c) => {
            let mut s = String::from_str("$");
            s.append(dec_string(*c as u64).as_str());
            s
        },
        AOperandNode::Reg(reg) => {
            let mut s = String::from_str("%");
            s.append(register_name(reg));
            s
        },
        AOperandNode::Stack(off) => {
            let mut s = int_string(*off);
            s.append("(%rbp)");
            s
        },
        AOperandNode::Pseudo(_) => String::new(),
    }
}

/// The text of a `SetCC` destination.
fn byte_operand_string(operand: &AOperandNode) -> (r: String)
    requires
        !(operand@ is Pseudo),
    ensures
        r@ == byte_operand_text(operand@),
{
    match operand {
        AOperandNode::Reg(reg) => {
            let mut s = String::from_str("%");
            s.append(byte_register_name(reg));
            s
        },
        _ => operand_string(operand),
    }
}

/// Append the text of one instruction.
fn emit_instructions(a_instruction: &AInstructionNode, output: &mut String)
    requires
        instr_pseudos(a_instruction@).len() == 0,
    ensures
        final(output)@ == old(output)@ + instr_text(a_instruction@),
{
    match a_instruction {
        AInstructionNode::Mov(a, b) => {
            output.append("\tmovl\t");
            output.append(operand_string(a).as_str());
            output.append(", ");
            output.append(operand_string(b).as_str());
            output.append("\n");
        },
        AInstructionNode::Unary(op, o) => {
            output.append("\t");
            output.append(unary_name(op));
            output.append("\t");
            output.append(operand_string(o).as_str());
            output.append("\n");
        },
        AInstructionNode::Binary(op, a, b) => {
            output.append("\t");
            output.append(binary_name(op));
            output.append("\t");
            output.append(operand_string(a).as_str());
            output.append(", ");
            output.append(operand_string(b).as_str());
            output.append("\n");
        },
        AInstructionNode::Cmp(a, b) => {
            output.append("\tcmpl\t");
            output.append(operand_string(a).as_str());
            output.append(", ");
            output.append(operand_string(b).as_str());
            output.append("\n");
        },
        AInstructionNode::Idiv(o) => {
            output.append("\tidivl\t");
            output.append(operand_string(o).as_str());
            output.append("\n");
        },
        AInstructionNode::Cdq => {
            output.append("\tcdq\n");
        },
        AInstructionNode::Jmp(l) => {
            output.append("\tjmp\t.L");
            output.append(l.as_str());
            output.append("\n");
        },
        AInstructionNode::JmpCC(cc, l) => {
            output.append("\tj");
            output.append(condition_name(cc));
            output.append("\t.L");
            output.append(l.as_str());
            output.append("\n");
        },
        AInstructionNode::SetCC(cc, o) => {
            output.append("\tset");
            output.append(condition_name(cc));
            output.append("\t");
            output.append(byte_operand_string(o).as_str());
            output.append("\n");
        },
        AInstructionNode::Label(l) => {
            output.append(".L");
            output.append(l.as_str());
            output.append(":\n");
        },
        AInstructionNode::AllocateStack(n) => {
            output.append("\tsubq\t$");
            output.append(dec_string(*n as u64).as_str());
            output.append(", %rsp\n");
        },
        AInstructionNode::Ret => {
            output.append("\tmovq\t%rbp, %rsp\n\tpopq\t%rbp\n\tret\n");
        },
    }
}

/// Append the fixed function prologue.
fn emit_prologue(output: &mut String)
    ensures
        final(output)@ == old(output)@ + prologue_text(),
{
    output.append("\tpushq\t%rbp\n\tmovq\t%rsp, %rbp\n");
}

/// Append the text of one function.
fn emit_function(a_function: AFunctionDefinitionNode, output: &mut String)
    requires
        match a_function@ {
            SpecAFunction::Function(name, ins) => no_pseudos(ins),
        },
    ensures
        final(output)@ == old(output)@ + function_text(a_function@),
{
    let ghost fv = a_function@;
    match a_function {
        AFunctionDefinitionNode::Function(name, instructions) => {
            output.append("\t.globl ");
            output.append(name.as_str());
            output.append("\n");
            output.append(name.as_str());
            output.append(":\n");
            emit_prologue(output);
            let ghost head = old(output)@ + "\t.globl "@ + name@ + "\n"@ + name@ + ":\n"@
                + prologue_text();
            proof {
                assert(output@ =~= head);
            }
            let ghost av = match fv {
                SpecAFunction::Function(_, ins) => ins,
            };
            let mut i: usize = 0;
            proof {
                assert(instrs_text(av.take(0)) =~= Seq::<char>::empty());
                assert(head + Seq::<char>::empty() =~= head);
            }
            while i < instructions.len()
                invariant
                    i <= instructions@.len(),
                    av == crate::asm_tree::ainstrs_view(instructions@),
                    no_pseudos(av),
                    output@ == head + instrs_text(av.take(i as int)),
                decreases instructions@.len() - i,
            {
                let ghost pre = output@;
                proof {
                    assert(av.take(i + 1).drop_last() =~= av.take(i as int));
                    assert(av.take(i + 1).last() == av[i as int]);
                    assert(av[i as int] == instructions@[i as int]@);
                }
                emit_instructions(&instructions[i], output);
                proof {
                    assert(output@ =~= head + instrs_text(av.take(i + 1)));
                }
                i = i + 1;
            }
            proof {
                assert(av.take(instructions@.len() as int) =~= av);
            }
        },
    }
}

/// Append the text of a whole program to `output`.
///
/// Every pseudo-register must already be resolved; the post-generation
/// pass guarantees that, and [`lemma_legalized_no_pseudos`] converts its
/// guarantee into this precondition.
pub fn emit_program(a_program: AProgramNode, output: &mut String)
    requires
        program_no_pseudos(a_program@),
    ensures
        final(output)@ == old(output)@ + program_text(a_program@),
{
    let ghost pv = a_program@;
    match a_program {
        AProgramNode::Program(a_function) => {
            emit_function(a_function, output);
            output.append("\t.section .note.GNU-stack,\"\",@progbits\n");
            proof {
                assert(output@ =~= old(output)@ + program_text(pv));
            }
        },
    }
}

} // verus!
