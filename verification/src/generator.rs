//! Lowering three-address code to abstract assembly, followed by the
//! post-generation pass: pseudo-registers are resolved onto 4-byte stack
//! slots keyed by name, the frame size is computed and 16-byte aligned, and
//! instructions that violate x86-64 encoding rules are rewritten through
//! the scratch registers `R10` and `R11`.
//!
//! The pass is verified against a specification of both stages, and its
//! output provably satisfies [`crate::asm_tree::legalized`]: no instruction
//! keeps two stack operands, an immediate divisor, a multiply into memory,
//! an immediate second comparison operand, or any pseudo-register.

use vstd::prelude::*;

use crate::asm_tree::{
    ainstrs_view, legal_instr, legalized, ABinaryOperatorNode, AConditionCode,
    AFunctionDefinitionNode, AInstructionNode, AOperandNode, AProgramNode, ARegisterNode,
    AUnaryOperatorNode, SpecAFunction, SpecAInstr, SpecAOperand, SpecAProgram,
};
use crate::ast_tree::{BinaryOperatorNode, UnaryOperatorNode};
use crate::diagnostics::{CompileError, ErrorKind};
use crate::tac_tree::{
    tinstrs_view, SpecTFunction, SpecTInstr, SpecTProgram, SpecTVal, TFunctionDefinitionNode,
    TInstructionNode, TProgramNode, TValNode,
};

verus! {

/// The most distinct pseudo-registers one function may use: keeps every
/// stack offset and the frame size well inside the machine's integer range.
pub open spec fn max_pseudo_slots() -> int {
    0x0fff_ffff
}

/// The assembly operator for an arithmetic unary operator. Logical not is
/// not mapped here: it is lowered through a comparison.
pub open spec fn gen_unop_spec(op: UnaryOperatorNode) -> AUnaryOperatorNode {
    match op {
        UnaryOperatorNode::Complement => AUnaryOperatorNode::Not,
        UnaryOperatorNode::Negate => AUnaryOperatorNode::Neg,
        UnaryOperatorNode::Not => AUnaryOperatorNode::Not,
    }
}

/// The assembly operator for the three binary operators the machine
/// computes in place.
pub open spec fn gen_binop_spec(op: BinaryOperatorNode) -> Option<ABinaryOperatorNode> {
    match op {
        BinaryOperatorNode::Add => Some(ABinaryOperatorNode::Add),
        BinaryOperatorNode::Subtract => Some(ABinaryOperatorNode::Sub),
        BinaryOperatorNode::Multiply => Some(ABinaryOperatorNode::Mult),
        _ => None,
    }
}

/// The condition code of a relational operator.
pub open spec fn cond_code_spec(op: BinaryOperatorNode) -> Option<AConditionCode> {
    match op {
        BinaryOperatorNode::Equal => Some(AConditionCode::E),
        BinaryOperatorNode::NotEqual => Some(AConditionCode::NE),
        BinaryOperatorNode::LessThan => Some(AConditionCode::L),
        BinaryOperatorNode::LessOrEqual => Some(AConditionCode::LE),
        BinaryOperatorNode::GreaterThan => Some(AConditionCode::G),
        BinaryOperatorNode::GreaterOrEqual => Some(AConditionCode::GE),
        _ => None,
    }
}

/// Constants become immediates; virtual registers become pseudo operands.
pub open spec fn gen_operand_spec(v: SpecTVal) -> SpecAOperand {
    match v {
        SpecTVal::Constant(c) => SpecAOperand::Imm(c),
        SpecTVal::Var(x) => SpecAOperand::Pseudo(x),
    }
}

/// The per-instruction rewrite from three-address code to assembly.
/// Short-circuit operators never reach this point: on them the rewrite
/// yields nothing, and code generation reports an internal error.
pub open spec fn gen_instr_spec(i: SpecTInstr) -> Option<Seq<SpecAInstr>> {
    match i {
        SpecTInstr::Return(v) => Some(
            seq![
                SpecAInstr::Mov(gen_operand_spec(v), SpecAOperand::Reg(ARegisterNode::AX)),
                SpecAInstr::Ret,
            ],
        ),
        SpecTInstr::Unary(op, s, d) => if op == UnaryOperatorNode::Not {
            Some(
                seq![
                    SpecAInstr::Cmp(SpecAOperand::Imm(0), gen_operand_spec(s)),
                    SpecAInstr::Mov(SpecAOperand::Imm(0), gen_operand_spec(d)),
                    SpecAInstr::SetCC(AConditionCode::E, gen_operand_spec(d)),
                ],
            )
        } else {
            Some(
                seq![
                    SpecAInstr::Mov(gen_operand_spec(s), gen_operand_spec(d)),
                    SpecAInstr::Unary(gen_unop_spec(op), gen_operand_spec(d)),
                ],
            )
        },
        SpecTInstr::Binary(op, s1, s2, d) => match gen_binop_spec(op) {
            Some(aop) => Some(
                seq![
                    SpecAInstr::Mov(gen_operand_spec(s1), gen_operand_spec(d)),
                    SpecAInstr::Binary(aop, gen_operand_spec(s2), gen_operand_spec(d)),
                ],
            ),
            None => if op == BinaryOperatorNode::Divide {
                Some(
                    seq![
                        SpecAInstr::Mov(
                            gen_operand_spec(s1),
                            SpecAOperand::Reg(ARegisterNode::AX),
                        ),
                        SpecAInstr::Cdq,
                        SpecAInstr::Idiv(gen_operand_spec(s2)),
                        SpecAInstr::Mov(
                            SpecAOperand::Reg(ARegisterNode::AX),
                            gen_operand_spec(d),
                        ),
                    ],
                )
            } else if op == BinaryOperatorNode::Remainder {
                Some(
                    seq![
                        SpecAInstr::Mov(
                            gen_operand_spec(s1),
                            SpecAOperand::Reg(ARegisterNode::AX),
                        ),
                        SpecAInstr::Cdq,
                        SpecAInstr::Idiv(gen_operand_spec(s2)),
                        SpecAInstr::Mov(
                            SpecAOperand::Reg(ARegisterNode::DX),
                            gen_operand_spec(d),
                        ),
                    ],
                )
            } else {
                match cond_code_spec(op) {
                    Some(cc) => Some(
                        seq![
                            SpecAInstr::Cmp(gen_operand_spec(s2), gen_operand_spec(s1)),
                            SpecAInstr::Mov(SpecAOperand::Imm(0), gen_operand_spec(d)),
                            SpecAInstr::SetCC(cc, gen_operand_spec(d)),
                        ],
                    ),
                    None => None,
                }
            },
        },
        SpecTInstr::Copy(s, d) => Some(
            seq![SpecAInstr::Mov(gen_operand_spec(s), gen_operand_spec(d))],
        ),
        SpecTInstr::Jump(l) => Some(seq![SpecAInstr::Jmp(l)]),
        SpecTInstr::JumpIfZero(v, l) => Some(
            seq![
                SpecAInstr::Cmp(SpecAOperand::Imm(0), gen_operand_spec(v)),
                SpecAInstr::JmpCC(AConditionCode::E, l),
            ],
        ),
        SpecTInstr::JumpIfNotZero(v, l) => Some(
            seq![
                SpecAInstr::Cmp(SpecAOperand::Imm(0), gen_operand_spec(v)),
                SpecAInstr::JmpCC(AConditionCode::NE, l),
            ],
        ),
        SpecTInstr::Label(l) => Some(seq![SpecAInstr::Label(l)]),
    }
}

/// Rewrite a whole instruction sequence, concatenating the results.
pub open spec fn gen_instrs_spec(ins: Seq<SpecTInstr>) -> Option<Seq<SpecAInstr>>
    decreases ins.len(),
{
    if ins.len() == 0 {
        Some(Seq::<SpecAInstr>::empty())
    } else {
        match gen_instrs_spec(ins.drop_last()) {
            Some(a) => match gen_instr_spec(ins.last()) {
                Some(b) => Some(a + b),
                None => None,
            },
            None => None,
        }
    }
}

/// The pseudo-register names an operand mentions.
pub open spec fn operand_pseudos(o: SpecAOperand) -> Seq<Seq<char>> {
    match o {
        SpecAOperand::Pseudo(x) => seq![x],
        _ => Seq::<Seq<char>>::empty(),
    }
}

/// The pseudo-register names an instruction mentions, in operand order.
pub open spec fn instr_pseudos(i: SpecAInstr) -> Seq<Seq<char>> {
    match i {
        SpecAInstr::Mov(a, b) => operand_pseudos(a) + operand_pseudos(b),
        SpecAInstr::Unary(_, o) => operand_pseudos(o),
        SpecAInstr::Binary(_, a, b) => operand_pseudos(a) + operand_pseudos(b),
        SpecAInstr::Cmp(a, b) => operand_pseudos(a) + operand_pseudos(b),
        SpecAInstr::Idiv(o) => operand_pseudos(o),
        SpecAInstr::SetCC(_, o) => operand_pseudos(o),
        _ => Seq::<Seq<char>>::empty(),
    }
}

/// All pseudo-register mentions in a sequence, in order.
pub open spec fn pseudos_of(ins: Seq<SpecAInstr>) -> Seq<Seq<char>>
    decreases ins.len(),
{
    if ins.len() == 0 {
        Seq::<Seq<char>>::empty()
    } else {
        pseudos_of(ins.drop_last()) + instr_pseudos(ins.last())
    }
}

/// The distinct names of a sequence, each kept at its first occurrence.
pub open spec fn uniq(s: Seq<Seq<char>>) -> Seq<Seq<char>>
    decreases s.len(),
{
    if s.len() == 0 {
        Seq::<Seq<char>>::empty()
    } else {
        let r = uniq(s.drop_last());
        if r.contains(s.last()) {
            r
        } else {
            r.push(s.last())
        }
    }
}

/// The first position of a name (the length if it is absent).
pub open spec fn first_index(s: Seq<Seq<char>>, x: Seq<char>) -> int
    decreases s.len(),
{
    if s.len() == 0 {
        0
    } else if s[0] == x {
        0
    } else {
        1 + first_index(s.drop_first(), x)
    }
}

/// The stack offset of a pseudo-register: slots grow downward in 4-byte
/// steps, keyed by the name's position in the allocation order.
pub open spec fn slot_offset(names: Seq<Seq<char>>, x: Seq<char>) -> int {
    -4 * (first_index(names, x) + 1)
}

/// Resolve one operand against the allocation order.
pub open spec fn subst_operand_spec(o: SpecAOperand, names: Seq<Seq<char>>) -> SpecAOperand {
    match o {
        SpecAOperand::Pseudo(x) => SpecAOperand::Stack(slot_offset(names, x)),
        _ => o,
    }
}

/// Resolve every operand of one instruction.
pub open spec fn subst_instr_spec(i: SpecAInstr, names: Seq<Seq<char>>) -> SpecAInstr {
    match i {
        SpecAInstr::Mov(a, b) => SpecAInstr::Mov(
            subst_operand_spec(a, names),
            subst_operand_spec(b, names),
        ),
        SpecAInstr::Unary(op, o) => SpecAInstr::Unary(op, subst_operand_spec(o, names)),
        SpecAInstr::Binary(op, a, b) => SpecAInstr::Binary(
            op,
            subst_operand_spec(a, names),
            subst_operand_spec(b, names),
        ),
        SpecAInstr::Cmp(a, b) => SpecAInstr::Cmp(
            subst_operand_spec(a, names),
            subst_operand_spec(b, names),
        ),
        SpecAInstr::Idiv(o) => SpecAInstr::Idiv(subst_operand_spec(o, names)),
        SpecAInstr::SetCC(cc, o) => SpecAInstr::SetCC(cc, subst_operand_spec(o, names)),
        _ => i,
    }
}

/// Resolve every pseudo-register in the sequence.
pub open spec fn subst_all(ins: Seq<SpecAInstr>, names: Seq<Seq<char>>) -> Seq<SpecAInstr> {
    ins.map(|k: int, i: SpecAInstr| subst_instr_spec(i, names))
}

/// The frame size for `k` slots: `4 * k` rounded up to 16-byte alignment.
pub open spec fn frame_bytes(k: int) -> int {
    ((4 * k + 15) / 16) * 16
}

/// The legalization rewrite for one instruction.
pub open spec fn legalize_instr_spec(i: SpecAInstr) -> Seq<SpecAInstr> {
    match i {
        SpecAInstr::Mov(a, b) => if a is Stack && b is Stack {
            seq![
                SpecAInstr::Mov(a, SpecAOperand::Reg(ARegisterNode::R10)),
                SpecAInstr::Mov(SpecAOperand::Reg(ARegisterNode::R10), b),
            ]
        } else {
            seq![i]
        },
        SpecAInstr::Idiv(o) => if o is Imm {
            seq![
                SpecAInstr::Mov(o, SpecAOperand::Reg(ARegisterNode::R10)),
                SpecAInstr::Idiv(SpecAOperand::Reg(ARegisterNode::R10)),
            ]
        } else {
            seq![i]
        },
        SpecAInstr::Binary(op, a, b) => if op == ABinaryOperatorNode::Mult && b is Stack {
            seq![
                SpecAInstr::Mov(b, SpecAOperand::Reg(ARegisterNode::R11)),
                SpecAInstr::Binary(
                    ABinaryOperatorNode::Mult,
                    a,
                    SpecAOperand::Reg(ARegisterNode::R11),
                ),
                SpecAInstr::Mov(SpecAOperand::Reg(ARegisterNode::R11), b),
            ]
        } else if a is Stack && b is Stack {
            seq![
                SpecAInstr::Mov(a, SpecAOperand::Reg(ARegisterNode::R10)),
                SpecAInstr::Binary(op, SpecAOperand::Reg(ARegisterNode::R10), b),
            ]
        } else {
            seq![i]
        },
        SpecAInstr::Cmp(a, b) => if b is Imm {
            seq![
                SpecAInstr::Mov(b, SpecAOperand::Reg(ARegisterNode::R11)),
                SpecAInstr::Cmp(a, SpecAOperand::Reg(ARegisterNode::R11)),
            ]
        } else if a is Stack && b is Stack {
            seq![
                SpecAInstr::Mov(a, SpecAOperand::Reg(ARegisterNode::R10)),
                SpecAInstr::Cmp(SpecAOperand::Reg(ARegisterNode::R10), b),
            ]
        } else {
            seq![i]
        },
        _ => seq![i],
    }
}

/// Legalize the whole sequence, concatenating the rewrites.
pub open spec fn legalize_all(ins: Seq<SpecAInstr>) -> Seq<SpecAInstr>
    decreases ins.len(),
{
    if ins.len() == 0 {
        Seq::<SpecAInstr>::empty()
    } else {
        legalize_all(ins.drop_last()) + legalize_instr_spec(ins.last())
    }
}

/// The whole post-generation pass: allocate a stable slot for each distinct
/// pseudo-register name, prepend the frame allocation, and legalize.
/// Nothing comes out only when the slot count cannot be represented.
pub open spec fn postprocess_spec(ins: Seq<SpecAInstr>) -> Option<Seq<SpecAInstr>> {
    let names = uniq(pseudos_of(ins));
    if names.len() > max_pseudo_slots() {
        None
    } else {
        Some(
            seq![SpecAInstr::AllocateStack(frame_bytes(names.len() as int))] + legalize_all(
                subst_all(ins, names),
            ),
        )
    }
}

/// Lower one function and run the post-generation pass on its body.
pub open spec fn gen_function_spec(tf: SpecTFunction) -> Option<SpecAFunction> {
    match tf {
        SpecTFunction::Function(name, ins) => match gen_instrs_spec(ins) {
            Some(a) => match postprocess_spec(a) {
                Some(out) => Some(SpecAFunction::Function(name, out)),
                None => None,
            },
            None => None,
        },
    }
}

/// Lower a whole program.
pub open spec fn gen_program_spec(tp: SpecTProgram) -> Option<SpecAProgram> {
    match tp {
        SpecTProgram::Program(tf) => match gen_function_spec(tf) {
            Some(af) => Some(SpecAProgram::Program(af)),
            None => None,
        },
    }
}

/// The model of a name table.
pub open spec fn names_view(t: Seq<String>) -> Seq<Seq<char>> {
    t.map(|i: int, s: String| s@)
}

/// One allocation step: keep the table if the name is known, append it
/// otherwise.
pub open spec fn note_name(u: Seq<Seq<char>>, x: Seq<char>) -> Seq<Seq<char>> {
    if u.contains(x) {
        u
    } else {
        u.push(x)
    }
}

/// An index-based characterization of [`first_index`].
proof fn lemma_first_index_at(s: Seq<Seq<char>>, x: Seq<char>, i: int)
    requires
        0 <= i <= s.len(),
        forall|j: int| 0 <= j < i ==> s[j] != x,
        i == s.len() || s[i] == x,
    ensures
        first_index(s, x) == i,
        i == s.len() ==> !s.contains(x),
        i < s.len() ==> s.contains(x),
    decreases i,
{
    if s.len() == 0 {
    } else if i == 0 {
        if s[i] == x {
        } else {
            assert(forall|j: int| 0 <= j < s.len() ==> s[j] != x);
        }
    } else {
        assert(forall|j: int| 0 <= j < i - 1 ==> s.drop_first()[j] != x);
        lemma_first_index_at(s.drop_first(), x, i - 1);
        if i == s.len() {
            assert(!s.drop_first().contains(x));
            assert(forall|j: int| 0 <= j < s.len() ==> s[j] != x) by {
                assert(forall|j: int| 1 <= j < s.len() ==> s[j] == s.drop_first()[j - 1]);
            }
        } else {
            assert(s.contains(x));
        }
    }
}

/// Membership is the same before and after removing duplicates.
proof fn lemma_uniq_contains(s: Seq<Seq<char>>, x: Seq<char>)
    ensures
        uniq(s).contains(x) <==> s.contains(x),
    decreases s.len(),
{
    if s.len() > 0 {
        lemma_uniq_contains(s.drop_last(), x);
        let r = uniq(s.drop_last());
        if s.contains(x) {
            if s.last() == x {
                if r.contains(x) {
                } else {
                    assert(r.push(x)[r.len() as int] == x);
                }
            } else {
                assert(s.drop_last().contains(x)) by {
                    let j = choose|j: int| 0 <= j < s.len() && s[j] == x;
                    assert(s.drop_last()[j] == x);
                }
                if r.contains(s.last()) {
                } else {
                    let j = choose|j: int| 0 <= j < r.len() && r[j] == x;
                    assert(r.push(s.last())[j] == x);
                }
            }
        } else {
            assert(!s.drop_last().contains(x)) by {
                if s.drop_last().contains(x) {
                    let j = choose|j: int| 0 <= j < s.len() - 1 && s.drop_last()[j] == x;
                    assert(s[j] == x);
                }
            }
            if uniq(s).contains(x) {
                let j = choose|j: int| 0 <= j < uniq(s).len() && uniq(s)[j] == x;
                if r.contains(s.last()) {
                } else {
                    if j < r.len() {
                        assert(r[j] == x);
                    } else {
                        assert(s.last() == x);
                        assert(s[s.len() - 1] == x);
                    }
                }
            }
        }
    }
}

/// Every pseudo-register mentioned by an instruction of the sequence
/// appears in the sequence's collected names.
proof fn lemma_pseudos_contains(ins: Seq<SpecAInstr>, k: int, x: Seq<char>)
    requires
        0 <= k < ins.len(),
        instr_pseudos(ins[k]).contains(x),
    ensures
        pseudos_of(ins).contains(x),
    decreases ins.len(),
{
    if k == ins.len() - 1 {
        let p = pseudos_of(ins.drop_last());
        let q = instr_pseudos(ins.last());
        let j = choose|j: int| 0 <= j < q.len() && q[j] == x;
        assert((p + q)[p.len() + j] == x);
    } else {
        assert(ins.drop_last()[k] == ins[k]);
        lemma_pseudos_contains(ins.drop_last(), k, x);
        let p = pseudos_of(ins.drop_last());
        let j = choose|j: int| 0 <= j < p.len() && p[j] == x;
        assert((p + instr_pseudos(ins.last()))[j] == x);
    }
}

/// A substituted instruction mentions no pseudo-register.
proof fn lemma_subst_no_pseudo(i: SpecAInstr, names: Seq<Seq<char>>)
    ensures
        instr_pseudos(subst_instr_spec(i, names)).len() == 0,
{
}

/// Legalizing an instruction without pseudo-registers yields only legal
/// instructions.
proof fn lemma_legalize_instr_legal(i: SpecAInstr)
    requires
        instr_pseudos(i).len() == 0,
    ensures
        forall|k: int|
            0 <= k < legalize_instr_spec(i).len() ==> legal_instr(
                #[trigger] legalize_instr_spec(i)[k],
            ),
{
    let out = legalize_instr_spec(i);
    match i {
        SpecAInstr::Mov(a, b) => {
            assert(operand_pseudos(a).len() == 0 && operand_pseudos(b).len() == 0);
            assert(!(a is Pseudo) && !(b is Pseudo));
        },
        SpecAInstr::Unary(_, o) => {
            assert(!(o is Pseudo));
        },
        SpecAInstr::Binary(op, a, b) => {
            assert(operand_pseudos(a).len() == 0 && operand_pseudos(b).len() == 0);
            assert(!(a is Pseudo) && !(b is Pseudo));
        },
        SpecAInstr::Cmp(a, b) => {
            assert(operand_pseudos(a).len() == 0 && operand_pseudos(b).len() == 0);
            assert(!(a is Pseudo) && !(b is Pseudo));
        },
        SpecAInstr::Idiv(o) => {
            assert(!(o is Pseudo));
        },
        SpecAInstr::SetCC(_, o) => {
            assert(!(o is Pseudo));
        },
        _ => {},
    }
}

/// Legalizing a sequence without pseudo-registers yields a sequence that
/// respects every encoding rule.
proof fn lemma_legalize_all_legal(ins: Seq<SpecAInstr>)
    requires
        forall|k: int| 0 <= k < ins.len() ==> instr_pseudos(#[trigger] ins[k]).len() == 0,
    ensures
        legalized(legalize_all(ins)),
    decreases ins.len(),
{
    if ins.len() > 0 {
        assert(forall|k: int|
            0 <= k < ins.len() - 1 ==> instr_pseudos(#[trigger] ins.drop_last()[k]).len() == 0);
        lemma_legalize_all_legal(ins.drop_last());
        lemma_legalize_instr_legal(ins.last());
        let a = legalize_all(ins.drop_last());
        let b = legalize_instr_spec(ins.last());
        assert forall|k: int| 0 <= k < (a + b).len() implies legal_instr(#[trigger] (a + b)[k]) by {
            if k < a.len() {
                assert((a + b)[k] == a[k]);
            } else {
                assert((a + b)[k] == b[k - a.len()]);
            }
        }
    }
}

/// The legalization invariant: after the post-generation pass, no
/// instruction has two stack operands, `Idiv` has no immediate operand, no
/// multiply writes to memory, no comparison has an immediate second
/// operand, and no pseudo-register remains.
pub proof fn lemma_generate_program_legal(tp: SpecTProgram)
    ensures
        match gen_program_spec(tp) {
            Some(ap) => match ap {
                SpecAProgram::Program(af) => match af {
                    SpecAFunction::Function(name, body) => legalized(body),
                },
            },
            None => true,
        },
{
    match tp {
        SpecTProgram::Program(tf) => match tf {
            SpecTFunction::Function(name, ins) => {
                match gen_instrs_spec(ins) {
                    Some(a) => {
                        let names = uniq(pseudos_of(a));
                        if names.len() <= max_pseudo_slots() {
                            let sub = subst_all(a, names);
                            assert(forall|k: int|
                                0 <= k < sub.len() ==> instr_pseudos(#[trigger] sub[k]).len()
                                    == 0) by {
                                assert(forall|k: int|
                                    0 <= k < sub.len() ==> #[trigger] sub[k] == subst_instr_spec(
                                        a[k],
                                        names,
                                    ));
                            }
                            lemma_legalize_all_legal(sub);
                            let alloc = SpecAInstr::AllocateStack(
                                frame_bytes(names.len() as int),
                            );
                            let body = seq![alloc] + legalize_all(sub);
                            assert forall|k: int| 0 <= k < body.len() implies legal_instr(
                                #[trigger] body[k],
                            ) by {
                                if k == 0 {
                                    assert(body[0] == alloc);
                                } else {
                                    assert(body[k] == legalize_all(sub)[k - 1]);
                                }
                            }
                        }
                    },
                    None => {},
                }
            },
        },
    }
}

/// Uniqueness never shrinks when more names are appended.
proof fn lemma_uniq_len_monotone(p: Seq<Seq<char>>, q: Seq<Seq<char>>)
    ensures
        uniq(p).len() <= uniq(p + q).len(),
    decreases q.len(),
{
    if q.len() == 0 {
        assert(p + q =~= p);
    } else {
        lemma_uniq_len_monotone(p, q.drop_last());
        assert((p + q).drop_last() =~= p + q.drop_last());
    }
}

/// A missing instruction rewrite makes the whole sequence's rewrite fail.
proof fn lemma_gen_instrs_none(ins: Seq<SpecTInstr>, k: int)
    requires
        0 <= k < ins.len(),
        gen_instr_spec(ins[k]) is None,
    ensures
        gen_instrs_spec(ins) is None,
    decreases ins.len(),
{
    if k < ins.len() - 1 {
        assert(ins.drop_last()[k] == ins[k]);
        lemma_gen_instrs_none(ins.drop_last(), k);
    }
}

fn internal_error(msg: &str) -> (e: CompileError)
    ensures
        e.kind == ErrorKind::Internal,
{
    CompileError::new(ErrorKind::Internal, String::from_str(msg))
}

/// The assembly operator for an arithmetic unary operator.
fn generate_unary_operator(operator: UnaryOperatorNode) -> (r: AUnaryOperatorNode)
    requires
        operator != UnaryOperatorNode::Not,
    ensures
        r == gen_unop_spec(operator),
{
    match operator {
        UnaryOperatorNode::Complement => AUnaryOperatorNode::Not,
        UnaryOperatorNode::Negate => AUnaryOperatorNode::Neg,
        UnaryOperatorNode::Not => AUnaryOperatorNode::Not,
    }
}

/// The in-place assembly operator for a binary operator, if it has one.
fn generate_binary_operator(operator: &BinaryOperatorNode) -> (r: Option<ABinaryOperatorNode>)
    ensures
        r == gen_binop_spec(*operator),
{
    match operator {
        BinaryOperatorNode::Add => Some(ABinaryOperatorNode::Add),
        BinaryOperatorNode::Subtract => Some(ABinaryOperatorNode::Sub),
        BinaryOperatorNode::Multiply => Some(ABinaryOperatorNode::Mult),
        _ => None,
    }
}

/// The condition code of a relational operator, if it is one.
fn generate_condition_code(operator: &BinaryOperatorNode) -> (r: Option<AConditionCode>)
    ensures
        r == cond_code_spec(*operator),
{
    match operator {
        BinaryOperatorNode::Equal => Some(AConditionCode::E),
        BinaryOperatorNode::NotEqual => Some(AConditionCode::NE),
        BinaryOperatorNode::LessThan => Some(AConditionCode::L),
        BinaryOperatorNode::LessOrEqual => Some(AConditionCode::LE),
        BinaryOperatorNode::GreaterThan => Some(AConditionCode::G),
        BinaryOperatorNode::GreaterOrEqual => Some(AConditionCode::GE),
        _ => None,
    }
}

/// Map a three-address value to an assembly operand.
fn generate_operand(operand: &TValNode) -> (r: AOperandNode)
    ensures
        r@ == gen_operand_spec(operand@),
{
    match operand {
        TValNode::Constant(c) => AOperandNode::Imm(*c),
        TValNode::Var(id) => AOperandNode::Pseudo(id.clone()),
    }
}

/// Rewrite one three-address instruction into assembly instructions.
/// A short-circuit operator surviving to this point is an internal error:
/// the lowering always eliminates them.
fn generate_instruction(instruction: &TInstructionNode) -> (r: Result<
    Vec<AInstructionNode>,
    CompileError,
>)
    ensures
        match r {
            Ok(v) => gen_instr_spec(instruction@) == Some(ainstrs_view(v@)),
            Err(e) => gen_instr_spec(instruction@) is None && e.kind == ErrorKind::Internal,
        },
{
    let ghost iv = instruction@;
    match instruction {
        TInstructionNode::Return(val) => {
            let v = vec![
                AInstructionNode::Mov(
                    generate_operand(val),
                    AOperandNode::Reg(ARegisterNode::AX),
                ),
                AInstructionNode::Ret,
            ];
            proof {
                assert(ainstrs_view(v@) =~= gen_instr_spec(iv)->Some_0);
            }
            Ok(v)
        },
        TInstructionNode::Unary(op, src, dst) => {
            if matches!(op, UnaryOperatorNode::Not) {
                let v = vec![
                    AInstructionNode::Cmp(AOperandNode::Imm(0), generate_operand(src)),
                    AInstructionNode::Mov(AOperandNode::Imm(0), generate_operand(dst)),
                    AInstructionNode::SetCC(AConditionCode::E, generate_operand(dst)),
                ];
                proof {
                    assert(ainstrs_view(v@) =~= gen_instr_spec(iv)->Some_0);
                }
                Ok(v)
            } else {
                let v = vec![
                    AInstructionNode::Mov(generate_operand(src), generate_operand(dst)),
                    AInstructionNode::Unary(generate_unary_operator(*op), generate_operand(dst)),
                ];
                proof {
                    assert(ainstrs_view(v@) =~= gen_instr_spec(iv)->Some_0);
                }
                Ok(v)
            }
        },
        TInstructionNode::Binary(op, src1, src2, dst) => {
            match generate_binary_operator(op) {
                Some(aop) => {
                    let v = vec![
                        AInstructionNode::Mov(generate_operand(src1), generate_operand(dst)),
                        AInstructionNode::Binary(aop, generate_operand(src2), generate_operand(
                            dst,
                        )),
                    ];
                    proof {
                        assert(ainstrs_view(v@) =~= gen_instr_spec(iv)->Some_0);
                    }
                    Ok(v)
                },
                None => {
                    if matches!(op, BinaryOperatorNode::Divide) {
                        let v = vec![
                            AInstructionNode::Mov(
                                generate_operand(src1),
                                AOperandNode::Reg(ARegisterNode::AX),
                            ),
                            AInstructionNode::Cdq,
                            AInstructionNode::Idiv(generate_operand(src2)),
                            AInstructionNode::Mov(
                                AOperandNode::Reg(ARegisterNode::AX),
                                generate_operand(dst),
                            ),
                        ];
                        proof {
                            assert(ainstrs_view(v@) =~= gen_instr_spec(iv)->Some_0);
                        }
                        Ok(v)
                    } else if matches!(op, BinaryOperatorNode::Remainder) {
                        let v = vec![
                            AInstructionNode::Mov(
                                generate_operand(src1),
                                AOperandNode::Reg(ARegisterNode::AX),
                            ),
                            AInstructionNode::Cdq,
                            AInstructionNode::Idiv(generate_operand(src2)),
                            AInstructionNode::Mov(
                                AOperandNode::Reg(ARegisterNode::DX),
                                generate_operand(dst),
                            ),
                        ];
                        proof {
                            assert(ainstrs_view(v@) =~= gen_instr_spec(iv)->Some_0);
                        }
                        Ok(v)
                    } else {
                        match generate_condition_code(op) {
                            Some(cc) => {
                                let v = vec![
                                    AInstructionNode::Cmp(
                                        generate_operand(src2),
                                        generate_operand(src1),
                                    ),
                                    AInstructionNode::Mov(
                                        AOperandNode::Imm(0),
                                        generate_operand(dst),
                                    ),
                                    AInstructionNode::SetCC(cc, generate_operand(dst)),
                                ];
                                proof {
                                    assert(ainstrs_view(v@) =~= gen_instr_spec(iv)->Some_0);
                                }
                                Ok(v)
                            },
                            None => Err(
                                internal_error(
                                    "short-circuit operator reached code generation",
                                ),
                            ),
                        }
                    }
                },
            }
        },
        TInstructionNode::Copy(src, dst) => {
            let v = vec![
                AInstructionNode::Mov(generate_operand(src), generate_operand(dst)),
            ];
            proof {
                assert(ainstrs_view(v@) =~= gen_instr_spec(iv)->Some_0);
            }
            Ok(v)
        },
        TInstructionNode::Jump(l) => {
            let v = vec![AInstructionNode::Jmp(l.clone())];
            proof {
                assert(ainstrs_view(v@) =~= gen_instr_spec(iv)->Some_0);
            }
            Ok(v)
        },
        TInstructionNode::JumpIfZero(val, l) => {
            let v = vec![
                AInstructionNode::Cmp(AOperandNode::Imm(0), generate_operand(val)),
                AInstructionNode::JmpCC(AConditionCode::E, l.clone()),
            ];
            proof {
                assert(ainstrs_view(v@) =~= gen_instr_spec(iv)->Some_0);
            }
            Ok(v)
        },
        TInstructionNode::JumpIfNotZero(val, l) => {
            let v = vec![
                AInstructionNode::Cmp(AOperandNode::Imm(0), generate_operand(val)),
                AInstructionNode::JmpCC(AConditionCode::NE, l.clone()),
            ];
            proof {
                assert(ainstrs_view(v@) =~= gen_instr_spec(iv)->Some_0);
            }
            Ok(v)
        },
        TInstructionNode::Label(l) => {
            let v = vec![AInstructionNode::Label(l.clone())];
            proof {
                assert(ainstrs_view(v@) =~= gen_instr_spec(iv)->Some_0);
            }
            Ok(v)
        },
    }
}

/// Rewrite a whole instruction sequence.
fn generate_instructions(instructions: &Vec<TInstructionNode>) -> (r: Result<
    Vec<AInstructionNode>,
    CompileError,
>)
    ensures
        match r {
            Ok(v) => gen_instrs_spec(tinstrs_view(instructions@)) == Some(ainstrs_view(v@)),
            Err(e) => {
                &&& gen_instrs_spec(tinstrs_view(instructions@)) is None
                &&& e.kind == ErrorKind::Internal
            },
        },
{
    let ghost tv = tinstrs_view(instructions@);
    let mut instruction_buffer: Vec<AInstructionNode> = Vec::new();
    let mut i: usize = 0;
    proof {
        assert(tv.take(0) =~= Seq::<SpecTInstr>::empty());
        assert(ainstrs_view(instruction_buffer@) =~= Seq::<SpecAInstr>::empty());
    }
    while i < instructions.len()
        invariant
            i <= instructions@.len(),
            tv == tinstrs_view(instructions@),
            gen_instrs_spec(tv.take(i as int)) == Some(ainstrs_view(instruction_buffer@)),
        decreases instructions@.len() - i,
    {
        let ghost pre = ainstrs_view(instruction_buffer@);
        proof {
            assert(tv.take(i + 1).drop_last() =~= tv.take(i as int));
            assert(tv.take(i + 1).last() == instructions@[i as int]@);
        }
        match generate_instruction(&instructions[i]) {
            Ok(mut chunk) => {
                let ghost cv = ainstrs_view(chunk@);
                instruction_buffer.append(&mut chunk);
                proof {
                    assert(ainstrs_view(instruction_buffer@) =~= pre + cv);
                }
                i = i + 1;
            },
            Err(e) => {
                proof {
                    lemma_gen_instrs_none(tv, i as int);
                }
                return Err(e);
            },
        }
    }
    proof {
        assert(tv.take(instructions@.len() as int) =~= tv);
    }
    Ok(instruction_buffer)
}

/// Whether an operand is a stack slot.
fn is_stack(o: &AOperandNode) -> (b: bool)
    ensures
        b == (o@ is Stack),
{
    matches!(o, AOperandNode::Stack(_))
}

/// Whether an operand is an immediate.
fn is_imm(o: &AOperandNode) -> (b: bool)
    ensures
        b == (o@ is Imm),
{
    matches!(o, AOperandNode::Imm(_))
}

/// The first position of a name in the allocation table.
fn find_name(table: &Vec<String>, name: &String) -> (r: Option<usize>)
    ensures
        match r {
            Some(i) => {
                &&& i < table@.len()
                &&& first_index(names_view(table@), name@) == i as int
                &&& names_view(table@).contains(name@)
            },
            None => !names_view(table@).contains(name@),
        },
{
    let ghost nv = names_view(table@);
    let mut i: usize = 0;
    while i < table.len()
        invariant
            i <= table@.len(),
            nv == names_view(table@),
            forall|j: int| 0 <= j < i ==> nv[j] != name@,
        decreases table@.len() - i,
    {
        if table[i].eq(name) {
            proof {
                assert(nv[i as int] == name@);
                lemma_first_index_at(nv, name@, i as int);
            }
            return Some(i);
        }
        proof {
            assert(nv[i as int] != name@);
        }
        i = i + 1;
    }
    proof {
        lemma_first_index_at(nv, name@, nv.len() as int);
    }
    None
}

/// Record one pseudo-register name in the allocation table.
fn note_pseudo(table: &mut Vec<String>, name: &String) -> (r: Result<(), CompileError>)
    requires
        old(table)@.len() <= max_pseudo_slots(),
    ensures
        match r {
            Ok(_) => {
                &&& names_view(final(table)@) == note_name(names_view(old(table)@), name@)
                &&& final(table)@.len() <= max_pseudo_slots()
            },
            Err(e) => {
                &&& e.kind == ErrorKind::Internal
                &&& note_name(names_view(old(table)@), name@).len() > max_pseudo_slots()
            },
        },
{
    match find_name(table, name) {
        Some(_) => Ok(()),
        None => {
            if table.len() >= 0x0fff_ffff {
                return Err(internal_error("too many pseudo-registers in one function"));
            }
            let ghost pre = names_view(table@);
            table.push(name.clone());
            proof {
                assert(names_view(table@) =~= pre.push(name@));
            }
            Ok(())
        },
    }
}

/// The pseudo-register names one instruction mentions, in operand order.
fn instruction_pseudo_names<'a>(instruction: &'a AInstructionNode) -> (r: (
    Option<&'a String>,
    Option<&'a String>,
))
    ensures
        instr_pseudos(instruction@) == (match r.0 {
            Some(s) => seq![s@],
            None => Seq::<Seq<char>>::empty(),
        }) + (match r.1 {
            Some(s) => seq![s@],
            None => Seq::<Seq<char>>::empty(),
        }),
{
    let ghost iv = instruction@;
    let r = match instruction {
        AInstructionNode::Mov(a, b) => (operand_pseudo_name(a), operand_pseudo_name(b)),
        AInstructionNode::Unary(_, o) => (operand_pseudo_name(o), None),
        AInstructionNode::Binary(_, a, b) => (operand_pseudo_name(a), operand_pseudo_name(b)),
        AInstructionNode::Cmp(a, b) => (operand_pseudo_name(a), operand_pseudo_name(b)),
        AInstructionNode::Idiv(o) => (operand_pseudo_name(o), None),
        AInstructionNode::SetCC(_, o) => (operand_pseudo_name(o), None),
        _ => (None, None),
    };
    proof {
        assert(instr_pseudos(iv) =~= (match r.0 {
            Some(s) => seq![s@],
            None => Seq::<Seq<char>>::empty(),
        }) + (match r.1 {
            Some(s) => seq![s@],
            None => Seq::<Seq<char>>::empty(),
        }));
    }
    r
}

/// The pseudo-register name of one operand, if it is one.
fn operand_pseudo_name<'a>(operand: &'a AOperandNode) -> (r: Option<&'a String>)
    ensures
        operand_pseudos(operand@) == (match r {
            Some(s) => seq![s@],
            None => Seq::<Seq<char>>::empty(),
        }),
{
    match operand {
        AOperandNode::Pseudo(s) => Some(s),
        _ => None,
    }
}

/// Collect the distinct pseudo-register names of a function body, in first
/// occurrence order.
fn collect_pseudoregs(instructions: &Vec<AInstructionNode>) -> (r: Result<
    Vec<String>,
    CompileError,
>)
    ensures
        match r {
            Ok(t) => {
                &&& names_view(t@) == uniq(pseudos_of(ainstrs_view(instructions@)))
                &&& t@.len() <= max_pseudo_slots()
            },
            Err(e) => {
                &&& e.kind == ErrorKind::Internal
                &&& uniq(pseudos_of(ainstrs_view(instructions@))).len() > max_pseudo_slots()
            },
        },
{
    let ghost av = ainstrs_view(instructions@);
    let mut table: Vec<String> = Vec::new();
    let mut i: usize = 0;
    proof {
        assert(av.take(0) =~= Seq::<SpecAInstr>::empty());
        assert(names_view(table@) =~= Seq::<Seq<char>>::empty());
    }
    while i < instructions.len()
        invariant
            i <= instructions@.len(),
            av == ainstrs_view(instructions@),
            names_view(table@) == uniq(pseudos_of(av.take(i as int))),
            table@.len() <= max_pseudo_slots(),
        decreases instructions@.len() - i,
    {
        let ghost p = pseudos_of(av.take(i as int));
        proof {
            assert(av.take(i + 1).drop_last() =~= av.take(i as int));
            assert(av.take(i + 1).last() == av[i as int]);
            assert(pseudos_of(av.take(i + 1)) == p + instr_pseudos(av[i as int]));
        }
        let (o1, o2) = instruction_pseudo_names(&instructions[i]);
        let ghost s1 = match o1 {
            Some(s) => seq![s@],
            None => Seq::<Seq<char>>::empty(),
        };
        let ghost s2 = match o2 {
            Some(s) => seq![s@],
            None => Seq::<Seq<char>>::empty(),
        };
        proof {
            // removing duplicates from p ++ s1 ++ s2 is stepping the table
            // through the (up to two) names
            assert(p + instr_pseudos(av[i as int]) =~= (p + s1) + s2);
            if s1.len() == 1 {
                assert((p + s1).drop_last() =~= p);
                assert((p + s1).last() == s1[0]);
                assert(uniq(p + s1) == note_name(uniq(p), s1[0]));
            } else {
                assert(p + s1 =~= p);
            }
            if s2.len() == 1 {
                assert(((p + s1) + s2).drop_last() =~= p + s1);
                assert(((p + s1) + s2).last() == s2[0]);
                assert(uniq((p + s1) + s2) == note_name(uniq(p + s1), s2[0]));
            } else {
                assert((p + s1) + s2 =~= p + s1);
            }
        }
        match o1 {
            Some(n1) => {
                match note_pseudo(&mut table, n1) {
                    Ok(_) => {},
                    Err(e) => {
                        proof {
                            lemma_uniq_len_monotone(p + s1, s2);
                            lemma_pseudos_take_prefix(av, i + 1);
                            let q = pseudos_of(av.take(i + 1));
                            lemma_uniq_len_monotone(q, pseudos_of(av).skip(q.len() as int));
                            assert(q + pseudos_of(av).skip(q.len() as int) =~= pseudos_of(av));
                        }
                        return Err(e);
                    },
                }
            },
            None => {},
        }
        match o2 {
            Some(n2) => {
                match note_pseudo(&mut table, n2) {
                    Ok(_) => {},
                    Err(e) => {
                        proof {
                            lemma_pseudos_take_prefix(av, i + 1);
                            let q = pseudos_of(av.take(i + 1));
                            lemma_uniq_len_monotone(q, pseudos_of(av).skip(q.len() as int));
                            assert(q + pseudos_of(av).skip(q.len() as int) =~= pseudos_of(av));
                        }
                        return Err(e);
                    },
                }
            },
            None => {},
        }
        i = i + 1;
    }
    proof {
        assert(av.take(instructions@.len() as int) =~= av);
    }
    Ok(table)
}

/// The names collected from a prefix are a prefix of all collected names.
proof fn lemma_pseudos_take_prefix(av: Seq<SpecAInstr>, i: int)
    requires
        0 <= i <= av.len(),
    ensures
        pseudos_of(av).len() >= pseudos_of(av.take(i)).len(),
        pseudos_of(av).take(pseudos_of(av.take(i)).len() as int) == pseudos_of(av.take(i)),
        pseudos_of(av.take(i)) + pseudos_of(av).skip(pseudos_of(av.take(i)).len() as int)
            == pseudos_of(av),
    decreases av.len() - i,
{
    if i == av.len() {
        assert(av.take(i) =~= av);
        assert(pseudos_of(av).take(pseudos_of(av).len() as int) =~= pseudos_of(av));
        assert(pseudos_of(av) + pseudos_of(av).skip(pseudos_of(av).len() as int) =~= pseudos_of(
            av,
        ));
    } else {
        lemma_pseudos_take_prefix(av, i + 1);
        assert(av.take(i + 1).drop_last() =~= av.take(i));
        assert(av.take(i + 1).last() == av[i]);
        assert(pseudos_of(av.take(i + 1)) == pseudos_of(av.take(i)) + instr_pseudos(av[i]));
        let p = pseudos_of(av.take(i));
        let q = pseudos_of(av.take(i + 1));
        let whole = pseudos_of(av);
        assert(whole.take(p.len() as int) =~= q.take(p.len() as int));
        assert(q.take(p.len() as int) =~= p);
        assert(p + whole.skip(p.len() as int) =~= whole);
    }
}

/// The stack offset assigned to a pseudo-register name.
fn map_pseudoregister_name(identifier: &String, table: &Vec<String>) -> (r: Result<
    isize,
    CompileError,
>)
    requires
        table@.len() <= max_pseudo_slots(),
    ensures
        match r {
            Ok(off) => {
                &&& names_view(table@).contains(identifier@)
                &&& off as int == slot_offset(names_view(table@), identifier@)
            },
            Err(e) => {
                &&& e.kind == ErrorKind::Internal
                &&& !names_view(table@).contains(identifier@)
            },
        },
{
    match find_name(table, identifier) {
        Some(i) => Ok(-(((i + 1) * 4) as isize)),
        None => Err(internal_error("unallocated pseudo-register")),
    }
}

/// Resolve one operand onto the frame.
fn pseudoreg_to_stack(operand: &AOperandNode, table: &Vec<String>) -> (r: Result<
    AOperandNode,
    CompileError,
>)
    requires
        table@.len() <= max_pseudo_slots(),
    ensures
        match r {
            Ok(o) => o@ == subst_operand_spec(operand@, names_view(table@)),
            Err(e) => {
                &&& e.kind == ErrorKind::Internal
                &&& operand@ is Pseudo
                &&& !names_view(table@).contains(operand@->Pseudo_0)
            },
        },
{
    match operand {
        AOperandNode::Pseudo(name) => match map_pseudoregister_name(name, table) {
            Ok(off) => Ok(AOperandNode::Stack(off)),
            Err(e) => Err(e),
        },
        _ => Ok(operand.clone()),
    }
}

/// Resolve every operand of one instruction onto the frame.
fn replace_instruction_pseudoregs(instruction: &AInstructionNode, table: &Vec<String>) -> (r:
    Result<AInstructionNode, CompileError>)
    requires
        table@.len() <= max_pseudo_slots(),
    ensures
        match r {
            Ok(out) => out@ == subst_instr_spec(instruction@, names_view(table@)),
            Err(e) => {
                &&& e.kind == ErrorKind::Internal
                &&& exists|x: Seq<char>|
                    instr_pseudos(instruction@).contains(x) && !names_view(table@).contains(x)
            },
        },
{
    let ghost iv = instruction@;
    let ghost nv = names_view(table@);
    match instruction {
        AInstructionNode::Mov(a, b) => {
            let ra = match pseudoreg_to_stack(a, table) {
                Ok(o) => o,
                Err(e) => {
                    proof {
                        assert(instr_pseudos(iv).contains(a@->Pseudo_0)) by {
                            assert(instr_pseudos(iv)[0] == a@->Pseudo_0);
                        }
                    }
                    return Err(e);
                },
            };
            let rb = match pseudoreg_to_stack(b, table) {
                Ok(o) => o,
                Err(e) => {
                    proof {
                        let k = operand_pseudos(a@).len() as int;
                        assert(instr_pseudos(iv).contains(b@->Pseudo_0)) by {
                            assert(instr_pseudos(iv)[k] == b@->Pseudo_0);
                        }
                    }
                    return Err(e);
                },
            };
            Ok(AInstructionNode::Mov(ra, rb))
        },
        AInstructionNode::Unary(op, o) => {
            let ro = match pseudoreg_to_stack(o, table) {
                Ok(x) => x,
                Err(e) => {
                    proof {
                        assert(instr_pseudos(iv).contains(o@->Pseudo_0)) by {
                            assert(instr_pseudos(iv)[0] == o@->Pseudo_0);
                        }
                    }
                    return Err(e);
                },
            };
            Ok(AInstructionNode::Unary(*op, ro))
        },
        AInstructionNode::Binary(op, a, b) => {
            let ra = match pseudoreg_to_stack(a, table) {
                Ok(o) => o,
                Err(e) => {
                    proof {
                        assert(instr_pseudos(iv).contains(a@->Pseudo_0)) by {
                            assert(instr_pseudos(iv)[0] == a@->Pseudo_0);
                        }
                    }
                    return Err(e);
                },
            };
            let rb = match pseudoreg_to_stack(b, table) {
                Ok(o) => o,
                Err(e) => {
                    proof {
                        let k = operand_pseudos(a@).len() as int;
                        assert(instr_pseudos(iv).contains(b@->Pseudo_0)) by {
                            assert(instr_pseudos(iv)[k] == b@->Pseudo_0);
                        }
                    }
                    return Err(e);
                },
            };
            Ok(AInstructionNode::Binary(*op, ra, rb))
        },
        AInstructionNode::Cmp(a, b) => {
            let ra = match pseudoreg_to_stack(a, table) {
                Ok(o) => o,
                Err(e) => {
                    proof {
                        assert(instr_pseudos(iv).contains(a@->Pseudo_0)) by {
                            assert(instr_pseudos(iv)[0] == a@->Pseudo_0);
                        }
                    }
                    return Err(e);
                },
            };
            let rb = match pseudoreg_to_stack(b, table) {
                Ok(o) => o,
                Err(e) => {
                    proof {
                        let k = operand_pseudos(a@).len() as int;
                        assert(instr_pseudos(iv).contains(b@->Pseudo_0)) by {
                            assert(instr_pseudos(iv)[k] == b@->Pseudo_0);
                        }
                    }
                    return Err(e);
                },
            };
            Ok(AInstructionNode::Cmp(ra, rb))
        },
        AInstructionNode::Idiv(o) => {
            let ro = match pseudoreg_to_stack(o, table) {
                Ok(x) => x,
                Err(e) => {
                    proof {
                        assert(instr_pseudos(iv).contains(o@->Pseudo_0)) by {
                            assert(instr_pseudos(iv)[0] == o@->Pseudo_0);
                        }
                    }
                    return Err(e);
                },
            };
            Ok(AInstructionNode::Idiv(ro))
        },
        AInstructionNode::SetCC(cc, o) => {
            let ro = match pseudoreg_to_stack(o, table) {
                Ok(x) => x,
                Err(e) => {
                    proof {
                        assert(instr_pseudos(iv).contains(o@->Pseudo_0)) by {
                            assert(instr_pseudos(iv)[0] == o@->Pseudo_0);
                        }
                    }
                    return Err(e);
                },
            };
            Ok(AInstructionNode::SetCC(*cc, ro))
        },
        _ => Ok(instruction.clone()),
    }
}

/// Resolve every pseudo-register of the body onto the frame.
fn replace_pseudoregs(instructions: &Vec<AInstructionNode>, table: &Vec<String>) -> (r: Result<
    Vec<AInstructionNode>,
    CompileError,
>)
    requires
        table@.len() <= max_pseudo_slots(),
    ensures
        match r {
            Ok(v) => ainstrs_view(v@) == subst_all(ainstrs_view(instructions@), names_view(
                table@,
            )),
            Err(e) => {
                &&& e.kind == ErrorKind::Internal
                &&& exists|k: int, x: Seq<char>|
                    0 <= k < instructions@.len() && #[trigger] instr_pseudos(
                        ainstrs_view(instructions@)[k],
                    ).contains(x) && !names_view(table@).contains(x)
            },
        },
{
    let ghost av = ainstrs_view(instructions@);
    let ghost nv = names_view(table@);
    let mut out: Vec<AInstructionNode> = Vec::new();
    let mut i: usize = 0;
    while i < instructions.len()
        invariant
            i <= instructions@.len(),
            av == ainstrs_view(instructions@),
            nv == names_view(table@),
            table@.len() <= max_pseudo_slots(),
            ainstrs_view(out@) == subst_all(av, nv).take(i as int),
        decreases instructions@.len() - i,
    {
        let ghost pre = ainstrs_view(out@);
        match replace_instruction_pseudoregs(&instructions[i], table) {
            Ok(x) => {
                let ghost xv = x@;
                out.push(x);
                proof {
                    assert(ainstrs_view(out@) =~= pre.push(xv));
                    assert(subst_all(av, nv).take(i + 1) =~= subst_all(av, nv).take(
                        i as int,
                    ).push(subst_all(av, nv)[i as int]));
                }
                i = i + 1;
            },
            Err(e) => {
                proof {
                    let x = choose|x: Seq<char>|
                        instr_pseudos(av[i as int]).contains(x) && !nv.contains(x);
                    assert(instr_pseudos(av[i as int]).contains(x) && !nv.contains(x));
                }
                return Err(e);
            },
        }
    }
    proof {
        assert(subst_all(av, nv).take(instructions@.len() as int) =~= subst_all(av, nv));
    }
    Ok(out)
}

/// Rewrite one instruction that violates an encoding rule into an
/// equivalent sequence through the scratch registers.
fn replace_invalid_moves(instruction: &AInstructionNode) -> (r: Vec<AInstructionNode>)
    ensures
        ainstrs_view(r@) == legalize_instr_spec(instruction@),
{
    let ghost iv = instruction@;
    match instruction {
        AInstructionNode::Mov(a, b) => {
            if is_stack(a) && is_stack(b) {
                let v = vec![
                    AInstructionNode::Mov(a.clone(), AOperandNode::Reg(ARegisterNode::R10)),
                    AInstructionNode::Mov(AOperandNode::Reg(ARegisterNode::R10), b.clone()),
                ];
                proof {
                    assert(ainstrs_view(v@) =~= legalize_instr_spec(iv));
                }
                v
            } else {
                let v = vec![instruction.clone()];
                proof {
                    assert(ainstrs_view(v@) =~= legalize_instr_spec(iv));
                }
                v
            }
        },
        AInstructionNode::Idiv(o) => {
            if is_imm(o) {
                let v = vec![
                    AInstructionNode::Mov(o.clone(), AOperandNode::Reg(ARegisterNode::R10)),
                    AInstructionNode::Idiv(AOperandNode::Reg(ARegisterNode::R10)),
                ];
                proof {
                    assert(ainstrs_view(v@) =~= legalize_instr_spec(iv));
                }
                v
            } else {
                let v = vec![instruction.clone()];
                proof {
                    assert(ainstrs_view(v@) =~= legalize_instr_spec(iv));
                }
                v
            }
        },
        AInstructionNode::Binary(op, a, b) => {
            if matches!(op, ABinaryOperatorNode::Mult) && is_stack(b) {
                let v = vec![
                    AInstructionNode::Mov(b.clone(), AOperandNode::Reg(ARegisterNode::R11)),
                    AInstructionNode::Binary(
                        ABinaryOperatorNode::Mult,
                        a.clone(),
                        AOperandNode::Reg(ARegisterNode::R11),
                    ),
                    AInstructionNode::Mov(AOperandNode::Reg(ARegisterNode::R11), b.clone()),
                ];
                proof {
                    assert(ainstrs_view(v@) =~= legalize_instr_spec(iv));
                }
                v
            } else if is_stack(a) && is_stack(b) {
                let v = vec![
                    AInstructionNode::Mov(a.clone(), AOperandNode::Reg(ARegisterNode::R10)),
                    AInstructionNode::Binary(
                        *op,
                        AOperandNode::Reg(ARegisterNode::R10),
                        b.clone(),
                    ),
                ];
                proof {
                    assert(ainstrs_view(v@) =~= legalize_instr_spec(iv));
                }
                v
            } else {
                let v = vec![instruction.clone()];
                proof {
                    assert(ainstrs_view(v@) =~= legalize_instr_spec(iv));
                }
                v
            }
        },
        AInstructionNode::Cmp(a, b) => {
            if is_imm(b) {
                let v = vec![
                    AInstructionNode::Mov(b.clone(), AOperandNode::Reg(ARegisterNode::R11)),
                    AInstructionNode::Cmp(a.clone(), AOperandNode::Reg(ARegisterNode::R11)),
                ];
                proof {
                    assert(ainstrs_view(v@) =~= legalize_instr_spec(iv));
                }
                v
            } else if is_stack(a) && is_stack(b) {
                let v = vec![
                    AInstructionNode::Mov(a.clone(), AOperandNode::Reg(ARegisterNode::R10)),
                    AInstructionNode::Cmp(AOperandNode::Reg(ARegisterNode::R10), b.clone()),
                ];
                proof {
                    assert(ainstrs_view(v@) =~= legalize_instr_spec(iv));
                }
                v
            } else {
                let v = vec![instruction.clone()];
                proof {
                    assert(ainstrs_view(v@) =~= legalize_instr_spec(iv));
                }
                v
            }
        },
        _ => {
            let v = vec![instruction.clone()];
            proof {
                assert(ainstrs_view(v@) =~= legalize_instr_spec(iv));
            }
            v
        },
    }
}

/// Prepend the frame allocation and legalize the whole body.
fn validate_moves(instructions: &Vec<AInstructionNode>, frame: usize) -> (r: Vec<
    AInstructionNode,
>)
    ensures
        ainstrs_view(r@) == seq![SpecAInstr::AllocateStack(frame as int)] + legalize_all(
            ainstrs_view(instructions@),
        ),
{
    let ghost av = ainstrs_view(instructions@);
    let mut new_instructions: Vec<AInstructionNode> = Vec::new();
    new_instructions.push(AInstructionNode::AllocateStack(frame));
    proof {
        assert(av.take(0) =~= Seq::<SpecAInstr>::empty());
        assert(ainstrs_view(new_instructions@) =~= seq![
            SpecAInstr::AllocateStack(frame as int),
        ] + legalize_all(av.take(0)));
    }
    let mut i: usize = 0;
    while i < instructions.len()
        invariant
            i <= instructions@.len(),
            av == ainstrs_view(instructions@),
            ainstrs_view(new_instructions@) == seq![SpecAInstr::AllocateStack(frame as int)]
                + legalize_all(av.take(i as int)),
        decreases instructions@.len() - i,
    {
        let ghost pre = ainstrs_view(new_instructions@);
        let mut chunk = replace_invalid_moves(&instructions[i]);
        let ghost cv = ainstrs_view(chunk@);
        new_instructions.append(&mut chunk);
        proof {
            assert(av.take(i + 1).drop_last() =~= av.take(i as int));
            assert(av.take(i + 1).last() == av[i as int]);
            assert(ainstrs_view(new_instructions@) =~= pre + cv);
            assert(pre + cv =~= seq![SpecAInstr::AllocateStack(frame as int)] + legalize_all(
                av.take(i + 1),
            ));
        }
        i = i + 1;
    }
    proof {
        assert(av.take(instructions@.len() as int) =~= av);
    }
    new_instructions
}

/// The whole post-generation pass over one program.
pub open spec fn postprocess_program_spec(p: SpecAProgram) -> Option<SpecAProgram> {
    match p {
        SpecAProgram::Program(af) => match af {
            SpecAFunction::Function(name, ins) => match postprocess_spec(ins) {
                Some(out) => Some(
                    SpecAProgram::Program(SpecAFunction::Function(name, out)),
                ),
                None => None,
            },
        },
    }
}

/// Run both post-generation stages: slot allocation, then legalization.
fn postprocess_assembly(program: AProgramNode) -> (r: Result<AProgramNode, CompileError>)
    ensures
        match r {
            Ok(out) => postprocess_program_spec(program@) == Some(out@),
            Err(e) => {
                &&& postprocess_program_spec(program@) is None
                &&& e.kind == ErrorKind::Internal
            },
        },
{
    match program {
        AProgramNode::Program(function) => match function {
            AFunctionDefinitionNode::Function(name, instructions) => {
                let ghost av = ainstrs_view(instructions@);
                let table = match collect_pseudoregs(&instructions) {
                    Ok(t) => t,
                    Err(e) => {
                        return Err(e);
                    },
                };
                let replaced = match replace_pseudoregs(&instructions, &table) {
                    Ok(v) => v,
                    Err(e) => {
                        proof {
                            let (k, x) = choose|k: int, x: Seq<char>|
                                0 <= k < instructions@.len() && #[trigger] instr_pseudos(
                                    ainstrs_view(instructions@)[k],
                                ).contains(x) && !names_view(table@).contains(x);
                            lemma_pseudos_contains(av, k, x);
                            lemma_uniq_contains(pseudos_of(av), x);
                            assert(false);
                        }
                        return Err(e);
                    },
                };
                let k = table.len();
                let frame: usize = ((4 * k) + 15) / 16 * 16;
                let out = validate_moves(&replaced, frame);
                Ok(AProgramNode::Program(AFunctionDefinitionNode::Function(name, out)))
            },
        },
    }
}

/// Lower one function's body to assembly instructions.
fn generate_function(function: TFunctionDefinitionNode) -> (r: Result<
    AFunctionDefinitionNode,
    CompileError,
>)
    ensures
        match r {
            Ok(af) => match function@ {
                SpecTFunction::Function(name, ins) => match gen_instrs_spec(ins) {
                    Some(a) => af@ == SpecAFunction::Function(name, a),
                    None => false,
                },
            },
            Err(e) => {
                &&& (match function@ {
                    SpecTFunction::Function(name, ins) => gen_instrs_spec(ins) is None,
                })
                &&& e.kind == ErrorKind::Internal
            },
        },
{
    match function {
        TFunctionDefinitionNode::Function(name, instructions) => {
            match generate_instructions(&instructions) {
                Ok(v) => Ok(AFunctionDefinitionNode::Function(name, v)),
                Err(e) => Err(e),
            }
        },
    }
}

/// Lower a whole three-address program to abstract assembly and run the
/// post-generation pass on it.
///
/// On success the result is exactly the specification's outcome, and its
/// body respects every encoding rule; the only errors are internal ones,
/// impossible on lowered input: a surviving short-circuit operator, or a
/// slot count beyond the generator's bookkeeping range.
pub fn generate_program(program: TProgramNode) -> (r: Result<AProgramNode, CompileError>)
    ensures
        match r {
            Ok(ap) => {
                &&& gen_program_spec(program@) == Some(ap@)
                &&& match ap@ {
                    SpecAProgram::Program(af) => match af {
                        SpecAFunction::Function(name, body) => legalized(body),
                    },
                }
            },
            Err(e) => {
                &&& gen_program_spec(program@) is None
                &&& e.kind == ErrorKind::Internal
            },
        },
{
    proof {
        lemma_generate_program_legal(program@);
    }
    match program {
        TProgramNode::Program(function) => {
            let af = match generate_function(function) {
                Ok(af) => af,
                Err(e) => {
                    return Err(e);
                },
            };
            match postprocess_assembly(AProgramNode::Program(af)) {
                Ok(out) => Ok(out),
                Err(e) => Err(e),
            }
        },
    }
}

} // verus!
