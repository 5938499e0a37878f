//! Lowering the syntax tree to three-address code, with fresh temporaries
//! and labels drawn from a name generator threaded through the walk.
//!
//! Short-circuit `&&` and `||` are synthesized into branches that land a 0
//! or 1 in a fresh temporary. The lowering is verified against a recursive
//! specification, and the generated code satisfies the structural
//! invariants of [`crate::tac_tree`]: every destination is a virtual
//! register, every jump target has a matching label, and label names are
//! unique within a function.

use vstd::prelude::*;

use crate::ast_tree::{
    items_view, BinaryOperatorNode, BlockItemNode, DeclarationNode, ExpressionNode,
    FunctionDefinitionNode,
    ProgramNode, SpecBlockItem, SpecDeclaration, SpecExp, SpecFunction, SpecProgram,
    SpecStatement, StatementNode,
};
use crate::diagnostics::{CompileError, ErrorKind};
use crate::numerals::{
    dec_rep, dec_string, is_digit_char, lemma_dec_rep_digits, lemma_dec_rep_injective,
};
use crate::tac_tree::{
    all_dsts_vars, has_label, instr_dst_is_var, jump_target, jumps_resolved, labels_unique,
    tinstrs_view, SpecTFunction, SpecTInstr, SpecTProgram, SpecTVal, TFunctionDefinitionNode,
    TInstructionNode, TProgramNode, TValNode,
};

verus! {

/// The name of the `n`-th temporary.
pub open spec fn temp_name(n: nat) -> Seq<char> {
    "tmp."@ + dec_rep(n)
}

/// The tag a short-circuit operator labels its branch target with.
pub open spec fn label_tag(op: BinaryOperatorNode) -> Seq<char> {
    if op == BinaryOperatorNode::And {
        "false_label"@
    } else {
        "true_label"@
    }
}

/// The name of the `n`-th label, with or without the `_end` suffix.
pub open spec fn label_name(op: BinaryOperatorNode, n: nat, end: bool) -> Seq<char> {
    label_tag(op) + "_"@ + dec_rep(n) + (if end {
        "_end"@
    } else {
        Seq::<char>::empty()
    })
}

/// The size of an expression model, used as a termination measure.
pub open spec fn spec_exp_size(e: SpecExp) -> nat
    decreases e,
{
    match e {
        SpecExp::Constant(_) => 1,
        SpecExp::Var(_) => 1,
        SpecExp::Unary(_, x) => 1 + spec_exp_size(*x),
        SpecExp::Binary(_, a, b) => 1 + spec_exp_size(*a) + spec_exp_size(*b),
        SpecExp::Assignment(a, b) => 1 + spec_exp_size(*a) + spec_exp_size(*b),
    }
}

/// Lower one expression. Yields the emitted instructions, the value naming
/// the result, and the counters after lowering; nothing when an assignment
/// target is not a variable.
pub open spec fn tack_exp_spec(e: SpecExp, t: nat, l: nat) -> Option<
    (Seq<SpecTInstr>, SpecTVal, nat, nat),
>
    decreases spec_exp_size(e), 0int,
{
    match e {
        SpecExp::Constant(c) => Some((Seq::<SpecTInstr>::empty(), SpecTVal::Constant(c), t, l)),
        SpecExp::Var(x) => Some((Seq::<SpecTInstr>::empty(), SpecTVal::Var(x), t, l)),
        SpecExp::Unary(op, e1) => match tack_exp_spec(*e1, t, l) {
            Some((ins, v, t1, l1)) => {
                let dst = SpecTVal::Var(temp_name(t1));
                Some((ins + seq![SpecTInstr::Unary(op, v, dst)], dst, t1 + 1, l1))
            },
            None => None,
        },
        SpecExp::Binary(op, a, b) => if op == BinaryOperatorNode::And || op
            == BinaryOperatorNode::Or {
            tack_shortcircuit_spec(op, *a, *b, t, l)
        } else {
            match tack_exp_spec(*a, t, l) {
                Some((ins1, v1, t1, l1)) => match tack_exp_spec(*b, t1, l1) {
                    Some((ins2, v2, t2, l2)) => {
                        let dst = SpecTVal::Var(temp_name(t2));
                        Some(
                            (
                                ins1 + ins2 + seq![SpecTInstr::Binary(op, v1, v2, dst)],
                                dst,
                                t2 + 1,
                                l2,
                            ),
                        )
                    },
                    None => None,
                },
                None => None,
            }
        },
        SpecExp::Assignment(lhs, rhs) => match *lhs {
            SpecExp::Var(x) => match tack_exp_spec(*rhs, t, l) {
                Some((ins, v, t1, l1)) => Some(
                    (
                        ins + seq![SpecTInstr::Copy(v, SpecTVal::Var(x))],
                        SpecTVal::Var(x),
                        t1,
                        l1,
                    ),
                ),
                None => None,
            },
            _ => None,
        },
    }
}

/// Lower a short-circuit `&&` or `||`: both label names are drawn before
/// the operands are lowered, then the branches land the operator's result
/// in a fresh temporary.
pub open spec fn tack_shortcircuit_spec(
    op: BinaryOperatorNode,
    a: SpecExp,
    b: SpecExp,
    t: nat,
    l: nat,
) -> Option<(Seq<SpecTInstr>, SpecTVal, nat, nat)>
    decreases spec_exp_size(a) + spec_exp_size(b), 1int,
{
    let sc = label_name(op, l, false);
    let end = label_name(op, l + 1, true);
    let jump_val = if op == BinaryOperatorNode::And {
        0int
    } else {
        1int
    };
    match tack_exp_spec(a, t, l + 2) {
        Some((ins1, v1, t1, l1)) => match tack_exp_spec(b, t1, l1) {
            Some((ins2, v2, t2, l2)) => {
                let dst = SpecTVal::Var(temp_name(t2));
                let jump1 = if op == BinaryOperatorNode::And {
                    SpecTInstr::JumpIfZero(v1, sc)
                } else {
                    SpecTInstr::JumpIfNotZero(v1, sc)
                };
                let jump2 = if op == BinaryOperatorNode::And {
                    SpecTInstr::JumpIfZero(v2, sc)
                } else {
                    SpecTInstr::JumpIfNotZero(v2, sc)
                };
                Some(
                    (
                        ins1 + seq![jump1] + ins2 + seq![
                            jump2,
                            SpecTInstr::Copy(SpecTVal::Constant(1 - jump_val), dst),
                            SpecTInstr::Jump(end),
                            SpecTInstr::Label(sc),
                            SpecTInstr::Copy(SpecTVal::Constant(jump_val), dst),
                            SpecTInstr::Label(end),
                        ],
                        dst,
                        t2 + 1,
                        l2,
                    ),
                )
            },
            None => None,
        },
        None => None,
    }
}

/// Lower one statement.
pub open spec fn tack_statement_spec(s: SpecStatement, t: nat, l: nat) -> Option<
    (Seq<SpecTInstr>, nat, nat),
> {
    match s {
        SpecStatement::Return(e) => match tack_exp_spec(e, t, l) {
            Some((ins, v, t1, l1)) => Some((ins + seq![SpecTInstr::Return(v)], t1, l1)),
            None => None,
        },
        SpecStatement::Expression(e) => match tack_exp_spec(e, t, l) {
            Some((ins, v, t1, l1)) => Some((ins, t1, l1)),
            None => None,
        },
        SpecStatement::Null => Some((Seq::<SpecTInstr>::empty(), t, l)),
    }
}

/// Lower one block item. A declaration without an initializer emits
/// nothing; one with an initializer emits the assignment at its site.
pub open spec fn tack_item_spec(b: SpecBlockItem, t: nat, l: nat) -> Option<
    (Seq<SpecTInstr>, nat, nat),
> {
    match b {
        SpecBlockItem::StatementItem(s) => tack_statement_spec(s, t, l),
        SpecBlockItem::DeclarationItem(d) => match d {
            SpecDeclaration::Declaration(x, init) => match init {
                Some(e) => match tack_exp_spec(e, t, l) {
                    Some((ins, v, t1, l1)) => Some(
                        (ins + seq![SpecTInstr::Copy(v, SpecTVal::Var(x))], t1, l1),
                    ),
                    None => None,
                },
                None => Some((Seq::<SpecTInstr>::empty(), t, l)),
            },
        },
    }
}

/// Lower a list of block items by concatenation.
pub open spec fn tack_items_spec(items: Seq<SpecBlockItem>, t: nat, l: nat) -> Option<
    (Seq<SpecTInstr>, nat, nat),
>
    decreases items.len(),
{
    if items.len() == 0 {
        Some((Seq::<SpecTInstr>::empty(), t, l))
    } else {
        match tack_item_spec(items[0], t, l) {
            Some((ins1, t1, l1)) => match tack_items_spec(items.drop_first(), t1, l1) {
                Some((ins2, t2, l2)) => Some((ins1 + ins2, t2, l2)),
                None => None,
            },
            None => None,
        }
    }
}

/// Whether a lowered body still needs the trailing `return 0` safety net.
pub open spec fn needs_trailing_return(ins: Seq<SpecTInstr>) -> bool {
    ins.len() == 0 || !(ins.last() is Return)
}

/// Lower one function: its items, then the safety net if the body does not
/// already end in a return.
pub open spec fn tack_function_spec(f: SpecFunction) -> Option<SpecTFunction> {
    match f {
        SpecFunction::Function(name, items) => match tack_items_spec(items, 0, 0) {
            Some((ins, t, l)) => {
                let body = if needs_trailing_return(ins) {
                    ins + seq![SpecTInstr::Return(SpecTVal::Constant(0))]
                } else {
                    ins
                };
                Some(SpecTFunction::Function(name, body))
            },
            None => None,
        },
    }
}

/// Lower a whole program.
pub open spec fn tack_program_spec(p: SpecProgram) -> Option<SpecTProgram> {
    match p {
        SpecProgram::Program(f) => match tack_function_spec(f) {
            Some(tf) => Some(SpecTProgram::Program(tf)),
            None => None,
        },
    }
}

/// Whether a lowering outcome both succeeds and keeps its counters within
/// the range the generator can represent.
pub open spec fn exp_within_bounds(o: Option<(Seq<SpecTInstr>, SpecTVal, nat, nat)>) -> bool {
    match o {
        Some(q) => q.2 <= u64::MAX && q.3 <= u64::MAX,
        None => false,
    }
}

/// As [`exp_within_bounds`], for statement-shaped outcomes.
pub open spec fn stmt_within_bounds(o: Option<(Seq<SpecTInstr>, nat, nat)>) -> bool {
    match o {
        Some(q) => q.1 <= u64::MAX && q.2 <= u64::MAX,
        None => false,
    }
}

/// Prepend already-emitted instructions to the outcome of lowering the rest.
pub open spec fn st_prepend(p: Seq<SpecTInstr>, o: Option<(Seq<SpecTInstr>, nat, nat)>) -> Option<
    (Seq<SpecTInstr>, nat, nat),
> {
    match o {
        None => None,
        Some((ins, t, l)) => Some((p + ins, t, l)),
    }
}

/// Whether the items of a function lower with counters the generator can
/// represent.
pub open spec fn function_counters_bounded(f: SpecFunction) -> bool {
    match f {
        SpecFunction::Function(_, items) => stmt_within_bounds(tack_items_spec(items, 0, 0)),
    }
}

/// As [`function_counters_bounded`], for a whole program.
pub open spec fn program_counters_bounded(p: SpecProgram) -> bool {
    match p {
        SpecProgram::Program(f) => function_counters_bounded(f),
    }
}

/// The two counters that make generated names fresh, scoped to one
/// compilation.
pub struct NameGenerator {
    pub temps: u64,
    pub labels: u64,
}

/// The size of an expression tree, used as a termination measure.
pub open spec fn node_size(e: ExpressionNode) -> nat
    decreases e,
{
    match e {
        ExpressionNode::Constant(_) => 1,
        ExpressionNode::Var(_) => 1,
        ExpressionNode::Unary(_, x) => 1 + node_size(*x),
        ExpressionNode::Binary(_, a, b) => 1 + node_size(*a) + node_size(*b),
        ExpressionNode::Assignment(a, b) => 1 + node_size(*a) + node_size(*b),
    }
}

fn internal_error(msg: &str) -> (e: CompileError)
    ensures
        e.kind == ErrorKind::Internal,
{
    CompileError::new(ErrorKind::Internal, String::from_str(msg))
}

/// Equal concatenations with the same prefix have equal suffixes.
proof fn lemma_concat_cancel_prefix(x: Seq<char>, y1: Seq<char>, y2: Seq<char>)
    requires
        x + y1 == x + y2,
    ensures
        y1 == y2,
{
    assert(y1 =~= (x + y1).skip(x.len() as int));
    assert(y2 =~= (x + y2).skip(x.len() as int));
}

/// Distinct counters give distinct temporary names.
pub proof fn lemma_temp_name_injective(a: nat, b: nat)
    requires
        temp_name(a) == temp_name(b),
    ensures
        a == b,
{
    lemma_concat_cancel_prefix("tmp."@, dec_rep(a), dec_rep(b));
    lemma_dec_rep_injective(a, b);
}

/// Distinct counters give distinct label names, whatever the operator tags
/// and suffixes.
pub proof fn lemma_label_name_injective(
    op1: BinaryOperatorNode,
    n1: nat,
    e1: bool,
    op2: BinaryOperatorNode,
    n2: nat,
    e2: bool,
)
    requires
        label_name(op1, n1, e1) == label_name(op2, n2, e2),
    ensures
        n1 == n2,
{
    reveal_strlit("false_label");
    reveal_strlit("true_label");
    reveal_strlit("_");
    reveal_strlit("_end");
    let t1 = label_tag(op1) + "_"@;
    let t2 = label_tag(op2) + "_"@;
    let s1 = if e1 {
        "_end"@
    } else {
        Seq::<char>::empty()
    };
    let s2 = if e2 {
        "_end"@
    } else {
        Seq::<char>::empty()
    };
    assert(label_name(op1, n1, e1) =~= t1 + (dec_rep(n1) + s1));
    assert(label_name(op2, n2, e2) =~= t2 + (dec_rep(n2) + s2));
    lemma_dec_rep_digits(n1);
    lemma_dec_rep_digits(n2);
    if label_tag(op1) != label_tag(op2) {
        assert(label_tag(op1).len() >= 1);
        assert(label_tag(op2).len() >= 1);
        assert(label_name(op1, n1, e1)[0] == label_tag(op1)[0]);
        assert(label_name(op2, n2, e2)[0] == label_tag(op2)[0]);
        assert(label_tag(op1)[0] != label_tag(op2)[0]);
    } else {
        lemma_concat_cancel_prefix(t1, dec_rep(n1) + s1, dec_rep(n2) + s2);
        let u = dec_rep(n1) + s1;
        let d1 = dec_rep(n1);
        let d2 = dec_rep(n2);
        if d1.len() == d2.len() {
            assert(d1 =~= u.take(d1.len() as int));
            assert(d2 =~= u.take(d2.len() as int));
            lemma_dec_rep_injective(n1, n2);
        } else if d1.len() < d2.len() {
            assert(d2.len() <= u.len());
            assert(u[d1.len() as int] == s1[0]);
            assert(s1.len() > 0);
            assert(s1[0] == '_');
            assert(u[d1.len() as int] == d2[d1.len() as int]);
            assert(is_digit_char(d2[d1.len() as int]));
            assert(false);
        } else {
            assert(d1.len() <= u.len());
            assert(u[d2.len() as int] == s2[0]);
            assert(s2.len() > 0);
            assert(s2[0] == '_');
            assert(u[d2.len() as int] == d1[d2.len() as int]);
            assert(is_digit_char(d1[d2.len() as int]));
            assert(false);
        }
    }
}

/// The well-formedness carried through the lowering: destinations are
/// variables, jumps are resolved within the sequence, labels are unique,
/// and every label's counter lies in `[lo, hi)`.
pub open spec fn tac_wf(ins: Seq<SpecTInstr>, lo: nat, hi: nat) -> bool {
    &&& all_dsts_vars(ins)
    &&& jumps_resolved(ins)
    &&& labels_unique(ins)
    &&& (forall|k: int|
        0 <= k < ins.len() && (#[trigger] ins[k]) is Label ==> exists|
            qop: BinaryOperatorNode,
            qn: nat,
            qe: bool,
        |
            ins[k]->Label_0 == label_name(qop, qn, qe) && lo <= qn < hi)
    &&& lo <= hi
}

/// Well-formedness composes over concatenation of label-disjoint parts.
proof fn lemma_tac_wf_concat(a: Seq<SpecTInstr>, b: Seq<SpecTInstr>, lo: nat, mid: nat, hi: nat)
    requires
        tac_wf(a, lo, mid),
        tac_wf(b, mid, hi),
    ensures
        tac_wf(a + b, lo, hi),
{
    let c = a + b;
    assert forall|k: int| 0 <= k < c.len() implies instr_dst_is_var(#[trigger] c[k]) by {
        if k < a.len() {
            assert(c[k] == a[k]);
        } else {
            assert(c[k] == b[k - a.len()]);
        }
    }
    assert forall|k: int|
        0 <= k < c.len() && jump_target(#[trigger] c[k]) is Some implies has_label(
        c,
        jump_target(c[k])->Some_0,
    ) by {
        let l = jump_target(c[k])->Some_0;
        if k < a.len() {
            assert(c[k] == a[k]);
            assert(has_label(a, l));
            let j = choose|j: int| 0 <= j < a.len() && a[j] == SpecTInstr::Label(l);
            assert(c[j] == SpecTInstr::Label(l));
        } else {
            assert(c[k] == b[k - a.len()]);
            assert(has_label(b, l));
            let j = choose|j: int| 0 <= j < b.len() && b[j] == SpecTInstr::Label(l);
            assert(c[a.len() + j] == SpecTInstr::Label(l));
        }
    }
    assert forall|i: int, j: int|
        0 <= i < j < c.len() && (#[trigger] c[i]) is Label && (#[trigger] c[j]) is Label implies c[i]->Label_0
        != c[j]->Label_0 by {
        if i < a.len() && j < a.len() {
            assert(c[i] == a[i] && c[j] == a[j]);
        } else if i >= a.len() && j >= a.len() {
            assert(c[i] == b[i - a.len()] && c[j] == b[j - a.len()]);
        } else {
            assert(c[i] == a[i] && c[j] == b[j - a.len()]);
            let qa = choose|qop: BinaryOperatorNode, qn: nat, qe: bool|
                a[i]->Label_0 == label_name(qop, qn, qe) && lo <= qn < mid;
            let qb = choose|qop: BinaryOperatorNode, qn: nat, qe: bool|
                b[j - a.len()]->Label_0 == label_name(qop, qn, qe) && mid <= qn < hi;
            if c[i]->Label_0 == c[j]->Label_0 {
                lemma_label_name_injective(qa.0, qa.1, qa.2, qb.0, qb.1, qb.2);
            }
        }
    }
    assert forall|k: int| 0 <= k < c.len() && (#[trigger] c[k]) is Label implies exists|
        qop: BinaryOperatorNode,
        qn: nat,
        qe: bool,
    |
        c[k]->Label_0 == label_name(qop, qn, qe) && lo <= qn < hi by {
        if k < a.len() {
            assert(c[k] == a[k]);
            let qa = choose|qop: BinaryOperatorNode, qn: nat, qe: bool|
                a[k]->Label_0 == label_name(qop, qn, qe) && lo <= qn < mid;
            assert(c[k]->Label_0 == label_name(qa.0, qa.1, qa.2) && lo <= qa.1 < hi);
        } else {
            assert(c[k] == b[k - a.len()]);
            let qb = choose|qop: BinaryOperatorNode, qn: nat, qe: bool|
                b[k - a.len()]->Label_0 == label_name(qop, qn, qe) && mid <= qn < hi;
            assert(c[k]->Label_0 == label_name(qb.0, qb.1, qb.2) && lo <= qb.1 < hi);
        }
    }
}

/// A single instruction that is neither a label nor a jump is well-formed
/// over an empty label range, provided its destination is a variable.
proof fn lemma_tac_wf_plain_single(i: SpecTInstr, lo: nat)
    requires
        instr_dst_is_var(i),
        jump_target(i) is None,
        !(i is Label),
    ensures
        tac_wf(seq![i], lo, lo),
{
    let s = seq![i];
    assert(forall|k: int| 0 <= k < s.len() ==> #[trigger] s[k] == i);
}

/// Lowering an expression yields well-formed code whose labels lie between
/// the label counter before and after.
pub proof fn lemma_tack_exp_wf(e: SpecExp, t: nat, l: nat)
    ensures
        match tack_exp_spec(e, t, l) {
            Some(q) => tac_wf(q.0, l, q.3),
            None => true,
        },
    decreases spec_exp_size(e),
{
    lemma_tack_exp_monotone(e, t, l);
    match e {
        SpecExp::Constant(_) => {},
        SpecExp::Var(_) => {},
        SpecExp::Unary(op, e1) => {
            lemma_tack_exp_wf(*e1, t, l);
            match tack_exp_spec(*e1, t, l) {
                Some((ins, v, t1, l1)) => {
                    let u = SpecTInstr::Unary(op, v, SpecTVal::Var(temp_name(t1)));
                    lemma_tac_wf_plain_single(u, l1);
                    lemma_tac_wf_concat(ins, seq![u], l, l1, l1);
                },
                None => {},
            }
        },
        SpecExp::Binary(op, a, b) => {
            if op == BinaryOperatorNode::And || op == BinaryOperatorNode::Or {
                lemma_tack_shortcircuit_wf(op, *a, *b, t, l);
            } else {
                lemma_tack_exp_wf(*a, t, l);
                match tack_exp_spec(*a, t, l) {
                    Some((ins1, v1, t1, l1)) => {
                        lemma_tack_exp_monotone(*b, t1, l1);
                        lemma_tack_exp_wf(*b, t1, l1);
                        match tack_exp_spec(*b, t1, l1) {
                            Some((ins2, v2, t2, l2)) => {
                                let u = SpecTInstr::Binary(
                                    op,
                                    v1,
                                    v2,
                                    SpecTVal::Var(temp_name(t2)),
                                );
                                lemma_tac_wf_concat(ins1, ins2, l, l1, l2);
                                lemma_tac_wf_plain_single(u, l2);
                                lemma_tac_wf_concat(ins1 + ins2, seq![u], l, l2, l2);
                            },
                            None => {},
                        }
                    },
                    None => {},
                }
            }
        },
        SpecExp::Assignment(lhs, rhs) => {
            match *lhs {
                SpecExp::Var(x) => {
                    lemma_tack_exp_wf(*rhs, t, l);
                    match tack_exp_spec(*rhs, t, l) {
                        Some((ins, v, t1, l1)) => {
                            let u = SpecTInstr::Copy(v, SpecTVal::Var(x));
                            lemma_tac_wf_plain_single(u, l1);
                            lemma_tac_wf_concat(ins, seq![u], l, l1, l1);
                        },
                        None => {},
                    }
                },
                _ => {},
            }
        },
    }
}

/// The short-circuit synthesis yields well-formed code: its two labels are
/// the first two counters drawn, the operand code resolves its own jumps,
/// and the new jumps all land on the two labels placed at the end.
#[verifier::rlimit(100)]
#[verifier::spinoff_prover]
proof fn lemma_tack_shortcircuit_wf(op: BinaryOperatorNode, a: SpecExp, b: SpecExp, t: nat, l: nat)
    requires
        op == BinaryOperatorNode::And || op == BinaryOperatorNode::Or,
    ensures
        match tack_shortcircuit_spec(op, a, b, t, l) {
            Some(q) => tac_wf(q.0, l, q.3),
            None => true,
        },
    decreases spec_exp_size(a) + spec_exp_size(b),
{
    let sc = label_name(op, l, false);
    let end = label_name(op, l + 1, true);
    lemma_tack_exp_wf(a, t, l + 2);
    lemma_tack_exp_monotone(a, t, l + 2);
    match tack_exp_spec(a, t, l + 2) {
        Some((ins1, v1, t1, l1)) => {
            lemma_tack_exp_wf(b, t1, l1);
            lemma_tack_exp_monotone(b, t1, l1);
            match tack_exp_spec(b, t1, l1) {
                Some((ins2, v2, t2, l2)) => {
                    let dst = SpecTVal::Var(temp_name(t2));
                    let jump_val = if op == BinaryOperatorNode::And {
                        0int
                    } else {
                        1int
                    };
                    let jump1 = if op == BinaryOperatorNode::And {
                        SpecTInstr::JumpIfZero(v1, sc)
                    } else {
                        SpecTInstr::JumpIfNotZero(v1, sc)
                    };
                    let jump2 = if op == BinaryOperatorNode::And {
                        SpecTInstr::JumpIfZero(v2, sc)
                    } else {
                        SpecTInstr::JumpIfNotZero(v2, sc)
                    };
                    let tail = seq![
                        jump2,
                        SpecTInstr::Copy(SpecTVal::Constant(1 - jump_val), dst),
                        SpecTInstr::Jump(end),
                        SpecTInstr::Label(sc),
                        SpecTInstr::Copy(SpecTVal::Constant(jump_val), dst),
                        SpecTInstr::Label(end),
                    ];
                    let whole = ins1 + seq![jump1] + ins2 + tail;
                    let n1 = ins1.len() as int;
                    let n2 = ins2.len() as int;
                    let base = n1 + 1 + n2;
                    assert(whole.len() == base + 6);
                    assert(whole[base + 3] == SpecTInstr::Label(sc));
                    assert(whole[base + 5] == SpecTInstr::Label(end));
                    assert(whole[n1] == jump1);
                    assert(whole[base] == jump2);
                    assert(forall|k: int| 0 <= k < n1 ==> whole[k] == ins1[k]);
                    assert(forall|k: int| 0 <= k < n2 ==> whole[n1 + 1 + k] == ins2[k]);
                    // destinations
                    assert forall|k: int| 0 <= k < whole.len() implies instr_dst_is_var(
                        #[trigger] whole[k],
                    ) by {
                        if k < n1 {
                            assert(whole[k] == ins1[k]);
                        } else if n1 + 1 <= k < base {
                            assert(whole[k] == ins2[k - n1 - 1]);
                        }
                    }
                    // jumps
                    assert forall|k: int|
                        0 <= k < whole.len() && jump_target(#[trigger] whole[k]) is Some implies
                        has_label(whole, jump_target(whole[k])->Some_0) by {
                        let lab = jump_target(whole[k])->Some_0;
                        if k < n1 {
                            assert(whole[k] == ins1[k]);
                            assert(has_label(ins1, lab));
                            let j = choose|j: int|
                                0 <= j < ins1.len() && ins1[j] == SpecTInstr::Label(lab);
                            assert(whole[j] == SpecTInstr::Label(lab));
                        } else if n1 + 1 <= k < base {
                            assert(whole[k] == ins2[k - n1 - 1]);
                            assert(has_label(ins2, lab));
                            let j = choose|j: int|
                                0 <= j < ins2.len() && ins2[j] == SpecTInstr::Label(lab);
                            assert(whole[n1 + 1 + j] == SpecTInstr::Label(lab));
                        } else if k == n1 || k == base {
                            assert(lab == sc);
                            assert(whole[base + 3] == SpecTInstr::Label(sc));
                        } else if k == base + 2 {
                            assert(lab == end);
                            assert(whole[base + 5] == SpecTInstr::Label(end));
                        }
                    }
                    // label ranges
                    assert forall|k: int|
                        0 <= k < whole.len() && (#[trigger] whole[k]) is Label implies exists|
                        qop: BinaryOperatorNode,
                        qn: nat,
                        qe: bool,
                    |
                        whole[k]->Label_0 == label_name(qop, qn, qe) && l <= qn < l2 by {
                        if k < n1 {
                            assert(whole[k] == ins1[k]);
                            let qa = choose|qop: BinaryOperatorNode, qn: nat, qe: bool|
                                ins1[k]->Label_0 == label_name(qop, qn, qe) && l + 2 <= qn
                                    < l1;
                            assert(whole[k]->Label_0 == label_name(qa.0, qa.1, qa.2) && l <= qa.1
                                < l2);
                        } else if n1 + 1 <= k < base {
                            assert(whole[k] == ins2[k - n1 - 1]);
                            let qb = choose|qop: BinaryOperatorNode, qn: nat, qe: bool|
                                ins2[k - n1 - 1]->Label_0 == label_name(qop, qn, qe) && l1
                                    <= qn < l2;
                            assert(whole[k]->Label_0 == label_name(qb.0, qb.1, qb.2) && l <= qb.1
                                < l2);
                        } else if k == base + 3 {
                            assert(whole[k]->Label_0 == label_name(op, l, false) && l <= l < l2);
                        } else if k == base + 5 {
                            assert(whole[k]->Label_0 == label_name(op, l + 1, true) && l <= l + 1
                                < l2);
                        }
                    }
                    // label uniqueness: the counter of every label determines it
                    assert forall|i: int, j: int|
                        0 <= i < j < whole.len() && (#[trigger] whole[i]) is Label && (
                        #[trigger] whole[j]) is Label implies whole[i]->Label_0
                        != whole[j]->Label_0 by {
                        if whole[i]->Label_0 == whole[j]->Label_0 {
                            let name = whole[i]->Label_0;
                            let ri = label_counter_region(
                                whole,
                                ins1,
                                ins2,
                                n1,
                                base,
                                i,
                                l,
                                l1,
                                l2,
                            );
                            let rj = label_counter_region(
                                whole,
                                ins1,
                                ins2,
                                n1,
                                base,
                                j,
                                l,
                                l1,
                                l2,
                            );
                            lemma_label_name_injective(ri.0, ri.1, ri.2, rj.0, rj.1, rj.2);
                            if i < n1 && j < n1 {
                                assert(ins1[i] == whole[i] && ins1[j] == whole[j]);
                                assert(false);
                            } else if n1 + 1 <= i < base && n1 + 1 <= j < base {
                                assert(ins2[i - n1 - 1] == whole[i] && ins2[j - n1 - 1]
                                    == whole[j]);
                                assert(false);
                            } else {
                                assert(false);
                            }
                        }
                    }
                },
                None => {},
            }
        },
        None => {},
    }
}

/// The counter triple naming the label at position `k` of the assembled
/// short-circuit sequence, with its range constraint.
proof fn label_counter_region(
    whole: Seq<SpecTInstr>,
    ins1: Seq<SpecTInstr>,
    ins2: Seq<SpecTInstr>,
    n1: int,
    base: int,
    k: int,
    l: nat,
    l1: nat,
    l2: nat,
) -> (q: (BinaryOperatorNode, nat, bool))
    requires
        n1 == ins1.len(),
        base == n1 + 1 + ins2.len(),
        whole.len() == base + 6,
        0 <= k < whole.len(),
        whole[k] is Label,
        forall|j: int| 0 <= j < n1 ==> whole[j] == ins1[j],
        forall|j: int| 0 <= j < ins2.len() ==> whole[n1 + 1 + j] == ins2[j],
        !(whole[n1] is Label),
        !(whole[base] is Label),
        !(whole[base + 1] is Label),
        !(whole[base + 2] is Label),
        !(whole[base + 4] is Label),
        whole[base + 3] is Label,
        whole[base + 5] is Label,
        whole[base + 3]->Label_0 == label_name(
            BinaryOperatorNode::And,
            l,
            false,
        ) || whole[base + 3]->Label_0 == label_name(BinaryOperatorNode::Or, l, false),
        whole[base + 5]->Label_0 == label_name(
            BinaryOperatorNode::And,
            l + 1,
            true,
        ) || whole[base + 5]->Label_0 == label_name(BinaryOperatorNode::Or, l + 1, true),
        forall|j: int|
            0 <= j < ins1.len() && (#[trigger] ins1[j]) is Label ==> exists|
                qop: BinaryOperatorNode,
                qn: nat,
                qe: bool,
            |
                ins1[j]->Label_0 == label_name(qop, qn, qe) && l + 2 <= qn < l1,
        forall|j: int|
            0 <= j < ins2.len() && (#[trigger] ins2[j]) is Label ==> exists|
                qop: BinaryOperatorNode,
                qn: nat,
                qe: bool,
            |
                ins2[j]->Label_0 == label_name(qop, qn, qe) && l1 <= qn < l2,
        l + 2 <= l1 <= l2,
    ensures
        whole[k]->Label_0 == label_name(q.0, q.1, q.2),
        l <= q.1 < l2,
        k < n1 ==> l + 2 <= q.1 < l1,
        n1 + 1 <= k < base ==> l1 <= q.1 < l2,
        k == base + 3 ==> q.1 == l,
        k == base + 5 ==> q.1 == l + 1,
        k == n1 || base <= k < base + 3 || k == base + 4 ==> false,
{
    if k < n1 {
        assert(whole[k] == ins1[k]);
        choose|qop: BinaryOperatorNode, qn: nat, qe: bool|
            ins1[k]->Label_0 == label_name(qop, qn, qe) && l + 2 <= qn < l1
    } else if n1 + 1 <= k < base {
        assert(whole[k] == ins2[k - n1 - 1]);
        choose|qop: BinaryOperatorNode, qn: nat, qe: bool|
            ins2[k - n1 - 1]->Label_0 == label_name(qop, qn, qe) && l1 <= qn < l2
    } else if k == base + 3 {
        if whole[k]->Label_0 == label_name(BinaryOperatorNode::And, l, false) {
            (BinaryOperatorNode::And, l, false)
        } else {
            (BinaryOperatorNode::Or, l, false)
        }
    } else {
        if whole[k]->Label_0 == label_name(BinaryOperatorNode::And, l + 1, true) {
            (BinaryOperatorNode::And, (l + 1) as nat, true)
        } else {
            (BinaryOperatorNode::Or, (l + 1) as nat, true)
        }
    }
}

/// Lowering a statement yields well-formed code.
pub proof fn lemma_tack_statement_wf(s: SpecStatement, t: nat, l: nat)
    ensures
        match tack_statement_spec(s, t, l) {
            Some(q) => tac_wf(q.0, l, q.2),
            None => true,
        },
{
    match s {
        SpecStatement::Return(e) => {
            lemma_tack_exp_wf(e, t, l);
            match tack_exp_spec(e, t, l) {
                Some((ins, v, t1, l1)) => {
                    lemma_tac_wf_plain_single(SpecTInstr::Return(v), l1);
                    lemma_tac_wf_concat(ins, seq![SpecTInstr::Return(v)], l, l1, l1);
                },
                None => {},
            }
        },
        SpecStatement::Expression(e) => {
            lemma_tack_exp_wf(e, t, l);
        },
        SpecStatement::Null => {},
    }
}

/// Lowering a block item yields well-formed code.
pub proof fn lemma_tack_item_wf(b: SpecBlockItem, t: nat, l: nat)
    ensures
        match tack_item_spec(b, t, l) {
            Some(q) => tac_wf(q.0, l, q.2),
            None => true,
        },
{
    match b {
        SpecBlockItem::StatementItem(s) => lemma_tack_statement_wf(s, t, l),
        SpecBlockItem::DeclarationItem(d) => match d {
            SpecDeclaration::Declaration(x, init) => match init {
                Some(e) => {
                    lemma_tack_exp_wf(e, t, l);
                    match tack_exp_spec(e, t, l) {
                        Some((ins, v, t1, l1)) => {
                            let u = SpecTInstr::Copy(v, SpecTVal::Var(x));
                            lemma_tac_wf_plain_single(u, l1);
                            lemma_tac_wf_concat(ins, seq![u], l, l1, l1);
                        },
                        None => {},
                    }
                },
                None => {},
            },
        },
    }
}

/// Lowering a list of block items yields well-formed code.
pub proof fn lemma_tack_items_wf(items: Seq<SpecBlockItem>, t: nat, l: nat)
    ensures
        match tack_items_spec(items, t, l) {
            Some(q) => tac_wf(q.0, l, q.2),
            None => true,
        },
    decreases items.len(),
{
    if items.len() > 0 {
        lemma_tack_item_wf(items[0], t, l);
        match tack_item_spec(items[0], t, l) {
            Some((ins1, t1, l1)) => {
                lemma_tack_items_wf(items.drop_first(), t1, l1);
                match tack_items_spec(items.drop_first(), t1, l1) {
                    Some((ins2, t2, l2)) => {
                        lemma_tac_wf_concat(ins1, ins2, l, l1, l2);
                    },
                    None => {},
                }
            },
            None => {},
        }
    }
}

/// The invariants of generated three-address code: every lowered program's
/// body has only virtual registers as destinations, a matching label for
/// every jump target, and no repeated label names.
pub proof fn lemma_tack_program_invariants(p: SpecProgram)
    ensures
        match tack_program_spec(p) {
            Some(tp) => match tp {
                SpecTProgram::Program(tf) => match tf {
                    SpecTFunction::Function(name, body) => {
                        &&& all_dsts_vars(body)
                        &&& jumps_resolved(body)
                        &&& labels_unique(body)
                    },
                },
            },
            None => true,
        },
{
    match p {
        SpecProgram::Program(f) => match f {
            SpecFunction::Function(name, items) => {
                lemma_tack_items_wf(items, 0, 0);
                match tack_items_spec(items, 0, 0) {
                    Some((ins, t, l)) => {
                        if needs_trailing_return(ins) {
                            let u = SpecTInstr::Return(SpecTVal::Constant(0));
                            lemma_tac_wf_plain_single(u, l);
                            lemma_tac_wf_concat(ins, seq![u], 0, l, l);
                        }
                    },
                    None => {},
                }
            },
        },
    }
}

/// Lowering an expression never lowers the counters.
pub proof fn lemma_tack_exp_monotone(e: SpecExp, t: nat, l: nat)
    ensures
        match tack_exp_spec(e, t, l) {
            Some(q) => q.2 >= t && q.3 >= l,
            None => true,
        },
    decreases spec_exp_size(e),
{
    match e {
        SpecExp::Constant(c) => {
            assert(tack_exp_spec(e, t, l) == Some(
                (Seq::<SpecTInstr>::empty(), SpecTVal::Constant(c), t, l),
            ));
        },
        SpecExp::Var(_) => {
            assert(match tack_exp_spec(e, t, l) {
                Some(q) => q.2 >= t && q.3 >= l,
                None => true,
            });
        },
        SpecExp::Unary(_, e1) => {
            lemma_tack_exp_monotone(*e1, t, l);
            assert(match tack_exp_spec(e, t, l) {
                Some(q) => q.2 >= t && q.3 >= l,
                None => true,
            });
        },
        SpecExp::Binary(op, a, b) => {
            if op == BinaryOperatorNode::And || op == BinaryOperatorNode::Or {
                lemma_tack_exp_monotone(*a, t, l + 2);
                match tack_exp_spec(*a, t, l + 2) {
                    Some(q) => {
                        lemma_tack_exp_monotone(*b, q.2, q.3);
                    },
                    None => {},
                }
                assert(tack_exp_spec(e, t, l) == tack_shortcircuit_spec(op, *a, *b, t, l));
                assert(match tack_exp_spec(e, t, l) {
                    Some(q) => q.2 >= t && q.3 >= l,
                    None => true,
                });
            } else {
                lemma_tack_exp_monotone(*a, t, l);
                match tack_exp_spec(*a, t, l) {
                    Some(q) => {
                        lemma_tack_exp_monotone(*b, q.2, q.3);
                    },
                    None => {},
                }
                assert(match tack_exp_spec(e, t, l) {
                    Some(q) => q.2 >= t && q.3 >= l,
                    None => true,
                });
            }
        },
        SpecExp::Assignment(lhs, rhs) => {
            if *lhs is Var {
                lemma_tack_exp_monotone(*rhs, t, l);
            }
            assert(match tack_exp_spec(e, t, l) {
                Some(q) => q.2 >= t && q.3 >= l,
                None => true,
            });
        },
    }
}

/// Lowering a statement never lowers the counters.
pub proof fn lemma_tack_statement_monotone(s: SpecStatement, t: nat, l: nat)
    ensures
        match tack_statement_spec(s, t, l) {
            Some(q) => q.1 >= t && q.2 >= l,
            None => true,
        },
{
    match s {
        SpecStatement::Return(e) => lemma_tack_exp_monotone(e, t, l),
        SpecStatement::Expression(e) => lemma_tack_exp_monotone(e, t, l),
        SpecStatement::Null => {},
    }
}

/// Lowering a block item never lowers the counters.
pub proof fn lemma_tack_item_monotone(b: SpecBlockItem, t: nat, l: nat)
    ensures
        match tack_item_spec(b, t, l) {
            Some(q) => q.1 >= t && q.2 >= l,
            None => true,
        },
{
    match b {
        SpecBlockItem::StatementItem(s) => lemma_tack_statement_monotone(s, t, l),
        SpecBlockItem::DeclarationItem(d) => match d {
            SpecDeclaration::Declaration(_, init) => match init {
                Some(e) => lemma_tack_exp_monotone(e, t, l),
                None => {},
            },
        },
    }
}

/// Lowering a list of block items never lowers the counters.
pub proof fn lemma_tack_items_monotone(items: Seq<SpecBlockItem>, t: nat, l: nat)
    ensures
        match tack_items_spec(items, t, l) {
            Some(q) => q.1 >= t && q.2 >= l,
            None => true,
        },
    decreases items.len(),
{
    if items.len() > 0 {
        lemma_tack_item_monotone(items[0], t, l);
        match tack_item_spec(items[0], t, l) {
            Some(q) => {
                lemma_tack_items_monotone(items.drop_first(), q.1, q.2);
            },
            None => {},
        }
    }
}

/// Draw a fresh temporary name, `tmp.N`.
fn make_temporary_var(gen: &mut NameGenerator) -> (r: Result<String, CompileError>)
    ensures
        match r {
            Ok(s) => {
                &&& s@ == temp_name(old(gen).temps as nat)
                &&& final(gen).temps == old(gen).temps + 1
                &&& final(gen).labels == old(gen).labels
            },
            Err(e) => {
                &&& e.kind == ErrorKind::Internal
                &&& old(gen).temps == u64::MAX
                &&& *final(gen) == *old(gen)
            },
        },
{
    if gen.temps == u64::MAX {
        return Err(internal_error("temporary counter exhausted"));
    }
    let mut s = String::from_str("tmp.");
    let d = dec_string(gen.temps);
    s.append(d.as_str());
    gen.temps = gen.temps + 1;
    Ok(s)
}

/// Draw a fresh label name for a short-circuit operator, with the given
/// suffix choice.
fn make_label_name(gen: &mut NameGenerator, op: &BinaryOperatorNode, end: bool) -> (r: Result<
    String,
    CompileError,
>)
    ensures
        match r {
            Ok(s) => {
                &&& s@ == label_name(*op, old(gen).labels as nat, end)
                &&& final(gen).labels == old(gen).labels + 1
                &&& final(gen).temps == old(gen).temps
            },
            Err(e) => {
                &&& e.kind == ErrorKind::Internal
                &&& old(gen).labels == u64::MAX
                &&& *final(gen) == *old(gen)
            },
        },
{
    if gen.labels == u64::MAX {
        return Err(internal_error("label counter exhausted"));
    }
    let mut s = if matches!(op, BinaryOperatorNode::And) {
        String::from_str("false_label")
    } else {
        String::from_str("true_label")
    };
    s.append("_");
    let d = dec_string(gen.labels);
    s.append(d.as_str());
    if end {
        s.append("_end");
    }
    gen.labels = gen.labels + 1;
    proof {
        if !end {
            assert(s@ =~= label_name(*op, old(gen).labels as nat, end));
        }
    }
    Ok(s)
}

/// Lower one expression, appending its code to the buffer and returning the
/// value that names its result.
fn tack_exp(
    expression: &ExpressionNode,
    instruction_buffer: &mut Vec<TInstructionNode>,
    gen: &mut NameGenerator,
) -> (r: Result<TValNode, CompileError>)
    ensures
        match r {
            Ok(v) => match tack_exp_spec(
                expression@,
                old(gen).temps as nat,
                old(gen).labels as nat,
            ) {
                Some(q) => {
                    &&& tinstrs_view(final(instruction_buffer)@) == tinstrs_view(
                        old(instruction_buffer)@,
                    ) + q.0
                    &&& v@ == q.1
                    &&& final(gen).temps == q.2
                    &&& final(gen).labels == q.3
                },
                None => false,
            },
            Err(err) => {
                &&& !exp_within_bounds(
                    tack_exp_spec(expression@, old(gen).temps as nat, old(gen).labels as nat),
                )
                &&& (err.kind == ErrorKind::Semantic ==> tack_exp_spec(
                    expression@,
                    old(gen).temps as nat,
                    old(gen).labels as nat,
                ) is None)
                &&& (err.kind == ErrorKind::Semantic || err.kind == ErrorKind::Internal)
            },
        },
    decreases node_size(*expression), 1int,
{
    let ghost t0 = gen.temps as nat;
    let ghost l0 = gen.labels as nat;
    let ghost base = tinstrs_view(instruction_buffer@);
    match expression {
        ExpressionNode::Constant(c) => {
            proof {
                assert(base + Seq::<SpecTInstr>::empty() =~= base);
                assert(expression@ == SpecExp::Constant(*c as int));
                assert(tack_exp_spec(expression@, t0, l0) == Some(
                    (Seq::<SpecTInstr>::empty(), SpecTVal::Constant(*c as int), t0, l0),
                ));
            }
            Ok(TValNode::Constant(*c))
        },
        ExpressionNode::Var(name) => {
            proof {
                assert(base + Seq::<SpecTInstr>::empty() =~= base);
                assert(expression@ == SpecExp::Var(name@));
                assert(tack_exp_spec(expression@, t0, l0) == Some(
                    (Seq::<SpecTInstr>::empty(), SpecTVal::Var(name@), t0, l0),
                ));
            }
            Ok(TValNode::Var(name.clone()))
        },
        ExpressionNode::Unary(operator, exp) => {
            match tack_exp(&**exp, instruction_buffer, gen) {
                Err(e) => {
                    proof {
                        lemma_tack_exp_monotone((**exp)@, t0, l0);
                    }
                    Err(e)
                },
                Ok(src) => {
                    let ghost ins0 = tack_exp_spec((**exp)@, t0, l0)->Some_0.0;
                    match make_temporary_var(gen) {
                        Err(e) => {
                            proof {
                                assert(!exp_within_bounds(tack_exp_spec(expression@, t0, l0)));
                            }
                            Err(e)
                        },
                        Ok(dst_name) => {
                            let dst = TValNode::Var(dst_name);
                            let ret = dst.clone();
                            let ghost mid = tinstrs_view(instruction_buffer@);
                            let ghost sv = src@;
                            let ghost dv = dst@;
                            instruction_buffer.push(
                                TInstructionNode::Unary(*operator, src, dst),
                            );
                            proof {
                                assert(tinstrs_view(instruction_buffer@) =~= mid + seq![
                                    SpecTInstr::Unary(*operator, sv, dv),
                                ]);
                                assert(mid + seq![SpecTInstr::Unary(*operator, sv, dv)] =~= base
                                    + (ins0 + seq![SpecTInstr::Unary(*operator, sv, dv)]));
                            }
                            Ok(ret)
                        },
                    }
                },
            }
        },
        ExpressionNode::Binary(operator, op1, op2) => {
            proof {
                assert(expression@ == SpecExp::Binary(
                    *operator,
                    Box::new((**op1)@),
                    Box::new((**op2)@),
                ));
            }
            if matches!(operator, BinaryOperatorNode::And | BinaryOperatorNode::Or) {
                handle_shortcircuiting_operation(
                    *operator,
                    &**op1,
                    &**op2,
                    instruction_buffer,
                    gen,
                )
            } else {
                handle_regular_operation(*operator, &**op1, &**op2, instruction_buffer, gen)
            }
        },
        ExpressionNode::Assignment(lhs, rhs) => {
            match &**lhs {
                ExpressionNode::Var(x) => {
                    match tack_exp(&**rhs, instruction_buffer, gen) {
                        Err(e) => {
                            proof {
                                lemma_tack_exp_monotone((**rhs)@, t0, l0);
                            }
                            Err(e)
                        },
                        Ok(v) => {
                            let ghost ins0 = tack_exp_spec((**rhs)@, t0, l0)->Some_0.0;
                            let ghost mid = tinstrs_view(instruction_buffer@);
                            let ghost sv = v@;
                            instruction_buffer.push(
                                TInstructionNode::Copy(v, TValNode::Var(x.clone())),
                            );
                            proof {
                                assert(tinstrs_view(instruction_buffer@) =~= mid + seq![
                                    SpecTInstr::Copy(sv, SpecTVal::Var(x@)),
                                ]);
                                assert(mid + seq![SpecTInstr::Copy(sv, SpecTVal::Var(x@))] =~= base
                                    + (ins0 + seq![SpecTInstr::Copy(sv, SpecTVal::Var(x@))]));
                            }
                            Ok(TValNode::Var(x.clone()))
                        },
                    }
                },
                _ => {
                    proof {
                        assert(!((**lhs)@ is Var));
                        assert(tack_exp_spec(expression@, t0, l0) is None);
                    }
                    Err(
                        CompileError::new(
                            ErrorKind::Semantic,
                            String::from_str("invalid lvalue in assignment"),
                        ),
                    )
                },
            }
        },
    }
}

/// Lower a binary operation that evaluates both operands unconditionally.
fn handle_regular_operation(
    operator: BinaryOperatorNode,
    op1: &ExpressionNode,
    op2: &ExpressionNode,
    instruction_buffer: &mut Vec<TInstructionNode>,
    gen: &mut NameGenerator,
) -> (r: Result<TValNode, CompileError>)
    requires
        operator != BinaryOperatorNode::And,
        operator != BinaryOperatorNode::Or,
    ensures
        match r {
            Ok(v) => match tack_exp_spec(
                SpecExp::Binary(operator, Box::new(op1@), Box::new(op2@)),
                old(gen).temps as nat,
                old(gen).labels as nat,
            ) {
                Some(q) => {
                    &&& tinstrs_view(final(instruction_buffer)@) == tinstrs_view(
                        old(instruction_buffer)@,
                    ) + q.0
                    &&& v@ == q.1
                    &&& final(gen).temps == q.2
                    &&& final(gen).labels == q.3
                },
                None => false,
            },
            Err(err) => {
                &&& !exp_within_bounds(
                    tack_exp_spec(
                        SpecExp::Binary(operator, Box::new(op1@), Box::new(op2@)),
                        old(gen).temps as nat,
                        old(gen).labels as nat,
                    ),
                )
                &&& (err.kind == ErrorKind::Semantic ==> tack_exp_spec(
                    SpecExp::Binary(operator, Box::new(op1@), Box::new(op2@)),
                    old(gen).temps as nat,
                    old(gen).labels as nat,
                ) is None)
                &&& (err.kind == ErrorKind::Semantic || err.kind == ErrorKind::Internal)
            },
        },
    decreases node_size(*op1) + node_size(*op2), 0int,
{
    let ghost e = SpecExp::Binary(operator, Box::new(op1@), Box::new(op2@));
    let ghost t0 = gen.temps as nat;
    let ghost l0 = gen.labels as nat;
    let ghost base = tinstrs_view(instruction_buffer@);
    match tack_exp(op1, instruction_buffer, gen) {
        Err(e1) => {
            proof {
                lemma_tack_exp_monotone(op1@, t0, l0);
                match tack_exp_spec(op1@, t0, l0) {
                    Some(qa) => {
                        lemma_tack_exp_monotone(op2@, qa.2, qa.3);
                    },
                    None => {},
                }
            }
            Err(e1)
        },
        Ok(v1) => {
            let ghost ins1 = tack_exp_spec(op1@, t0, l0)->Some_0.0;
            let ghost t1 = gen.temps as nat;
            let ghost l1 = gen.labels as nat;
            match tack_exp(op2, instruction_buffer, gen) {
                Err(e2) => {
                    proof {
                        lemma_tack_exp_monotone(op1@, t0, l0);
                        lemma_tack_exp_monotone(op2@, t1, l1);
                    }
                    Err(e2)
                },
                Ok(v2) => {
                    let ghost ins2 = tack_exp_spec(op2@, t1, l1)->Some_0.0;
                    match make_temporary_var(gen) {
                        Err(e3) => {
                            proof {
                                lemma_tack_exp_monotone(op1@, t0, l0);
                                lemma_tack_exp_monotone(op2@, t1, l1);
                            }
                            Err(e3)
                        },
                        Ok(dst_name) => {
                            let dst = TValNode::Var(dst_name);
                            let ret = dst.clone();
                            let ghost mid = tinstrs_view(instruction_buffer@);
                            let ghost sv1 = v1@;
                            let ghost sv2 = v2@;
                            let ghost dv = dst@;
                            instruction_buffer.push(
                                TInstructionNode::Binary(operator, v1, v2, dst),
                            );
                            proof {
                                assert(tinstrs_view(instruction_buffer@) =~= mid + seq![
                                    SpecTInstr::Binary(operator, sv1, sv2, dv),
                                ]);
                                assert(mid + seq![SpecTInstr::Binary(operator, sv1, sv2, dv)] =~=
                                    base + (ins1 + ins2 + seq![
                                    SpecTInstr::Binary(operator, sv1, sv2, dv),
                                ]));
                            }
                            Ok(ret)
                        },
                    }
                },
            }
        },
    }
}

/// Lower a short-circuit `&&` or `||` into branches that land the result in
/// a fresh temporary: the labels are drawn first, each operand is tested
/// where it is evaluated, and the two copies give the operator's value.
fn handle_shortcircuiting_operation(
    operator: BinaryOperatorNode,
    op1: &ExpressionNode,
    op2: &ExpressionNode,
    instruction_buffer: &mut Vec<TInstructionNode>,
    gen: &mut NameGenerator,
) -> (r: Result<TValNode, CompileError>)
    requires
        operator == BinaryOperatorNode::And || operator == BinaryOperatorNode::Or,
    ensures
        match r {
            Ok(v) => match tack_exp_spec(
                SpecExp::Binary(operator, Box::new(op1@), Box::new(op2@)),
                old(gen).temps as nat,
                old(gen).labels as nat,
            ) {
                Some(q) => {
                    &&& tinstrs_view(final(instruction_buffer)@) == tinstrs_view(
                        old(instruction_buffer)@,
                    ) + q.0
                    &&& v@ == q.1
                    &&& final(gen).temps == q.2
                    &&& final(gen).labels == q.3
                },
                None => false,
            },
            Err(err) => {
                &&& !exp_within_bounds(
                    tack_exp_spec(
                        SpecExp::Binary(operator, Box::new(op1@), Box::new(op2@)),
                        old(gen).temps as nat,
                        old(gen).labels as nat,
                    ),
                )
                &&& (err.kind == ErrorKind::Semantic ==> tack_exp_spec(
                    SpecExp::Binary(operator, Box::new(op1@), Box::new(op2@)),
                    old(gen).temps as nat,
                    old(gen).labels as nat,
                ) is None)
                &&& (err.kind == ErrorKind::Semantic || err.kind == ErrorKind::Internal)
            },
        },
    decreases node_size(*op1) + node_size(*op2), 0int,
{
    let ghost e = SpecExp::Binary(operator, Box::new(op1@), Box::new(op2@));
    let ghost t0 = gen.temps as nat;
    let ghost l0 = gen.labels as nat;
    let ghost base = tinstrs_view(instruction_buffer@);
    proof {
        assert(tack_exp_spec(e, t0, l0) == tack_shortcircuit_spec(operator, op1@, op2@, t0, l0));
    }
    let sclabel_name = match make_label_name(gen, &operator, false) {
        Ok(s) => s,
        Err(err) => {
            proof {
                lemma_tack_exp_monotone(op1@, t0, l0 + 2);
                match tack_exp_spec(op1@, t0, l0 + 2) {
                    Some(q1) => {
                        lemma_tack_exp_monotone(op2@, q1.2, q1.3);
                    },
                    None => {},
                }
            }
            return Err(err);
        },
    };
    let end_label_name = match make_label_name(gen, &operator, true) {
        Ok(s) => s,
        Err(err) => {
            proof {
                lemma_tack_exp_monotone(op1@, t0, l0 + 2);
                match tack_exp_spec(op1@, t0, l0 + 2) {
                    Some(q1) => {
                        lemma_tack_exp_monotone(op2@, q1.2, q1.3);
                    },
                    None => {},
                }
            }
            return Err(err);
        },
    };
    let ghost sc = label_name(operator, l0, false);
    let ghost end = label_name(operator, l0 + 1, true);
    let v1 = match tack_exp(op1, instruction_buffer, gen) {
        Ok(v) => v,
        Err(err) => {
            proof {
                lemma_tack_exp_monotone(op1@, t0, l0 + 2);
                match tack_exp_spec(op1@, t0, l0 + 2) {
                    Some(qa) => {
                        lemma_tack_exp_monotone(op2@, qa.2, qa.3);
                    },
                    None => {},
                }
            }
            return Err(err);
        },
    };
    let ghost ins1 = tack_exp_spec(op1@, t0, l0 + 2)->Some_0.0;
    let ghost sv1 = v1@;
    let jump1 = if matches!(operator, BinaryOperatorNode::And) {
        TInstructionNode::JumpIfZero(v1, sclabel_name.clone())
    } else {
        TInstructionNode::JumpIfNotZero(v1, sclabel_name.clone())
    };
    let ghost mid1 = tinstrs_view(instruction_buffer@);
    let ghost j1v = jump1@;
    instruction_buffer.push(jump1);
    proof {
        assert(tinstrs_view(instruction_buffer@) =~= mid1 + seq![j1v]);
    }
    let ghost t1 = gen.temps as nat;
    let ghost l1 = gen.labels as nat;
    let v2 = match tack_exp(op2, instruction_buffer, gen) {
        Ok(v) => v,
        Err(err) => {
            proof {
                lemma_tack_exp_monotone(op1@, t0, l0 + 2);
                lemma_tack_exp_monotone(op2@, t1, l1);
            }
            return Err(err);
        },
    };
    let ghost ins2 = tack_exp_spec(op2@, t1, l1)->Some_0.0;
    let ghost sv2 = v2@;
    let jump2 = if matches!(operator, BinaryOperatorNode::And) {
        TInstructionNode::JumpIfZero(v2, sclabel_name.clone())
    } else {
        TInstructionNode::JumpIfNotZero(v2, sclabel_name.clone())
    };
    let ghost mid2 = tinstrs_view(instruction_buffer@);
    let ghost j2v = jump2@;
    instruction_buffer.push(jump2);
    proof {
        assert(tinstrs_view(instruction_buffer@) =~= mid2 + seq![j2v]);
    }
    let jump_val: usize = if matches!(operator, BinaryOperatorNode::And) {
        0
    } else {
        1
    };
    let no_jump_val: usize = 1 - jump_val;
    let dst_name = match make_temporary_var(gen) {
        Ok(s) => s,
        Err(err) => {
            proof {
                lemma_tack_exp_monotone(op1@, t0, l0 + 2);
                lemma_tack_exp_monotone(op2@, t1, l1);
            }
            return Err(err);
        },
    };
    let dst = TValNode::Var(dst_name);
    let ret = dst.clone();
    let ghost dv = dst@;
    let ghost mid3 = tinstrs_view(instruction_buffer@);
    instruction_buffer.push(
        TInstructionNode::Copy(TValNode::Constant(no_jump_val), dst.clone()),
    );
    instruction_buffer.push(TInstructionNode::Jump(end_label_name.clone()));
    instruction_buffer.push(TInstructionNode::Label(sclabel_name));
    instruction_buffer.push(TInstructionNode::Copy(TValNode::Constant(jump_val), dst));
    instruction_buffer.push(TInstructionNode::Label(end_label_name));
    proof {
        assert(tinstrs_view(instruction_buffer@) =~= mid3 + seq![
            SpecTInstr::Copy(SpecTVal::Constant(no_jump_val as int), dv),
            SpecTInstr::Jump(end),
            SpecTInstr::Label(sc),
            SpecTInstr::Copy(SpecTVal::Constant(jump_val as int), dv),
            SpecTInstr::Label(end),
        ]);
        assert(tinstrs_view(instruction_buffer@) =~= base + (ins1 + seq![j1v] + ins2 + seq![
            j2v,
            SpecTInstr::Copy(SpecTVal::Constant(no_jump_val as int), dv),
            SpecTInstr::Jump(end),
            SpecTInstr::Label(sc),
            SpecTInstr::Copy(SpecTVal::Constant(jump_val as int), dv),
            SpecTInstr::Label(end),
        ]));
    }
    Ok(ret)
}

/// Lower one statement, appending its code to the buffer.
fn tack_instructions(
    statement: &StatementNode,
    instruction_buffer: &mut Vec<TInstructionNode>,
    gen: &mut NameGenerator,
) -> (r: Result<(), CompileError>)
    ensures
        match r {
            Ok(_) => match tack_statement_spec(
                statement@,
                old(gen).temps as nat,
                old(gen).labels as nat,
            ) {
                Some(q) => {
                    &&& tinstrs_view(final(instruction_buffer)@) == tinstrs_view(
                        old(instruction_buffer)@,
                    ) + q.0
                    &&& final(gen).temps == q.1
                    &&& final(gen).labels == q.2
                },
                None => false,
            },
            Err(err) => {
                &&& !stmt_within_bounds(
                    tack_statement_spec(
                        statement@,
                        old(gen).temps as nat,
                        old(gen).labels as nat,
                    ),
                )
                &&& (err.kind == ErrorKind::Semantic ==> tack_statement_spec(
                    statement@,
                    old(gen).temps as nat,
                    old(gen).labels as nat,
                ) is None)
                &&& (err.kind == ErrorKind::Semantic || err.kind == ErrorKind::Internal)
            },
        },
{
    let ghost t0 = gen.temps as nat;
    let ghost l0 = gen.labels as nat;
    let ghost base = tinstrs_view(instruction_buffer@);
    match statement {
        StatementNode::Return(e) => {
            match tack_exp(e, instruction_buffer, gen) {
                Err(err) => Err(err),
                Ok(v) => {
                    let ghost ins0 = tack_exp_spec(e@, t0, l0)->Some_0.0;
                    let ghost mid = tinstrs_view(instruction_buffer@);
                    let ghost sv = v@;
                    instruction_buffer.push(TInstructionNode::Return(v));
                    proof {
                        assert(tinstrs_view(instruction_buffer@) =~= mid + seq![
                            SpecTInstr::Return(sv),
                        ]);
                        assert(mid + seq![SpecTInstr::Return(sv)] =~= base + (ins0 + seq![
                            SpecTInstr::Return(sv),
                        ]));
                    }
                    Ok(())
                },
            }
        },
        StatementNode::Expression(e) => {
            match tack_exp(e, instruction_buffer, gen) {
                Err(err) => Err(err),
                Ok(_) => Ok(()),
            }
        },
        StatementNode::Null => {
            proof {
                assert(base + Seq::<SpecTInstr>::empty() =~= base);
            }
            Ok(())
        },
    }
}

/// Lower one block item, appending its code to the buffer.
fn tack_block_item(
    item: &BlockItemNode,
    instruction_buffer: &mut Vec<TInstructionNode>,
    gen: &mut NameGenerator,
) -> (r: Result<(), CompileError>)
    ensures
        match r {
            Ok(_) => match tack_item_spec(item@, old(gen).temps as nat, old(gen).labels as nat) {
                Some(q) => {
                    &&& tinstrs_view(final(instruction_buffer)@) == tinstrs_view(
                        old(instruction_buffer)@,
                    ) + q.0
                    &&& final(gen).temps == q.1
                    &&& final(gen).labels == q.2
                },
                None => false,
            },
            Err(err) => {
                &&& !stmt_within_bounds(
                    tack_item_spec(item@, old(gen).temps as nat, old(gen).labels as nat),
                )
                &&& (err.kind == ErrorKind::Semantic ==> tack_item_spec(
                    item@,
                    old(gen).temps as nat,
                    old(gen).labels as nat,
                ) is None)
                &&& (err.kind == ErrorKind::Semantic || err.kind == ErrorKind::Internal)
            },
        },
{
    let ghost t0 = gen.temps as nat;
    let ghost l0 = gen.labels as nat;
    let ghost base = tinstrs_view(instruction_buffer@);
    match item {
        BlockItemNode::StatementItem(s) => tack_instructions(s, instruction_buffer, gen),
        BlockItemNode::DeclarationItem(d) => {
            match d {
                DeclarationNode::Declaration(x, init) => {
                    match init {
                        None => {
                            proof {
                                assert(base + Seq::<SpecTInstr>::empty() =~= base);
                            }
                            Ok(())
                        },
                        Some(e) => {
                            match tack_exp(e, instruction_buffer, gen) {
                                Err(err) => Err(err),
                                Ok(v) => {
                                    let ghost ins0 = tack_exp_spec(e@, t0, l0)->Some_0.0;
                                    let ghost mid = tinstrs_view(instruction_buffer@);
                                    let ghost sv = v@;
                                    instruction_buffer.push(
                                        TInstructionNode::Copy(v, TValNode::Var(x.clone())),
                                    );
                                    proof {
                                        assert(tinstrs_view(instruction_buffer@) =~= mid + seq![
                                            SpecTInstr::Copy(sv, SpecTVal::Var(x@)),
                                        ]);
                                        assert(mid + seq![SpecTInstr::Copy(sv, SpecTVal::Var(x@))]
                                            =~= base + (ins0 + seq![
                                            SpecTInstr::Copy(sv, SpecTVal::Var(x@)),
                                        ]));
                                    }
                                    Ok(())
                                },
                            }
                        },
                    }
                },
            }
        },
    }
}

/// Lower the block items of a function body into one instruction vector.
fn tack_block_items(block_items: &Vec<BlockItemNode>, gen: &mut NameGenerator) -> (r: Result<
    Vec<TInstructionNode>,
    CompileError,
>)
    ensures
        match r {
            Ok(v) => match tack_items_spec(
                items_view(block_items@),
                old(gen).temps as nat,
                old(gen).labels as nat,
            ) {
                Some(q) => {
                    &&& tinstrs_view(v@) == q.0
                    &&& final(gen).temps == q.1
                    &&& final(gen).labels == q.2
                },
                None => false,
            },
            Err(err) => {
                &&& !stmt_within_bounds(
                    tack_items_spec(
                        items_view(block_items@),
                        old(gen).temps as nat,
                        old(gen).labels as nat,
                    ),
                )
                &&& (err.kind == ErrorKind::Semantic ==> tack_items_spec(
                    items_view(block_items@),
                    old(gen).temps as nat,
                    old(gen).labels as nat,
                ) is None)
                &&& (err.kind == ErrorKind::Semantic || err.kind == ErrorKind::Internal)
            },
        },
{
    let ghost all = items_view(block_items@);
    let mut nodes: Vec<TInstructionNode> = Vec::new();
    let mut i: usize = 0;
    proof {
        assert(all.skip(0) =~= all);
        assert(tinstrs_view(nodes@) =~= Seq::<SpecTInstr>::empty());
        assert(match tack_items_spec(all, gen.temps as nat, gen.labels as nat) {
            None => true,
            Some((ins, t, l)) => Seq::<SpecTInstr>::empty() + ins =~= ins,
        });
    }
    loop
        invariant
            i <= block_items@.len(),
            all == items_view(block_items@),
            tack_items_spec(all, old(gen).temps as nat, old(gen).labels as nat) == st_prepend(
                tinstrs_view(nodes@),
                tack_items_spec(all.skip(i as int), gen.temps as nat, gen.labels as nat),
            ),
        decreases block_items@.len() - i,
    {
        let ghost rest = all.skip(i as int);
        let ghost tc = gen.temps as nat;
        let ghost lc = gen.labels as nat;
        if i == block_items.len() {
            proof {
                assert(rest =~= Seq::<SpecBlockItem>::empty());
                assert(tack_items_spec(rest, tc, lc) == Some(
                    (Seq::<SpecTInstr>::empty(), tc, lc),
                ));
                assert(tinstrs_view(nodes@) + Seq::<SpecTInstr>::empty() =~= tinstrs_view(
                    nodes@,
                ));
            }
            return Ok(nodes);
        }
        let item = &block_items[i];
        proof {
            assert(rest[0] == item@);
            assert(rest.drop_first() =~= all.skip(i + 1));
        }
        let ghost before = tinstrs_view(nodes@);
        match tack_block_item(item, &mut nodes, gen) {
            Err(err) => {
                proof {
                    match tack_item_spec(item@, tc, lc) {
                        Some(q1) => {
                            lemma_tack_items_monotone(all.skip(i + 1), q1.1, q1.2);
                        },
                        None => {},
                    }
                }
                return Err(err);
            },
            Ok(_) => {
                proof {
                    let q1 = tack_item_spec(item@, tc, lc)->Some_0;
                    assert(match tack_items_spec(all.skip(i + 1), q1.1, q1.2) {
                        None => true,
                        Some((ins2, t2, l2)) => {
                            &&& (before + q1.0) + ins2 =~= before + (q1.0 + ins2)
                        },
                    });
                }
                i = i + 1;
            },
        }
    }
}

/// Lower one function: its items, then the trailing `return 0` safety net
/// when the body does not already end in a return.
fn tack_functions(function: &FunctionDefinitionNode, gen: &mut NameGenerator) -> (r: Result<
    TFunctionDefinitionNode,
    CompileError,
>)
    requires
        old(gen).temps == 0,
        old(gen).labels == 0,
    ensures
        match r {
            Ok(tf) => tack_function_spec(function@) == Some(tf@),
            Err(err) => {
                &&& !function_counters_bounded(function@)
                &&& (err.kind == ErrorKind::Semantic ==> tack_function_spec(function@) is None)
                &&& (err.kind == ErrorKind::Semantic || err.kind == ErrorKind::Internal)
            },
        },
{
    match function {
        FunctionDefinitionNode::Function(name, block_items) => {
            let mut instructions = match tack_block_items(block_items, gen) {
                Ok(v) => v,
                Err(err) => {
                    return Err(err);
                },
            };
            let needs_ret: bool = if instructions.len() == 0 {
                true
            } else {
                let last = &instructions[instructions.len() - 1];
                proof {
                    assert(tinstrs_view(instructions@).last() == last@);
                }
                !matches!(last, TInstructionNode::Return(_))
            };
            if needs_ret {
                let ghost mid = tinstrs_view(instructions@);
                instructions.push(TInstructionNode::Return(TValNode::Constant(0)));
                proof {
                    assert(tinstrs_view(instructions@) =~= mid + seq![
                        SpecTInstr::Return(SpecTVal::Constant(0)),
                    ]);
                }
            }
            Ok(TFunctionDefinitionNode::Function(name.clone(), instructions))
        },
    }
}

/// Lower a whole program to three-address code.
///
/// On success the result is exactly the lowering specification's outcome;
/// the lowering fails only on an assignment whose target is not a variable
/// (a semantic error), or if a fresh-name counter cannot be represented.
pub fn tack_program(program: ProgramNode) -> (r: Result<TProgramNode, CompileError>)
    ensures
        match r {
            Ok(tp) => {
                &&& tack_program_spec(program@) == Some(tp@)
                &&& match tp@ {
                    SpecTProgram::Program(tf) => match tf {
                        SpecTFunction::Function(name, body) => {
                            &&& all_dsts_vars(body)
                            &&& jumps_resolved(body)
                            &&& labels_unique(body)
                        },
                    },
                }
            },
            Err(err) => {
                &&& !program_counters_bounded(program@)
                &&& (err.kind == ErrorKind::Semantic ==> tack_program_spec(program@) is None)
                &&& (err.kind == ErrorKind::Semantic || err.kind == ErrorKind::Internal)
            },
        },
{
    let mut gen = NameGenerator { temps: 0, labels: 0 };
    proof {
        lemma_tack_program_invariants(program@);
    }
    match program {
        ProgramNode::Program(function) => {
            match tack_functions(&function, &mut gen) {
                Ok(tf) => Ok(TProgramNode::Program(tf)),
                Err(err) => Err(err),
            }
        },
    }
}

} // verus!
