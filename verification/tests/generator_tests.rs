use minicc::asm_tree::{
    ABinaryOperatorNode, AFunctionDefinitionNode, AInstructionNode, AOperandNode, AProgramNode,
    ARegisterNode,
};

fn generate(src: &str) -> Vec<AInstructionNode> {
    let tokens = minicc::lexer::lex(src.to_string()).expect("lexing should succeed");
    let ast = minicc::parser::parse_program(&tokens).expect("parsing should succeed");
    let tac = minicc::tacker::tack_program(ast).expect("lowering should succeed");
    let AProgramNode::Program(AFunctionDefinitionNode::Function(_, ins)) =
        minicc::generator::generate_program(tac).expect("code generation should succeed");
    ins
}

fn operands_of(i: &AInstructionNode) -> Vec<&AOperandNode> {
    match i {
        AInstructionNode::Mov(a, b) => vec![a, b],
        AInstructionNode::Unary(_, o) => vec![o],
        AInstructionNode::Binary(_, a, b) => vec![a, b],
        AInstructionNode::Cmp(a, b) => vec![a, b],
        AInstructionNode::Idiv(o) => vec![o],
        AInstructionNode::SetCC(_, o) => vec![o],
        _ => vec![],
    }
}

fn check_legalized(ins: &[AInstructionNode]) {
    for i in ins {
        // no pseudo-register remains
        for o in operands_of(i) {
            assert!(!matches!(o, AOperandNode::Pseudo(_)), "pseudo survived: {:?}", i);
        }
        // no instruction has two stack operands
        let stacks = operands_of(i)
            .iter()
            .filter(|o| matches!(o, AOperandNode::Stack(_)))
            .count();
        assert!(stacks <= 1, "two stack operands: {:?}", i);
        match i {
            AInstructionNode::Idiv(o) => {
                assert!(!matches!(o, AOperandNode::Imm(_)), "idiv of an immediate");
            }
            AInstructionNode::Binary(ABinaryOperatorNode::Mult, _, b) => {
                assert!(!matches!(b, AOperandNode::Stack(_)), "imull into memory");
            }
            AInstructionNode::Cmp(_, b) => {
                assert!(!matches!(b, AOperandNode::Imm(_)), "cmp with immediate second operand");
            }
            _ => {}
        }
    }
}

#[test]
fn return_constant_generates_minimal_body() {
    let ins = generate("int main(void){return 2;}");
    let expected = vec![
        AInstructionNode::AllocateStack(0),
        AInstructionNode::Mov(AOperandNode::Imm(2), AOperandNode::Reg(ARegisterNode::AX)),
        AInstructionNode::Ret,
    ];
    assert_eq!(ins, expected);
}

#[test]
fn addition_spills_and_stays_legal() {
    let ins = generate("int main(void){return 1 + 2 * 3;}");
    check_legalized(&ins);
    assert!(matches!(ins[0], AInstructionNode::AllocateStack(16)));
}

#[test]
fn division_uses_cdq_and_idiv() {
    let ins = generate("int main(void){return (10 - 4) / 2;}");
    check_legalized(&ins);
    assert!(ins.iter().any(|i| matches!(i, AInstructionNode::Cdq)));
    assert!(ins.iter().any(|i| matches!(i, AInstructionNode::Idiv(_))));
}

#[test]
fn remainder_copies_from_dx() {
    let ins = generate("int main(void){return 7 % 3;}");
    check_legalized(&ins);
    assert!(ins.iter().any(|i| matches!(
        i,
        AInstructionNode::Mov(AOperandNode::Reg(ARegisterNode::DX), _)
    )));
}

#[test]
fn comparisons_and_short_circuits_stay_legal() {
    let ins = generate("int main(void){return !(0) && (3 > 2);}");
    check_legalized(&ins);
    assert!(ins.iter().any(|i| matches!(i, AInstructionNode::SetCC(_, _))));
    assert!(ins.iter().any(|i| matches!(i, AInstructionNode::JmpCC(_, _))));
    assert!(ins.iter().any(|i| matches!(i, AInstructionNode::Label(_))));
}

#[test]
fn distinct_variables_get_distinct_slots() {
    let ins = generate("int main(void){int a = 5; int b = a + 2; return b;}");
    check_legalized(&ins);
    let mut offsets: Vec<isize> = vec![];
    for i in &ins {
        if let AInstructionNode::Mov(_, AOperandNode::Stack(off)) = i {
            if !offsets.contains(off) {
                offsets.push(*off);
            }
        }
    }
    assert!(offsets.len() >= 2, "expected at least two distinct slots");
    for off in &offsets {
        assert!(*off < 0 && off % 4 == 0, "offset {} is not a 4-byte slot", off);
    }
}

#[test]
fn frame_size_is_sixteen_byte_aligned() {
    let ins = generate(
        "int main(void){int a = 1; int b = 2; int c = 3; int d = 4; int e = 5; return a+b+c+d+e;}",
    );
    check_legalized(&ins);
    match ins[0] {
        AInstructionNode::AllocateStack(n) => assert_eq!(n % 16, 0),
        _ => panic!("the body must start with the frame allocation"),
    }
}
