use minicc::diagnostics::ErrorKind;
use minicc::tac_tree::{TFunctionDefinitionNode, TInstructionNode, TProgramNode, TValNode};

fn tack(src: &str) -> Vec<TInstructionNode> {
    let tokens = minicc::lexer::lex(src.to_string()).expect("lexing should succeed");
    let ast = minicc::parser::parse_program(&tokens).expect("parsing should succeed");
    let TProgramNode::Program(TFunctionDefinitionNode::Function(_, ins)) =
        minicc::tacker::tack_program(ast).expect("lowering should succeed");
    ins
}

fn dst_of(i: &TInstructionNode) -> Option<&TValNode> {
    match i {
        TInstructionNode::Unary(_, _, d) => Some(d),
        TInstructionNode::Binary(_, _, _, d) => Some(d),
        TInstructionNode::Copy(_, d) => Some(d),
        _ => None,
    }
}

fn jump_target_of(i: &TInstructionNode) -> Option<&String> {
    match i {
        TInstructionNode::Jump(l) => Some(l),
        TInstructionNode::JumpIfZero(_, l) => Some(l),
        TInstructionNode::JumpIfNotZero(_, l) => Some(l),
        _ => None,
    }
}

fn label_of(i: &TInstructionNode) -> Option<&String> {
    match i {
        TInstructionNode::Label(l) => Some(l),
        _ => None,
    }
}

fn check_tac_invariants(ins: &[TInstructionNode]) {
    // every destination is a virtual register
    for i in ins {
        if let Some(d) = dst_of(i) {
            assert!(matches!(d, TValNode::Var(_)), "dst is not a Var: {:?}", i);
        }
    }
    // every jump target has a matching label
    let labels: Vec<&String> = ins.iter().filter_map(label_of).collect();
    for i in ins {
        if let Some(t) = jump_target_of(i) {
            assert!(labels.contains(&t), "jump target without label: {}", t);
        }
    }
    // label names are unique
    for (a, la) in labels.iter().enumerate() {
        for (b, lb) in labels.iter().enumerate() {
            if a != b {
                assert_ne!(la, lb, "duplicate label name");
            }
        }
    }
}

#[test]
fn short_circuit_and_synthesizes_branches() {
    let ins = tack("int main(void){return !(0) && (3 > 2);}");
    check_tac_invariants(&ins);
    assert!(ins.iter().any(|i| matches!(i, TInstructionNode::JumpIfZero(_, _))));
    assert!(ins.iter().any(|i| matches!(i, TInstructionNode::Label(_))));
    assert!(matches!(ins.last(), Some(TInstructionNode::Return(_))));
}

#[test]
fn short_circuit_or_uses_jump_if_not_zero() {
    let ins = tack("int main(void){return 1 || 2;}");
    check_tac_invariants(&ins);
    assert!(ins.iter().any(|i| matches!(i, TInstructionNode::JumpIfNotZero(_, _))));
}

#[test]
fn nested_short_circuits_keep_labels_unique() {
    let ins = tack("int main(void){return (1 && 0) || (0 && 1) || (1 || 0);}");
    check_tac_invariants(&ins);
}

#[test]
fn empty_body_gets_safety_net_return() {
    let ins = tack("int main(void){}");
    assert_eq!(ins, vec![TInstructionNode::Return(TValNode::Constant(0))]);
}

#[test]
fn body_without_final_return_gets_safety_net() {
    let ins = tack("int main(void){int a = 1; a = a + 1;}");
    assert_eq!(ins.last(), Some(&TInstructionNode::Return(TValNode::Constant(0))));
}

#[test]
fn explicit_final_return_gets_no_safety_net() {
    let ins = tack("int main(void){return 7;}");
    assert_eq!(ins, vec![TInstructionNode::Return(TValNode::Constant(7))]);
}

#[test]
fn unary_lowering_allocates_fresh_temporaries() {
    let ins = tack("int main(void){return -(-5);}");
    let expected = vec![
        TInstructionNode::Unary(
            minicc::ast_tree::UnaryOperatorNode::Negate,
            TValNode::Constant(5),
            TValNode::Var("tmp.0".to_string()),
        ),
        TInstructionNode::Unary(
            minicc::ast_tree::UnaryOperatorNode::Negate,
            TValNode::Var("tmp.0".to_string()),
            TValNode::Var("tmp.1".to_string()),
        ),
        TInstructionNode::Return(TValNode::Var("tmp.1".to_string())),
    ];
    assert_eq!(ins, expected);
}

#[test]
fn declaration_initializer_lowers_to_copy() {
    let ins = tack("int main(void){int a = 5; return a;}");
    let expected = vec![
        TInstructionNode::Copy(TValNode::Constant(5), TValNode::Var("a".to_string())),
        TInstructionNode::Return(TValNode::Var("a".to_string())),
    ];
    assert_eq!(ins, expected);
}

#[test]
fn invalid_lvalue_is_semantic() {
    let tokens = minicc::lexer::lex("int main(void){1 = 2;}".to_string()).unwrap();
    let ast = minicc::parser::parse_program(&tokens).unwrap();
    let e = minicc::tacker::tack_program(ast).expect_err("a constant is no lvalue");
    assert_eq!(e.kind, ErrorKind::Semantic);
}
