use minicc::ast_tree::{
    BinaryOperatorNode, BlockItemNode, DeclarationNode, ExpressionNode, FunctionDefinitionNode,
    ProgramNode, StatementNode, UnaryOperatorNode,
};
use minicc::printer::pretty_print;

fn round_trip(p: &ProgramNode) -> ProgramNode {
    let text = pretty_print(p);
    let tokens = minicc::lexer::lex(text).expect("printed text should lex");
    minicc::parser::parse_program(&tokens).expect("printed text should parse")
}

#[test]
fn round_trip_simple_return() {
    let p = ProgramNode::Program(FunctionDefinitionNode::Function(
        "main".to_string(),
        vec![BlockItemNode::StatementItem(StatementNode::Return(ExpressionNode::Constant(2)))],
    ));
    assert_eq!(round_trip(&p), p);
}

#[test]
fn round_trip_full_grammar() {
    let body = vec![
        BlockItemNode::DeclarationItem(DeclarationNode::Declaration(
            "a".to_string(),
            Some(ExpressionNode::Constant(5)),
        )),
        BlockItemNode::DeclarationItem(DeclarationNode::Declaration("b".to_string(), None)),
        BlockItemNode::StatementItem(StatementNode::Null),
        BlockItemNode::StatementItem(StatementNode::Expression(ExpressionNode::Assignment(
            Box::new(ExpressionNode::Var("b".to_string())),
            Box::new(ExpressionNode::Binary(
                BinaryOperatorNode::Or,
                Box::new(ExpressionNode::Binary(
                    BinaryOperatorNode::And,
                    Box::new(ExpressionNode::Unary(
                        UnaryOperatorNode::Not,
                        Box::new(ExpressionNode::Var("a".to_string())),
                    )),
                    Box::new(ExpressionNode::Constant(3)),
                )),
                Box::new(ExpressionNode::Binary(
                    BinaryOperatorNode::LessOrEqual,
                    Box::new(ExpressionNode::Unary(
                        UnaryOperatorNode::Complement,
                        Box::new(ExpressionNode::Constant(7)),
                    )),
                    Box::new(ExpressionNode::Var("a".to_string())),
                )),
            )),
        ))),
        BlockItemNode::StatementItem(StatementNode::Return(ExpressionNode::Binary(
            BinaryOperatorNode::Remainder,
            Box::new(ExpressionNode::Var("b".to_string())),
            Box::new(ExpressionNode::Constant(1000000)),
        ))),
    ];
    let p = ProgramNode::Program(FunctionDefinitionNode::Function("main".to_string(), body));
    assert_eq!(round_trip(&p), p);
}

#[test]
fn round_trip_after_parsing_source() {
    let src = "int main(void){int a = 5; int b = a + 2; return b * (a - 1);}";
    let tokens = minicc::lexer::lex(src.to_string()).unwrap();
    let p = minicc::parser::parse_program(&tokens).unwrap();
    assert_eq!(round_trip(&p), p);
}

#[test]
fn printed_text_is_fully_parenthesized_tokens() {
    let p = ProgramNode::Program(FunctionDefinitionNode::Function(
        "main".to_string(),
        vec![BlockItemNode::StatementItem(StatementNode::Return(ExpressionNode::Binary(
            BinaryOperatorNode::Add,
            Box::new(ExpressionNode::Constant(1)),
            Box::new(ExpressionNode::Constant(2)),
        )))],
    ));
    assert_eq!(pretty_print(&p), "int main ( void ) { return ( 1 + 2 ) ; } ");
}
