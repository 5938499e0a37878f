use minicc::ast_tree::{
    BinaryOperatorNode, BlockItemNode, DeclarationNode, ExpressionNode, FunctionDefinitionNode,
    ProgramNode, StatementNode, UnaryOperatorNode,
};
use minicc::diagnostics::ErrorKind;

fn parse(src: &str) -> ProgramNode {
    let tokens = minicc::lexer::lex(src.to_string()).expect("lexing should succeed");
    minicc::parser::parse_program(&tokens).expect("parsing should succeed")
}

fn parse_err(src: &str) -> ErrorKind {
    let tokens = minicc::lexer::lex(src.to_string()).expect("lexing should succeed");
    minicc::parser::parse_program(&tokens)
        .expect_err("parsing should fail")
        .kind
}

fn return_expr(p: ProgramNode) -> ExpressionNode {
    let ProgramNode::Program(FunctionDefinitionNode::Function(_, mut items)) = p;
    assert_eq!(items.len(), 1);
    match items.remove(0) {
        BlockItemNode::StatementItem(StatementNode::Return(e)) => e,
        other => panic!("expected a return statement, got {:?}", other),
    }
}

fn c(n: usize) -> Box<ExpressionNode> {
    Box::new(ExpressionNode::Constant(n))
}

fn v(name: &str) -> Box<ExpressionNode> {
    Box::new(ExpressionNode::Var(name.to_string()))
}

#[test]
fn precedence_mul_binds_tighter_than_add() {
    let e = return_expr(parse("int main(void){return 1+2*3;}"));
    let expected = ExpressionNode::Binary(
        BinaryOperatorNode::Add,
        c(1),
        Box::new(ExpressionNode::Binary(BinaryOperatorNode::Multiply, c(2), c(3))),
    );
    assert_eq!(e, expected);
}

#[test]
fn assignment_is_right_associative() {
    let e = return_expr(parse("int main(void){return a=b=c;}"));
    let expected = ExpressionNode::Assignment(
        v("a"),
        Box::new(ExpressionNode::Assignment(v("b"), v("c"))),
    );
    assert_eq!(e, expected);
}

#[test]
fn logic_precedence_not_and_or() {
    let e = return_expr(parse("int main(void){return !a && b || c;}"));
    let expected = ExpressionNode::Binary(
        BinaryOperatorNode::Or,
        Box::new(ExpressionNode::Binary(
            BinaryOperatorNode::And,
            Box::new(ExpressionNode::Unary(UnaryOperatorNode::Not, v("a"))),
            v("b"),
        )),
        v("c"),
    );
    assert_eq!(e, expected);
}

#[test]
fn relational_binds_tighter_than_equality() {
    let e = return_expr(parse("int main(void){return a<b==c;}"));
    let expected = ExpressionNode::Binary(
        BinaryOperatorNode::Equal,
        Box::new(ExpressionNode::Binary(BinaryOperatorNode::LessThan, v("a"), v("b"))),
        v("c"),
    );
    assert_eq!(e, expected);
}

#[test]
fn left_associative_subtraction() {
    let e = return_expr(parse("int main(void){return 10-4-3;}"));
    let expected = ExpressionNode::Binary(
        BinaryOperatorNode::Subtract,
        Box::new(ExpressionNode::Binary(BinaryOperatorNode::Subtract, c(10), c(4))),
        c(3),
    );
    assert_eq!(e, expected);
}

#[test]
fn parentheses_override_precedence() {
    let e = return_expr(parse("int main(void){return (10-4)/2;}"));
    let expected = ExpressionNode::Binary(
        BinaryOperatorNode::Divide,
        Box::new(ExpressionNode::Binary(BinaryOperatorNode::Subtract, c(10), c(4))),
        c(2),
    );
    assert_eq!(e, expected);
}

#[test]
fn declarations_and_statements_parse() {
    let p = parse("int main(void){int a = 5; int b; ; b = a + 2; return b;}");
    let ProgramNode::Program(FunctionDefinitionNode::Function(name, items)) = p;
    assert_eq!(name, "main");
    assert_eq!(items.len(), 5);
    assert_eq!(
        items[0],
        BlockItemNode::DeclarationItem(DeclarationNode::Declaration(
            "a".to_string(),
            Some(ExpressionNode::Constant(5)),
        ))
    );
    assert_eq!(
        items[1],
        BlockItemNode::DeclarationItem(DeclarationNode::Declaration("b".to_string(), None))
    );
    assert_eq!(items[2], BlockItemNode::StatementItem(StatementNode::Null));
}

#[test]
fn prefix_operators_nest() {
    let e = return_expr(parse("int main(void){return -(-5);}"));
    let expected = ExpressionNode::Unary(
        UnaryOperatorNode::Negate,
        Box::new(ExpressionNode::Unary(UnaryOperatorNode::Negate, c(5))),
    );
    assert_eq!(e, expected);
}

#[test]
fn missing_semicolon_is_syntactic() {
    assert_eq!(parse_err("int main(void){return 2}"), ErrorKind::Syntactic);
}

#[test]
fn trailing_tokens_are_syntactic() {
    assert_eq!(parse_err("int main(void){return 2;} int"), ErrorKind::Syntactic);
}

#[test]
fn constant_too_large_is_syntactic() {
    assert_eq!(parse_err("int main(void){return 2147483648;}"), ErrorKind::Syntactic);
}

#[test]
fn largest_constant_is_accepted() {
    let e = return_expr(parse("int main(void){return 2147483647;}"));
    assert_eq!(e, ExpressionNode::Constant(2147483647));
}

#[test]
fn missing_void_is_syntactic() {
    assert_eq!(parse_err("int main(){return 2;}"), ErrorKind::Syntactic);
}
