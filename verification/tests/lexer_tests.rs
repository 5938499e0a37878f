use minicc::tokens::{CommentToken, KeywordToken, SymbolToken, Token};

fn lex_ok(src: &str) -> Vec<Token> {
    minicc::lexer::lex(src.to_string()).expect("lexing should succeed")
}

#[test]
fn lex_simple_program() {
    let tokens = lex_ok("int main(void){return 2;}");
    let expected = vec![
        Token::Keyword(KeywordToken::Int),
        Token::Identifier("main".to_string()),
        Token::Symbol(SymbolToken::OpenParen),
        Token::Keyword(KeywordToken::Void),
        Token::Symbol(SymbolToken::CloseParen),
        Token::Symbol(SymbolToken::OpenBrace),
        Token::Keyword(KeywordToken::Return),
        Token::Constant("2".to_string()),
        Token::Symbol(SymbolToken::Semicolon),
        Token::Symbol(SymbolToken::CloseBrace),
    ];
    assert_eq!(tokens, expected);
}

#[test]
fn lex_discards_whitespace_and_comments() {
    let tokens = lex_ok("int a // line comment\n= 1 /* block */ ;");
    let expected = vec![
        Token::Keyword(KeywordToken::Int),
        Token::Identifier("a".to_string()),
        Token::Symbol(SymbolToken::Equal),
        Token::Constant("1".to_string()),
        Token::Symbol(SymbolToken::Semicolon),
    ];
    assert_eq!(tokens, expected);
}

#[test]
fn lex_maximal_munch_picks_long_operators() {
    let tokens = lex_ok("<= < == = != ! -- - && ||");
    let expected = vec![
        Token::Symbol(SymbolToken::LeftABEqual),
        Token::Symbol(SymbolToken::LeftAngleBracket),
        Token::Symbol(SymbolToken::DoubleEqual),
        Token::Symbol(SymbolToken::Equal),
        Token::Symbol(SymbolToken::ExclamationEqual),
        Token::Symbol(SymbolToken::Exclamation),
        Token::Symbol(SymbolToken::DoubleMinnus),
        Token::Symbol(SymbolToken::Minus),
        Token::Symbol(SymbolToken::DoubleAmpersand),
        Token::Symbol(SymbolToken::DoubleBar),
    ];
    assert_eq!(tokens, expected);
}

#[test]
fn lex_maximal_munch_adjacent() {
    let tokens = lex_ok("a<=b--c");
    let expected = vec![
        Token::Identifier("a".to_string()),
        Token::Symbol(SymbolToken::LeftABEqual),
        Token::Identifier("b".to_string()),
        Token::Symbol(SymbolToken::DoubleMinnus),
        Token::Identifier("c".to_string()),
    ];
    assert_eq!(tokens, expected);
}

#[test]
fn lex_keyword_needs_identifier_boundary() {
    let tokens = lex_ok("intx int x returning return");
    let expected = vec![
        Token::Identifier("intx".to_string()),
        Token::Keyword(KeywordToken::Int),
        Token::Identifier("x".to_string()),
        Token::Identifier("returning".to_string()),
        Token::Keyword(KeywordToken::Return),
    ];
    assert_eq!(tokens, expected);
}

#[test]
fn lex_rejects_unrecognized_prefix() {
    let r = minicc::lexer::lex("int $x;".to_string());
    let e = r.expect_err("a dollar sign is no token");
    assert_eq!(e.kind, minicc::diagnostics::ErrorKind::Lexical);
}

#[test]
fn lex_rejects_constant_glued_to_letter() {
    let r = minicc::lexer::lex("return 123abc;".to_string());
    let e = r.expect_err("digits followed by a letter are no token");
    assert_eq!(e.kind, minicc::diagnostics::ErrorKind::Lexical);
}

#[test]
fn lex_rejects_unterminated_block_comment() {
    let r = minicc::lexer::lex("int a; /* never closed".to_string());
    let e = r.expect_err("an open comment must fail");
    assert_eq!(e.kind, minicc::diagnostics::ErrorKind::Lexical);
}

#[test]
fn lex_single_ampersand_fails() {
    let r = minicc::lexer::lex("a & b".to_string());
    assert!(r.is_err());
}

#[test]
fn lex_empty_input_gives_no_tokens() {
    let tokens = lex_ok("");
    assert_eq!(tokens.len(), 0);
}

#[test]
fn lex_comment_tokens_carry_their_kind() {
    // the variants exist for the raw stream even though lex filters them
    let line = Token::Comment(CommentToken::LineComment);
    let block = Token::Comment(CommentToken::BlockComment);
    assert_ne!(line, block);
}
