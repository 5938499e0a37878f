//! Recursive-descent parsing with Pratt-style precedence climbing, verified
//! against a recursive specification of the grammar.
//!
//! The one function production is `int IDENT ( void ) { <block-item>* }`;
//! block items are declarations (`int IDENT [= expr] ;`) or statements
//! (`return expr ;`, `expr ;`, `;`). Expressions use the precedence table of
//! the language, left-associative everywhere except assignment.

use vstd::prelude::*;

use crate::ast_tree::{
    items_view, BinaryOperatorNode, BlockItemNode, DeclarationNode, ExpressionNode,
    FunctionDefinitionNode, ProgramNode, SpecBlockItem, SpecDeclaration, SpecExp, SpecFunction,
    SpecProgram, SpecStatement, StatementNode, UnaryOperatorNode,
};
use crate::diagnostics::{CompileError, ErrorKind};
use crate::numerals::{all_digits, dec_val, digit_val, is_digit_char, lemma_dec_val_prefix_le};
use crate::tokens::{tokens_view, KeywordToken, SpecToken, SymbolToken, Token};

verus! {

/// The largest constant the target accepts: the greatest 32-bit signed value.
pub open spec fn max_constant() -> int {
    0x7fff_ffff
}

/// The binary operator an infix symbol stands for, with its precedence.
/// Assignment is not here: it is right-associative and builds its own node.
pub open spec fn binop_of_sym(sym: SymbolToken) -> Option<(BinaryOperatorNode, int)> {
    match sym {
        SymbolToken::Plus => Some((BinaryOperatorNode::Add, 45)),
        SymbolToken::Minus => Some((BinaryOperatorNode::Subtract, 45)),
        SymbolToken::Asterisk => Some((BinaryOperatorNode::Multiply, 50)),
        SymbolToken::ForwardSlash => Some((BinaryOperatorNode::Divide, 50)),
        SymbolToken::Percent => Some((BinaryOperatorNode::Remainder, 50)),
        SymbolToken::LeftAngleBracket => Some((BinaryOperatorNode::LessThan, 35)),
        SymbolToken::LeftABEqual => Some((BinaryOperatorNode::LessOrEqual, 35)),
        SymbolToken::RightAngleBracket => Some((BinaryOperatorNode::GreaterThan, 35)),
        SymbolToken::RightABEqual => Some((BinaryOperatorNode::GreaterOrEqual, 35)),
        SymbolToken::DoubleEqual => Some((BinaryOperatorNode::Equal, 30)),
        SymbolToken::ExclamationEqual => Some((BinaryOperatorNode::NotEqual, 30)),
        SymbolToken::DoubleAmpersand => Some((BinaryOperatorNode::And, 10)),
        SymbolToken::DoubleBar => Some((BinaryOperatorNode::Or, 5)),
        _ => None,
    }
}

/// The prefix operator a symbol stands for.
pub open spec fn unop_of_sym(sym: SymbolToken) -> Option<UnaryOperatorNode> {
    match sym {
        SymbolToken::Minus => Some(UnaryOperatorNode::Negate),
        SymbolToken::Tilde => Some(UnaryOperatorNode::Complement),
        SymbolToken::Exclamation => Some(UnaryOperatorNode::Not),
        _ => None,
    }
}

/// Parse one factor: a constant, a variable, a parenthesized expression, or
/// a prefix operator applied to a factor. Yields the node and the remaining
/// tokens, or nothing on a syntax error.
pub open spec fn parse_factor_spec(t: Seq<SpecToken>) -> Option<(SpecExp, Seq<SpecToken>)>
    decreases t.len(), 0int,
{
    if t.len() == 0 {
        None
    } else {
        match t[0] {
            SpecToken::Constant(w) => if all_digits(w) && w.len() >= 1 && dec_val(w)
                <= max_constant() {
                Some((SpecExp::Constant(dec_val(w)), t.drop_first()))
            } else {
                None
            },
            SpecToken::Identifier(name) => Some((SpecExp::Var(name), t.drop_first())),
            SpecToken::Symbol(sym) => if sym == SymbolToken::OpenParen {
                match parse_exp_spec(t.drop_first(), 0) {
                    Some((e, rest)) => if rest.len() >= 1 && rest[0] == SpecToken::Symbol(
                        SymbolToken::CloseParen,
                    ) {
                        Some((e, rest.drop_first()))
                    } else {
                        None
                    },
                    None => None,
                }
            } else {
                match unop_of_sym(sym) {
                    Some(op) => match parse_factor_spec(t.drop_first()) {
                        Some((e, rest)) => Some((SpecExp::Unary(op, Box::new(e)), rest)),
                        None => None,
                    },
                    None => None,
                }
            },
            _ => None,
        }
    }
}

/// Parse an expression at a minimal precedence.
pub open spec fn parse_exp_spec(t: Seq<SpecToken>, min: int) -> Option<(SpecExp, Seq<SpecToken>)>
    decreases t.len(), 1int,
{
    match parse_factor_spec(t) {
        None => None,
        Some((e, rest)) => if rest.len() < t.len() {
            parse_exp_rest_spec(e, rest, min)
        } else {
            None
        },
    }
}

/// The precedence-climbing loop: absorb infix operators of precedence at
/// least `min` into `left`.
pub open spec fn parse_exp_rest_spec(left: SpecExp, t: Seq<SpecToken>, min: int) -> Option<
    (SpecExp, Seq<SpecToken>),
>
    decreases t.len(), 2int,
{
    if t.len() == 0 {
        Some((left, t))
    } else {
        match t[0] {
            SpecToken::Symbol(sym) => if sym == SymbolToken::Equal {
                if 1 >= min {
                    match parse_exp_spec(t.drop_first(), 1) {
                        Some((right, rest)) => if rest.len() < t.len() {
                            parse_exp_rest_spec(
                                SpecExp::Assignment(Box::new(left), Box::new(right)),
                                rest,
                                min,
                            )
                        } else {
                            None
                        },
                        None => None,
                    }
                } else {
                    Some((left, t))
                }
            } else {
                match binop_of_sym(sym) {
                    Some((op, p)) => if p >= min {
                        match parse_exp_spec(t.drop_first(), p + 1) {
                            Some((right, rest)) => if rest.len() < t.len() {
                                parse_exp_rest_spec(
                                    SpecExp::Binary(op, Box::new(left), Box::new(right)),
                                    rest,
                                    min,
                                )
                            } else {
                                None
                            },
                            None => None,
                        }
                    } else {
                        Some((left, t))
                    },
                    None => Some((left, t)),
                }
            },
            _ => Some((left, t)),
        }
    }
}

/// Parse one statement: `return expr ;`, a bare `;`, or `expr ;`.
pub open spec fn parse_statement_spec(t: Seq<SpecToken>) -> Option<
    (SpecStatement, Seq<SpecToken>),
> {
    if t.len() == 0 {
        None
    } else if t[0] == SpecToken::Keyword(KeywordToken::Return) {
        match parse_exp_spec(t.drop_first(), 0) {
            Some((e, rest)) => if rest.len() >= 1 && rest[0] == SpecToken::Symbol(
                SymbolToken::Semicolon,
            ) {
                Some((SpecStatement::Return(e), rest.drop_first()))
            } else {
                None
            },
            None => None,
        }
    } else if t[0] == SpecToken::Symbol(SymbolToken::Semicolon) {
        Some((SpecStatement::Null, t.drop_first()))
    } else {
        match parse_exp_spec(t, 0) {
            Some((e, rest)) => if rest.len() >= 1 && rest[0] == SpecToken::Symbol(
                SymbolToken::Semicolon,
            ) {
                Some((SpecStatement::Expression(e), rest.drop_first()))
            } else {
                None
            },
            None => None,
        }
    }
}

/// Parse one declaration: `int IDENT ;` or `int IDENT = expr ;`.
pub open spec fn parse_declaration_spec(t: Seq<SpecToken>) -> Option<
    (SpecDeclaration, Seq<SpecToken>),
> {
    if t.len() >= 2 && t[0] == SpecToken::Keyword(KeywordToken::Int) && t[1] is Identifier {
        let name = t[1]->Identifier_0;
        if t.len() >= 3 && t[2] == SpecToken::Symbol(SymbolToken::Semicolon) {
            Some((SpecDeclaration::Declaration(name, None), t.skip(3)))
        } else if t.len() >= 3 && t[2] == SpecToken::Symbol(SymbolToken::Equal) {
            match parse_exp_spec(t.skip(3), 0) {
                Some((e, rest)) => if rest.len() >= 1 && rest[0] == SpecToken::Symbol(
                    SymbolToken::Semicolon,
                ) {
                    Some((SpecDeclaration::Declaration(name, Some(e)), rest.drop_first()))
                } else {
                    None
                },
                None => None,
            }
        } else {
            None
        }
    } else {
        None
    }
}

/// Parse block items up to (but not including) the closing brace.
pub open spec fn parse_block_items_spec(t: Seq<SpecToken>) -> Option<
    (Seq<SpecBlockItem>, Seq<SpecToken>),
>
    decreases t.len(),
{
    if t.len() == 0 {
        None
    } else if t[0] == SpecToken::Symbol(SymbolToken::CloseBrace) {
        Some((Seq::<SpecBlockItem>::empty(), t))
    } else {
        let item = if t[0] == SpecToken::Keyword(KeywordToken::Int) {
            match parse_declaration_spec(t) {
                Some((d, rest)) => Some((SpecBlockItem::DeclarationItem(d), rest)),
                None => None,
            }
        } else {
            match parse_statement_spec(t) {
                Some((s, rest)) => Some((SpecBlockItem::StatementItem(s), rest)),
                None => None,
            }
        };
        match item {
            Some((b, rest)) => if rest.len() < t.len() {
                match parse_block_items_spec(rest) {
                    Some((items, rest2)) => Some((seq![b] + items, rest2)),
                    None => None,
                }
            } else {
                None
            },
            None => None,
        }
    }
}

/// Parse the one function production.
pub open spec fn parse_function_spec(t: Seq<SpecToken>) -> Option<(SpecFunction, Seq<SpecToken>)> {
    if t.len() >= 6 && t[0] == SpecToken::Keyword(KeywordToken::Int) && t[1] is Identifier && t[2]
        == SpecToken::Symbol(SymbolToken::OpenParen) && t[3] == SpecToken::Keyword(
        KeywordToken::Void,
    ) && t[4] == SpecToken::Symbol(SymbolToken::CloseParen) && t[5] == SpecToken::Symbol(
        SymbolToken::OpenBrace,
    ) {
        let name = t[1]->Identifier_0;
        match parse_block_items_spec(t.skip(6)) {
            Some((items, rest)) => if rest.len() >= 1 && rest[0] == SpecToken::Symbol(
                SymbolToken::CloseBrace,
            ) {
                Some((SpecFunction::Function(name, items), rest.drop_first()))
            } else {
                None
            },
            None => None,
        }
    } else {
        None
    }
}

/// Parse a whole program: one function, with the token stream exhausted.
pub open spec fn parse_program_spec(t: Seq<SpecToken>) -> Option<SpecProgram> {
    match parse_function_spec(t) {
        Some((f, rest)) => if rest.len() == 0 {
            Some(SpecProgram::Program(f))
        } else {
            None
        },
        None => None,
    }
}

/// The token models from position `pos` on.
pub open spec fn toks_at(ts: Seq<Token>, pos: int) -> Seq<SpecToken> {
    tokens_view(ts).skip(pos)
}

/// Prepend parsed block items to the outcome of parsing the rest.
pub open spec fn items_prepend(
    p: Seq<SpecBlockItem>,
    o: Option<(Seq<SpecBlockItem>, Seq<SpecToken>)>,
) -> Option<(Seq<SpecBlockItem>, Seq<SpecToken>)> {
    match o {
        None => None,
        Some((items, rest)) => Some((p + items, rest)),
    }
}

fn syntax_error(msg: &str) -> (e: CompileError)
    ensures
        e.kind == ErrorKind::Syntactic,
{
    CompileError::new(ErrorKind::Syntactic, String::from_str(msg))
}

/// The value of a constant token's text, when it is a digit string whose
/// value fits the target's integer range.
fn constant_value(s: &String) -> (r: Option<usize>)
    ensures
        match r {
            Some(v) => all_digits(s@) && s@.len() >= 1 && dec_val(s@) == v && v <= max_constant(),
            None => !(all_digits(s@) && s@.len() >= 1 && dec_val(s@) <= max_constant()),
        },
{
    let st = s.as_str();
    let n = st.unicode_len();
    if n == 0 {
        return None;
    }
    let mut i: usize = 0;
    let mut acc: u64 = 0;
    proof {
        assert(s@.take(0) =~= Seq::<char>::empty());
    }
    while i < n
        invariant
            st@ == s@,
            n == s@.len(),
            i <= n,
            forall|j: int| 0 <= j < i ==> is_digit_char(#[trigger] s@[j]),
            acc == dec_val(s@.take(i as int)),
            acc <= 0x7fff_ffff,
        decreases n - i,
    {
        let c = st.get_char(i);
        if !('0' <= c && c <= '9') {
            proof {
                assert(!is_digit_char(s@[i as int]));
            }
            return None;
        }
        let d: u32 = (c as u32) - 48;
        proof {
            assert(d == digit_val(s@[i as int]));
            assert(s@.take(i + 1).drop_last() =~= s@.take(i as int));
            assert(s@.take(i + 1).last() == s@[i as int]);
        }
        let next: u64 = acc * 10 + (d as u64);
        if next > 0x7fff_ffff {
            proof {
                if all_digits(s@) {
                    lemma_dec_val_prefix_le(s@, i + 1);
                }
            }
            return None;
        }
        acc = next;
        i = i + 1;
    }
    proof {
        assert(s@.take(n as int) =~= s@);
        assert(all_digits(s@));
    }
    Some(acc as usize)
}

/// The prefix operator a symbol stands for (executable form).
fn unary_operator_of(sym: &SymbolToken) -> (r: Option<UnaryOperatorNode>)
    ensures
        r == unop_of_sym(*sym),
{
    match sym {
        SymbolToken::Minus => Some(UnaryOperatorNode::Negate),
        SymbolToken::Tilde => Some(UnaryOperatorNode::Complement),
        SymbolToken::Exclamation => Some(UnaryOperatorNode::Not),
        _ => None,
    }
}

/// The binary operator a symbol stands for (executable form).
fn binary_operator_of(sym: &SymbolToken) -> (r: Option<BinaryOperatorNode>)
    ensures
        match binop_of_sym(*sym) {
            Some(op_p) => r == Some(op_p.0),
            None => r is None,
        },
{
    match sym {
        SymbolToken::Plus => Some(BinaryOperatorNode::Add),
        SymbolToken::Minus => Some(BinaryOperatorNode::Subtract),
        SymbolToken::Asterisk => Some(BinaryOperatorNode::Multiply),
        SymbolToken::ForwardSlash => Some(BinaryOperatorNode::Divide),
        SymbolToken::Percent => Some(BinaryOperatorNode::Remainder),
        SymbolToken::LeftAngleBracket => Some(BinaryOperatorNode::LessThan),
        SymbolToken::LeftABEqual => Some(BinaryOperatorNode::LessOrEqual),
        SymbolToken::RightAngleBracket => Some(BinaryOperatorNode::GreaterThan),
        SymbolToken::RightABEqual => Some(BinaryOperatorNode::GreaterOrEqual),
        SymbolToken::DoubleEqual => Some(BinaryOperatorNode::Equal),
        SymbolToken::ExclamationEqual => Some(BinaryOperatorNode::NotEqual),
        SymbolToken::DoubleAmpersand => Some(BinaryOperatorNode::And),
        SymbolToken::DoubleBar => Some(BinaryOperatorNode::Or),
        _ => None,
    }
}

/// The precedence of an infix operator symbol.
fn operator_precedence(operator: &SymbolToken) -> (p: isize)
    requires
        binop_of_sym(*operator) is Some,
    ensures
        binop_of_sym(*operator)->Some_0.1 == p as int,
        0 <= p <= 50,
{
    match operator {
        SymbolToken::Plus => 45,
        SymbolToken::Minus => 45,
        SymbolToken::Asterisk => 50,
        SymbolToken::ForwardSlash => 50,
        SymbolToken::Percent => 50,
        SymbolToken::LeftAngleBracket => 35,
        SymbolToken::LeftABEqual => 35,
        SymbolToken::RightAngleBracket => 35,
        SymbolToken::RightABEqual => 35,
        SymbolToken::DoubleEqual => 30,
        SymbolToken::ExclamationEqual => 30,
        SymbolToken::DoubleAmpersand => 10,
        SymbolToken::DoubleBar => 5,
        _ => 0,
    }
}

/// Parse one factor.
fn parse_factor(tokens: &Vec<Token>, pos: usize) -> (r: Result<
    (ExpressionNode, usize),
    CompileError,
>)
    requires
        pos <= tokens@.len(),
    ensures
        match r {
            Ok(ep) => {
                &&& parse_factor_spec(toks_at(tokens@, pos as int)) == Some(
                    (ep.0@, toks_at(tokens@, ep.1 as int)),
                )
                &&& pos < ep.1 <= tokens@.len()
            },
            Err(err) => {
                &&& parse_factor_spec(toks_at(tokens@, pos as int)) is None
                &&& err.kind == ErrorKind::Syntactic
            },
        },
    decreases tokens@.len() - pos, 0int,
{
    let ghost t = toks_at(tokens@, pos as int);
    if pos == tokens.len() {
        return Err(syntax_error("unexpected end of input in expression"));
    }
    let tok = &tokens[pos];
    proof {
        assert(t[0] == tokens@[pos as int]@);
        assert(t.drop_first() =~= toks_at(tokens@, pos as int + 1));
    }
    match tok {
        Token::Constant(s) => match constant_value(s) {
            Some(v) => Ok((ExpressionNode::Constant(v), pos + 1)),
            None => Err(syntax_error("constant not parseable as an integer")),
        },
        Token::Identifier(name) => Ok((ExpressionNode::Var(name.clone()), pos + 1)),
        Token::Symbol(sym) => {
            if *sym == SymbolToken::OpenParen {
                match parse_expression(tokens, pos + 1, 0) {
                    Ok((e, p2)) => {
                        if p2 < tokens.len() {
                            let tok2 = &tokens[p2];
                            proof {
                                assert(toks_at(tokens@, p2 as int)[0] == tokens@[p2 as int]@);
                                assert(toks_at(tokens@, p2 as int).drop_first() =~= toks_at(
                                    tokens@,
                                    p2 as int + 1,
                                ));
                            }
                            if matches!(tok2, Token::Symbol(SymbolToken::CloseParen)) {
                                Ok((e, p2 + 1))
                            } else {
                                Err(syntax_error("expected a closing parenthesis"))
                            }
                        } else {
                            Err(syntax_error("expected a closing parenthesis"))
                        }
                    },
                    Err(e) => Err(e),
                }
            } else {
                match unary_operator_of(sym) {
                    Some(op) => match parse_factor(tokens, pos + 1) {
                        Ok((e, p2)) => Ok((ExpressionNode::Unary(op, Box::new(e)), p2)),
                        Err(e) => Err(e),
                    },
                    None => Err(syntax_error("unexpected symbol in expression")),
                }
            }
        },
        _ => Err(syntax_error("unexpected token in expression")),
    }
}

/// Parse an expression by precedence climbing: absorb infix operators of
/// precedence at least `min_precedence` into the left operand.
fn parse_expression(tokens: &Vec<Token>, pos: usize, min_precedence: isize) -> (r: Result<
    (ExpressionNode, usize),
    CompileError,
>)
    requires
        pos <= tokens@.len(),
    ensures
        match r {
            Ok(ep) => {
                &&& parse_exp_spec(toks_at(tokens@, pos as int), min_precedence as int) == Some(
                    (ep.0@, toks_at(tokens@, ep.1 as int)),
                )
                &&& pos < ep.1 <= tokens@.len()
            },
            Err(err) => {
                &&& parse_exp_spec(toks_at(tokens@, pos as int), min_precedence as int) is None
                &&& err.kind == ErrorKind::Syntactic
            },
        },
    decreases tokens@.len() - pos, 1int,
{
    match parse_factor(tokens, pos) {
        Err(e) => Err(e),
        Ok((e0, p1)) => {
            let mut left = e0;
            let mut cur = p1;
            loop
                invariant
                    pos < cur <= tokens@.len(),
                    parse_exp_spec(toks_at(tokens@, pos as int), min_precedence as int)
                        == parse_exp_rest_spec(
                        left@,
                        toks_at(tokens@, cur as int),
                        min_precedence as int,
                    ),
                decreases tokens@.len() - cur,
            {
                if cur == tokens.len() {
                    proof {
                        assert(toks_at(tokens@, cur as int).len() == 0);
                    }
                    return Ok((left, cur));
                }
                let ghost tc = toks_at(tokens@, cur as int);
                let tok = &tokens[cur];
                proof {
                    assert(tc[0] == tokens@[cur as int]@);
                    assert(tc.drop_first() =~= toks_at(tokens@, cur as int + 1));
                }
                let symopt: Option<SymbolToken> = match tok {
                    Token::Symbol(s) => Some(*s),
                    _ => None,
                };
                match symopt {
                    None => {
                        return Ok((left, cur));
                    },
                    Some(sym) => {
                        if sym == SymbolToken::Equal {
                            if 1 >= min_precedence {
                                match parse_expression(tokens, cur + 1, 1) {
                                    Ok((right, p3)) => {
                                        proof {
                                            assert(parse_exp_rest_spec(
                                                left@,
                                                tc,
                                                min_precedence as int,
                                            ) == parse_exp_rest_spec(
                                                SpecExp::Assignment(
                                                    Box::new(left@),
                                                    Box::new(right@),
                                                ),
                                                toks_at(tokens@, p3 as int),
                                                min_precedence as int,
                                            ));
                                        }
                                        left = ExpressionNode::Assignment(
                                            Box::new(left),
                                            Box::new(right),
                                        );
                                        cur = p3;
                                    },
                                    Err(e) => {
                                        return Err(e);
                                    },
                                }
                            } else {
                                return Ok((left, cur));
                            }
                        } else {
                            match binary_operator_of(&sym) {
                                Some(op) => {
                                    let prec = operator_precedence(&sym);
                                    if prec >= min_precedence {
                                        match parse_expression(tokens, cur + 1, prec + 1) {
                                            Ok((right, p3)) => {
                                                proof {
                                                    assert(parse_exp_rest_spec(
                                                        left@,
                                                        tc,
                                                        min_precedence as int,
                                                    ) == parse_exp_rest_spec(
                                                        SpecExp::Binary(
                                                            op,
                                                            Box::new(left@),
                                                            Box::new(right@),
                                                        ),
                                                        toks_at(tokens@, p3 as int),
                                                        min_precedence as int,
                                                    ));
                                                }
                                                left = ExpressionNode::Binary(
                                                    op,
                                                    Box::new(left),
                                                    Box::new(right),
                                                );
                                                cur = p3;
                                            },
                                            Err(e) => {
                                                return Err(e);
                                            },
                                        }
                                    } else {
                                        return Ok((left, cur));
                                    }
                                },
                                None => {
                                    return Ok((left, cur));
                                },
                            }
                        }
                    },
                }
            }
        },
    }
}

/// Parse one statement.
fn parse_statement(tokens: &Vec<Token>, pos: usize) -> (r: Result<
    (StatementNode, usize),
    CompileError,
>)
    requires
        pos <= tokens@.len(),
    ensures
        match r {
            Ok(sp) => {
                &&& parse_statement_spec(toks_at(tokens@, pos as int)) == Some(
                    (sp.0@, toks_at(tokens@, sp.1 as int)),
                )
                &&& pos < sp.1 <= tokens@.len()
            },
            Err(err) => {
                &&& parse_statement_spec(toks_at(tokens@, pos as int)) is None
                &&& err.kind == ErrorKind::Syntactic
            },
        },
{
    let ghost t = toks_at(tokens@, pos as int);
    if pos == tokens.len() {
        return Err(syntax_error("unexpected end of input in statement"));
    }
    let tok = &tokens[pos];
    proof {
        assert(t[0] == tokens@[pos as int]@);
        assert(t.drop_first() =~= toks_at(tokens@, pos as int + 1));
    }
    if matches!(tok, Token::Keyword(KeywordToken::Return)) {
        match parse_expression(tokens, pos + 1, 0) {
            Ok((e, p2)) => {
                if p2 < tokens.len() {
                    let tok2 = &tokens[p2];
                    proof {
                        assert(toks_at(tokens@, p2 as int)[0] == tokens@[p2 as int]@);
                        assert(toks_at(tokens@, p2 as int).drop_first() =~= toks_at(
                            tokens@,
                            p2 as int + 1,
                        ));
                    }
                    if matches!(tok2, Token::Symbol(SymbolToken::Semicolon)) {
                        Ok((StatementNode::Return(e), p2 + 1))
                    } else {
                        Err(syntax_error("expected a semicolon after a return statement"))
                    }
                } else {
                    Err(syntax_error("expected a semicolon after a return statement"))
                }
            },
            Err(e) => Err(e),
        }
    } else if matches!(tok, Token::Symbol(SymbolToken::Semicolon)) {
        Ok((StatementNode::Null, pos + 1))
    } else {
        match parse_expression(tokens, pos, 0) {
            Ok((e, p2)) => {
                if p2 < tokens.len() {
                    let tok2 = &tokens[p2];
                    proof {
                        assert(toks_at(tokens@, p2 as int)[0] == tokens@[p2 as int]@);
                        assert(toks_at(tokens@, p2 as int).drop_first() =~= toks_at(
                            tokens@,
                            p2 as int + 1,
                        ));
                    }
                    if matches!(tok2, Token::Symbol(SymbolToken::Semicolon)) {
                        Ok((StatementNode::Expression(e), p2 + 1))
                    } else {
                        Err(syntax_error("expected a semicolon after an expression statement"))
                    }
                } else {
                    Err(syntax_error("expected a semicolon after an expression statement"))
                }
            },
            Err(e) => Err(e),
        }
    }
}

/// Parse one declaration.
fn parse_declaration(tokens: &Vec<Token>, pos: usize) -> (r: Result<
    (DeclarationNode, usize),
    CompileError,
>)
    requires
        pos <= tokens@.len(),
    ensures
        match r {
            Ok(dp) => {
                &&& parse_declaration_spec(toks_at(tokens@, pos as int)) == Some(
                    (dp.0@, toks_at(tokens@, dp.1 as int)),
                )
                &&& pos < dp.1 <= tokens@.len()
            },
            Err(err) => {
                &&& parse_declaration_spec(toks_at(tokens@, pos as int)) is None
                &&& err.kind == ErrorKind::Syntactic
            },
        },
{
    let ghost t = toks_at(tokens@, pos as int);
    if tokens.len() - pos < 2 {
        return Err(syntax_error("unexpected end of input in declaration"));
    }
    proof {
        assert(t[0] == tokens@[pos as int]@);
        assert(t[1] == tokens@[pos as int + 1]@);
    }
    if !matches!(&tokens[pos], Token::Keyword(KeywordToken::Int)) {
        return Err(syntax_error("expected the int keyword in a declaration"));
    }
    let name: String = match &tokens[pos + 1] {
        Token::Identifier(n) => n.clone(),
        _ => {
            return Err(syntax_error("expected an identifier in a declaration"));
        },
    };
    if tokens.len() - pos < 3 {
        return Err(syntax_error("unexpected end of input in declaration"));
    }
    proof {
        assert(t[2] == tokens@[pos as int + 2]@);
        assert(t.skip(3) =~= toks_at(tokens@, pos as int + 3));
    }
    let tok2 = &tokens[pos + 2];
    if matches!(tok2, Token::Symbol(SymbolToken::Semicolon)) {
        Ok((DeclarationNode::Declaration(name, None), pos + 3))
    } else if matches!(tok2, Token::Symbol(SymbolToken::Equal)) {
        match parse_expression(tokens, pos + 3, 0) {
            Ok((e, p2)) => {
                if p2 < tokens.len() {
                    let tok3 = &tokens[p2];
                    proof {
                        assert(toks_at(tokens@, p2 as int)[0] == tokens@[p2 as int]@);
                        assert(toks_at(tokens@, p2 as int).drop_first() =~= toks_at(
                            tokens@,
                            p2 as int + 1,
                        ));
                    }
                    if matches!(tok3, Token::Symbol(SymbolToken::Semicolon)) {
                        Ok((DeclarationNode::Declaration(name, Some(e)), p2 + 1))
                    } else {
                        Err(syntax_error("expected a semicolon after a declaration"))
                    }
                } else {
                    Err(syntax_error("expected a semicolon after a declaration"))
                }
            },
            Err(e) => Err(e),
        }
    } else {
        Err(syntax_error("expected a semicolon or an initializer in a declaration"))
    }
}

/// Parse the block items of a function body, stopping at the closing brace.
fn parse_block_items(tokens: &Vec<Token>, pos: usize) -> (r: Result<
    (Vec<BlockItemNode>, usize),
    CompileError,
>)
    requires
        pos <= tokens@.len(),
    ensures
        match r {
            Ok(ip) => {
                &&& parse_block_items_spec(toks_at(tokens@, pos as int)) == Some(
                    (items_view(ip.0@), toks_at(tokens@, ip.1 as int)),
                )
                &&& pos <= ip.1 <= tokens@.len()
            },
            Err(err) => {
                &&& parse_block_items_spec(toks_at(tokens@, pos as int)) is None
                &&& err.kind == ErrorKind::Syntactic
            },
        },
{
    let mut items: Vec<BlockItemNode> = Vec::new();
    let mut cur = pos;
    proof {
        assert(items_view(items@) =~= Seq::<SpecBlockItem>::empty());
        assert(match parse_block_items_spec(toks_at(tokens@, pos as int)) {
            None => true,
            Some((r, rest)) => Seq::<SpecBlockItem>::empty() + r =~= r,
        });
    }
    loop
        invariant
            pos <= cur <= tokens@.len(),
            parse_block_items_spec(toks_at(tokens@, pos as int)) == items_prepend(
                items_view(items@),
                parse_block_items_spec(toks_at(tokens@, cur as int)),
            ),
        decreases tokens@.len() - cur,
    {
        let ghost tc = toks_at(tokens@, cur as int);
        if cur == tokens.len() {
            proof {
                assert(tc.len() == 0);
            }
            return Err(syntax_error("expected a closing brace"));
        }
        let tok = &tokens[cur];
        proof {
            assert(tc[0] == tokens@[cur as int]@);
        }
        if matches!(tok, Token::Symbol(SymbolToken::CloseBrace)) {
            proof {
                assert(items_view(items@) + Seq::<SpecBlockItem>::empty() =~= items_view(items@));
            }
            return Ok((items, cur));
        }
        let ghost old_items = items@;
        let next: usize;
        if matches!(tok, Token::Keyword(KeywordToken::Int)) {
            match parse_declaration(tokens, cur) {
                Ok((d, p2)) => {
                    items.push(BlockItemNode::DeclarationItem(d));
                    next = p2;
                },
                Err(e) => {
                    return Err(e);
                },
            }
        } else {
            match parse_statement(tokens, cur) {
                Ok((s, p2)) => {
                    items.push(BlockItemNode::StatementItem(s));
                    next = p2;
                },
                Err(e) => {
                    return Err(e);
                },
            }
        }
        proof {
            let b = items@[items@.len() - 1]@;
            assert(items_view(items@) =~= items_view(old_items) + seq![b]);
            assert(match parse_block_items_spec(toks_at(tokens@, next as int)) {
                None => true,
                Some((r, rest)) => (items_view(old_items) + seq![b]) + r =~= items_view(old_items)
                    + (seq![b] + r),
            });
        }
        cur = next;
    }
}

/// Parse the one function production, `int IDENT ( void ) { <block-item>* }`.
fn parse_function(tokens: &Vec<Token>, pos: usize) -> (r: Result<
    (FunctionDefinitionNode, usize),
    CompileError,
>)
    requires
        pos <= tokens@.len(),
    ensures
        match r {
            Ok(fp) => {
                &&& parse_function_spec(toks_at(tokens@, pos as int)) == Some(
                    (fp.0@, toks_at(tokens@, fp.1 as int)),
                )
                &&& pos <= fp.1 <= tokens@.len()
            },
            Err(err) => {
                &&& parse_function_spec(toks_at(tokens@, pos as int)) is None
                &&& err.kind == ErrorKind::Syntactic
            },
        },
{
    let ghost t = toks_at(tokens@, pos as int);
    if tokens.len() - pos < 6 {
        return Err(syntax_error("unexpected end of input in function definition"));
    }
    proof {
        assert(t[0] == tokens@[pos as int]@);
        assert(t[1] == tokens@[pos as int + 1]@);
        assert(t[2] == tokens@[pos as int + 2]@);
        assert(t[3] == tokens@[pos as int + 3]@);
        assert(t[4] == tokens@[pos as int + 4]@);
        assert(t[5] == tokens@[pos as int + 5]@);
        assert(t.skip(6) =~= toks_at(tokens@, pos as int + 6));
    }
    if !matches!(&tokens[pos], Token::Keyword(KeywordToken::Int)) {
        return Err(syntax_error("expected the int keyword"));
    }
    let name: String = match &tokens[pos + 1] {
        Token::Identifier(n) => n.clone(),
        _ => {
            return Err(syntax_error("expected a function name"));
        },
    };
    if !matches!(&tokens[pos + 2], Token::Symbol(SymbolToken::OpenParen)) {
        return Err(syntax_error("expected an opening parenthesis"));
    }
    if !matches!(&tokens[pos + 3], Token::Keyword(KeywordToken::Void)) {
        return Err(syntax_error("expected the void keyword"));
    }
    if !matches!(&tokens[pos + 4], Token::Symbol(SymbolToken::CloseParen)) {
        return Err(syntax_error("expected a closing parenthesis"));
    }
    if !matches!(&tokens[pos + 5], Token::Symbol(SymbolToken::OpenBrace)) {
        return Err(syntax_error("expected an opening brace"));
    }
    match parse_block_items(tokens, pos + 6) {
        Ok((items, p2)) => {
            if p2 < tokens.len() {
                let tok2 = &tokens[p2];
                proof {
                    assert(toks_at(tokens@, p2 as int)[0] == tokens@[p2 as int]@);
                    assert(toks_at(tokens@, p2 as int).drop_first() =~= toks_at(
                        tokens@,
                        p2 as int + 1,
                    ));
                }
                if matches!(tok2, Token::Symbol(SymbolToken::CloseBrace)) {
                    Ok((FunctionDefinitionNode::Function(name, items), p2 + 1))
                } else {
                    Err(syntax_error("expected a closing brace"))
                }
            } else {
                Err(syntax_error("expected a closing brace"))
            }
        },
        Err(e) => Err(e),
    }
}

/// Parse a whole program: one function, with the token stream exhausted
/// afterwards.
///
/// The result is exactly what the grammar specification yields: an abstract
/// syntax tree on success, and a syntactic error on every token sequence the
/// grammar rejects.
pub fn parse_program(tokens: &Vec<Token>) -> (r: Result<ProgramNode, CompileError>)
    ensures
        match r {
            Ok(p) => parse_program_spec(tokens_view(tokens@)) == Some(p@),
            Err(err) => {
                &&& parse_program_spec(tokens_view(tokens@)) is None
                &&& err.kind == ErrorKind::Syntactic
            },
        },
{
    proof {
        assert(toks_at(tokens@, 0) =~= tokens_view(tokens@));
    }
    match parse_function(tokens, 0) {
        Ok((f, p)) => {
            if p == tokens.len() {
                proof {
                    assert(toks_at(tokens@, p as int).len() == 0);
                }
                Ok(ProgramNode::Program(f))
            } else {
                Err(syntax_error("trailing tokens after the function definition"))
            }
        },
        Err(e) => Err(e),
    }
}

} // verus!
