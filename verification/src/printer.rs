//! Pretty-printing a syntax tree back to source text, and the round-trip
//! theorem: a printed tree, re-lexed and re-parsed, is the tree it came
//! from.
//!
//! The printer renders the token sequence of the tree with a space after
//! every token, parenthesizing every compound expression, so the proof
//! splits in two: lexing the rendered text yields exactly those tokens, and
//! parsing those tokens rebuilds the tree.

use vstd::prelude::*;

use crate::ast_tree::{
    items_view, BinaryOperatorNode, BlockItemNode, DeclarationNode, ExpressionNode,
    FunctionDefinitionNode, ProgramNode, SpecBlockItem, SpecDeclaration, SpecExp, SpecFunction,
    SpecProgram, SpecStatement, StatementNode, UnaryOperatorNode,
};
use crate::lexer::{
    is_word_char, is_word_start_char, keep_token, keyword_of, lemma_visible_tokens_add, lex_all,
    lex_spec, scan_token, visible_tokens,
};
use crate::numerals::{
    all_digits, dec_rep, is_digit_char, lemma_dec_rep_digits, lemma_dec_val_dec_rep,
};
use crate::parser::{
    binop_of_sym, max_constant, parse_block_items_spec, parse_declaration_spec, parse_exp_rest_spec,
    parse_exp_spec, parse_factor_spec, parse_program_spec, parse_statement_spec,
};
use crate::tokens::{tokens_view, KeywordToken, SpecToken, SymbolToken, Token};

verus! {

/// The symbol that spells a binary operator.
pub open spec fn sym_of_binop(op: BinaryOperatorNode) -> SymbolToken {
    match op {
        BinaryOperatorNode::Add => SymbolToken::Plus,
        BinaryOperatorNode::Subtract => SymbolToken::Minus,
        BinaryOperatorNode::Multiply => SymbolToken::Asterisk,
        BinaryOperatorNode::Divide => SymbolToken::ForwardSlash,
        BinaryOperatorNode::Remainder => SymbolToken::Percent,
        BinaryOperatorNode::And => SymbolToken::DoubleAmpersand,
        BinaryOperatorNode::Or => SymbolToken::DoubleBar,
        BinaryOperatorNode::Equal => SymbolToken::DoubleEqual,
        BinaryOperatorNode::NotEqual => SymbolToken::ExclamationEqual,
        BinaryOperatorNode::LessThan => SymbolToken::LeftAngleBracket,
        BinaryOperatorNode::LessOrEqual => SymbolToken::LeftABEqual,
        BinaryOperatorNode::GreaterThan => SymbolToken::RightAngleBracket,
        BinaryOperatorNode::GreaterOrEqual => SymbolToken::RightABEqual,
    }
}

/// The symbol that spells a prefix operator.
pub open spec fn sym_of_unop(op: UnaryOperatorNode) -> SymbolToken {
    match op {
        UnaryOperatorNode::Negate => SymbolToken::Minus,
        UnaryOperatorNode::Complement => SymbolToken::Tilde,
        UnaryOperatorNode::Not => SymbolToken::Exclamation,
    }
}

/// The tokens of an expression, fully parenthesized: every unary operand
/// and every compound expression sits between its own parentheses.
pub open spec fn tokens_of_exp(e: SpecExp) -> Seq<SpecToken>
    decreases e,
{
    match e {
        SpecExp::Constant(n) => seq![SpecToken::Constant(dec_rep(n as nat))],
        SpecExp::Var(x) => seq![SpecToken::Identifier(x)],
        SpecExp::Unary(op, e1) => seq![
            SpecToken::Symbol(sym_of_unop(op)),
            SpecToken::Symbol(SymbolToken::OpenParen),
        ] + tokens_of_exp(*e1) + seq![SpecToken::Symbol(SymbolToken::CloseParen)],
        SpecExp::Binary(op, a, b) => seq![SpecToken::Symbol(SymbolToken::OpenParen)]
            + tokens_of_exp(*a) + seq![SpecToken::Symbol(sym_of_binop(op))] + tokens_of_exp(*b)
            + seq![SpecToken::Symbol(SymbolToken::CloseParen)],
        SpecExp::Assignment(l, r) => seq![SpecToken::Symbol(SymbolToken::OpenParen)]
            + tokens_of_exp(*l) + seq![SpecToken::Symbol(SymbolToken::Equal)] + tokens_of_exp(*r)
            + seq![SpecToken::Symbol(SymbolToken::CloseParen)],
    }
}

/// The tokens of one statement.
pub open spec fn tokens_of_stmt(s: SpecStatement) -> Seq<SpecToken> {
    match s {
        SpecStatement::Return(e) => seq![SpecToken::Keyword(KeywordToken::Return)]
            + tokens_of_exp(e) + seq![SpecToken::Symbol(SymbolToken::Semicolon)],
        SpecStatement::Expression(e) => tokens_of_exp(e) + seq![
            SpecToken::Symbol(SymbolToken::Semicolon),
        ],
        SpecStatement::Null => seq![SpecToken::Symbol(SymbolToken::Semicolon)],
    }
}

/// The tokens of one declaration.
pub open spec fn tokens_of_decl(d: SpecDeclaration) -> Seq<SpecToken> {
    match d {
        SpecDeclaration::Declaration(x, init) => seq![
            SpecToken::Keyword(KeywordToken::Int),
            SpecToken::Identifier(x),
        ] + (match init {
            Some(e) => seq![SpecToken::Symbol(SymbolToken::Equal)] + tokens_of_exp(e),
            None => Seq::<SpecToken>::empty(),
        }) + seq![SpecToken::Symbol(SymbolToken::Semicolon)],
    }
}

/// The tokens of one block item.
pub open spec fn tokens_of_item(b: SpecBlockItem) -> Seq<SpecToken> {
    match b {
        SpecBlockItem::StatementItem(s) => tokens_of_stmt(s),
        SpecBlockItem::DeclarationItem(d) => tokens_of_decl(d),
    }
}

/// The tokens of a list of block items.
pub open spec fn tokens_of_items(items: Seq<SpecBlockItem>) -> Seq<SpecToken>
    decreases items.len(),
{
    if items.len() == 0 {
        Seq::<SpecToken>::empty()
    } else {
        tokens_of_item(items[0]) + tokens_of_items(items.drop_first())
    }
}

/// The tokens of a whole program.
pub open spec fn tokens_of_program(p: SpecProgram) -> Seq<SpecToken> {
    match p {
        SpecProgram::Program(f) => match f {
            SpecFunction::Function(name, items) => seq![
                SpecToken::Keyword(KeywordToken::Int),
                SpecToken::Identifier(name),
                SpecToken::Symbol(SymbolToken::OpenParen),
                SpecToken::Keyword(KeywordToken::Void),
                SpecToken::Symbol(SymbolToken::CloseParen),
                SpecToken::Symbol(SymbolToken::OpenBrace),
            ] + tokens_of_items(items) + seq![SpecToken::Symbol(SymbolToken::CloseBrace)],
        },
    }
}

/// A printable identifier: a non-empty word that does not start with a
/// digit and spells no keyword.
pub open spec fn wf_ident(x: Seq<char>) -> bool {
    &&& x.len() >= 1
    &&& (forall|i: int| 0 <= i < x.len() ==> is_word_char(#[trigger] x[i]))
    &&& is_word_start_char(x[0])
    &&& keyword_of(x) is None
}

/// A printable expression: constants lie in the target's range and every
/// variable name is a printable identifier.
pub open spec fn wf_exp(e: SpecExp) -> bool
    decreases e,
{
    match e {
        SpecExp::Constant(n) => 0 <= n <= max_constant(),
        SpecExp::Var(x) => wf_ident(x),
        SpecExp::Unary(_, e1) => wf_exp(*e1),
        SpecExp::Binary(_, a, b) => wf_exp(*a) && wf_exp(*b),
        SpecExp::Assignment(l, r) => wf_exp(*l) && wf_exp(*r),
    }
}

pub open spec fn wf_stmt(s: SpecStatement) -> bool {
    match s {
        SpecStatement::Return(e) => wf_exp(e),
        SpecStatement::Expression(e) => wf_exp(e),
        SpecStatement::Null => true,
    }
}

pub open spec fn wf_item(b: SpecBlockItem) -> bool {
    match b {
        SpecBlockItem::StatementItem(s) => wf_stmt(s),
        SpecBlockItem::DeclarationItem(d) => match d {
            SpecDeclaration::Declaration(x, init) => wf_ident(x) && (match init {
                Some(e) => wf_exp(e),
                None => true,
            }),
        },
    }
}

/// A printable program: every name is a printable identifier and every
/// constant is in range.
pub open spec fn wf_program(p: SpecProgram) -> bool {
    match p {
        SpecProgram::Program(f) => match f {
            SpecFunction::Function(name, items) => wf_ident(name) && (forall|i: int|
                0 <= i < items.len() ==> wf_item(#[trigger] items[i])),
        },
    }
}

/// A token sequence on which precedence climbing stops: empty, or led by a
/// token that is neither an infix operator nor the assignment symbol.
pub open spec fn stops_exp(t: Seq<SpecToken>) -> bool {
    t.len() == 0 || match t[0] {
        SpecToken::Symbol(sym) => binop_of_sym(sym) is None && sym != SymbolToken::Equal,
        _ => true,
    }
}

/// An expression's tokens are non-empty and begin with a factor starter.
proof fn lemma_exp_tokens_start(e: SpecExp)
    ensures
        tokens_of_exp(e).len() >= 1,
        match tokens_of_exp(e)[0] {
            SpecToken::Constant(_) => true,
            SpecToken::Identifier(_) => true,
            SpecToken::Symbol(sym) => sym == SymbolToken::OpenParen || sym == SymbolToken::Minus
                || sym == SymbolToken::Tilde || sym == SymbolToken::Exclamation,
            _ => false,
        },
{
    match e {
        SpecExp::Constant(_) => {},
        SpecExp::Var(_) => {},
        SpecExp::Unary(op, e1) => {
            assert(tokens_of_exp(e)[0] == SpecToken::Symbol(sym_of_unop(op)));
        },
        SpecExp::Binary(op, a, b) => {
            assert(tokens_of_exp(e)[0] == SpecToken::Symbol(SymbolToken::OpenParen));
        },
        SpecExp::Assignment(l, r) => {
            assert(tokens_of_exp(e)[0] == SpecToken::Symbol(SymbolToken::OpenParen));
        },
    }
}

/// Parsing a printed factor consumes exactly its tokens and rebuilds it.
#[verifier::rlimit(80)]
proof fn lemma_parse_factor_tokens(e: SpecExp, rest: Seq<SpecToken>)
    requires
        wf_exp(e),
    ensures
        parse_factor_spec(tokens_of_exp(e) + rest) == Some((e, rest)),
    decreases e, 0int,
{
    let t = tokens_of_exp(e) + rest;
    match e {
        SpecExp::Constant(n) => {
            let w = dec_rep(n as nat);
            lemma_dec_rep_digits(n as nat);
            lemma_dec_val_dec_rep(n as nat);
            assert(t[0] == SpecToken::Constant(w));
            assert(t.drop_first() =~= rest);
        },
        SpecExp::Var(x) => {
            assert(t[0] == SpecToken::Identifier(x));
            assert(t.drop_first() =~= rest);
        },
        SpecExp::Unary(op, e1) => {
            assert(t[0] == SpecToken::Symbol(sym_of_unop(op)));
            let close = seq![SpecToken::Symbol(SymbolToken::CloseParen)] + rest;
            assert(t.drop_first() =~= seq![SpecToken::Symbol(SymbolToken::OpenParen)] + (
            tokens_of_exp(*e1) + close));
            let inner = seq![SpecToken::Symbol(SymbolToken::OpenParen)] + (tokens_of_exp(*e1)
                + close);
            assert(inner[0] == SpecToken::Symbol(SymbolToken::OpenParen));
            assert(inner.drop_first() =~= tokens_of_exp(*e1) + close);
            lemma_parse_exp_tokens(*e1, close, 0);
            assert(close[0] == SpecToken::Symbol(SymbolToken::CloseParen));
            assert(close.drop_first() =~= rest);
            assert(parse_factor_spec(inner) == Some((*e1, rest)));
        },
        SpecExp::Binary(op, a, b) => {
            let opsym = sym_of_binop(op);
            let close = seq![SpecToken::Symbol(SymbolToken::CloseParen)] + rest;
            let after_a = seq![SpecToken::Symbol(opsym)] + (tokens_of_exp(*b) + close);
            assert(t[0] == SpecToken::Symbol(SymbolToken::OpenParen));
            assert(t.drop_first() =~= tokens_of_exp(*a) + after_a);
            lemma_exp_tokens_start(*a);
            lemma_exp_tokens_start(*b);
            lemma_parse_factor_tokens(*a, after_a);
            // the climb: consume the operator, parse the right operand
            let p = binop_of_sym(opsym)->Some_0.1;
            assert(binop_of_sym(opsym) == Some((op, p)));
            assert(after_a[0] == SpecToken::Symbol(opsym));
            assert(after_a.drop_first() =~= tokens_of_exp(*b) + close);
            lemma_parse_exp_tokens(*b, close, p + 1);
            assert(parse_exp_rest_spec(*a, after_a, 0) == parse_exp_rest_spec(
                SpecExp::Binary(op, Box::new(*a), Box::new(*b)),
                close,
                0,
            ));
            assert(parse_exp_rest_spec(e, close, 0) == Some((e, close)));
            assert(parse_exp_spec(t.drop_first(), 0) == Some((e, close)));
            assert(close[0] == SpecToken::Symbol(SymbolToken::CloseParen));
            assert(close.drop_first() =~= rest);
        },
        SpecExp::Assignment(l, r) => {
            let close = seq![SpecToken::Symbol(SymbolToken::CloseParen)] + rest;
            let after_l = seq![SpecToken::Symbol(SymbolToken::Equal)] + (tokens_of_exp(*r)
                + close);
            assert(t[0] == SpecToken::Symbol(SymbolToken::OpenParen));
            assert(t.drop_first() =~= tokens_of_exp(*l) + after_l);
            lemma_exp_tokens_start(*l);
            lemma_exp_tokens_start(*r);
            lemma_parse_factor_tokens(*l, after_l);
            assert(after_l[0] == SpecToken::Symbol(SymbolToken::Equal));
            assert(after_l.drop_first() =~= tokens_of_exp(*r) + close);
            lemma_parse_exp_tokens(*r, close, 1);
            assert(parse_exp_rest_spec(*l, after_l, 0) == parse_exp_rest_spec(
                SpecExp::Assignment(Box::new(*l), Box::new(*r)),
                close,
                0,
            ));
            assert(parse_exp_rest_spec(e, close, 0) == Some((e, close)));
            assert(parse_exp_spec(t.drop_first(), 0) == Some((e, close)));
            assert(close[0] == SpecToken::Symbol(SymbolToken::CloseParen));
            assert(close.drop_first() =~= rest);
        },
    }
}

/// Parsing a printed expression, at any minimal precedence, consumes
/// exactly its tokens and rebuilds it, provided the next token cannot
/// continue an expression.
proof fn lemma_parse_exp_tokens(e: SpecExp, rest: Seq<SpecToken>, min: int)
    requires
        wf_exp(e),
        stops_exp(rest),
    ensures
        parse_exp_spec(tokens_of_exp(e) + rest, min) == Some((e, rest)),
    decreases e, 1int,
{
    lemma_exp_tokens_start(e);
    lemma_parse_factor_tokens(e, rest);
    assert(rest.len() < (tokens_of_exp(e) + rest).len());
    assert(parse_exp_rest_spec(e, rest, min) == Some((e, rest)));
}

/// An item's tokens are non-empty; their first token tells a declaration
/// from a statement and is never a closing brace.
proof fn lemma_item_tokens_start(b: SpecBlockItem)
    ensures
        tokens_of_item(b).len() >= 1,
        tokens_of_item(b)[0] == SpecToken::Keyword(KeywordToken::Int) <==> b is DeclarationItem,
        tokens_of_item(b)[0] != SpecToken::Symbol(SymbolToken::CloseBrace),
{
    match b {
        SpecBlockItem::StatementItem(s) => {
            match s {
                SpecStatement::Return(e) => {
                    assert(tokens_of_item(b)[0] == SpecToken::Keyword(KeywordToken::Return));
                },
                SpecStatement::Expression(e) => {
                    lemma_exp_tokens_start(e);
                    assert(tokens_of_item(b)[0] == tokens_of_exp(e)[0]);
                },
                SpecStatement::Null => {
                    assert(tokens_of_item(b)[0] == SpecToken::Symbol(SymbolToken::Semicolon));
                },
            }
        },
        SpecBlockItem::DeclarationItem(d) => {
            match d {
                SpecDeclaration::Declaration(x, init) => {
                    assert(tokens_of_item(b)[0] == SpecToken::Keyword(KeywordToken::Int));
                },
            }
        },
    }
}

/// Parsing a printed statement consumes exactly its tokens.
proof fn lemma_parse_statement_tokens(s: SpecStatement, rest: Seq<SpecToken>)
    requires
        wf_stmt(s),
    ensures
        parse_statement_spec(tokens_of_stmt(s) + rest) == Some((s, rest)),
{
    let t = tokens_of_stmt(s) + rest;
    match s {
        SpecStatement::Return(e) => {
            let semi = seq![SpecToken::Symbol(SymbolToken::Semicolon)] + rest;
            assert(t[0] == SpecToken::Keyword(KeywordToken::Return));
            assert(t.drop_first() =~= tokens_of_exp(e) + semi);
            lemma_parse_exp_tokens(e, semi, 0);
            assert(semi[0] == SpecToken::Symbol(SymbolToken::Semicolon));
            assert(semi.drop_first() =~= rest);
        },
        SpecStatement::Expression(e) => {
            let semi = seq![SpecToken::Symbol(SymbolToken::Semicolon)] + rest;
            lemma_exp_tokens_start(e);
            assert(t[0] == tokens_of_exp(e)[0]);
            assert(t =~= tokens_of_exp(e) + semi);
            lemma_parse_exp_tokens(e, semi, 0);
            assert(semi[0] == SpecToken::Symbol(SymbolToken::Semicolon));
            assert(semi.drop_first() =~= rest);
        },
        SpecStatement::Null => {
            assert(t[0] == SpecToken::Symbol(SymbolToken::Semicolon));
            assert(t.drop_first() =~= rest);
        },
    }
}

/// Parsing a printed declaration consumes exactly its tokens.
proof fn lemma_parse_declaration_tokens(d: SpecDeclaration, rest: Seq<SpecToken>)
    requires
        match d {
            SpecDeclaration::Declaration(x, init) => wf_ident(x) && (match init {
                Some(e) => wf_exp(e),
                None => true,
            }),
        },
    ensures
        parse_declaration_spec(tokens_of_decl(d) + rest) == Some((d, rest)),
{
    let t = tokens_of_decl(d) + rest;
    match d {
        SpecDeclaration::Declaration(x, init) => {
            assert(t[0] == SpecToken::Keyword(KeywordToken::Int));
            assert(t[1] == SpecToken::Identifier(x));
            match init {
                None => {
                    assert(t[2] == SpecToken::Symbol(SymbolToken::Semicolon));
                    assert(t.skip(3) =~= rest);
                },
                Some(e) => {
                    let semi = seq![SpecToken::Symbol(SymbolToken::Semicolon)] + rest;
                    assert(t[2] == SpecToken::Symbol(SymbolToken::Equal));
                    assert(t.skip(3) =~= tokens_of_exp(e) + semi);
                    lemma_parse_exp_tokens(e, semi, 0);
                    assert(semi[0] == SpecToken::Symbol(SymbolToken::Semicolon));
                    assert(semi.drop_first() =~= rest);
                },
            }
        },
    }
}

/// Parsing printed block items consumes exactly their tokens, stopping at
/// the closing brace that follows them.
proof fn lemma_parse_items_tokens(items: Seq<SpecBlockItem>, rest: Seq<SpecToken>)
    requires
        forall|i: int| 0 <= i < items.len() ==> wf_item(#[trigger] items[i]),
        rest.len() >= 1,
        rest[0] == SpecToken::Symbol(SymbolToken::CloseBrace),
    ensures
        parse_block_items_spec(tokens_of_items(items) + rest) == Some((items, rest)),
    decreases items.len(),
{
    let t = tokens_of_items(items) + rest;
    if items.len() == 0 {
        assert(t =~= rest);
        assert(items =~= Seq::<SpecBlockItem>::empty());
    } else {
        let b = items[0];
        let tail = tokens_of_items(items.drop_first()) + rest;
        lemma_item_tokens_start(b);
        assert(t =~= tokens_of_item(b) + tail);
        assert(t[0] == tokens_of_item(b)[0]);
        lemma_parse_items_tokens(items.drop_first(), rest);
        match b {
            SpecBlockItem::StatementItem(s) => {
                lemma_parse_statement_tokens(s, tail);
            },
            SpecBlockItem::DeclarationItem(d) => {
                lemma_parse_declaration_tokens(d, tail);
            },
        }
        assert(tail.len() < t.len());
        assert(seq![b] + items.drop_first() =~= items);
    }
}

/// The round trip: a printed program's tokens parse back to the program.
pub proof fn lemma_parse_printed_tokens(p: SpecProgram)
    requires
        wf_program(p),
    ensures
        parse_program_spec(tokens_of_program(p)) == Some(p),
{
    let t = tokens_of_program(p);
    match p {
        SpecProgram::Program(f) => match f {
            SpecFunction::Function(name, items) => {
                let brace = seq![SpecToken::Symbol(SymbolToken::CloseBrace)];
                assert(t[0] == SpecToken::Keyword(KeywordToken::Int));
                assert(t[1] == SpecToken::Identifier(name));
                assert(t[2] == SpecToken::Symbol(SymbolToken::OpenParen));
                assert(t[3] == SpecToken::Keyword(KeywordToken::Void));
                assert(t[4] == SpecToken::Symbol(SymbolToken::CloseParen));
                assert(t[5] == SpecToken::Symbol(SymbolToken::OpenBrace));
                assert(t.skip(6) =~= tokens_of_items(items) + brace);
                lemma_parse_items_tokens(items, brace);
                assert(brace[0] == SpecToken::Symbol(SymbolToken::CloseBrace));
                assert(brace.drop_first() =~= Seq::<SpecToken>::empty());
            },
        },
    }
}

/// The source spelling of a symbol.
pub open spec fn sym_text(sym: SymbolToken) -> Seq<char> {
    match sym {
        SymbolToken::OpenParen => "("@,
        SymbolToken::CloseParen => ")"@,
        SymbolToken::OpenBrace => "{"@,
        SymbolToken::CloseBrace => "}"@,
        SymbolToken::Semicolon => ";"@,
        SymbolToken::Quote => "\""@,
        SymbolToken::Whitespace => " "@,
        SymbolToken::Plus => "+"@,
        SymbolToken::Minus => "-"@,
        SymbolToken::Asterisk => "*"@,
        SymbolToken::ForwardSlash => "/"@,
        SymbolToken::Percent => "%"@,
        SymbolToken::DoubleMinnus => "--"@,
        SymbolToken::Tilde => "~"@,
        SymbolToken::Exclamation => "!"@,
        SymbolToken::DoubleAmpersand => "&&"@,
        SymbolToken::DoubleBar => "||"@,
        SymbolToken::DoubleEqual => "=="@,
        SymbolToken::ExclamationEqual => "!="@,
        SymbolToken::LeftAngleBracket => "<"@,
        SymbolToken::RightAngleBracket => ">"@,
        SymbolToken::LeftABEqual => "<="@,
        SymbolToken::RightABEqual => ">="@,
        SymbolToken::Equal => "="@,
    }
}

/// The source spelling of a token. Comments have none: the printer never
/// emits them.
pub open spec fn token_text(t: SpecToken) -> Seq<char> {
    match t {
        SpecToken::Identifier(w) => w,
        SpecToken::Constant(w) => w,
        SpecToken::Keyword(k) => match k {
            KeywordToken::Int => "int"@,
            KeywordToken::Void => "void"@,
            KeywordToken::Return => "return"@,
        },
        SpecToken::Symbol(sym) => sym_text(sym),
        SpecToken::Comment(_) => Seq::<char>::empty(),
        SpecToken::Macro(w) => "#"@ + w,
    }
}

/// The rendered text of a token sequence: each token followed by a space.
pub open spec fn render(ts: Seq<SpecToken>) -> Seq<char>
    decreases ts.len(),
{
    if ts.len() == 0 {
        Seq::<char>::empty()
    } else {
        token_text(ts[0]) + " "@ + render(ts.drop_first())
    }
}

/// A token the renderer may print so that lexing finds it again: no
/// whitespace or comment tokens, names and digit strings well formed.
pub open spec fn wf_token(t: SpecToken) -> bool {
    match t {
        SpecToken::Identifier(w) => wf_ident(w),
        SpecToken::Constant(w) => w.len() >= 1 && all_digits(w),
        SpecToken::Keyword(_) => true,
        SpecToken::Symbol(sym) => sym != SymbolToken::Whitespace,
        SpecToken::Comment(_) => false,
        SpecToken::Macro(w) => forall|i: int| 0 <= i < w.len() ==> is_word_char(#[trigger] w[i]),
    }
}

/// Scanning a rendered token yields exactly that token, covering exactly
/// its spelling; the space after it is the boundary.
#[verifier::rlimit(80)]
proof fn lemma_scan_rendered(t: SpecToken, rest: Seq<char>)
    requires
        wf_token(t),
    ensures
        token_text(t).len() >= 1,
        scan_token(token_text(t) + (" "@ + rest)) == Some((t, token_text(t).len() as nat)),
{
    reveal_strlit(" ");
    reveal_strlit("int");
    reveal_strlit("void");
    reveal_strlit("return");
    reveal_strlit("(");
    reveal_strlit(")");
    reveal_strlit("{");
    reveal_strlit("}");
    reveal_strlit(";");
    reveal_strlit("\"");
    reveal_strlit("+");
    reveal_strlit("-");
    reveal_strlit("*");
    reveal_strlit("/");
    reveal_strlit("%");
    reveal_strlit("--");
    reveal_strlit("~");
    reveal_strlit("!");
    reveal_strlit("&&");
    reveal_strlit("||");
    reveal_strlit("==");
    reveal_strlit("!=");
    reveal_strlit("<");
    reveal_strlit(">");
    reveal_strlit("<=");
    reveal_strlit(">=");
    reveal_strlit("=");
    reveal_strlit("#");
    let w = token_text(t);
    let s = w + (" "@ + rest);
    match t {
        SpecToken::Identifier(x) => {
            assert(s[0] == x[0]);
            assert(s[x.len() as int] == ' ');
            assert(forall|j: int| 0 <= j < x.len() ==> is_word_char(#[trigger] s[j]));
            crate::lexer::lemma_word_run_index(s, x.len() as int);
            assert(s.take(x.len() as int) =~= x);
        },
        SpecToken::Constant(x) => {
            assert(s[0] == x[0]);
            assert(is_digit_char(x[0]));
            assert(s[x.len() as int] == ' ');
            assert(forall|j: int| 0 <= j < x.len() ==> is_digit_char(#[trigger] s[j]));
            crate::lexer::lemma_digit_run_index(s, x.len() as int);
            assert(s.take(x.len() as int) =~= x);
        },
        SpecToken::Keyword(k) => {
            let n = w.len() as int;
            assert(forall|j: int| 0 <= j < n ==> is_word_char(#[trigger] s[j]));
            assert(s[n] == ' ');
            crate::lexer::lemma_word_run_index(s, n);
            assert(s.take(n) =~= w);
            match k {
                KeywordToken::Int => {
                    assert(keyword_of(w) == Some(KeywordToken::Int));
                },
                KeywordToken::Void => {
                    assert(w != "int"@);
                    assert(keyword_of(w) == Some(KeywordToken::Void));
                },
                KeywordToken::Return => {
                    assert(w != "int"@);
                    assert(w != "void"@);
                    assert(keyword_of(w) == Some(KeywordToken::Return));
                },
            }
        },
        SpecToken::Symbol(sym) => {
            assert(s.len() >= 2);
            assert(s[w.len() as int] == ' ');
            if w.len() == 1 {
                assert(s[1] == ' ');
            } else {
                assert(w.len() == 2);
                assert(s[1] == w[1]);
                assert(s[2] == ' ');
            }
        },
        SpecToken::Comment(_) => {},
        SpecToken::Macro(x) => {
            assert(s[0] == '#');
            assert(s.drop_first() =~= x + (" "@ + rest));
            assert(x + (" "@ + rest) =~= x + (" "@ + rest));
            assert((x + (" "@ + rest))[x.len() as int] == ' ');
            assert(forall|j: int|
                0 <= j < x.len() ==> is_word_char(#[trigger] (x + (" "@ + rest))[j]));
            crate::lexer::lemma_word_run_index(x + (" "@ + rest), x.len() as int);
            assert(s.subrange(1, 1 + x.len() as int) =~= x);
        },
    }
}

/// The raw token stream of rendered text: each token, then a whitespace.
pub open spec fn interleave_ws(ts: Seq<SpecToken>) -> Seq<SpecToken>
    decreases ts.len(),
{
    if ts.len() == 0 {
        Seq::<SpecToken>::empty()
    } else {
        seq![ts[0], SpecToken::Symbol(SymbolToken::Whitespace)] + interleave_ws(ts.drop_first())
    }
}

/// Lexing rendered text yields the tokens with a whitespace after each.
proof fn lemma_lex_render(ts: Seq<SpecToken>)
    requires
        forall|i: int| 0 <= i < ts.len() ==> wf_token(#[trigger] ts[i]),
    ensures
        lex_all(render(ts)) == Some(interleave_ws(ts)),
    decreases ts.len(),
{
    reveal_strlit(" ");
    if ts.len() == 0 {
    } else {
        let t = ts[0];
        let s = render(ts);
        let tail = " "@ + render(ts.drop_first());
        assert(s =~= token_text(t) + tail);
        lemma_scan_rendered(t, render(ts.drop_first()));
        let n = token_text(t).len() as int;
        assert(s.skip(n) =~= tail);
        // the separating space lexes as one whitespace token
        assert(tail[0] == ' ');
        assert(scan_token(tail) == Some(
            (SpecToken::Symbol(SymbolToken::Whitespace), 1nat),
        )) by {
            if tail.len() >= 2 {
                assert(crate::lexer::two_char_sym(' ', tail[1]) is None);
            }
        }
        assert(tail.skip(1) =~= render(ts.drop_first()));
        lemma_lex_render(ts.drop_first());
        assert(lex_all(tail) == Some(
            seq![SpecToken::Symbol(SymbolToken::Whitespace)] + interleave_ws(ts.drop_first()),
        ));
        assert(seq![t] + (seq![SpecToken::Symbol(SymbolToken::Whitespace)] + interleave_ws(
            ts.drop_first(),
        )) =~= interleave_ws(ts));
    }
}

/// Filtering the interleaved stream gives back the printed tokens.
proof fn lemma_visible_interleave(ts: Seq<SpecToken>)
    requires
        forall|i: int| 0 <= i < ts.len() ==> wf_token(#[trigger] ts[i]),
    ensures
        visible_tokens(interleave_ws(ts)) == ts,
    decreases ts.len(),
{
    if ts.len() == 0 {
    } else {
        let t = ts[0];
        let pair = seq![t, SpecToken::Symbol(SymbolToken::Whitespace)];
        lemma_visible_tokens_add(pair, interleave_ws(ts.drop_first()));
        lemma_visible_interleave(ts.drop_first());
        assert(keep_token(t));
        assert(visible_tokens(pair) =~= seq![t]) by {
            assert(visible_tokens(Seq::<SpecToken>::empty()) == Seq::<SpecToken>::empty());
            assert(seq![SpecToken::Symbol(SymbolToken::Whitespace)].drop_first() =~= Seq::<
                SpecToken,
            >::empty());
            assert(visible_tokens(seq![SpecToken::Symbol(SymbolToken::Whitespace)]) =~= Seq::<
                SpecToken,
            >::empty());
            assert(pair.drop_first() =~= seq![SpecToken::Symbol(SymbolToken::Whitespace)]);
        }
        assert(seq![t] + ts.drop_first() =~= ts);
    }
}

/// Every token a printed expression contains is printable.
proof fn lemma_exp_tokens_wf(e: SpecExp)
    requires
        wf_exp(e),
    ensures
        forall|k: int|
            0 <= k < tokens_of_exp(e).len() ==> wf_token(#[trigger] tokens_of_exp(e)[k]),
    decreases e,
{
    let t = tokens_of_exp(e);
    match e {
        SpecExp::Constant(n) => {
            lemma_dec_rep_digits(n as nat);
            assert(t[0] == SpecToken::Constant(dec_rep(n as nat)));
        },
        SpecExp::Var(x) => {
            assert(t[0] == SpecToken::Identifier(x));
        },
        SpecExp::Unary(op, e1) => {
            lemma_exp_tokens_wf(*e1);
            let sub = tokens_of_exp(*e1);
            assert forall|k: int| 0 <= k < t.len() implies wf_token(#[trigger] t[k]) by {
                if k == 0 {
                    assert(t[k] == SpecToken::Symbol(sym_of_unop(op)));
                } else if k == 1 {
                    assert(t[k] == SpecToken::Symbol(SymbolToken::OpenParen));
                } else if k < 2 + sub.len() {
                    assert(t[k] == sub[k - 2]);
                } else {
                    assert(t[k] == SpecToken::Symbol(SymbolToken::CloseParen));
                }
            }
        },
        SpecExp::Binary(op, a, b) => {
            lemma_exp_tokens_wf(*a);
            lemma_exp_tokens_wf(*b);
            let sa = tokens_of_exp(*a);
            let sb = tokens_of_exp(*b);
            assert forall|k: int| 0 <= k < t.len() implies wf_token(#[trigger] t[k]) by {
                if k == 0 {
                    assert(t[k] == SpecToken::Symbol(SymbolToken::OpenParen));
                } else if k < 1 + sa.len() {
                    assert(t[k] == sa[k - 1]);
                } else if k == 1 + sa.len() {
                    assert(t[k] == SpecToken::Symbol(sym_of_binop(op)));
                } else if k < 2 + sa.len() + sb.len() {
                    assert(t[k] == sb[k - 2 - sa.len()]);
                } else {
                    assert(t[k] == SpecToken::Symbol(SymbolToken::CloseParen));
                }
            }
        },
        SpecExp::Assignment(l, r) => {
            lemma_exp_tokens_wf(*l);
            lemma_exp_tokens_wf(*r);
            let sa = tokens_of_exp(*l);
            let sb = tokens_of_exp(*r);
            assert forall|k: int| 0 <= k < t.len() implies wf_token(#[trigger] t[k]) by {
                if k == 0 {
                    assert(t[k] == SpecToken::Symbol(SymbolToken::OpenParen));
                } else if k < 1 + sa.len() {
                    assert(t[k] == sa[k - 1]);
                } else if k == 1 + sa.len() {
                    assert(t[k] == SpecToken::Symbol(SymbolToken::Equal));
                } else if k < 2 + sa.len() + sb.len() {
                    assert(t[k] == sb[k - 2 - sa.len()]);
                } else {
                    assert(t[k] == SpecToken::Symbol(SymbolToken::CloseParen));
                }
            }
        },
    }
}

/// Every token a printed block item contains is printable.
proof fn lemma_item_tokens_wf(b: SpecBlockItem)
    requires
        wf_item(b),
    ensures
        forall|k: int|
            0 <= k < tokens_of_item(b).len() ==> wf_token(#[trigger] tokens_of_item(b)[k]),
{
    let t = tokens_of_item(b);
    match b {
        SpecBlockItem::StatementItem(s) => {
            match s {
                SpecStatement::Return(e) => {
                    lemma_exp_tokens_wf(e);
                    let sub = tokens_of_exp(e);
                    assert forall|k: int| 0 <= k < t.len() implies wf_token(#[trigger] t[k]) by {
                        if k == 0 {
                            assert(t[k] == SpecToken::Keyword(KeywordToken::Return));
                        } else if k < 1 + sub.len() {
                            assert(t[k] == sub[k - 1]);
                        } else {
                            assert(t[k] == SpecToken::Symbol(SymbolToken::Semicolon));
                        }
                    }
                },
                SpecStatement::Expression(e) => {
                    lemma_exp_tokens_wf(e);
                    let sub = tokens_of_exp(e);
                    assert forall|k: int| 0 <= k < t.len() implies wf_token(#[trigger] t[k]) by {
                        if k < sub.len() {
                            assert(t[k] == sub[k]);
                        } else {
                            assert(t[k] == SpecToken::Symbol(SymbolToken::Semicolon));
                        }
                    }
                },
                SpecStatement::Null => {
                    assert(t[0] == SpecToken::Symbol(SymbolToken::Semicolon));
                },
            }
        },
        SpecBlockItem::DeclarationItem(d) => {
            match d {
                SpecDeclaration::Declaration(x, init) => {
                    match init {
                        Some(e) => {
                            lemma_exp_tokens_wf(e);
                            let sub = tokens_of_exp(e);
                            assert forall|k: int| 0 <= k < t.len() implies wf_token(
                                #[trigger] t[k],
                            ) by {
                                if k == 0 {
                                    assert(t[k] == SpecToken::Keyword(KeywordToken::Int));
                                } else if k == 1 {
                                    assert(t[k] == SpecToken::Identifier(x));
                                } else if k == 2 {
                                    assert(t[k] == SpecToken::Symbol(SymbolToken::Equal));
                                } else if k < 3 + sub.len() {
                                    assert(t[k] == sub[k - 3]);
                                } else {
                                    assert(t[k] == SpecToken::Symbol(SymbolToken::Semicolon));
                                }
                            }
                        },
                        None => {
                            assert forall|k: int| 0 <= k < t.len() implies wf_token(
                                #[trigger] t[k],
                            ) by {
                                if k == 0 {
                                    assert(t[k] == SpecToken::Keyword(KeywordToken::Int));
                                } else if k == 1 {
                                    assert(t[k] == SpecToken::Identifier(x));
                                } else {
                                    assert(t[k] == SpecToken::Symbol(SymbolToken::Semicolon));
                                }
                            }
                        },
                    }
                },
            }
        },
    }
}

/// Every token a printed item list contains is printable.
proof fn lemma_items_tokens_wf(items: Seq<SpecBlockItem>)
    requires
        forall|i: int| 0 <= i < items.len() ==> wf_item(#[trigger] items[i]),
    ensures
        forall|k: int|
            0 <= k < tokens_of_items(items).len() ==> wf_token(
                #[trigger] tokens_of_items(items)[k],
            ),
    decreases items.len(),
{
    if items.len() > 0 {
        lemma_item_tokens_wf(items[0]);
        lemma_items_tokens_wf(items.drop_first());
        let hd = tokens_of_item(items[0]);
        let tl = tokens_of_items(items.drop_first());
        assert forall|k: int| 0 <= k < tokens_of_items(items).len() implies wf_token(
            #[trigger] tokens_of_items(items)[k],
        ) by {
            if k < hd.len() {
                assert(tokens_of_items(items)[k] == hd[k]);
            } else {
                assert(tokens_of_items(items)[k] == tl[k - hd.len()]);
            }
        }
    }
}

/// Every token of a printed program is printable.
proof fn lemma_program_tokens_wf(p: SpecProgram)
    requires
        wf_program(p),
    ensures
        forall|k: int|
            0 <= k < tokens_of_program(p).len() ==> wf_token(#[trigger] tokens_of_program(p)[k]),
{
    let t = tokens_of_program(p);
    match p {
        SpecProgram::Program(f) => match f {
            SpecFunction::Function(name, items) => {
                lemma_items_tokens_wf(items);
                let sub = tokens_of_items(items);
                assert forall|k: int| 0 <= k < t.len() implies wf_token(#[trigger] t[k]) by {
                    if k == 0 {
                        assert(t[k] == SpecToken::Keyword(KeywordToken::Int));
                    } else if k == 1 {
                        assert(t[k] == SpecToken::Identifier(name));
                    } else if k == 2 {
                        assert(t[k] == SpecToken::Symbol(SymbolToken::OpenParen));
                    } else if k == 3 {
                        assert(t[k] == SpecToken::Keyword(KeywordToken::Void));
                    } else if k == 4 {
                        assert(t[k] == SpecToken::Symbol(SymbolToken::CloseParen));
                    } else if k == 5 {
                        assert(t[k] == SpecToken::Symbol(SymbolToken::OpenBrace));
                    } else if k < 6 + sub.len() {
                        assert(t[k] == sub[k - 6]);
                    } else {
                        assert(t[k] == SpecToken::Symbol(SymbolToken::CloseBrace));
                    }
                }
            },
        },
    }
}

/// The round trip: the pretty-printed text of a printable program, lexed
/// again, yields exactly the program's tokens; and parsing those tokens
/// yields a program structurally equal to the original.
pub proof fn lemma_pretty_print_round_trip(p: SpecProgram)
    requires
        wf_program(p),
    ensures
        lex_spec(render(tokens_of_program(p))) == Some(tokens_of_program(p)),
        parse_program_spec(tokens_of_program(p)) == Some(p),
{
    lemma_program_tokens_wf(p);
    lemma_lex_render(tokens_of_program(p));
    lemma_visible_interleave(tokens_of_program(p));
    lemma_parse_printed_tokens(p);
}

/// Rendering distributes over concatenation.
proof fn lemma_render_add(a: Seq<SpecToken>, b: Seq<SpecToken>)
    ensures
        render(a + b) == render(a) + render(b),
    decreases a.len(),
{
    if a.len() == 0 {
        assert(a + b =~= b);
        assert(render(a) + render(b) =~= render(b));
    } else {
        lemma_render_add(a.drop_first(), b);
        assert((a + b).drop_first() =~= a.drop_first() + b);
        assert((a + b)[0] == a[0]);
        assert(token_text(a[0]) + " "@ + (render(a.drop_first()) + render(b)) =~= (token_text(
            a[0],
        ) + " "@ + render(a.drop_first())) + render(b));
    }
}

fn symbol_string(sym: &SymbolToken) -> (r: &'static str)
    ensures
        r@ == sym_text(*sym),
{
    match sym {
        SymbolToken::OpenParen => "(",
        SymbolToken::CloseParen => ")",
        SymbolToken::OpenBrace => "{",
        SymbolToken::CloseBrace => "}",
        SymbolToken::Semicolon => ";",
        SymbolToken::Quote => "\"",
        SymbolToken::Whitespace => " ",
        SymbolToken::Plus => "+",
        SymbolToken::Minus => "-",
        SymbolToken::Asterisk => "*",
        SymbolToken::ForwardSlash => "/",
        SymbolToken::Percent => "%",
        SymbolToken::DoubleMinnus => "--",
        SymbolToken::Tilde => "~",
        SymbolToken::Exclamation => "!",
        SymbolToken::DoubleAmpersand => "&&",
        SymbolToken::DoubleBar => "||",
        SymbolToken::DoubleEqual => "==",
        SymbolToken::ExclamationEqual => "!=",
        SymbolToken::LeftAngleBracket => "<",
        SymbolToken::RightAngleBracket => ">",
        SymbolToken::LeftABEqual => "<=",
        SymbolToken::RightABEqual => ">=",
        SymbolToken::Equal => "=",
    }
}

/// The source spelling of one token.
fn token_string(t: &Token) -> (r: String)
    ensures
        r@ == token_text(t@),
{
    match t {
        Token::Identifier(w) => w.clone(),
        Token::Constant(w) => w.clone(),
        Token::Keyword(k) => match k {
            KeywordToken::Int => String::from_str("int"),
            KeywordToken::Void => String::from_str("void"),
            KeywordToken::Return => String::from_str("return"),
        },
        Token::Symbol(sym) => String::from_str(symbol_string(sym)),
        Token::Comment(_) => String::new(),
        Token::Macro(w) => {
            let mut s = String::from_str("#");
            s.append(w.as_str());
            s
        },
    }
}

/// Append the tokens of one expression.
fn exp_tokens(e: &ExpressionNode, out: &mut Vec<Token>)
    ensures
        tokens_view(final(out)@) == tokens_view(old(out)@) + tokens_of_exp(e@),
    decreases e,
{
    let ghost base = tokens_view(out@);
    match e {
        ExpressionNode::Constant(n) => {
            out.push(Token::Constant(crate::numerals::dec_string(*n as u64)));
            proof {
                assert(tokens_view(out@) =~= base + tokens_of_exp(e@));
            }
        },
        ExpressionNode::Var(x) => {
            out.push(Token::Identifier(x.clone()));
            proof {
                assert(tokens_view(out@) =~= base + tokens_of_exp(e@));
            }
        },
        ExpressionNode::Unary(op, e1) => {
            let sym = match op {
                UnaryOperatorNode::Negate => SymbolToken::Minus,
                UnaryOperatorNode::Complement => SymbolToken::Tilde,
                UnaryOperatorNode::Not => SymbolToken::Exclamation,
            };
            out.push(Token::Symbol(sym));
            out.push(Token::Symbol(SymbolToken::OpenParen));
            let ghost mid = tokens_view(out@);
            exp_tokens(&**e1, out);
            out.push(Token::Symbol(SymbolToken::CloseParen));
            proof {
                assert(mid =~= base + seq![
                    SpecToken::Symbol(sym_of_unop(*op)),
                    SpecToken::Symbol(SymbolToken::OpenParen),
                ]);
                assert(tokens_view(out@) =~= (mid + tokens_of_exp((**e1)@)).push(
                    SpecToken::Symbol(SymbolToken::CloseParen),
                ));
                assert(tokens_view(out@) =~= base + tokens_of_exp(e@));
            }
        },
        ExpressionNode::Binary(op, a, b) => {
            let sym = binop_symbol(op);
            out.push(Token::Symbol(SymbolToken::OpenParen));
            let ghost g1 = tokens_view(out@);
            proof {
                assert(g1 =~= base.push(SpecToken::Symbol(SymbolToken::OpenParen)));
            }
            exp_tokens(&**a, out);
            let ghost g2 = tokens_view(out@);
            out.push(Token::Symbol(sym));
            let ghost mid = tokens_view(out@);
            exp_tokens(&**b, out);
            out.push(Token::Symbol(SymbolToken::CloseParen));
            proof {
                assert(mid =~= g2.push(SpecToken::Symbol(sym_of_binop(*op))));
                assert(mid =~= base + seq![SpecToken::Symbol(SymbolToken::OpenParen)]
                    + tokens_of_exp((**a)@) + seq![SpecToken::Symbol(sym_of_binop(*op))]);
                assert(tokens_view(out@) =~= (mid + tokens_of_exp((**b)@)).push(
                    SpecToken::Symbol(SymbolToken::CloseParen),
                ));
                assert(tokens_view(out@) =~= base + tokens_of_exp(e@));
            }
        },
        ExpressionNode::Assignment(l, r) => {
            out.push(Token::Symbol(SymbolToken::OpenParen));
            let ghost g1 = tokens_view(out@);
            proof {
                assert(g1 =~= base.push(SpecToken::Symbol(SymbolToken::OpenParen)));
            }
            exp_tokens(&**l, out);
            let ghost g2 = tokens_view(out@);
            out.push(Token::Symbol(SymbolToken::Equal));
            let ghost mid = tokens_view(out@);
            exp_tokens(&**r, out);
            out.push(Token::Symbol(SymbolToken::CloseParen));
            proof {
                assert(mid =~= g2.push(SpecToken::Symbol(SymbolToken::Equal)));
                assert(mid =~= base + seq![SpecToken::Symbol(SymbolToken::OpenParen)]
                    + tokens_of_exp((**l)@) + seq![SpecToken::Symbol(SymbolToken::Equal)]);
                assert(tokens_view(out@) =~= (mid + tokens_of_exp((**r)@)).push(
                    SpecToken::Symbol(SymbolToken::CloseParen),
                ));
                assert(tokens_view(out@) =~= base + tokens_of_exp(e@));
            }
        },
    }
}

/// The symbol that spells a binary operator (executable form).
fn binop_symbol(op: &BinaryOperatorNode) -> (r: SymbolToken)
    ensures
        r == sym_of_binop(*op),
{
    match op {
        BinaryOperatorNode::Add => SymbolToken::Plus,
        BinaryOperatorNode::Subtract => SymbolToken::Minus,
        BinaryOperatorNode::Multiply => SymbolToken::Asterisk,
        BinaryOperatorNode::Divide => SymbolToken::ForwardSlash,
        BinaryOperatorNode::Remainder => SymbolToken::Percent,
        BinaryOperatorNode::And => SymbolToken::DoubleAmpersand,
        BinaryOperatorNode::Or => SymbolToken::DoubleBar,
        BinaryOperatorNode::Equal => SymbolToken::DoubleEqual,
        BinaryOperatorNode::NotEqual => SymbolToken::ExclamationEqual,
        BinaryOperatorNode::LessThan => SymbolToken::LeftAngleBracket,
        BinaryOperatorNode::LessOrEqual => SymbolToken::LeftABEqual,
        BinaryOperatorNode::GreaterThan => SymbolToken::RightAngleBracket,
        BinaryOperatorNode::GreaterOrEqual => SymbolToken::RightABEqual,
    }
}

/// Append the tokens of one block item.
fn item_tokens(b: &BlockItemNode, out: &mut Vec<Token>)
    ensures
        tokens_view(final(out)@) == tokens_view(old(out)@) + tokens_of_item(b@),
{
    let ghost base = tokens_view(out@);
    match b {
        BlockItemNode::StatementItem(s) => {
            match s {
                StatementNode::Return(e) => {
                    out.push(Token::Keyword(KeywordToken::Return));
                    let ghost mid = tokens_view(out@);
                    exp_tokens(e, out);
                    out.push(Token::Symbol(SymbolToken::Semicolon));
                    proof {
                        assert(mid =~= base + seq![SpecToken::Keyword(KeywordToken::Return)]);
                        assert(tokens_view(out@) =~= (mid + tokens_of_exp(e@)).push(
                            SpecToken::Symbol(SymbolToken::Semicolon),
                        ));
                        assert(tokens_view(out@) =~= base + tokens_of_item(b@));
                    }
                },
                StatementNode::Expression(e) => {
                    exp_tokens(e, out);
                    out.push(Token::Symbol(SymbolToken::Semicolon));
                    proof {
                        assert(tokens_view(out@) =~= (base + tokens_of_exp(e@)).push(
                            SpecToken::Symbol(SymbolToken::Semicolon),
                        ));
                        assert(tokens_view(out@) =~= base + tokens_of_item(b@));
                    }
                },
                StatementNode::Null => {
                    out.push(Token::Symbol(SymbolToken::Semicolon));
                    proof {
                        assert(tokens_view(out@) =~= base + tokens_of_item(b@));
                    }
                },
            }
        },
        BlockItemNode::DeclarationItem(d) => {
            match d {
                DeclarationNode::Declaration(x, init) => {
                    out.push(Token::Keyword(KeywordToken::Int));
                    out.push(Token::Identifier(x.clone()));
                    match init {
                        Some(e) => {
                            out.push(Token::Symbol(SymbolToken::Equal));
                            let ghost mid = tokens_view(out@);
                            exp_tokens(e, out);
                            out.push(Token::Symbol(SymbolToken::Semicolon));
                            proof {
                                assert(mid =~= base + seq![
                                    SpecToken::Keyword(KeywordToken::Int),
                                    SpecToken::Identifier(x@),
                                    SpecToken::Symbol(SymbolToken::Equal),
                                ]);
                                assert(tokens_view(out@) =~= (mid + tokens_of_exp(e@)).push(
                                    SpecToken::Symbol(SymbolToken::Semicolon),
                                ));
                                assert(tokens_view(out@) =~= base + tokens_of_item(b@));
                            }
                        },
                        None => {
                            out.push(Token::Symbol(SymbolToken::Semicolon));
                            proof {
                                assert(tokens_view(out@) =~= base + tokens_of_item(b@));
                            }
                        },
                    }
                },
            }
        },
    }
}

/// The token sequence of a whole program.
fn program_tokens(program: &ProgramNode) -> (r: Vec<Token>)
    ensures
        tokens_view(r@) == tokens_of_program(program@),
{
    let mut out: Vec<Token> = Vec::new();
    match program {
        ProgramNode::Program(f) => match f {
            FunctionDefinitionNode::Function(name, items) => {
                out.push(Token::Keyword(KeywordToken::Int));
                out.push(Token::Identifier(name.clone()));
                out.push(Token::Symbol(SymbolToken::OpenParen));
                out.push(Token::Keyword(KeywordToken::Void));
                out.push(Token::Symbol(SymbolToken::CloseParen));
                out.push(Token::Symbol(SymbolToken::OpenBrace));
                let ghost head = tokens_view(out@);
                let ghost iv = items_view(items@);
                proof {
                    assert(head =~= seq![
                        SpecToken::Keyword(KeywordToken::Int),
                        SpecToken::Identifier(name@),
                        SpecToken::Symbol(SymbolToken::OpenParen),
                        SpecToken::Keyword(KeywordToken::Void),
                        SpecToken::Symbol(SymbolToken::CloseParen),
                        SpecToken::Symbol(SymbolToken::OpenBrace),
                    ]);
                    assert(tokens_of_items(iv.take(0)) =~= Seq::<SpecToken>::empty());
                    assert(head + Seq::<SpecToken>::empty() =~= head);
                }
                let mut i: usize = 0;
                while i < items.len()
                    invariant
                        i <= items@.len(),
                        iv == items_view(items@),
                        tokens_view(out@) == head + tokens_of_items(iv.take(i as int)),
                    decreases items@.len() - i,
                {
                    let ghost pre = tokens_view(out@);
                    item_tokens(&items[i], &mut out);
                    proof {
                        lemma_items_take_step(iv, i as int);
                        assert(tokens_view(out@) =~= pre + tokens_of_item(iv[i as int]));
                        assert(pre + tokens_of_item(iv[i as int]) =~= head + (tokens_of_items(
                            iv.take(i as int),
                        ) + tokens_of_item(iv[i as int])));
                    }
                    i = i + 1;
                }
                out.push(Token::Symbol(SymbolToken::CloseBrace));
                proof {
                    assert(iv.take(items@.len() as int) =~= iv);
                    assert(tokens_view(out@) =~= (head + tokens_of_items(iv)).push(
                        SpecToken::Symbol(SymbolToken::CloseBrace),
                    ));
                    assert(tokens_view(out@) =~= tokens_of_program(program@));
                }
            },
        },
    }
    out
}

/// One more item extends the printed prefix by that item's tokens.
proof fn lemma_items_take_step(items: Seq<SpecBlockItem>, i: int)
    requires
        0 <= i < items.len(),
    ensures
        tokens_of_items(items.take(i + 1)) == tokens_of_items(items.take(i)) + tokens_of_item(
            items[i],
        ),
    decreases i,
{
    if i == 0 {
        assert(items.take(1)[0] == items[0]);
        assert(items.take(1).drop_first() =~= items.take(0));
        assert(tokens_of_items(items.take(0)) =~= Seq::<SpecToken>::empty());
        assert(tokens_of_item(items[0]) + Seq::<SpecToken>::empty() =~= tokens_of_item(
            items[0],
        ));
    } else {
        lemma_items_take_step(items.drop_first(), i - 1);
        assert(items.take(i + 1)[0] == items[0]);
        assert(items.take(i + 1).drop_first() =~= items.drop_first().take(i));
        assert(items.take(i).drop_first() =~= items.drop_first().take(i - 1));
        assert(items.take(i)[0] == items[0]);
        assert(items.drop_first()[i - 1] == items[i]);
        assert(tokens_of_item(items[0]) + (tokens_of_items(items.drop_first().take(i - 1))
            + tokens_of_item(items[i])) =~= (tokens_of_item(items[0]) + tokens_of_items(
            items.drop_first().take(i - 1),
        )) + tokens_of_item(items[i]));
    }
}

/// Pretty-print a program: its token sequence, one space after each token.
///
/// Together with [`lemma_pretty_print_round_trip`], printing a printable
/// program, lexing the text and parsing the tokens yields the program back.
pub fn pretty_print(program: &ProgramNode) -> (r: String)
    ensures
        r@ == render(tokens_of_program(program@)),
{
    let tokens = program_tokens(program);
    let ghost tv = tokens_view(tokens@);
    let mut s = String::new();
    let mut i: usize = 0;
    proof {
        assert(render(tv.take(0)) =~= Seq::<char>::empty());
        assert(s@ =~= render(tv.take(0)));
    }
    while i < tokens.len()
        invariant
            i <= tokens@.len(),
            tv == tokens_view(tokens@),
            s@ == render(tv.take(i as int)),
        decreases tokens@.len() - i,
    {
        let ghost pre = s@;
        let piece = token_string(&tokens[i]);
        s.append(piece.as_str());
        s.append(" ");
        proof {
            assert(tv[i as int] == tokens@[i as int]@);
            assert(tv.take(i + 1) =~= tv.take(i as int) + seq![tv[i as int]]);
            lemma_render_add(tv.take(i as int), seq![tv[i as int]]);
            assert(seq![tv[i as int]].drop_first() =~= Seq::<SpecToken>::empty());
            assert(render(Seq::<SpecToken>::empty()) == Seq::<char>::empty());
            assert(render(seq![tv[i as int]]) =~= token_text(tv[i as int]) + " "@);
            assert(s@ =~= pre + (token_text(tv[i as int]) + " "@));
        }
        i = i + 1;
    }
    proof {
        assert(tv.take(tokens@.len() as int) =~= tv);
    }
    s
}

} // verus!
