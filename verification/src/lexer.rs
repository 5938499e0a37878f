//! Lexical analysis: a maximal-munch scanner for the token grammar, verified
//! against a recursive specification of the same grammar.
//!
//! The specification [`lex_spec`] is total on every input: it yields the
//! token sequence (with whitespace and comments removed) exactly when the
//! input matches the grammar, and nothing otherwise. The executable [`lex`]
//! is proved to agree with it on both outcomes.

use vstd::prelude::*;

use crate::diagnostics::{CompileError, ErrorKind};
use crate::numerals::is_digit_char;
use crate::tokens::{tokens_view, CommentToken, KeywordToken, SpecToken, SymbolToken, Token};

verus! {

/// Characters that may begin an identifier or keyword.
pub open spec fn is_word_start_char(c: char) -> bool {
    ('a' <= c && c <= 'z') || ('A' <= c && c <= 'Z') || c == '_'
}

/// Characters that may continue an identifier, keyword or macro name.
pub open spec fn is_word_char(c: char) -> bool {
    is_word_start_char(c) || is_digit_char(c)
}

pub open spec fn is_whitespace_char(c: char) -> bool {
    c == ' ' || c == '\t' || c == '\n'
}

/// Length of the maximal prefix of word characters.
pub open spec fn word_run_len(s: Seq<char>) -> nat
    decreases s.len(),
{
    if s.len() == 0 || !is_word_char(s[0]) {
        0
    } else {
        1 + word_run_len(s.drop_first())
    }
}

/// Length of the maximal prefix of digit characters.
pub open spec fn digit_run_len(s: Seq<char>) -> nat
    decreases s.len(),
{
    if s.len() == 0 || !is_digit_char(s[0]) {
        0
    } else {
        1 + digit_run_len(s.drop_first())
    }
}

/// The keyword a word spells, if any.
pub open spec fn keyword_of(w: Seq<char>) -> Option<KeywordToken> {
    if w == "int"@ {
        Some(KeywordToken::Int)
    } else if w == "void"@ {
        Some(KeywordToken::Void)
    } else if w == "return"@ {
        Some(KeywordToken::Return)
    } else {
        None
    }
}

/// Index of the first newline at or after `i`, or the length if none.
pub open spec fn newline_index(s: Seq<char>, i: int) -> int
    decreases s.len() - i,
{
    if !(0 <= i < s.len()) {
        s.len() as int
    } else if s[i] == '\n' {
        i
    } else {
        newline_index(s, i + 1)
    }
}

/// Index of the first `*/` at or after `i`, if any.
pub open spec fn block_end_index(s: Seq<char>, i: int) -> Option<int>
    decreases s.len() - i,
{
    if !(0 <= i) || i + 2 > s.len() {
        None
    } else if s[i] == '*' && s[i + 1] == '/' {
        Some(i)
    } else {
        block_end_index(s, i + 1)
    }
}

/// The two-character operator spelled by a pair of characters, if any.
pub open spec fn two_char_sym(c0: char, c1: char) -> Option<SymbolToken> {
    if c0 == '-' && c1 == '-' {
        Some(SymbolToken::DoubleMinnus)
    } else if c0 == '&' && c1 == '&' {
        Some(SymbolToken::DoubleAmpersand)
    } else if c0 == '|' && c1 == '|' {
        Some(SymbolToken::DoubleBar)
    } else if c0 == '=' && c1 == '=' {
        Some(SymbolToken::DoubleEqual)
    } else if c0 == '!' && c1 == '=' {
        Some(SymbolToken::ExclamationEqual)
    } else if c0 == '<' && c1 == '=' {
        Some(SymbolToken::LeftABEqual)
    } else if c0 == '>' && c1 == '=' {
        Some(SymbolToken::RightABEqual)
    } else {
        None
    }
}

/// The one-character symbol spelled by a character, if any.
pub open spec fn one_char_sym(c: char) -> Option<SymbolToken> {
    if c == '(' {
        Some(SymbolToken::OpenParen)
    } else if c == ')' {
        Some(SymbolToken::CloseParen)
    } else if c == '{' {
        Some(SymbolToken::OpenBrace)
    } else if c == '}' {
        Some(SymbolToken::CloseBrace)
    } else if c == ';' {
        Some(SymbolToken::Semicolon)
    } else if c == '"' {
        Some(SymbolToken::Quote)
    } else if is_whitespace_char(c) {
        Some(SymbolToken::Whitespace)
    } else if c == '+' {
        Some(SymbolToken::Plus)
    } else if c == '-' {
        Some(SymbolToken::Minus)
    } else if c == '*' {
        Some(SymbolToken::Asterisk)
    } else if c == '/' {
        Some(SymbolToken::ForwardSlash)
    } else if c == '%' {
        Some(SymbolToken::Percent)
    } else if c == '~' {
        Some(SymbolToken::Tilde)
    } else if c == '!' {
        Some(SymbolToken::Exclamation)
    } else if c == '<' {
        Some(SymbolToken::LeftAngleBracket)
    } else if c == '>' {
        Some(SymbolToken::RightAngleBracket)
    } else if c == '=' {
        Some(SymbolToken::Equal)
    } else {
        None
    }
}

/// One step of maximal-munch scanning on a non-empty input: the next token
/// and the number of characters it covers, or nothing on a lexical error.
///
/// Recognizers are tried in a fixed order: words (keywords only when they
/// span the whole word), constants (which must not be followed by a word
/// character), comments, macro markers, two-character operators before
/// one-character ones.
pub open spec fn scan_token(s: Seq<char>) -> Option<(SpecToken, nat)>
    recommends
        s.len() > 0,
{
    let c = s[0];
    if is_word_start_char(c) {
        let n = word_run_len(s);
        let w = s.take(n as int);
        match keyword_of(w) {
            Some(k) => Some((SpecToken::Keyword(k), n)),
            None => Some((SpecToken::Identifier(w), n)),
        }
    } else if is_digit_char(c) {
        let n = digit_run_len(s);
        if n < s.len() && is_word_char(s[n as int]) {
            None
        } else {
            Some((SpecToken::Constant(s.take(n as int)), n))
        }
    } else if c == '/' && s.len() >= 2 && s[1] == '/' {
        Some((SpecToken::Comment(CommentToken::LineComment), newline_index(s, 2) as nat))
    } else if c == '/' && s.len() >= 2 && s[1] == '*' {
        match block_end_index(s, 2) {
            Some(j) => Some((SpecToken::Comment(CommentToken::BlockComment), (j + 2) as nat)),
            None => None,
        }
    } else if c == '#' {
        let n = word_run_len(s.drop_first());
        Some((SpecToken::Macro(s.subrange(1, 1 + n as int)), 1 + n))
    } else if s.len() >= 2 && two_char_sym(c, s[1]) is Some {
        Some((SpecToken::Symbol(two_char_sym(c, s[1])->Some_0), 2))
    } else {
        match one_char_sym(c) {
            Some(sym) => Some((SpecToken::Symbol(sym), 1)),
            None => None,
        }
    }
}

/// The full token sequence of an input, whitespace and comments included,
/// or nothing if some position admits no token.
pub open spec fn lex_all(s: Seq<char>) -> Option<Seq<SpecToken>>
    decreases s.len(),
{
    if s.len() == 0 {
        Some(Seq::<SpecToken>::empty())
    } else {
        match scan_token(s) {
            None => None,
            Some((t, n)) => if 1 <= n <= s.len() {
                match lex_all(s.skip(n as int)) {
                    None => None,
                    Some(r) => Some(seq![t] + r),
                }
            } else {
                None
            },
        }
    }
}

/// Whether a token survives post-processing.
pub open spec fn keep_token(t: SpecToken) -> bool {
    match t {
        SpecToken::Symbol(s) => s != SymbolToken::Whitespace,
        SpecToken::Comment(_) => false,
        _ => true,
    }
}

/// The token sequence with whitespace and comment tokens removed.
pub open spec fn visible_tokens(ts: Seq<SpecToken>) -> Seq<SpecToken>
    decreases ts.len(),
{
    if ts.len() == 0 {
        Seq::<SpecToken>::empty()
    } else {
        (if keep_token(ts[0]) {
            seq![ts[0]]
        } else {
            Seq::<SpecToken>::empty()
        }) + visible_tokens(ts.drop_first())
    }
}

/// What lexing an input yields: the visible tokens exactly when the whole
/// input matches the token grammar.
pub open spec fn lex_spec(s: Seq<char>) -> Option<Seq<SpecToken>> {
    match lex_all(s) {
        None => None,
        Some(ts) => Some(visible_tokens(ts)),
    }
}

/// Prepend already-scanned tokens to the outcome of scanning the rest.
pub open spec fn opt_prepend(p: Seq<SpecToken>, o: Option<Seq<SpecToken>>) -> Option<
    Seq<SpecToken>,
> {
    match o {
        None => None,
        Some(r) => Some(p + r),
    }
}

/// Filtering distributes over concatenation.
pub proof fn lemma_visible_tokens_add(a: Seq<SpecToken>, b: Seq<SpecToken>)
    ensures
        visible_tokens(a + b) == visible_tokens(a) + visible_tokens(b),
    decreases a.len(),
{
    if a.len() == 0 {
        assert(a + b =~= b);
        assert(visible_tokens(a) + visible_tokens(b) =~= visible_tokens(b));
    } else {
        lemma_visible_tokens_add(a.drop_first(), b);
        assert((a + b).drop_first() =~= a.drop_first() + b);
        assert((a + b)[0] == a[0]);
        assert(visible_tokens(a + b) == (if keep_token(a[0]) {
            seq![a[0]]
        } else {
            Seq::<SpecToken>::empty()
        }) + (visible_tokens(a.drop_first()) + visible_tokens(b)));
        assert((if keep_token(a[0]) {
            seq![a[0]]
        } else {
            Seq::<SpecToken>::empty()
        }) + visible_tokens(a.drop_first()) + visible_tokens(b) =~= (if keep_token(a[0]) {
            seq![a[0]]
        } else {
            Seq::<SpecToken>::empty()
        }) + (visible_tokens(a.drop_first()) + visible_tokens(b)));
    }
}

/// An index-based characterization of [`word_run_len`].
pub proof fn lemma_word_run_index(s: Seq<char>, i: int)
    requires
        0 <= i <= s.len(),
        forall|j: int| 0 <= j < i ==> is_word_char(#[trigger] s[j]),
        i == s.len() || !is_word_char(s[i]),
    ensures
        word_run_len(s) == i,
    decreases i,
{
    if i == 0 {
    } else {
        assert(is_word_char(s[0]));
        assert(forall|j: int| 0 <= j < i - 1 ==> is_word_char(#[trigger] s.drop_first()[j]));
        lemma_word_run_index(s.drop_first(), i - 1);
    }
}

/// An index-based characterization of [`digit_run_len`].
pub proof fn lemma_digit_run_index(s: Seq<char>, i: int)
    requires
        0 <= i <= s.len(),
        forall|j: int| 0 <= j < i ==> is_digit_char(#[trigger] s[j]),
        i == s.len() || !is_digit_char(s[i]),
    ensures
        digit_run_len(s) == i,
    decreases i,
{
    if i == 0 {
    } else {
        assert(is_digit_char(s[0]));
        assert(forall|j: int| 0 <= j < i - 1 ==> is_digit_char(#[trigger] s.drop_first()[j]));
        lemma_digit_run_index(s.drop_first(), i - 1);
    }
}

/// An index-based characterization of [`newline_index`].
proof fn lemma_newline_index(s: Seq<char>, i: int, k: int)
    requires
        0 <= i <= k <= s.len(),
        forall|j: int| i <= j < k ==> #[trigger] s[j] != '\n',
        k == s.len() || s[k] == '\n',
    ensures
        newline_index(s, i) == k,
    decreases k - i,
{
    if i < k {
        lemma_newline_index(s, i + 1, k);
    }
}

/// An index-based characterization of a found [`block_end_index`].
proof fn lemma_block_end_found(s: Seq<char>, i: int, k: int)
    requires
        0 <= i <= k,
        k + 2 <= s.len(),
        forall|j: int| i <= j < k ==> !(#[trigger] s[j] == '*' && s[j + 1] == '/'),
        s[k] == '*' && s[k + 1] == '/',
    ensures
        block_end_index(s, i) == Some(k),
    decreases k - i,
{
    if i < k {
        lemma_block_end_found(s, i + 1, k);
    }
}

/// An index-based characterization of a missing [`block_end_index`].
proof fn lemma_block_end_none(s: Seq<char>, i: int)
    requires
        0 <= i,
        forall|j: int| i <= j && j + 2 <= s.len() ==> !(#[trigger] s[j] == '*' && s[j + 1] == '/'),
    ensures
        block_end_index(s, i) is None,
    decreases s.len() - i,
{
    if i + 2 <= s.len() {
        lemma_block_end_none(s, i + 1);
    }
}

fn is_word_start_x(c: char) -> (b: bool)
    ensures
        b == is_word_start_char(c),
{
    ('a' <= c && c <= 'z') || ('A' <= c && c <= 'Z') || c == '_'
}

fn is_digit_x(c: char) -> (b: bool)
    ensures
        b == is_digit_char(c),
{
    '0' <= c && c <= '9'
}

fn is_word_x(c: char) -> (b: bool)
    ensures
        b == is_word_char(c),
{
    is_word_start_x(c) || is_digit_x(c)
}

fn two_char_symbol(c0: char, c1: char) -> (r: Option<SymbolToken>)
    ensures
        r == two_char_sym(c0, c1),
{
    if c0 == '-' && c1 == '-' {
        Some(SymbolToken::DoubleMinnus)
    } else if c0 == '&' && c1 == '&' {
        Some(SymbolToken::DoubleAmpersand)
    } else if c0 == '|' && c1 == '|' {
        Some(SymbolToken::DoubleBar)
    } else if c0 == '=' && c1 == '=' {
        Some(SymbolToken::DoubleEqual)
    } else if c0 == '!' && c1 == '=' {
        Some(SymbolToken::ExclamationEqual)
    } else if c0 == '<' && c1 == '=' {
        Some(SymbolToken::LeftABEqual)
    } else if c0 == '>' && c1 == '=' {
        Some(SymbolToken::RightABEqual)
    } else {
        None
    }
}

fn one_char_symbol(c: char) -> (r: Option<SymbolToken>)
    ensures
        r == one_char_sym(c),
{
    if c == '(' {
        Some(SymbolToken::OpenParen)
    } else if c == ')' {
        Some(SymbolToken::CloseParen)
    } else if c == '{' {
        Some(SymbolToken::OpenBrace)
    } else if c == '}' {
        Some(SymbolToken::CloseBrace)
    } else if c == ';' {
        Some(SymbolToken::Semicolon)
    } else if c == '"' {
        Some(SymbolToken::Quote)
    } else if c == ' ' || c == '\t' || c == '\n' {
        Some(SymbolToken::Whitespace)
    } else if c == '+' {
        Some(SymbolToken::Plus)
    } else if c == '-' {
        Some(SymbolToken::Minus)
    } else if c == '*' {
        Some(SymbolToken::Asterisk)
    } else if c == '/' {
        Some(SymbolToken::ForwardSlash)
    } else if c == '%' {
        Some(SymbolToken::Percent)
    } else if c == '~' {
        Some(SymbolToken::Tilde)
    } else if c == '!' {
        Some(SymbolToken::Exclamation)
    } else if c == '<' {
        Some(SymbolToken::LeftAngleBracket)
    } else if c == '>' {
        Some(SymbolToken::RightAngleBracket)
    } else if c == '=' {
        Some(SymbolToken::Equal)
    } else {
        None
    }
}

/// The scanner: a source slice with a cursor of the characters consumed.
struct Tokenizer<'a> {
    src: &'a str,
    len: usize,
    pos: usize,
}

impl<'a> Tokenizer<'a> {
    spec fn wf(self) -> bool {
        self.len == self.src@.len() && self.pos <= self.len
    }

    /// The characters not yet consumed.
    spec fn remaining(self) -> Seq<char> {
        self.src@.skip(self.pos as int)
    }

    fn new(src: &'a str) -> (t: Tokenizer<'a>)
        ensures
            t.wf(),
            t.pos == 0,
            t.src@ == src@,
    {
        let len = src.unicode_len();
        Tokenizer { src, len, pos: 0 }
    }

    /// The maximal run of word characters starting at `start`.
    fn word_run(&self, start: usize) -> (n: usize)
        requires
            self.wf(),
            start <= self.len,
        ensures
            n == word_run_len(self.src@.skip(start as int)),
            start + n <= self.len,
    {
        let ghost s = self.src@.skip(start as int);
        let mut i: usize = start;
        loop
            invariant
                self.wf(),
                start <= i <= self.len,
                s == self.src@.skip(start as int),
                forall|j: int| start <= j < i ==> is_word_char(#[trigger] self.src@[j]),
            ensures
                start <= i <= self.len,
                forall|j: int| start <= j < i ==> is_word_char(#[trigger] self.src@[j]),
                i == self.len || !is_word_char(self.src@[i as int]),
            decreases self.len - i,
        {
            if i == self.len {
                break ;
            }
            let c = self.src.get_char(i);
            if !is_word_x(c) {
                break ;
            }
            i = i + 1;
        }
        proof {
            assert(forall|j: int| 0 <= j < i - start ==> is_word_char(#[trigger] s[j]));
            lemma_word_run_index(s, i - start);
        }
        i - start
    }

    /// The maximal run of digit characters starting at `start`.
    fn digit_run(&self, start: usize) -> (n: usize)
        requires
            self.wf(),
            start <= self.len,
        ensures
            n == digit_run_len(self.src@.skip(start as int)),
            start + n <= self.len,
    {
        let ghost s = self.src@.skip(start as int);
        let mut i: usize = start;
        loop
            invariant
                self.wf(),
                start <= i <= self.len,
                s == self.src@.skip(start as int),
                forall|j: int| start <= j < i ==> is_digit_char(#[trigger] self.src@[j]),
            ensures
                start <= i <= self.len,
                forall|j: int| start <= j < i ==> is_digit_char(#[trigger] self.src@[j]),
                i == self.len || !is_digit_char(self.src@[i as int]),
            decreases self.len - i,
        {
            if i == self.len {
                break ;
            }
            let c = self.src.get_char(i);
            if !is_digit_x(c) {
                break ;
            }
            i = i + 1;
        }
        proof {
            assert(forall|j: int| 0 <= j < i - start ==> is_digit_char(#[trigger] s[j]));
            lemma_digit_run_index(s, i - start);
        }
        i - start
    }

    /// The text between two character positions, as an owned string.
    fn substring_string(&self, from: usize, to: usize) -> (r: String)
        requires
            self.wf(),
            from <= to <= self.len,
        ensures
            r@ == self.src@.subrange(from as int, to as int),
    {
        self.src.substring_char(from, to).to_owned()
    }

    /// The word at `start` (of length `n`), classified as a keyword where it
    /// spells one and as an identifier otherwise.
    fn word_token(&self, start: usize, n: usize) -> (t: Token)
        requires
            self.wf(),
            start + n <= self.len,
        ensures
            t@ == (match keyword_of(self.src@.subrange(start as int, (start + n) as int)) {
                Some(k) => SpecToken::Keyword(k),
                None => SpecToken::Identifier(
                    self.src@.subrange(start as int, (start + n) as int),
                ),
            }),
    {
        let ghost w = self.src@.subrange(start as int, (start + n) as int);
        proof {
            reveal_strlit("int");
            reveal_strlit("void");
            reveal_strlit("return");
        }
        if n == 3 {
            let c0 = self.src.get_char(start);
            let c1 = self.src.get_char(start + 1);
            let c2 = self.src.get_char(start + 2);
            if c0 == 'i' && c1 == 'n' && c2 == 't' {
                proof { assert(w =~= "int"@); }
                Token::Keyword(KeywordToken::Int)
            } else {
                proof {
                    assert(w != "int"@) by {
                        if w == "int"@ {
                            assert(w[0] == 'i' && w[1] == 'n' && w[2] == 't');
                        }
                    }
                }
                self.plain_identifier(start, n)
            }
        } else if n == 4 {
            let c0 = self.src.get_char(start);
            let c1 = self.src.get_char(start + 1);
            let c2 = self.src.get_char(start + 2);
            let c3 = self.src.get_char(start + 3);
            if c0 == 'v' && c1 == 'o' && c2 == 'i' && c3 == 'd' {
                proof { assert(w =~= "void"@); }
                Token::Keyword(KeywordToken::Void)
            } else {
                proof {
                    assert(w != "void"@) by {
                        if w == "void"@ {
                            assert(w[0] == 'v' && w[1] == 'o' && w[2] == 'i' && w[3] == 'd');
                        }
                    }
                }
                self.plain_identifier(start, n)
            }
        } else if n == 6 {
            let c0 = self.src.get_char(start);
            let c1 = self.src.get_char(start + 1);
            let c2 = self.src.get_char(start + 2);
            let c3 = self.src.get_char(start + 3);
            let c4 = self.src.get_char(start + 4);
            let c5 = self.src.get_char(start + 5);
            if c0 == 'r' && c1 == 'e' && c2 == 't' && c3 == 'u' && c4 == 'r' && c5 == 'n' {
                proof { assert(w =~= "return"@); }
                Token::Keyword(KeywordToken::Return)
            } else {
                proof {
                    assert(w != "return"@) by {
                        if w == "return"@ {
                            assert(w[0] == 'r' && w[1] == 'e' && w[2] == 't' && w[3] == 'u'
                                && w[4] == 'r' && w[5] == 'n');
                        }
                    }
                }
                self.plain_identifier(start, n)
            }
        } else {
            proof {
                assert(w.len() == n);
                assert(w != "int"@) by {
                    if w == "int"@ {
                        assert(w.len() == 3);
                    }
                }
                assert(w != "void"@) by {
                    if w == "void"@ {
                        assert(w.len() == 4);
                    }
                }
                assert(w != "return"@) by {
                    if w == "return"@ {
                        assert(w.len() == 6);
                    }
                }
            }
            self.plain_identifier(start, n)
        }
    }

    /// An identifier token for a word that spells no keyword.
    fn plain_identifier(&self, start: usize, n: usize) -> (t: Token)
        requires
            self.wf(),
            start + n <= self.len,
            keyword_of(self.src@.subrange(start as int, (start + n) as int)) is None,
        ensures
            t@ == SpecToken::Identifier(self.src@.subrange(start as int, (start + n) as int)),
    {
        Token::Identifier(self.substring_string(start, start + n))
    }

    /// The position of the first newline at or after `start`, relative to the
    /// suffix that begins at `base`.
    fn newline_scan(&self, base: usize, start: usize) -> (j: usize)
        requires
            self.wf(),
            base <= start <= self.len,
        ensures
            j == newline_index(self.src@.skip(base as int), (start - base) as int),
            start - base <= j <= self.len - base,
    {
        let ghost s = self.src@.skip(base as int);
        let mut i: usize = start;
        loop
            invariant
                self.wf(),
                start <= i <= self.len,
                forall|j: int| start <= j < i ==> #[trigger] self.src@[j] != '\n',
            ensures
                start <= i <= self.len,
                forall|j: int| start <= j < i ==> #[trigger] self.src@[j] != '\n',
                i == self.len || self.src@[i as int] == '\n',
            decreases self.len - i,
        {
            if i == self.len {
                break ;
            }
            let c = self.src.get_char(i);
            if c == '\n' {
                break ;
            }
            i = i + 1;
        }
        proof {
            assert(forall|j: int| start - base <= j < i - base ==> #[trigger] s[j] != '\n');
            lemma_newline_index(s, start - base, i - base);
        }
        i - base
    }

    /// The position of the first `*/` at or after `start`, relative to the
    /// suffix that begins at `base`.
    fn block_end_scan(&self, base: usize, start: usize) -> (r: Option<usize>)
        requires
            self.wf(),
            base <= start <= self.len,
        ensures
            match r {
                Some(j) => {
                    &&& block_end_index(self.src@.skip(base as int), (start - base) as int)
                        == Some(j as int)
                    &&& base + j + 2 <= self.len
                    &&& start <= base + j
                },
                None => block_end_index(self.src@.skip(base as int), (start - base) as int)
                    is None,
            },
    {
        let ghost s = self.src@.skip(base as int);
        let mut i: usize = start;
        loop
            invariant
                self.wf(),
                start <= i,
                i <= self.len,
                forall|j: int|
                    start <= j && j + 2 <= i + 1 ==> !(#[trigger] self.src@[j] == '*'
                        && self.src@[j + 1] == '/'),
            ensures
                start <= i <= self.len,
                forall|j: int|
                    start <= j && j + 2 <= i + 1 ==> !(#[trigger] self.src@[j] == '*'
                        && self.src@[j + 1] == '/'),
                i + 1 >= self.len || (self.src@[i as int] == '*' && self.src@[i + 1] == '/'),
            decreases self.len - i,
        {
            if self.len - i < 2 {
                break ;
            }
            let c0 = self.src.get_char(i);
            let c1 = self.src.get_char(i + 1);
            if c0 == '*' && c1 == '/' {
                break ;
            }
            i = i + 1;
        }
        if self.len - i >= 2 {
            proof {
                assert(forall|j: int|
                    start - base <= j < i - base ==> !(#[trigger] s[j] == '*' && s[j + 1] == '/'));
                lemma_block_end_found(s, start - base, i - base);
            }
            Some(i - base)
        } else {
            proof {
                assert(forall|j: int|
                    start - base <= j && j + 2 <= s.len() ==> !(#[trigger] s[j] == '*' && s[j + 1]
                        == '/'));
                lemma_block_end_none(s, start - base);
            }
            None
        }
    }

    /// One scanning step: the next token and how many characters it covers,
    /// or a lexical error naming the offending text.
    fn next_token(&self) -> (r: Result<(usize, Token), CompileError>)
        requires
            self.wf(),
            self.pos < self.len,
        ensures
            match r {
                Ok((n, t)) => {
                    &&& scan_token(self.remaining()) == Some((t@, n as nat))
                    &&& 1 <= n
                    &&& self.pos + n <= self.len
                },
                Err(e) => scan_token(self.remaining()) is None && e.kind == ErrorKind::Lexical,
            },
    {
        let ghost s = self.remaining();
        let c = self.src.get_char(self.pos);
        proof {
            assert(s[0] == c);
        }
        if is_word_start_x(c) {
            let n = self.word_run(self.pos);
            proof {
                assert(word_run_len(s) >= 1);
                assert(s.take(n as int) =~= self.src@.subrange(
                    self.pos as int,
                    (self.pos + n) as int,
                ));
            }
            let t = self.word_token(self.pos, n);
            Ok((n, t))
        } else if is_digit_x(c) {
            let n = self.digit_run(self.pos);
            proof {
                assert(digit_run_len(s) >= 1);
            }
            if self.pos + n < self.len && {
                let cn = self.src.get_char(self.pos + n);
                is_word_start_x(cn) || is_digit_x(cn)
            } {
                proof {
                    assert(s[n as int] == self.src@[(self.pos + n) as int]);
                }
                let mut m = String::new();
                m.append("constant followed by a word character: ");
                m.append(self.src.substring_char(self.pos, self.pos + n).to_owned().as_str());
                Err(CompileError::new(ErrorKind::Lexical, m))
            } else {
                proof {
                    if n < s.len() {
                        assert(s[n as int] == self.src@[(self.pos + n) as int]);
                    }
                    assert(s.take(n as int) =~= self.src@.subrange(
                        self.pos as int,
                        (self.pos + n) as int,
                    ));
                }
                Ok((n, Token::Constant(self.substring_string(self.pos, self.pos + n))))
            }
        } else if c == '/' && self.pos + 1 < self.len && self.src.get_char(self.pos + 1) == '/' {
            proof {
                assert(s[1] == self.src@[self.pos + 1]);
            }
            let j = self.newline_scan(self.pos, self.pos + 2);
            Ok((j, Token::Comment(CommentToken::LineComment)))
        } else if c == '/' && self.pos + 1 < self.len && self.src.get_char(self.pos + 1) == '*' {
            proof {
                assert(s[1] == self.src@[self.pos + 1]);
            }
            match self.block_end_scan(self.pos, self.pos + 2) {
                Some(j) => Ok((j + 2, Token::Comment(CommentToken::BlockComment))),
                None => Err(
                    CompileError::new(
                        ErrorKind::Lexical,
                        String::from_str("unterminated block comment"),
                    ),
                ),
            }
        } else if c == '#' {
            let n = self.word_run(self.pos + 1);
            proof {
                assert(self.src@.skip((self.pos + 1) as int) =~= s.drop_first());
                assert(self.src@.subrange((self.pos + 1) as int, (self.pos + 1 + n) as int)
                    =~= s.subrange(1, 1 + n as int));
            }
            Ok((1 + n, Token::Macro(self.substring_string(self.pos + 1, self.pos + 1 + n))))
        } else {
            if self.pos + 1 < self.len {
                let c1 = self.src.get_char(self.pos + 1);
                proof {
                    assert(s[1] == c1);
                }
                match two_char_symbol(c, c1) {
                    Some(sym) => {
                        return Ok((2, Token::Symbol(sym)));
                    },
                    None => {},
                }
            }
            match one_char_symbol(c) {
                Some(sym) => Ok((1, Token::Symbol(sym))),
                None => {
                    let mut m = String::new();
                    m.append("unrecognized character: ");
                    m.append(
                        self.src.substring_char(self.pos, self.pos + 1).to_owned().as_str(),
                    );
                    Err(CompileError::new(ErrorKind::Lexical, m))
                },
            }
        }
    }

    /// Consume `n` characters.
    fn advance_chars(&mut self, n: usize)
        requires
            old(self).wf(),
            old(self).pos + n <= old(self).len,
        ensures
            final(self).wf(),
            final(self).src == old(self).src,
            final(self).len == old(self).len,
            final(self).pos == old(self).pos + n,
    {
        self.pos = self.pos + n;
    }

    /// Scan the whole input into its raw token sequence.
    fn tokenize(&mut self) -> (r: Result<Vec<Token>, CompileError>)
        requires
            old(self).wf(),
            old(self).pos == 0,
        ensures
            match r {
                Ok(v) => lex_all(old(self).src@) == Some(tokens_view(v@)),
                Err(e) => lex_all(old(self).src@) is None && e.kind == ErrorKind::Lexical,
            },
    {
        let ghost whole = self.src@;
        let mut tokens: Vec<Token> = Vec::new();
        proof {
            assert(whole.skip(0) =~= whole);
            assert(tokens_view(tokens@) =~= Seq::<SpecToken>::empty());
            assert(match lex_all(whole) {
                None => true,
                Some(r) => Seq::<SpecToken>::empty() + r =~= r,
            });
        }
        loop
            invariant
                self.wf(),
                self.src == old(self).src,
                whole == old(self).src@,
                lex_all(whole) == opt_prepend(tokens_view(tokens@), lex_all(self.remaining())),
            decreases self.len - self.pos,
        {
            if self.pos == self.len {
                proof {
                    assert(self.remaining() =~= Seq::<char>::empty());
                    assert(lex_all(Seq::<char>::empty()) == Some(Seq::<SpecToken>::empty()));
                    assert(tokens_view(tokens@) + Seq::<SpecToken>::empty() =~= tokens_view(
                        tokens@,
                    ));
                }
                return Ok(tokens);
            }
            let ghost rem = self.remaining();
            match self.next_token() {
                Ok((n, t)) => {
                    proof {
                        assert(rem.len() > 0);
                        assert(lex_all(rem) == opt_prepend(seq![t@], lex_all(rem.skip(n as int))));
                        assert(rem.skip(n as int) =~= whole.skip((self.pos + n) as int));
                    }
                    let ghost old_tokens = tokens@;
                    tokens.push(t);
                    self.advance_chars(n);
                    proof {
                        assert(tokens_view(tokens@) =~= tokens_view(old_tokens) + seq![t@]);
                        assert(match lex_all(self.remaining()) {
                            None => true,
                            Some(r) => (tokens_view(old_tokens) + seq![t@]) + r =~= tokens_view(
                                old_tokens,
                            ) + (seq![t@] + r),
                        });
                    }
                },
                Err(e) => {
                    proof {
                        assert(rem.len() > 0);
                        assert(lex_all(rem) is None);
                    }
                    return Err(e);
                },
            }
        }
    }
}

/// Whether a token survives post-processing (executable form).
fn keep_token_x(t: &Token) -> (b: bool)
    ensures
        b == keep_token(t@),
{
    match t {
        Token::Symbol(s) => *s != SymbolToken::Whitespace,
        Token::Comment(_) => false,
        _ => true,
    }
}

/// Remove whitespace and comment tokens.
fn postprocess_tokens(tokens: Vec<Token>) -> (r: Vec<Token>)
    ensures
        tokens_view(r@) == visible_tokens(tokens_view(tokens@)),
{
    let mut out: Vec<Token> = Vec::new();
    let mut i: usize = 0;
    proof {
        assert(tokens_view(tokens@.take(0)) =~= Seq::<SpecToken>::empty());
    }
    while i < tokens.len()
        invariant
            i <= tokens.len(),
            tokens_view(out@) == visible_tokens(tokens_view(tokens@.take(i as int))),
        decreases tokens.len() - i,
    {
        let ghost pre = tokens_view(tokens@.take(i as int));
        let t = &tokens[i];
        proof {
            assert(tokens_view(tokens@.take(i + 1)) =~= pre + seq![t@]);
            lemma_visible_tokens_add(pre, seq![t@]);
            assert(seq![t@].drop_first() =~= Seq::<SpecToken>::empty());
            assert(visible_tokens(Seq::<SpecToken>::empty()) == Seq::<SpecToken>::empty());
            assert(visible_tokens(seq![t@]) =~= (if keep_token(t@) {
                seq![t@]
            } else {
                Seq::<SpecToken>::empty()
            }));
        }
        if keep_token_x(t) {
            let ghost old_out = out@;
            let c = t.clone();
            out.push(c);
            proof {
                assert(tokens_view(out@) =~= tokens_view(old_out) + seq![t@]);
            }
        } else {
            proof {
                assert(tokens_view(out@) + Seq::<SpecToken>::empty() =~= tokens_view(out@));
            }
        }
        i = i + 1;
    }
    proof {
        assert(tokens@.take(tokens@.len() as int) =~= tokens@);
    }
    out
}

/// Lex a source string into its visible tokens.
///
/// For every input that matches the token grammar the result is exactly the
/// token sequence with whitespace and comments removed; for every other
/// input the result is a lexical error.
pub fn lex(code: String) -> (r: Result<Vec<Token>, CompileError>)
    ensures
        match r {
            Ok(v) => lex_spec(code@) == Some(tokens_view(v@)),
            Err(e) => lex_spec(code@) is None && e.kind == ErrorKind::Lexical,
        },
{
    let mut t = Tokenizer::new(code.as_str());
    match t.tokenize() {
        Ok(v) => Ok(postprocess_tokens(v)),
        Err(e) => Err(e),
    }
}

} // verus!
