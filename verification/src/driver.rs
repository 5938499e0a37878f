//! The compilation pipeline as one function from source text to assembly
//! text, and the path utility the surrounding program uses.

use vstd::prelude::*;

use crate::diagnostics::{CompileError, ErrorKind};
use crate::emitter::{emit_program, lemma_legalized_no_pseudos, program_text};
use crate::generator::{gen_program_spec, generate_program};
use crate::lexer::{lex, lex_spec};
use crate::parser::{parse_program, parse_program_spec};
use crate::tacker::{program_counters_bounded, tack_program, tack_program_spec};

verus! {

/// What compiling a source text yields: the assembly text exactly when
/// every stage accepts, and nothing otherwise.
pub open spec fn compile_outcome(s: Seq<char>) -> Option<Seq<char>> {
    match lex_spec(s) {
        None => None,
        Some(toks) => match parse_program_spec(toks) {
            None => None,
            Some(ast) => match tack_program_spec(ast) {
                None => None,
                Some(tac) => match gen_program_spec(tac) {
                    None => None,
                    Some(assembly) => Some(program_text(assembly)),
                },
            },
        },
    }
}

/// Whether the lowering counters of a source's program stay representable;
/// vacuously true when the source does not parse. No real input comes
/// close to the bound.
pub open spec fn pipeline_counters_ok(s: Seq<char>) -> bool {
    match lex_spec(s) {
        None => true,
        Some(toks) => match parse_program_spec(toks) {
            None => true,
            Some(ast) => program_counters_bounded(ast),
        },
    }
}

/// Compile one preprocessed source text to assembly text.
///
/// The result is the composed outcome of the verified stages: lexing,
/// parsing, lowering to three-address code, code generation with the
/// post-generation pass, and emission. Each error carries the kind of the
/// stage that rejected the input.
pub fn compile_source(code: String) -> (r: Result<String, CompileError>)
    ensures
        match r {
            Ok(out) => compile_outcome(code@) == Some(out@),
            Err(e) => {
                &&& !(compile_outcome(code@) is Some && pipeline_counters_ok(code@))
                &&& (e.kind == ErrorKind::Lexical <==> lex_spec(code@) is None)
                &&& (e.kind == ErrorKind::Syntactic <==> lex_spec(code@) is Some
                    && parse_program_spec(lex_spec(code@)->Some_0) is None)
            },
        },
{
    let tokens = match lex(code) {
        Ok(v) => v,
        Err(e) => {
            return Err(e);
        },
    };
    let syntax_tree = match parse_program(&tokens) {
        Ok(p) => p,
        Err(e) => {
            return Err(e);
        },
    };
    let tacky = match tack_program(syntax_tree) {
        Ok(t) => t,
        Err(e) => {
            return Err(e);
        },
    };
    let codegen = match generate_program(tacky) {
        Ok(a) => a,
        Err(e) => {
            return Err(e);
        },
    };
    proof {
        match codegen@ {
            crate::asm_tree::SpecAProgram::Program(af) => match af {
                crate::asm_tree::SpecAFunction::Function(name, body) => {
                    lemma_legalized_no_pseudos(body);
                },
            },
        }
    }
    let mut buffer = String::new();
    emit_program(codegen, &mut buffer);
    Ok(buffer)
}

/// Positions `j >= i` where `.c` occurs in the text.
pub open spec fn dotc_count(s: Seq<char>, i: int) -> int
    decreases s.len() - i,
{
    if !(0 <= i) || i + 2 > s.len() {
        0
    } else if s[i] == '.' && s[i + 1] == 'c' {
        1 + dotc_count(s, i + 1)
    } else {
        dotc_count(s, i + 1)
    }
}

/// The first position where `.c` occurs, or the length if none.
pub open spec fn dotc_first(s: Seq<char>, i: int) -> int
    decreases s.len() - i,
{
    if !(0 <= i) || i + 2 > s.len() {
        s.len() as int
    } else if s[i] == '.' && s[i + 1] == 'c' {
        i
    } else {
        dotc_first(s, i + 1)
    }
}

/// The executable's name: the input path up to its `.c` suffix marker,
/// accepted only when `.c` occurs exactly once in the path.
pub fn get_executable_name(src_path: &String) -> (r: Option<String>)
    ensures
        match r {
            Some(name) => dotc_count(src_path@, 0) == 1 && name@ == src_path@.take(
                dotc_first(src_path@, 0),
            ),
            None => dotc_count(src_path@, 0) != 1,
        },
{
    let ghost s = src_path@;
    let st = src_path.as_str();
    let n = st.unicode_len();
    let mut i: usize = 0;
    let mut count: usize = 0;
    let mut first: usize = n;
    while n - i >= 2
        invariant
            st@ == s,
            n == s.len(),
            i <= n,
            count <= i,
            count as int == dotc_count(s, 0) - dotc_count(s, i as int),
            first as int == if count == 0 {
                s.len() as int
            } else {
                dotc_first(s, 0)
            },
            first <= n,
            count == 0 ==> forall|j: int|
                0 <= j < i ==> !(#[trigger] s[j] == '.' && s[j + 1] == 'c'),
        decreases n - i,
    {
        let c0 = st.get_char(i);
        let c1 = st.get_char(i + 1);
        if c0 == '.' && c1 == 'c' {
            if count == 0 {
                first = i;
                proof {
                    lemma_dotc_first_at(s, 0, i as int);
                }
            }
            count = count + 1;
        }
        i = i + 1;
    }
    proof {
        assert(dotc_count(s, i as int) == 0);
    }
    if count == 1 {
        Some(st.substring_char(0, first).to_owned())
    } else {
        None
    }
}

/// An index-based characterization of [`dotc_first`].
proof fn lemma_dotc_first_at(s: Seq<char>, i: int, k: int)
    requires
        0 <= i <= k,
        k + 2 <= s.len(),
        forall|j: int| i <= j < k ==> !(#[trigger] s[j] == '.' && s[j + 1] == 'c'),
        s[k] == '.' && s[k + 1] == 'c',
    ensures
        dotc_first(s, i) == k,
    decreases k - i,
{
    if i < k {
        lemma_dotc_first_at(s, i + 1, k);
    }
}

} // verus!
