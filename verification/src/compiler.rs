use vstd::prelude::*;

use crate::ast::StmtV;
use crate::codegen::{spec_generate, CodeGenerator, GenStateV};
use crate::constant_pool::ConstantPool;
use crate::lexer::{spec_tokenize, LexError, LexStateV, Lexer};
use crate::parser::{spec_parse, view_parse_error, ParseError, ParseErrorV, Parser};

verus! {

/// The immutable compiled artifact: the flat bytecode buffer and the
/// constant pool it references.
pub struct CompiledProgram {
    pub bytecode: Vec<u8>,
    pub pool: ConstantPool,
}

/// A structured compile failure: lexical or syntactic.
#[derive(Debug)]
pub enum CompileError {
    Lexical(LexError),
    Syntax(ParseError),
}

/// The shape of a compile failure.
pub enum CompileErrorV {
    Lexical(LexError),
    Syntax(ParseErrorV),
}

/// The shape of a compile failure.
pub open spec fn view_compile_error(e: CompileError) -> CompileErrorV {
    match e {
        CompileError::Lexical(le) => CompileErrorV::Lexical(le),
        CompileError::Syntax(pe) => CompileErrorV::Syntax(view_parse_error(pe)),
    }
}

/// What compiling a source text yields: the tokens of the text, parsed
/// into statements, lowered to one bytecode buffer and constant pool; or
/// the first lexical or syntax error.  This is a function of the source
/// text alone.
pub open spec fn spec_compile(src: Seq<char>) -> Result<GenStateV, CompileErrorV> {
    match spec_tokenize(src, LexStateV { pos: 0, line: 1, col: 1 }) {
        Err(e) => Err(CompileErrorV::Lexical(e)),
        Ok(toks) => match spec_parse(toks) {
            Err(e) => Err(CompileErrorV::Syntax(e)),
            Ok(stmts) => Ok(spec_generate(stmts)),
        },
    }
}

/// Compile source text into a compiled artifact, or report the first
/// lexical or syntax error.  The result is exactly `spec_compile` of the
/// text.
pub fn compile(source: &str) -> (r: Result<CompiledProgram, CompileError>)
    ensures
        match spec_compile(source@) {
            Ok(g) => r is Ok && r->Ok_0.bytecode@ == g.code && r->Ok_0.pool@ == g.pool,
            Err(e) => r is Err && view_compile_error(r->Err_0) == e,
        },
{
    let mut lexer = Lexer::new(source.to_owned());
    let tokens = match lexer.tokenize() {
        Ok(t) => t,
        Err(e) => {
            return Err(CompileError::Lexical(e));
        },
    };

    let mut parser = Parser::new(tokens);
    let program = match parser.parse() {
        Ok(p) => p,
        Err(e) => {
            return Err(CompileError::Syntax(e));
        },
    };

    let codegen = CodeGenerator::new();
    Ok(codegen.generate(&program))
}

/// **Verifier completeness.**  Bytecode produced from any successfully
/// parsed program always passes verification: a successful `compile`
/// yields exactly `spec_compile`'s artifact, and its code always satisfies
/// the structural scan, so `verify` accepts it.  The one excluded input is
/// an artifact of 2^32 bytes or more, where the 4-byte jump operands can
/// no longer hold the patched offsets.
pub proof fn lemma_verifier_completeness(src: Seq<char>)
    requires
        spec_compile(src) is Ok,
        spec_compile(src)->Ok_0.code.len() < 0x1_0000_0000,
    ensures
        crate::checker::spec_verify_ok(spec_compile(src)->Ok_0.code),
{
    match spec_tokenize(src, LexStateV { pos: 0, line: 1, col: 1 }) {
        Err(_) => {
            assert(false);
        },
        Ok(toks) => match spec_parse(toks) {
            Err(_) => {
                assert(false);
            },
            Ok(stmts) => {
                crate::codegen::lemma_generate_verifies(stmts);
            },
        },
    }
}

/// **Determinism.**  Compiling identical source text twice yields
/// byte-identical bytecode and byte-identical constant pools: `compile`
/// pins its artifact to `spec_compile` of the text, which is a function,
/// so any two successful compilations of equal text agree exactly.
pub proof fn lemma_compile_deterministic(
    src1: Seq<char>,
    src2: Seq<char>,
    code1: Seq<u8>,
    pool1: Seq<i64>,
    code2: Seq<u8>,
    pool2: Seq<i64>,
)
    requires
        src1 == src2,
        spec_compile(src1) is Ok,
        code1 == spec_compile(src1)->Ok_0.code,
        pool1 == spec_compile(src1)->Ok_0.pool,
        code2 == spec_compile(src2)->Ok_0.code,
        pool2 == spec_compile(src2)->Ok_0.pool,
    ensures
        code1 == code2,
        pool1 == pool2,
{
}

} // verus!
