//! An interpreter for a minimal character-based esoteric language operating
//! on a tape of numeric cells: a single-pass parser with bracket backpatching
//! and a fetch-decode-execute tape machine with configurable cell width and
//! tape-growth policy.

use vstd::prelude::*;

pub mod interpreter;
pub mod parser;
pub mod types;

pub use interpreter::MachineView;
pub use interpreter::Runtime;
pub use types::Bytecode;
pub use types::CellSize;
pub use types::ExecutionConfig;
pub use types::Instr;
pub use types::ParseError;
pub use types::TapePolicy;
pub use types::DEFAULT_TAPE_SIZE;

use interpreter::initial_machine;
use interpreter::run_bounded;
use parser::balanced;
use parser::filter_lang;
use parser::parse_err_post;
use parser::parse_ok_post;

verus! {

/// The default fixed-wrap configuration with the given cell width.
pub open spec fn default_config(cell_size: CellSize) -> ExecutionConfig {
    ExecutionConfig {
        cell_width: cell_size,
        tape_policy: TapePolicy::FixedWrap(DEFAULT_TAPE_SIZE),
    }
}

/// Create a new runtime from source code: parse it, then build a fresh
/// machine with the given cell size on a fixed wrapping tape of the default
/// length. Fails exactly where [`parser::parse`] fails, with its error.
pub fn create_runtime(src: &str, cell_size: CellSize) -> (r: Result<Runtime, ParseError>)
    ensures
        r is Ok <==> balanced(filter_lang(src@)),
        match r {
            Ok(rt) => {
                &&& rt.wf()
                &&& parse_ok_post(filter_lang(src@), rt@.prog)
                &&& rt@ == initial_machine(rt@.prog, default_config(cell_size))
            },
            Err(e) => parse_err_post(filter_lang(src@), e),
        },
{
    let bytecode = match parser::parse(src) {
        Ok(b) => b,
        Err(e) => {
            return Err(e);
        },
    };
    Ok(Runtime::new(bytecode, cell_size))
}

/// Parse a program and execute it with no input for at most `max_steps`
/// instructions, returning the values it emitted. Fails exactly where
/// [`parser::parse`] fails, with its error.
pub fn run(src: &str, cell_size: CellSize, max_steps: usize) -> (r: Result<
    Vec<u64>,
    ParseError,
>)
    ensures
        r is Ok <==> balanced(filter_lang(src@)),
        match r {
            Ok(out) => exists|prog: Seq<Instr>| {
                &&& #[trigger] parse_ok_post(filter_lang(src@), prog)
                &&& out@ == run_bounded(
                    initial_machine(prog, default_config(cell_size)),
                    max_steps as nat,
                ).output
            },
            Err(e) => parse_err_post(filter_lang(src@), e),
        },
{
    let mut runtime = match create_runtime(src, cell_size) {
        Ok(rt) => rt,
        Err(e) => {
            return Err(e);
        },
    };
    let ghost prog = runtime@.prog;
    runtime.run(max_steps);
    let out = runtime.into_output();
    proof {
        assert(parse_ok_post(filter_lang(src@), prog));
    }
    Ok(out)
}

} // verus!
