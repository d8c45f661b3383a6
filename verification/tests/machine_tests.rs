use lobe::parser::parse;
use lobe::{
    create_runtime, run, CellSize, ExecutionConfig, Instr, ParseError, Runtime, TapePolicy,
    DEFAULT_TAPE_SIZE,
};

const STEPS: usize = 1_000_000;

#[test]
fn parse_concrete_targets() {
    // "++[>+<-]" parses to 8 instructions with the brackets at indices 2
    // and 7 referencing each other.
    let b = parse("++[>+<-]").unwrap();
    assert_eq!(b.instrs.len(), 8);
    assert_eq!(b.instrs[0], Instr::IncrementCell);
    assert_eq!(b.instrs[1], Instr::IncrementCell);
    assert_eq!(b.instrs[2], Instr::BranchIfZero(7));
    assert_eq!(b.instrs[3], Instr::MovePointerForward);
    assert_eq!(b.instrs[4], Instr::IncrementCell);
    assert_eq!(b.instrs[5], Instr::MovePointerBackward);
    assert_eq!(b.instrs[6], Instr::DecrementCell);
    assert_eq!(b.instrs[7], Instr::BranchIfNonZero(2));
}

#[test]
fn parse_round_trip_targets() {
    // Every branch target points at an instruction that points back.
    let b = parse("[[][]][]").unwrap();
    for (i, instr) in b.instrs.iter().enumerate() {
        match *instr {
            Instr::BranchIfZero(t) => {
                assert!(i < t && t < b.instrs.len());
                assert_eq!(b.instrs[t], Instr::BranchIfNonZero(i));
            }
            Instr::BranchIfNonZero(t) => {
                assert!(t < i);
                assert_eq!(b.instrs[t], Instr::BranchIfZero(i));
            }
            _ => {}
        }
    }
}

#[test]
fn parse_unmatched_close() {
    assert_eq!(parse("++>+<-]").unwrap_err(), ParseError::UnmatchedCloseBracket);
    assert_eq!(parse("]").unwrap_err(), ParseError::UnmatchedCloseBracket);
    // A close-bracket underflow is reported even when opens are left too.
    assert_eq!(parse("][[").unwrap_err(), ParseError::UnmatchedCloseBracket);
}

#[test]
fn parse_unmatched_open_count() {
    assert_eq!(
        parse("[[[").unwrap_err(),
        ParseError::UnmatchedOpenBracket { count: 3 }
    );
    assert_eq!(
        parse("++[>+<-").unwrap_err(),
        ParseError::UnmatchedOpenBracket { count: 1 }
    );
    assert_eq!(
        parse("[][").unwrap_err(),
        ParseError::UnmatchedOpenBracket { count: 1 }
    );
}

#[test]
fn parse_ignores_non_language_characters() {
    // Comments are stripped before anything else: both sources parse to
    // the same single-instruction program.
    let a = parse("abc+xyz").unwrap();
    let b = parse("+").unwrap();
    assert_eq!(a.instrs, b.instrs);
    assert_eq!(a.instrs, vec![Instr::IncrementCell]);
}

#[test]
fn parse_empty_source() {
    let b = parse("").unwrap();
    assert_eq!(b.instrs.len(), 0);
}

#[test]
fn empty_program_performs_no_io() {
    let mut rt = create_runtime("", CellSize::Bits8).unwrap();
    assert!(rt.halted());
    let done = rt.run(STEPS);
    assert!(done);
    assert_eq!(rt.output(), &Vec::<u64>::new());
}

#[test]
fn output_code_point_five_exactly_once() {
    // Two fresh executions of the same source behave identically.
    for _ in 0..2 {
        let mut rt = create_runtime("+++++.", CellSize::Bits8).unwrap();
        let done = rt.run(STEPS);
        assert!(done);
        assert_eq!(rt.output(), &vec![5u64]);
    }
}

#[test]
fn overflow_wraps_to_zero() {
    // 255 increments reach the maximum; one more wraps to 0.
    let mut src = "+".repeat(256);
    src.push('.');
    let mut rt = create_runtime(&src, CellSize::Bits8).unwrap();
    let done = rt.run(STEPS);
    assert!(done);
    assert_eq!(rt.output(), &vec![0u64]);
}

#[test]
fn underflow_wraps_to_max() {
    let mut rt = create_runtime("-.", CellSize::Bits8).unwrap();
    assert!(rt.run(STEPS));
    assert_eq!(rt.output(), &vec![255u64]);

    let config = ExecutionConfig {
        cell_width: CellSize::Bits16,
        tape_policy: TapePolicy::FixedWrap(16),
    };
    let mut rt = Runtime::with_config(parse("-.").unwrap(), config);
    assert!(rt.run(STEPS));
    assert_eq!(rt.output(), &vec![65535u64]);
}

#[test]
fn pointer_wraps_on_fixed_tape() {
    // Decrementing the data pointer at index 0 moves it to size - 1.
    let mut rt = create_runtime("<", CellSize::Bits8).unwrap();
    assert!(rt.run(STEPS));
    assert_eq!(rt.data_pointer(), DEFAULT_TAPE_SIZE - 1);

    // Incrementing it at size - 1 moves it back to 0.
    let config = ExecutionConfig {
        cell_width: CellSize::Bits8,
        tape_policy: TapePolicy::FixedWrap(5),
    };
    let mut rt = Runtime::with_config(parse(">>>>>").unwrap(), config);
    assert!(rt.run(STEPS));
    assert_eq!(rt.data_pointer(), 0);
}

#[test]
fn grow_on_demand_doubles_and_zero_fills() {
    let config = ExecutionConfig {
        cell_width: CellSize::Bits8,
        tape_policy: TapePolicy::GrowOnDemand(2),
    };
    let mut rt = Runtime::with_config(parse(">>>+.").unwrap(), config);
    assert!(rt.run(STEPS));
    // Moving to index 2 doubled the two-cell tape; index 3 then fit.
    assert_eq!(rt.tape_len(), 4);
    assert_eq!(rt.data_pointer(), 3);
    // The written cell reads back; all other grown cells read as 0.
    assert_eq!(rt.output(), &vec![1u64]);
    assert_eq!(rt.cell_at(2), 0);
    assert_eq!(rt.cell_at(3), 1);
}

#[test]
fn grow_on_demand_wraps_left_at_zero() {
    let config = ExecutionConfig {
        cell_width: CellSize::Bits8,
        tape_policy: TapePolicy::GrowOnDemand(8),
    };
    let mut rt = Runtime::with_config(parse("<").unwrap(), config);
    assert!(rt.run(STEPS));
    assert_eq!(rt.data_pointer(), 7);
}

#[test]
fn loop_terminates_with_zero_cell() {
    let mut rt = create_runtime("+++++[-]", CellSize::Bits8).unwrap();
    let done = rt.run(STEPS);
    assert!(done);
    assert_eq!(rt.current_cell(), 0);
    assert_eq!(rt.output(), &Vec::<u64>::new());
}

#[test]
fn nested_loops_multiply() {
    // 2 * 2 * 2 lands in the third cell.
    let mut rt = create_runtime("++[>++[>++<-]<-]", CellSize::Bits8).unwrap();
    assert!(rt.run(STEPS));
    assert_eq!(rt.cell_at(2), 8);
}

#[test]
fn input_reads_bytes_in_order() {
    let mut rt = create_runtime(",.,.", CellSize::Bits8).unwrap();
    rt.set_input(vec![65, 66]);
    assert!(rt.run(STEPS));
    assert_eq!(rt.output(), &vec![65u64, 66u64]);
}

#[test]
fn input_end_stores_zero() {
    // End of input is not an error: the cell is set to 0.
    let mut rt = create_runtime("+++,.", CellSize::Bits8).unwrap();
    assert!(rt.run(STEPS));
    assert_eq!(rt.output(), &vec![0u64]);
}

#[test]
fn needs_input_and_push_input() {
    let mut rt = create_runtime(",.", CellSize::Bits8).unwrap();
    assert!(rt.needs_input());
    rt.push_input(7);
    assert!(!rt.needs_input());
    let emitted = rt.step();
    assert_eq!(emitted, None);
    assert_eq!(rt.current_cell(), 7);
    let emitted = rt.step();
    assert_eq!(emitted, Some(7));
    assert!(rt.halted());
}

#[test]
fn step_reports_emitted_values() {
    let mut rt = create_runtime("+.", CellSize::Bits8).unwrap();
    assert!(!rt.halted());
    assert_eq!(rt.step(), None);
    assert_eq!(rt.step(), Some(1));
    assert!(rt.halted());
}

#[test]
fn run_budget_resumes() {
    // A budget too small stops early; running on finishes the program.
    let mut rt = create_runtime("+++.", CellSize::Bits8).unwrap();
    let done = rt.run(2);
    assert!(!done);
    assert!(!rt.halted());
    let done = rt.run(STEPS);
    assert!(done);
    assert_eq!(rt.output(), &vec![3u64]);
}

#[test]
fn free_run_returns_output() {
    assert_eq!(run("+++++.", CellSize::Bits8, STEPS), Ok(vec![5u64]));
    assert_eq!(run("", CellSize::Bits8, STEPS), Ok(vec![]));
    assert_eq!(
        run("]", CellSize::Bits8, STEPS),
        Err(ParseError::UnmatchedCloseBracket)
    );
    assert_eq!(
        run("[", CellSize::Bits8, STEPS),
        Err(ParseError::UnmatchedOpenBracket { count: 1 })
    );
}

#[test]
fn hello_world_text() {
    let hello_world = "++++++++[>++++[>++>+++>+++>+<<<<-]>+>+>->>+[<]<-]>>.>---.+++++++..+++.>>.<-.<.+++.------.--------.>>+.>++.";
    let mut rt = create_runtime(hello_world, CellSize::Bits8).unwrap();
    assert!(rt.run(STEPS));
    let text: String = rt
        .output()
        .iter()
        .map(|&v| CellSize::Bits8.to_char(v).unwrap())
        .collect();
    assert_eq!(text, "Hello World!\n");
}

#[test]
fn max_value_per_width() {
    assert_eq!(CellSize::Bits8.max_value(), 255);
    assert_eq!(CellSize::Bits16.max_value(), 65535);
    assert_eq!(CellSize::Bits32.max_value(), 4294967295);
    assert_eq!(CellSize::Bits64.max_value(), u64::MAX);
}

#[test]
fn mask_reduces_modulo_width() {
    assert_eq!(CellSize::Bits8.mask(300), 44);
    assert_eq!(CellSize::Bits8.mask(255), 255);
    assert_eq!(CellSize::Bits16.mask(70000), 4464);
    assert_eq!(CellSize::Bits32.mask(u64::MAX), 4294967295);
    assert_eq!(CellSize::Bits64.mask(u64::MAX), u64::MAX);
}

#[test]
fn to_char_only_for_eight_bits() {
    assert_eq!(CellSize::Bits8.to_char(72), Some('H'));
    assert_eq!(CellSize::Bits8.to_char(300), Some(','));
    assert_eq!(CellSize::Bits16.to_char(72), None);
    assert_eq!(CellSize::Bits32.to_char(72), None);
    assert_eq!(CellSize::Bits64.to_char(72), None);
}

#[test]
fn default_config_is_fixed_wrap_eight_bits() {
    let config = ExecutionConfig::default();
    assert_eq!(config.cell_width, CellSize::Bits8);
    assert_eq!(config.tape_policy, TapePolicy::FixedWrap(DEFAULT_TAPE_SIZE));
}

#[test]
fn wide_cells_emit_numeric_values() {
    // Above 8 bits there is no character encoding; the machine still
    // emits the numeric cell value.
    let config = ExecutionConfig {
        cell_width: CellSize::Bits64,
        tape_policy: TapePolicy::FixedWrap(16),
    };
    let mut rt = Runtime::with_config(parse("-.").unwrap(), config);
    assert!(rt.run(STEPS));
    assert_eq!(rt.output(), &vec![u64::MAX]);
}
