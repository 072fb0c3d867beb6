use tapelang::interpreter::{Interpreter, RunStatus};
use tapelang::parser::{Parser, ParserError};
use tapelang::program::{Instruction, Program};
use tapelang::semantics::RuntimeError;
use tapelang::EofBehaviour;

const FUEL: u64 = 1_000_000;

fn parse(src: &str) -> Program {
    let mut p = Parser::new(src.as_bytes().to_vec());
    p.parse().expect("program should parse")
}

fn run_with(
    src: &str,
    input: Vec<u8>,
    max: usize,
    eof: EofBehaviour,
) -> (RunStatus, Vec<u8>) {
    let program = parse(src);
    let mut interp = Interpreter::new(max, eof);
    let status = interp.run(&program, input, FUEL);
    (status, interp.output)
}

#[test]
fn multiply_loop_outputs_36() {
    // six outer iterations adding six each: 6 x 6 = 36, the byte of '$'
    let (status, out) = run_with("++++++[>++++++<-]>.", Vec::new(), 30_000, EofBehaviour::Ignore);
    assert_eq!(status, RunStatus::Done);
    assert_eq!(out, vec![36u8]);
}

#[test]
fn multiply_loop_eight_inner_outputs_48() {
    // the same loop with eight inner increments: 6 x 8 = 48, the byte of '0'
    let (status, out) =
        run_with("++++++[>++++++++<-]>.", Vec::new(), 30_000, EofBehaviour::Ignore);
    assert_eq!(status, RunStatus::Done);
    assert_eq!(out, vec![48u8]);
}

#[test]
fn echo_one_byte() {
    let (status, out) = run_with(",.", vec![65u8], 1, EofBehaviour::Ignore);
    assert_eq!(status, RunStatus::Done);
    assert_eq!(out, vec![65u8]);
}

#[test]
fn move_right_out_of_bounds_fails() {
    let (status, out) = run_with(">", Vec::new(), 1, EofBehaviour::Ignore);
    assert_eq!(status, RunStatus::Failed(RuntimeError::MovedRightOutOfBounds));
    assert!(out.is_empty());
}

#[test]
fn move_left_out_of_bounds_fails() {
    let (status, _) = run_with("<", Vec::new(), 30_000, EofBehaviour::Ignore);
    assert_eq!(status, RunStatus::Failed(RuntimeError::MovedLeftOutOfBounds));
}

#[test]
fn increment_then_decrement_is_noop() {
    let (status, out) = run_with("+-.", Vec::new(), 30_000, EofBehaviour::Ignore);
    assert_eq!(status, RunStatus::Done);
    assert_eq!(out, vec![0u8]);
}

#[test]
fn decrement_wraps_to_255() {
    let (status, out) = run_with("-.", Vec::new(), 30_000, EofBehaviour::Ignore);
    assert_eq!(status, RunStatus::Done);
    assert_eq!(out, vec![255u8]);
}

#[test]
fn growth_preserves_written_bytes() {
    // write 7 at index 0, force several doublings, come back, read it back
    let (status, out) =
        run_with("+++++++>>>>>>><<<<<<<.", Vec::new(), 100, EofBehaviour::Ignore);
    assert_eq!(status, RunStatus::Done);
    assert_eq!(out, vec![7u8]);
}

#[test]
fn loop_on_zero_cell_runs_zero_times() {
    // the body never runs, so even a zero step budget completes
    let program = parse("[+++].");
    let mut interp = Interpreter::new(10, EofBehaviour::Ignore);
    let status = interp.run(&program, Vec::new(), 0);
    assert_eq!(status, RunStatus::Done);
    assert_eq!(interp.output, vec![0u8]);
}

#[test]
fn nonterminating_loop_runs_out_of_steps() {
    let (status, _) = run_with("+[]", Vec::new(), 10, EofBehaviour::Ignore);
    assert_eq!(status, RunStatus::OutOfSteps);
}

#[test]
fn eof_ignore_leaves_cell_unchanged() {
    let (status, out) = run_with("+++,.", Vec::new(), 10, EofBehaviour::Ignore);
    assert_eq!(status, RunStatus::Done);
    assert_eq!(out, vec![3u8]);
}

#[test]
fn eof_zero_clears_cell() {
    let (status, out) = run_with("+++,.", Vec::new(), 10, EofBehaviour::Zero);
    assert_eq!(status, RunStatus::Done);
    assert_eq!(out, vec![0u8]);
}

#[test]
fn eof_after_draining_input_ignore() {
    // first read consumes the only byte; the second read hits end-of-stream
    let (status, out) = run_with(",,.", vec![65u8], 10, EofBehaviour::Ignore);
    assert_eq!(status, RunStatus::Done);
    assert_eq!(out, vec![65u8]);
}

#[test]
fn eof_after_draining_input_zero() {
    let (status, out) = run_with(",,.", vec![65u8], 10, EofBehaviour::Zero);
    assert_eq!(status, RunStatus::Done);
    assert_eq!(out, vec![0u8]);
}

#[test]
fn debug_records_tape_and_cursor() {
    let program = parse("+>#");
    let mut interp = Interpreter::new(10, EofBehaviour::Ignore);
    let status = interp.run(&program, Vec::new(), FUEL);
    assert_eq!(status, RunStatus::Done);
    assert_eq!(interp.dumps.len(), 1);
    assert_eq!(interp.dumps[0].array, vec![1u8, 0u8]);
    assert_eq!(interp.dumps[0].pointer, 1);
}

#[test]
fn tape_persists_across_runs() {
    let mut interp = Interpreter::new(10, EofBehaviour::Ignore);
    let status = interp.run(&parse("+++"), Vec::new(), FUEL);
    assert_eq!(status, RunStatus::Done);
    let status = interp.run(&parse("."), Vec::new(), FUEL);
    assert_eq!(status, RunStatus::Done);
    assert_eq!(interp.output, vec![3u8]);
}

#[test]
fn parse_simple_program() {
    let program = parse("+-><.,#");
    let kinds = &program.instructions;
    assert_eq!(kinds.len(), 7);
    assert!(matches!(kinds[0], Instruction::Increment));
    assert!(matches!(kinds[1], Instruction::Decrement));
    assert!(matches!(kinds[2], Instruction::Right));
    assert!(matches!(kinds[3], Instruction::Left));
    assert!(matches!(kinds[4], Instruction::Output));
    assert!(matches!(kinds[5], Instruction::Input));
    assert!(matches!(kinds[6], Instruction::Debug));
}

#[test]
fn parse_skips_comment_bytes() {
    let program = parse("say + and then - done");
    assert_eq!(program.instructions.len(), 2);
    assert!(matches!(program.instructions[0], Instruction::Increment));
    assert!(matches!(program.instructions[1], Instruction::Decrement));
}

#[test]
fn parse_nested_loops() {
    let program = parse("+[>[-]<]");
    assert_eq!(program.instructions.len(), 2);
    match &program.instructions[1] {
        Instruction::Loop(body) => {
            assert_eq!(body.len(), 3);
            match &body[1] {
                Instruction::Loop(inner) => {
                    assert_eq!(inner.len(), 1);
                    assert!(matches!(inner[0], Instruction::Decrement));
                },
                other => panic!("expected a nested loop, got {:?}", other),
            }
        },
        other => panic!("expected a loop, got {:?}", other),
    }
}

#[test]
fn parse_empty_source_is_empty_program() {
    let program = parse("");
    assert!(program.instructions.is_empty());
}

#[test]
fn unclosed_bracket_reports_its_line() {
    let mut p = Parser::new("++\n+[-\n".as_bytes().to_vec());
    let err = p.parse().expect_err("an unclosed bracket must be rejected");
    assert_eq!(err, ParserError::MismatchedBracket(2));
}

#[test]
fn stray_close_bracket_reports_its_line() {
    let mut p = Parser::new("\n\n]".as_bytes().to_vec());
    let err = p.parse().expect_err("a stray close bracket must be rejected");
    assert_eq!(err, ParserError::MismatchedBracket(3));
}

#[test]
fn close_after_balanced_loop_is_rejected() {
    let mut p = Parser::new("[]]".as_bytes().to_vec());
    let err = p.parse().expect_err("the extra close bracket must be rejected");
    assert_eq!(err, ParserError::MismatchedBracket(1));
}

#[test]
fn sufficient_fuel_does_not_change_the_outcome() {
    let program = parse("++++++[>++++++<-]>.");
    let mut small = Interpreter::new(100, EofBehaviour::Ignore);
    let mut large = Interpreter::new(100, EofBehaviour::Ignore);
    assert_eq!(small.run(&program, Vec::new(), 50), RunStatus::Done);
    assert_eq!(large.run(&program, Vec::new(), u64::MAX), RunStatus::Done);
    assert_eq!(small.output, large.output);
    assert_eq!(small.output, vec![36u8]);
}
