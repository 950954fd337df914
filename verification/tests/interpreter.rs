use brainfuck_interpreter::engine::{interpret, is_operator, Engine, StepStatus};
use brainfuck_interpreter::semantics::Fatal;

const BUDGET: usize = 10_000_000;

fn run_program(program: &str, input: &[u8], wrapping: bool, size: usize) -> (Vec<u8>, StepStatus) {
    interpret(
        program.as_bytes().to_vec(),
        input.to_vec(),
        wrapping,
        size,
        BUDGET,
    )
}

#[test]
fn test_hello_world() {
    let program = "++++++++[>++++[>++>+++>+++>+<<<<-]>+>+>->>+[<]<-]>>.>---.+++++++..+++.>>.<-.<.+++.------.--------.>>+.>++.";
    let (out, status) = run_program(program, b"", false, 30000);
    assert_eq!(status, StepStatus::Halted);
    assert_eq!(out, b"Hello World!\n".to_vec());
}

#[test]
fn test_print_no_loop() {
    let program = "+".repeat(65) + ".";
    let (out, status) = run_program(&program, b"", false, 30000);
    assert_eq!(status, StepStatus::Halted);
    assert_eq!(out, b"A".to_vec());
}

#[test]
fn test_wrapping_off() {
    let (out, status) = run_program("<", b"", false, 30000);
    assert_eq!(status, StepStatus::Failed(Fatal::PointerUnderflow(0)));
    assert_eq!(out, Vec::<u8>::new());
}

#[test]
fn test_wrapping_on() {
    // The value is written two cells to the right, and read back, on a tape
    // of three cells, by wrapping once more to the left.
    let plus = "+".repeat(65);
    let program = format!(">>Ok(\"{}\") << <.", plus);
    let (out, status) = run_program(&program, b"", true, 3);
    assert_eq!(status, StepStatus::Halted);
    assert_eq!(out, b"A".to_vec());
}

#[test]
fn test_comments_only_program_does_nothing() {
    let mut engine = Engine::new(
        b"a quiet program: no operators at all!".to_vec(),
        Vec::new(),
        false,
        16,
    );
    let status = engine.run_for(BUDGET);
    assert_eq!(status, StepStatus::Halted);
    assert_eq!(engine.output().len(), 0);
    assert_eq!(engine.pointer(), 0);
    assert!(engine.tape_cells().iter().all(|&c| c == 0));
}

#[test]
fn test_empty_program() {
    let (out, status) = run_program("", b"", false, 1);
    assert_eq!(status, StepStatus::Halted);
    assert!(out.is_empty());
}

#[test]
fn test_plus_256_returns_cell_to_zero() {
    let program = "+".repeat(256) + ".";
    let (out, status) = run_program(&program, b"", false, 10);
    assert_eq!(status, StepStatus::Halted);
    assert_eq!(out, vec![0u8]);
}

#[test]
fn test_minus_256_returns_cell_to_zero() {
    let program = "-".repeat(256) + ".";
    let (out, status) = run_program(&program, b"", false, 10);
    assert_eq!(status, StepStatus::Halted);
    assert_eq!(out, vec![0u8]);
}

#[test]
fn test_minus_wraps_to_255() {
    let (out, status) = run_program("-.", b"", false, 10);
    assert_eq!(status, StepStatus::Halted);
    assert_eq!(out, vec![255u8]);
}

#[test]
fn test_pointer_full_cycle_with_wrapping() {
    let mut engine = Engine::new(b">>>>>".to_vec(), Vec::new(), true, 5);
    let status = engine.run_for(BUDGET);
    assert_eq!(status, StepStatus::Halted);
    assert_eq!(engine.pointer(), 0);
}

#[test]
fn test_pointer_overflow_without_wrapping() {
    let (out, status) = run_program(">>>>>", b"", false, 5);
    assert_eq!(status, StepStatus::Failed(Fatal::PointerOverflow(4)));
    assert!(out.is_empty());
}

#[test]
fn test_loop_skipped_on_zero_cell() {
    // The body would print; with the cell at zero it must run zero times.
    let (out, status) = run_program("[.]", b"", false, 10);
    assert_eq!(status, StepStatus::Halted);
    assert!(out.is_empty());
}

#[test]
fn test_loop_runs_until_cell_is_zero() {
    // Three increments, then a loop that prints and decrements: the body
    // runs exactly three times, once per re-test of the cell at `]`.
    let (out, status) = run_program("+++[.-]", b"", false, 10);
    assert_eq!(status, StepStatus::Halted);
    assert_eq!(out, vec![3u8, 2u8, 1u8]);
}

#[test]
fn test_output_64() {
    let (out, status) = run_program("++++++++[>++++++++<-]>.", b"", false, 30000);
    assert_eq!(status, StepStatus::Halted);
    assert_eq!(out, vec![64u8]);
    assert_eq!(out, b"@".to_vec());
}

#[test]
fn test_unbalanced_open_bracket_is_malformed() {
    let (out, status) = run_program("[+", b"", false, 10);
    assert_eq!(status, StepStatus::Failed(Fatal::MalformedProgram(0)));
    assert!(out.is_empty());
}

#[test]
fn test_unbalanced_close_bracket_is_malformed() {
    // `]` re-entering a loop that was never opened.
    let (out, status) = run_program("+]", b"", false, 10);
    assert_eq!(status, StepStatus::Failed(Fatal::MalformedProgram(1)));
    assert!(out.is_empty());
}

#[test]
fn test_stray_close_bracket_on_zero_cell_is_skipped() {
    // With the cell at zero the `]` discards nothing and falls through.
    let (out, status) = run_program("].", b"", false, 10);
    assert_eq!(status, StepStatus::Halted);
    assert_eq!(out, vec![0u8]);
}

#[test]
fn test_input_is_consumed_in_order() {
    let (out, status) = run_program(",.,.", b"XY", false, 10);
    assert_eq!(status, StepStatus::Halted);
    assert_eq!(out, b"XY".to_vec());
}

#[test]
fn test_input_past_end_stores_zero() {
    let (out, status) = run_program(",.,.", b"X", false, 10);
    assert_eq!(status, StepStatus::Halted);
    assert_eq!(out, vec![b'X', 0u8]);
}

#[test]
fn test_push_input_feeds_the_next_read() {
    let mut engine = Engine::new(b",.".to_vec(), Vec::new(), false, 4);
    engine.push_input(b'Z');
    let status = engine.run_for(BUDGET);
    assert_eq!(status, StepStatus::Halted);
    assert_eq!(engine.output().as_slice(), b"Z");
}

#[test]
fn test_budget_runs_out_on_diverging_program() {
    let (_, status) = run_program("+[]", b"", false, 4);
    assert_eq!(status, StepStatus::Running);
}

#[test]
fn test_stepping_by_hand() {
    let mut engine = Engine::new(b"+.".to_vec(), Vec::new(), false, 2);
    assert_eq!(engine.position(), 0);
    assert_eq!(engine.step(), StepStatus::Running);
    assert_eq!(engine.position(), 1);
    assert_eq!(engine.cell(), 1);
    assert_eq!(engine.step(), StepStatus::Running);
    assert_eq!(engine.step(), StepStatus::Halted);
    assert!(engine.finished());
    assert_eq!(engine.into_output(), vec![1u8]);
}

#[test]
fn test_is_operator() {
    for c in b"><+-.,[]" {
        assert!(is_operator(*c));
    }
    for c in b"aZ 0#\n\t\"(" {
        assert!(!is_operator(*c));
    }
}

#[test]
fn test_failure_keeps_output_so_far() {
    // Output written before the fatal error is reported alongside it.
    let (out, status) = run_program("+.<", b"", false, 3);
    assert_eq!(status, StepStatus::Failed(Fatal::PointerUnderflow(2)));
    assert_eq!(out, vec![1u8]);
}
