use brainfuck::{Brainfuck, ExecutionError, Status};

fn run(code: &str, input: &str) -> (Brainfuck, Result<Status, ExecutionError>) {
    let mut bf = Brainfuck::new(&code.to_string(), &input.to_string());
    let r = bf.exec(10_000_000);
    (bf, r)
}

fn text(bf: &Brainfuck) -> String {
    bf.output().iter().collect()
}

#[test]
fn comments_only_finish_silently() {
    let (bf, r) = run("hello world this is no program", "");
    assert_eq!(r, Ok(Status::Finished));
    assert_eq!(text(&bf), "");
    assert!(bf.is_finished());
}

#[test]
fn empty_program_finishes_with_no_steps() {
    let mut bf = Brainfuck::new(&String::new(), &String::new());
    assert!(bf.is_finished());
    assert_eq!(bf.exec(0), Ok(Status::Finished));
    assert_eq!(bf.step(), Ok(Status::Finished));
    assert_eq!(text(&bf), "");
}

#[test]
fn increments_then_output_write_that_code() {
    let code = format!("{}.", "+".repeat(65));
    let (bf, r) = run(&code, "");
    assert_eq!(r, Ok(Status::Finished));
    assert_eq!(text(&bf), "A");
}

#[test]
fn increments_past_the_last_scalar_fail_on_output() {
    let code = format!("{}.", "+".repeat(0x110000));
    let (bf, r) = run(&code, "");
    assert_eq!(r, Err(ExecutionError::InvalidOutputValue(0x110000)));
    assert_eq!(bf.tape().get_at(0), Ok(&0x110000));
    assert_eq!(text(&bf), "");
}

#[test]
fn surrogate_output_fails() {
    let code = format!("{}.", "+".repeat(0xD800));
    let (_, r) = run(&code, "");
    assert_eq!(r, Err(ExecutionError::InvalidOutputValue(0xD800)));
}

#[test]
fn decrement_of_fresh_cell_is_signed() {
    let (bf, r) = run("-", "");
    assert_eq!(r, Ok(Status::Finished));
    assert_eq!(bf.tape().get_at(0), Ok(&-1));
    let (_, r) = run("-.", "");
    assert_eq!(r, Err(ExecutionError::InvalidOutputValue(-1)));
}

#[test]
fn lone_close_fails() {
    let (_, r) = run("]", "");
    assert_eq!(r, Err(ExecutionError::UnbalancedLoop(0)));
    let (bf, r) = run("+>+]", "");
    assert_eq!(r, Err(ExecutionError::UnbalancedLoop(3)));
    assert_eq!(bf.tape().get_at(1), Ok(&1));
}

#[test]
fn lone_open_finishes() {
    let (_, r) = run("[", "");
    assert_eq!(r, Ok(Status::Finished));
    let (_, r) = run("+[", "");
    assert_eq!(r, Ok(Status::Finished));
}

#[test]
fn cell_copy_loop() {
    let (bf, r) = run("+++[->+<]", "");
    assert_eq!(r, Ok(Status::Finished));
    assert_eq!(bf.tape().get_at(0), Ok(&0));
    assert_eq!(bf.tape().get_at(1), Ok(&3));
}

#[test]
fn nested_loops() {
    let (bf, r) = run("++[>++[>+<-]<-]>>.", "");
    assert_eq!(r, Ok(Status::Finished));
    assert_eq!(text(&bf), "\u{4}");
}

#[test]
fn read_then_write_copies_input() {
    let (bf, r) = run(",.", "A");
    assert_eq!(r, Ok(Status::Finished));
    assert_eq!(text(&bf), "A");
    assert!(bf.remaining_input().is_empty());
}

#[test]
fn read_then_write_on_empty_input_writes_nul() {
    let (bf, r) = run(",.", "");
    assert_eq!(r, Ok(Status::Finished));
    assert_eq!(text(&bf), "\0");
}

#[test]
fn read_leaves_the_rest_of_the_input() {
    let (bf, r) = run(",>,.<.", "xyz");
    assert_eq!(r, Ok(Status::Finished));
    assert_eq!(text(&bf), "yx");
    assert_eq!(bf.remaining_input(), &vec!['z']);
}

#[test]
fn non_ascii_input_round_trips() {
    let (bf, r) = run(",.", "\u{1F600}");
    assert_eq!(r, Ok(Status::Finished));
    assert_eq!(text(&bf), "\u{1F600}");
}

#[test]
fn hello_world() {
    let code = "++++++++++[>+++++++>++++++++++>+++>+<<<<-]>++.>+.+++++++..+++.>++.\
                <<+++++++++++++++.>.+++.------.--------.>+.>.";
    let (bf, r) = run(code, "");
    assert_eq!(r, Ok(Status::Finished));
    assert_eq!(text(&bf), "Hello World!\n");
}

#[test]
fn comments_between_commands_are_ignored() {
    let (bf, r) = run("add two: + + then print .", "");
    assert_eq!(r, Ok(Status::Finished));
    assert_eq!(text(&bf), "\u{2}");
}

#[test]
fn left_of_start_and_back() {
    let (bf, r) = run("+++<<>>", "");
    assert_eq!(r, Ok(Status::Finished));
    assert_eq!(bf.tape().get_at_pointer(), Ok(&3));
    assert_eq!(bf.tape().get_pointer(), 2);
}

#[test]
fn step_budget_pauses_an_endless_loop() {
    let mut bf = Brainfuck::new(&"+[]".to_string(), &String::new());
    assert_eq!(bf.exec(100), Ok(Status::Running));
    assert!(!bf.is_finished());
    assert_eq!(bf.exec(100), Ok(Status::Running));
}

#[test]
fn step_by_step() {
    let mut bf = Brainfuck::new(&"+.".to_string(), &String::new());
    assert_eq!(bf.step(), Ok(Status::Running));
    assert_eq!(bf.tape().get_at(0), Ok(&1));
    assert_eq!(bf.step(), Ok(Status::Finished));
    assert_eq!(bf.step(), Ok(Status::Finished));
    assert_eq!(text(&bf), "\u{1}");
}

#[test]
fn failed_step_changes_nothing() {
    let mut bf = Brainfuck::new(&"+]".to_string(), &String::new());
    assert_eq!(bf.step(), Ok(Status::Running));
    assert_eq!(bf.step(), Err(ExecutionError::UnbalancedLoop(1)));
    assert_eq!(bf.step(), Err(ExecutionError::UnbalancedLoop(1)));
    assert_eq!(bf.tape().get_at(0), Ok(&1));
}

#[test]
fn take_output_drains() {
    let mut bf = Brainfuck::new(&"+.+.".to_string(), &String::new());
    assert_eq!(bf.exec(2), Ok(Status::Running));
    assert_eq!(bf.take_output(), vec!['\u{1}']);
    assert_eq!(bf.exec(10), Ok(Status::Finished));
    assert_eq!(bf.take_output(), vec!['\u{2}']);
    assert!(bf.output().is_empty());
}
