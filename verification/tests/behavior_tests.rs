use interpreter::bytecode::{ByteCode, CodeType};
use interpreter::commands::Instruction;
use interpreter::errors::{
    EmptyStackError, ErrorKind, IntegerOverflowError, NoCodeError, RuntimeError,
    UnknownCommandError,
};
use interpreter::parser::parse;
use interpreter::simpleloop::SimpleLoop;
use interpreter::state::State;

fn run_source(source: &str) -> Result<Option<i32>, RuntimeError> {
    let code = parse(source.to_string()).unwrap();
    let state = State::new(Some(SimpleLoop::new()));
    let mut interpreter = ByteCode::new(state, code);
    interpreter.run()
}

#[test]
fn last_pushed_value_wins() {
    let result = run_source("LOAD_VAL 1\nLOAD_VAL 2\nLOAD_VAL 3\nRETURN");
    assert_eq!(result.unwrap(), Some(3));
}

#[test]
fn return_on_empty_stack_yields_no_result() {
    let result = run_source("RETURN");
    assert_eq!(result.unwrap(), None);
}

#[test]
fn division_truncates_toward_zero() {
    assert_eq!(run_source("LOAD_VAL 7\nLOAD_VAL 2\nDIV\nRETURN").unwrap(), Some(3));
    assert_eq!(run_source("LOAD_VAL -7\nLOAD_VAL 2\nDIV\nRETURN").unwrap(), Some(-3));
    assert_eq!(run_source("LOAD_VAL 7\nLOAD_VAL -2\nDIV\nRETURN").unwrap(), Some(-3));
    assert_eq!(run_source("LOAD_VAL -7\nLOAD_VAL -2\nDIV\nRETURN").unwrap(), Some(3));
}

#[test]
fn division_by_zero_is_overflow() {
    let result = run_source("LOAD_VAL 1\nLOAD_VAL 0\nDIV\nRETURN");
    assert_eq!(result.unwrap_err().kind(), ErrorKind::IntegerOverflow);
}

#[test]
fn minimum_divided_by_minus_one_is_overflow() {
    let result = run_source("LOAD_VAL -2147483648\nLOAD_VAL -1\nDIV\nRETURN");
    assert_eq!(result.unwrap_err().kind(), ErrorKind::IntegerOverflow);
}

#[test]
fn subtraction_order_is_first_minus_second() {
    assert_eq!(run_source("LOAD_VAL 10\nLOAD_VAL 4\nSUB\nRETURN").unwrap(), Some(6));
}

#[test]
fn maximum_plus_maximum_overflows() {
    let result = run_source("LOAD_VAL 2147483647\nLOAD_VAL 2147483647\nADD\nRETURN");
    assert_eq!(result.unwrap_err().kind(), ErrorKind::IntegerOverflow);
}

#[test]
fn variable_round_trip_via_source() {
    let source = "LOAD_VAL 42\nWRITE_VAR x\nREAD_VAR x\nRETURN";
    assert_eq!(run_source(source).unwrap(), Some(42));
}

#[test]
fn overwriting_a_variable_keeps_the_last_value() {
    let source = "LOAD_VAL 1\nWRITE_VAR x\nLOAD_VAL 2\nWRITE_VAR x\nREAD_VAR x\nRETURN";
    assert_eq!(run_source(source).unwrap(), Some(2));
}

#[test]
fn reading_unset_variable_fails() {
    let result = run_source("READ_VAR nothing\nRETURN");
    assert_eq!(result.unwrap_err().kind(), ErrorKind::UnknownVariableLoading);
}

#[test]
fn loop_repeats_body_exactly_count_times() {
    let source = "LOAD_VAL 1\nLOOP 5\nLOAD_VAL 1\nADD\nEND_LOOP\nRETURN";
    assert_eq!(run_source(source).unwrap(), Some(6));
}

#[test]
fn loop_with_variables() {
    let source = "LOAD_VAL 2\nWRITE_VAR a\nLOAD_VAL 0\nLOOP 4\nREAD_VAR a\nADD\nEND_LOOP\nRETURN";
    assert_eq!(run_source(source).unwrap(), Some(8));
}

#[test]
fn nested_loop_fails() {
    let source = "LOOP 2\nLOOP 2\nEND_LOOP\nEND_LOOP\nRETURN";
    assert_eq!(run_source(source).unwrap_err().kind(), ErrorKind::NestedLoops);
}

#[test]
fn end_loop_without_loop_fails() {
    let source = "END_LOOP\nRETURN";
    assert_eq!(run_source(source).unwrap_err().kind(), ErrorKind::LoopInit);
}

#[test]
fn missing_return_fails() {
    let result = run_source("LOAD_VAL 1");
    assert_eq!(result.unwrap_err().kind(), ErrorKind::NoReturnCommand);
}

#[test]
fn code_after_return_is_not_executed() {
    let source = "LOAD_VAL 1\nRETURN\nLOAD_VAL 2";
    assert_eq!(run_source(source).unwrap(), Some(1));
}

#[test]
fn empty_code_fails_with_no_code() {
    let state = State::new(Some(SimpleLoop::new()));
    let mut interpreter = ByteCode::new(state, CodeType::new());
    assert_eq!(interpreter.run().unwrap_err().kind(), ErrorKind::NoCode);
}

#[test]
fn loop_without_controller_fails_with_no_loop_instance() {
    let code = parse("LOOP 3\nEND_LOOP\nRETURN".to_string()).unwrap();
    let state = State::new(None);
    let mut interpreter = ByteCode::new(state, code);
    assert_eq!(interpreter.run().unwrap_err().kind(), ErrorKind::NoLoopInstance);
}

#[test]
fn arithmetic_on_short_stack_fails() {
    let result = run_source("LOAD_VAL 1\nADD\nRETURN");
    assert_eq!(result.unwrap_err().kind(), ErrorKind::EmptyStack);
    let result = run_source("MUL\nRETURN");
    assert_eq!(result.unwrap_err().kind(), ErrorKind::EmptyStack);
}

#[test]
fn empty_source_fails_with_no_code() {
    let error = parse(String::new()).unwrap_err();
    assert_eq!(error.kind(), ErrorKind::NoCode);
}

#[test]
fn blank_lines_are_skipped() {
    let source = "\n   \nLOAD_VAL 9\n\nRETURN\n";
    assert_eq!(run_source(source).unwrap(), Some(9));
}

#[test]
fn carriage_returns_are_stripped() {
    let source = "LOAD_VAL 7\r\nRETURN\r\n";
    assert_eq!(run_source(source).unwrap(), Some(7));
}

#[test]
fn unknown_keyword_is_rejected_with_line_label() {
    let error = parse("FOO".to_string()).unwrap_err();
    assert_eq!(error.kind(), ErrorKind::UnknownCommand);
    assert_eq!(error.message(), "1:     FOO");
}

#[test]
fn error_label_counts_lines_from_one() {
    let error = parse("LOAD_VAL 1\nRETURN\nBAD TOKEN".to_string()).unwrap_err();
    assert_eq!(error.kind(), ErrorKind::UnknownCommand);
    assert_eq!(error.message(), "3:     BAD TOKEN");
}

#[test]
fn operand_shapes_are_checked() {
    assert_eq!(parse("ADD 5".to_string()).unwrap_err().kind(), ErrorKind::UnknownCommand);
    assert_eq!(parse("LOAD_VAL x".to_string()).unwrap_err().kind(), ErrorKind::UnknownCommand);
    assert_eq!(parse("LOAD_VAL".to_string()).unwrap_err().kind(), ErrorKind::UnknownCommand);
    assert_eq!(parse("WRITE_VAR 5".to_string()).unwrap_err().kind(), ErrorKind::UnknownCommand);
    assert_eq!(parse("LOOP x".to_string()).unwrap_err().kind(), ErrorKind::UnknownCommand);
}

#[test]
fn integer_operands_cover_the_32_bit_range() {
    assert_eq!(run_source("LOAD_VAL 2147483647\nRETURN").unwrap(), Some(i32::MAX));
    assert_eq!(run_source("LOAD_VAL -2147483648\nRETURN").unwrap(), Some(i32::MIN));
    assert_eq!(run_source("LOAD_VAL +5\nRETURN").unwrap(), Some(5));
    assert_eq!(parse("LOAD_VAL 2147483648".to_string()).unwrap_err().kind(),
        ErrorKind::UnknownCommand);
    assert_eq!(parse("LOAD_VAL -2147483649".to_string()).unwrap_err().kind(),
        ErrorKind::UnknownCommand);
}

#[test]
fn extra_whitespace_is_ignored() {
    let source = "  LOAD_VAL\t8  \n  RETURN  ";
    assert_eq!(run_source(source).unwrap(), Some(8));
}

#[test]
fn state_stack_operations() {
    let mut state = State::new(None);
    state.push_to_stack(5);
    state.push_to_stack(6);
    assert_eq!(state.pop_from_stack("ctx").unwrap(), 6);
    assert_eq!(state.pop_from_stack_option(), Some(5));
    assert_eq!(state.pop_from_stack_option(), None);
    let error = state.pop_from_stack("context line").unwrap_err();
    assert_eq!(RuntimeError::from(error).kind(), ErrorKind::EmptyStack);
}

#[test]
fn state_memory_operations() {
    let mut state = State::new(None);
    state.memory_insert("x".to_string(), 3);
    state.memory_insert("y".to_string(), 4);
    state.memory_insert("x".to_string(), 7);
    assert_eq!(state.memory_get(&"x".to_string(), "ctx").unwrap(), 7);
    assert_eq!(state.memory_get(&"y".to_string(), "ctx").unwrap(), 4);
    let error = state.memory_get(&"z".to_string(), "ctx").unwrap_err();
    assert_eq!(RuntimeError::from(error).kind(), ErrorKind::UnknownVariableLoading);
}

#[test]
fn state_counter_and_halt_flag() {
    let mut state = State::new(None);
    assert_eq!(state.get_command_pointer(), 0);
    assert_eq!(state.inc_command_pointer(), 1);
    state.set_command_pointer(9);
    assert_eq!(state.get_command_pointer(), 9);
    assert!(!state.get_ret_status());
    state.set_ret_status(true);
    assert!(state.get_ret_status());
}

#[test]
fn simple_loop_life_cycle() {
    let mut simpleloop = SimpleLoop::new();
    assert!(!simpleloop.is_active());
    assert_eq!(simpleloop.get_start_pointer(), None);
    simpleloop.activate(4, 2);
    assert!(simpleloop.is_active());
    assert_eq!(simpleloop.get_start_pointer(), Some(4));
    assert!(!simpleloop.is_counter_eq_zero());
    simpleloop.dec_counter();
    simpleloop.dec_counter();
    assert!(simpleloop.is_counter_eq_zero());
    simpleloop.desactivate();
    assert!(!simpleloop.is_active());
    assert!(!simpleloop.is_counter_eq_zero());
}

#[test]
fn loop_counter_wraps_at_the_bottom() {
    let mut simpleloop = SimpleLoop::new();
    simpleloop.activate(0, i32::MIN);
    simpleloop.dec_counter();
    assert!(!simpleloop.is_counter_eq_zero());
    simpleloop.desactivate();
    simpleloop.activate(0, 1);
    simpleloop.dec_counter();
    assert!(simpleloop.is_counter_eq_zero());
}

#[test]
fn set_code_replaces_the_program() {
    let state = State::new(Some(SimpleLoop::new()));
    let first = parse("LOAD_VAL 1\nRETURN".to_string()).unwrap();
    let mut interpreter = ByteCode::new(state, first);
    let second = parse("LOAD_VAL 2\nRETURN".to_string()).unwrap();
    interpreter.set_code(second);
    assert_eq!(interpreter.run().unwrap(), Some(2));
}

#[test]
fn error_conversions_keep_kind_and_message() {
    let runtime = RuntimeError::from(EmptyStackError::new("line one"));
    assert_eq!(runtime.kind(), ErrorKind::EmptyStack);
    assert_eq!(runtime.message(), "line one");
    let runtime = RuntimeError::from(IntegerOverflowError::new("line two"));
    assert_eq!(runtime.kind(), ErrorKind::IntegerOverflow);
    assert_eq!(runtime.message(), "line two");
    let runtime = RuntimeError::from(NoCodeError);
    assert_eq!(runtime.kind(), ErrorKind::NoCode);
    assert_eq!(runtime.message(), "");
    let parser_error = interpreter::errors::ParserError::from(UnknownCommandError::new("bad"));
    assert_eq!(parser_error.kind(), ErrorKind::UnknownCommand);
    assert_eq!(parser_error.message(), "bad");
}

#[test]
fn instruction_labels_carry_the_numbered_source_line() {
    let result = run_source("LOAD_VAL 1\nLOAD_VAL 0\nDIV\nRETURN");
    let error = result.unwrap_err();
    assert_eq!(error.kind(), ErrorKind::IntegerOverflow);
    assert_eq!(error.message(), "3:     DIV");
}

#[test]
fn failed_arithmetic_keeps_the_pops_it_consumed() {
    let mut state = State::new(None);
    state.push_to_stack(5);
    let instruction = Instruction::Add { line: "ADD".to_string() };
    let error = instruction.execute(&mut state).unwrap_err();
    assert_eq!(error.kind(), ErrorKind::EmptyStack);
    assert_eq!(state.pop_from_stack_option(), None);
    assert_eq!(state.get_command_pointer(), 0);
}

#[test]
fn overflow_pops_both_operands_and_nothing_else() {
    let mut state = State::new(None);
    state.push_to_stack(7);
    state.push_to_stack(i32::MAX);
    state.push_to_stack(i32::MAX);
    let instruction = Instruction::Add { line: "ADD".to_string() };
    let error = instruction.execute(&mut state).unwrap_err();
    assert_eq!(error.kind(), ErrorKind::IntegerOverflow);
    assert_eq!(state.pop_from_stack_option(), Some(7));
    assert_eq!(state.get_command_pointer(), 0);
}

#[test]
fn failed_loop_start_leaves_the_state_alone() {
    let mut controller = SimpleLoop::new();
    controller.activate(3, 9);
    let mut state = State::new(Some(controller));
    state.push_to_stack(1);
    let instruction = Instruction::StartLoop { amount_of_repeats: 2, line: "LOOP 2".to_string() };
    let error = instruction.execute(&mut state).unwrap_err();
    assert_eq!(error.kind(), ErrorKind::NestedLoops);
    assert_eq!(state.get_command_pointer(), 0);
    assert_eq!(state.pop_from_stack_option(), Some(1));
}

#[test]
fn bare_final_carriage_return_stays_in_the_label() {
    let error = parse("BAD\r".to_string()).unwrap_err();
    assert_eq!(error.kind(), ErrorKind::UnknownCommand);
    assert_eq!(error.message(), "1:     BAD\r");
}
