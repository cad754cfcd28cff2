use interpreter::bytecode::{ByteCode, CodeType};
use interpreter::commands::Instruction;
use interpreter::simpleloop::SimpleLoop;
use interpreter::state::State;

fn get_interpreter() -> ByteCode {
    let simpleloop = SimpleLoop::new();
    let state: State = State::new(Some(simpleloop));
    let code: CodeType = CodeType::new();
    ByteCode::new(state, code)
}

#[test]
fn test_add_command() {
    let mut code = CodeType::new();
    code.push(Instruction::LoadValue { value: 1, line: "".to_string() });
    code.push(Instruction::LoadValue { value: 1, line: "".to_string() });
    code.push(Instruction::Add { line: String::from("ADD") });
    code.push(Instruction::Return { line: "".to_owned() });

    let mut interpreter = get_interpreter();
    interpreter.set_code(code);
    assert_eq!(interpreter.run().unwrap().unwrap(), 2);
}

#[test]
fn test_sub_command() {
    let mut code = CodeType::new();
    code.push(Instruction::LoadValue { value: 1, line: "".to_owned() });
    code.push(Instruction::LoadValue { value: 1, line: "".to_owned() });
    code.push(Instruction::Sub { line: String::from("SUB") });
    code.push(Instruction::Return { line: "".to_owned() });

    let mut interpreter = get_interpreter();
    interpreter.set_code(code);
    assert_eq!(interpreter.run().unwrap().unwrap(), 0);
}

#[test]
fn test_mul_command() {
    let mut code = CodeType::new();
    code.push(Instruction::LoadValue { value: 4, line: "".to_owned() });
    code.push(Instruction::LoadValue { value: -5, line: "".to_owned() });
    code.push(Instruction::Mul { line: String::from("MUL") });
    code.push(Instruction::Return { line: "".to_owned() });

    let mut interpreter = get_interpreter();
    interpreter.set_code(code);
    assert_eq!(interpreter.run().unwrap().unwrap(), -20);
}

#[test]
fn test_div_command() {
    let mut code = CodeType::new();
    code.push(Instruction::LoadValue { value: 10, line: "".to_owned() });
    code.push(Instruction::LoadValue { value: 5, line: "".to_owned() });
    code.push(Instruction::Div { line: String::from("DIV") });
    code.push(Instruction::Return { line: "".to_owned() });

    let mut interpreter = get_interpreter();
    interpreter.set_code(code);
    assert_eq!(interpreter.run().unwrap().unwrap(), 2);
}

#[test]
fn test_load_variable_command() {
    let mut code = CodeType::new();
    code.push(Instruction::LoadValue { value: 42, line: "".to_owned() });
    code.push(Instruction::Return { line: "".to_owned() });
    let mut interpreter = get_interpreter();
    interpreter.set_code(code);
    assert_eq!(interpreter.run().unwrap().unwrap(), 42);
}

#[test]
fn test_read_write_variable_command() {
    let mut code = CodeType::new();
    code.push(Instruction::LoadValue { value: 42, line: "".to_owned() });
    code.push(Instruction::WriteVariable {
        variable_name: String::from("x"),
        line: String::from("WRITE_VAR 'x'"),
    });
    code.push(Instruction::ReadVariable {
        variable_name: String::from("x"),
        line: String::from("READ_VAR 'x'"),
    });
    code.push(Instruction::Return { line: "".to_owned() });
    let mut interpreter = get_interpreter();
    interpreter.set_code(code);
    assert_eq!(interpreter.run().unwrap().unwrap(), 42);
}

#[test]
fn test_loop_command() {
    let mut code = CodeType::new();
    code.push(Instruction::LoadValue { value: 1, line: "".to_owned() });
    code.push(Instruction::StartLoop { amount_of_repeats: 5, line: String::from("LOOP 5") });
    code.push(Instruction::LoadValue { value: 1, line: "".to_owned() });
    code.push(Instruction::Add { line: String::from("ADD") });
    code.push(Instruction::EndLoop { line: String::from("END_LOOP") });
    code.push(Instruction::Return { line: "".to_owned() });

    let mut interpreter = get_interpreter();
    interpreter.set_code(code);
    assert_eq!(interpreter.run().unwrap().unwrap(), 6);
}

#[test]
#[should_panic]
fn test_no_return_command() {
    let mut code = CodeType::new();
    code.push(Instruction::LoadValue { value: 1, line: "".to_owned() });
    let mut interpreter = get_interpreter();
    interpreter.set_code(code);
    assert_eq!(interpreter.run().unwrap().unwrap(), 6);
}

#[test]
#[should_panic]
fn test_empy_stack_error() {
    let mut code = CodeType::new();
    code.push(Instruction::LoadValue { value: 1, line: "".to_owned() });
    code.push(Instruction::Add { line: String::from("ADD") });
    code.push(Instruction::Return { line: "".to_owned() });

    let mut interpreter = get_interpreter();
    interpreter.set_code(code);
    assert_eq!(interpreter.run().unwrap().unwrap(), 2);
}

#[test]
#[should_panic]
fn test_overflow_error() {
    let mut code = CodeType::new();
    code.push(Instruction::LoadValue { value: i32::MAX, line: "".to_owned() });
    code.push(Instruction::LoadValue { value: i32::MAX, line: "".to_owned() });
    code.push(Instruction::Add { line: String::from("ADD") });
    code.push(Instruction::Return { line: "".to_owned() });
    let mut interpreter = get_interpreter();
    interpreter.set_code(code);
    assert_eq!(interpreter.run().unwrap().unwrap(), 2);
}

#[test]
#[should_panic]
fn test_uknown_variable_load_error() {
    let mut code = CodeType::new();
    code.push(Instruction::ReadVariable {
        variable_name: String::from("x"),
        line: String::from("READ_VAR 'x'"),
    });
    code.push(Instruction::Return { line: "".to_owned() });
    let mut interpreter = get_interpreter();
    interpreter.set_code(code);
    assert_eq!(interpreter.run().unwrap().unwrap(), 42);
}

#[test]
#[should_panic]
fn test_loop_init_error() {
    let mut code = CodeType::new();
    code.push(Instruction::LoadValue { value: 1, line: "".to_owned() });
    code.push(Instruction::LoadValue { value: 1, line: "".to_owned() });
    code.push(Instruction::Add { line: String::from("ADD") });
    code.push(Instruction::EndLoop { line: String::from("END_LOOP") });
    code.push(Instruction::Return { line: "".to_owned() });
    let mut interpreter = get_interpreter();
    interpreter.set_code(code);
    assert_eq!(interpreter.run().unwrap().unwrap(), 6);
}

#[test]
#[should_panic]
fn test_nested_loops_error() {
    let mut code = CodeType::new();
    code.push(Instruction::LoadValue { value: 1, line: "".to_owned() });
    code.push(Instruction::LoadValue { value: 1, line: "".to_owned() });
    code.push(Instruction::StartLoop { amount_of_repeats: 5, line: String::from("LOOP 5") });
    code.push(Instruction::LoadValue { value: 1, line: "".to_owned() });
    code.push(Instruction::Add { line: String::from("ADD") });
    code.push(Instruction::StartLoop { amount_of_repeats: 3, line: String::from("LOOP 3") });
    code.push(Instruction::EndLoop { line: String::from("END_LOOP") });
    code.push(Instruction::Return { line: "".to_owned() });

    let mut interpreter = get_interpreter();
    interpreter.set_code(code);
    assert_eq!(interpreter.run().unwrap().unwrap(), 6);
}

#[test]
#[should_panic]
fn test_no_loop_instance_error() {
    let mut code = CodeType::new();
    code.push(Instruction::LoadValue { value: 1, line: "".to_owned() });
    code.push(Instruction::StartLoop { amount_of_repeats: 5, line: String::from("LOOP 5") });
    code.push(Instruction::LoadValue { value: 1, line: "".to_owned() });
    code.push(Instruction::Add { line: String::from("ADD") });
    code.push(Instruction::StartLoop { amount_of_repeats: 3, line: String::from("LOOP 3") });
    code.push(Instruction::EndLoop { line: String::from("END_LOOP") });
    code.push(Instruction::Return { line: "".to_owned() });
    let state: State = State::new(None);
    let mut interpreter = ByteCode::new(state, code);
    assert_eq!(interpreter.run().unwrap().unwrap(), 6);
}

#[test]
#[should_panic]
fn test_no_code_error() {
    let mut interpreter = get_interpreter();
    assert_eq!(interpreter.run().unwrap().unwrap(), 6);
}
