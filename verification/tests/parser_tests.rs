use lam::arithmetic::{parse_expression, Expr};
use lam::instruction_parser::parse_instructions;
use lam::lexer::{parse_i32, parse_usize, str_chars, IntError};
use lam::machine::Instruction;
use lam::term::Term;

fn b(e: Expr) -> Box<Expr> {
    Box::new(e)
}

fn int_error_message(e: IntError) -> &'static str {
    match e {
        IntError::Empty => "cannot parse integer from empty string",
        IntError::InvalidDigit => "invalid digit found in string",
        IntError::PosOverflow => "number too large to fit in target type",
        IntError::NegOverflow => "number too small to fit in target type",
    }
}

#[test]
fn integers_read_like_std() {
    let samples = [
        "", "0", "42", "-7", "+5", "+", "-", "2147483647", "2147483648", "-2147483648",
        "-2147483649", "12a", "a12", "99999999999999999999x", " 1", "007", "-0", "٣",
    ];
    for s in samples.iter() {
        let ours = parse_i32(&str_chars(s));
        let std = s.parse::<i32>();
        match (ours, std) {
            (Ok(a), Ok(b)) => assert_eq!(a, b, "value of {:?}", s),
            (Err(e), Err(f)) => assert_eq!(int_error_message(e), f.to_string(), "error of {:?}", s),
            (a, b) => panic!("{:?}: {:?} vs {:?}", s, a, b),
        }
        let ours = parse_usize(&str_chars(s));
        let std = s.parse::<usize>();
        match (ours, std) {
            (Ok(a), Ok(b)) => assert_eq!(a, b, "value of {:?}", s),
            (Err(e), Err(f)) => assert_eq!(int_error_message(e), f.to_string(), "error of {:?}", s),
            (a, b) => panic!("{:?}: {:?} vs {:?}", s, a, b),
        }
    }
}

#[test]
fn expression_precedence() {
    let e = parse_expression("3 + 4 * 2").unwrap();
    assert_eq!(e, Expr::Add(b(Expr::Const(3)), b(Expr::Mul(b(Expr::Const(4)), b(Expr::Const(2))))));
    assert_eq!(lam::arithmetic::evaluate(&e), 11);
    let e = parse_expression("(3 + 4) * 2").unwrap();
    assert_eq!(lam::arithmetic::evaluate(&e), 14);
    let e = parse_expression("10 - 2 - 3").unwrap();
    assert_eq!(e, Expr::Sub(b(Expr::Sub(b(Expr::Const(10)), b(Expr::Const(2)))), b(Expr::Const(3))));
    let e = parse_expression("-5").unwrap();
    assert_eq!(e, Expr::Sub(b(Expr::Const(0)), b(Expr::Const(5))));
    let e = parse_expression("7 / 2").unwrap();
    assert_eq!(lam::arithmetic::evaluate(&e), 3);
}

#[test]
fn expression_errors() {
    assert_eq!(parse_expression("1 +").unwrap_err(), "Unexpected end of input");
    assert_eq!(parse_expression("(1 + 2").unwrap_err(), "Missing closing parenthesis");
    assert_eq!(parse_expression("1 2").unwrap_err(), "Unexpected token at position 1");
    assert_eq!(parse_expression("1 + x").unwrap_err(), "Unexpected character: x");
    assert_eq!(parse_expression("*").unwrap_err(), "Unexpected token at position 0");
    assert_eq!(parse_expression("").unwrap_err(), "Unexpected end of input");
    assert_eq!(
        parse_expression("99999999999").unwrap_err(),
        "Invalid number: number too large to fit in target type"
    );
}

#[test]
fn instructions_program() {
    let text = "; a comment\n# another\n\nPUT_CONST R0, 42\n  put_var r1, 7, \"X\"\nCALL \"foo\"\nCHOICE 3\nPROCEED\nARITHMETIC_IS R2, (1 + 2) * 3\nSET_LOCAL 0, R5\nSET_LOCAL 1, \"hi there\"\nSET_LOCAL 2, -3\nSET_LOCAL 3, word\nBUILD_COMPOUND R3, f, R0, R1\nMULTI_INDEXED_CALL p, R0, R1\nMOVE R1, R2\nHALT\n";
    let prog = parse_instructions(text).unwrap();
    assert_eq!(prog.len(), 14);
    assert_eq!(prog[0], Instruction::PutConst { register: 0, value: 42 });
    assert_eq!(prog[1], Instruction::PutVar { register: 1, var_id: 7, name: "X".to_string() });
    assert_eq!(prog[2], Instruction::Call { predicate: "foo".to_string() });
    assert_eq!(prog[3], Instruction::Choice);
    assert_eq!(prog[4], Instruction::Proceed);
    assert_eq!(
        prog[5],
        Instruction::ArithmeticIs {
            target: 2,
            expression: Expr::Mul(b(Expr::Add(b(Expr::Const(1)), b(Expr::Const(2)))), b(Expr::Const(3))),
        }
    );
    assert_eq!(prog[6], Instruction::SetLocal { index: 0, value: Term::Var(5) });
    assert_eq!(prog[7], Instruction::SetLocal { index: 1, value: Term::Str("hi there".to_string()) });
    assert_eq!(prog[8], Instruction::SetLocal { index: 2, value: Term::Const(-3) });
    assert_eq!(prog[9], Instruction::SetLocal { index: 3, value: Term::Str("word".to_string()) });
    assert_eq!(
        prog[10],
        Instruction::BuildCompound { target: 3, functor: "f".to_string(), arg_registers: vec![0, 1] }
    );
    assert_eq!(
        prog[11],
        Instruction::MultiIndexedCall { predicate: "p".to_string(), index_registers: vec![0, 1] }
    );
    assert_eq!(prog[12], Instruction::Move { src: 1, dst: 2 });
    assert_eq!(prog[13], Instruction::Halt);
}

#[test]
fn instructions_errors() {
    assert_eq!(
        parse_instructions("PROCEED\nPUT_CONST R0").unwrap_err(),
        "Line 2: PUT_CONST expects 2 parameters, got 1"
    );
    assert_eq!(
        parse_instructions("PUT_CONST R0, 1,").unwrap_err(),
        "Line 1: Empty token detected: possible trailing comma or missing parameter"
    );
    assert_eq!(
        parse_instructions("PUT_CONST X0, 1").unwrap_err(),
        "Register token 'X0' must start with 'R' or 'r'"
    );
    assert_eq!(
        parse_instructions("PUT_CONST Rx, 1").unwrap_err(),
        "Failed to parse register number in 'Rx': invalid digit found in string"
    );
    assert_eq!(
        parse_instructions("PUT_CONST R0, abc").unwrap_err(),
        "Line 1: failed to parse integer in PUT_CONST: invalid digit found in string"
    );
    assert_eq!(
        parse_instructions("FROB").unwrap_err(),
        "Line 1: unknown instruction mnemonic 'FROB'"
    );
    assert_eq!(
        parse_instructions("HALT 1").unwrap_err(),
        "Line 1: HALT expects no parameters, got 1"
    );
    assert_eq!(
        parse_instructions("PUT_STR R0, hello world").unwrap_err(),
        "Expected a quoted string if spaces are present: hello world"
    );
    assert_eq!(
        parse_instructions("ARITHMETIC_IS R0, 1 +").unwrap_err(),
        "Line 1: failed to parse expression in ARITHMETIC_IS: Unexpected end of input"
    );
    assert_eq!(
        parse_instructions("BUILD_COMPOUND R0, f").unwrap_err(),
        "Line 1: BUILD_COMPOUND expects at least 3 parameters, got 2"
    );
}

#[test]
fn instructions_mnemonic_case() {
    let prog = parse_instructions("Halt\r\nproceed").unwrap();
    assert_eq!(prog, vec![Instruction::Halt, Instruction::Proceed]);
}
