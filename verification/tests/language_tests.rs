use lam::arithmetic::Expr;
use lam::assembler::{assemble_program, AssemblerError};
use lam::languages::lam::{parse_program, try_parse_program};
use lam::machine::Instruction;
use lam::prolog::ast::{Clause, Term as PTerm};
use lam::prolog::parser::{parse_program as parse_prolog, parse_term, split_program_into_clauses, ParseError};
use lam::term::Term;

fn s(x: &str) -> String {
    x.to_string()
}

#[test]
fn lam_program_reads_instructions() {
    let text = "# comment\nPutStr 0 \"Hello world\"\nPutConst 1 5\nCall write \"hi there\"\nArithmeticIs 2 3 + 4\nMultiIndexedCall p 0 1\nSetLocal 0 9\nHalt\n";
    let prog = parse_program(text).unwrap();
    assert_eq!(
        prog,
        vec![
            Instruction::PutStr { register: 0, value: s("Hello world") },
            Instruction::PutConst { register: 1, value: 5 },
            Instruction::PutStr { register: 0, value: s("hi there") },
            Instruction::Call { predicate: s("write") },
            Instruction::ArithmeticIs { target: 2, expression: Expr::Add(Box::new(Expr::Const(3)), Box::new(Expr::Const(4))) },
            Instruction::MultiIndexedCall { predicate: s("p"), index_registers: vec![0, 1] },
            Instruction::SetLocal { index: 0, value: Term::Const(9) },
            Instruction::Halt,
        ]
    );
}

#[test]
fn lam_program_errors() {
    assert_eq!(parse_program("Proceed\nPutConst x 1").unwrap_err(), "Line 2: invalid register");
    assert_eq!(parse_program("PutStr 0").unwrap_err(), "Line 1: PutStr expects 2 arguments");
    assert_eq!(parse_program("Jump 3").unwrap_err(), "Line 1: Unknown instruction 'Jump'");
    assert_eq!(
        parse_program("ArithmeticIs 0 1 +").unwrap_err(),
        "Line 1: ArithmeticIs expression error: Unexpected end of input"
    );
    assert!(try_parse_program("Call").is_none());
    assert_eq!(try_parse_program("Jump\nCall").unwrap().unwrap_err(), "Line 1: Unknown instruction 'Jump'");
}

#[test]
fn assembler_places_predicates_after_header() {
    let text = ".predicates\npred edge/2:\nPutConst 0 1\nProceed\npred path:\nCall edge\nProceed\n.query\nCall path\n";
    let prog = assemble_program(text).unwrap();
    assert_eq!(
        prog,
        vec![
            Instruction::AssertClause { predicate: s("edge"), address: 2 },
            Instruction::AssertClause { predicate: s("path"), address: 4 },
            Instruction::PutConst { register: 0, value: 1 },
            Instruction::Proceed,
            Instruction::Call { predicate: s("edge") },
            Instruction::Proceed,
            Instruction::Call { predicate: s("path") },
        ]
    );
}

#[test]
fn assembler_errors() {
    match assemble_program("PutConst 0 1") {
        Err(AssemblerError::Message(m)) => assert_eq!(m, "Line 1: Unknown section directive"),
        other => panic!("{:?}", other),
    }
    match assemble_program(".predicates\npred edge\n") {
        Err(AssemblerError::Message(m)) => assert_eq!(m, "Line 2: Missing ':' in predicate header"),
        other => panic!("{:?}", other),
    }
    match assemble_program(".query\nPutConst 0\n") {
        Err(AssemblerError::Message(m)) => assert_eq!(m, "Line 2: PutConst expects 2 arguments"),
        other => panic!("{:?}", other),
    }
}

#[test]
fn prolog_terms() {
    assert_eq!(parse_term("foo").unwrap(), PTerm::Atom(s("foo")));
    assert_eq!(parse_term("X").unwrap(), PTerm::Var(s("X")));
    assert_eq!(parse_term("_y").unwrap(), PTerm::Var(s("_y")));
    assert_eq!(parse_term("42").unwrap(), PTerm::Number(42));
    assert_eq!(parse_term("'Hello world'").unwrap(), PTerm::Atom(s("Hello world")));
    assert_eq!(
        parse_term("f(a, g(X, 1))").unwrap(),
        PTerm::Compound(s("f"), vec![PTerm::Atom(s("a")), PTerm::Compound(s("g"), vec![PTerm::Var(s("X")), PTerm::Number(1)])])
    );
    assert_eq!(
        parse_term("X = f(Y)").unwrap(),
        PTerm::Compound(s("="), vec![PTerm::Var(s("X")), PTerm::Compound(s("f"), vec![PTerm::Var(s("Y"))])])
    );
    match parse_term("12x") {
        Err(ParseError::UnexpectedToken(m)) => assert_eq!(m, "Invalid number: 12x"),
        other => panic!("{:?}", other),
    }
    assert!(matches!(parse_term("   "), Err(ParseError::IncompleteInput)));
}

#[test]
fn prolog_program_clauses() {
    let text = "% comment\nparent(tom, bob).\n?- parent(X, bob).\ngrand(X, Z) :- parent(X, Y),\n   parent(Y, Z).\nval(3.14).\n";
    let clauses = split_program_into_clauses(text).unwrap();
    assert_eq!(clauses, vec![s("parent(tom, bob)"), s("grand(X, Z) :- parent(X, Y), parent(Y, Z)"), s("val(3.14)")]);
    let parsed = parse_prolog("likes(mary, wine).\nhappy(X) :- likes(X, wine).").unwrap();
    assert_eq!(parsed.len(), 2);
    assert_eq!(
        parsed[0],
        Clause::Fact { head: PTerm::Compound(s("likes"), vec![PTerm::Atom(s("mary")), PTerm::Atom(s("wine"))]) }
    );
    assert_eq!(
        parsed[1],
        Clause::Rule {
            head: PTerm::Compound(s("happy"), vec![PTerm::Var(s("X"))]),
            body: vec![PTerm::Compound(s("likes"), vec![PTerm::Var(s("X")), PTerm::Atom(s("wine"))])],
        }
    );
    assert!(matches!(split_program_into_clauses("% only\n"), Err(ParseError::IncompleteInput)));
    match split_program_into_clauses("a(b)") {
        Err(ParseError::UnexpectedToken(m)) => assert_eq!(m, "Clause must end with a period"),
        other => panic!("{:?}", other),
    }
    match parse_prolog("a :- b :- c.") {
        Err(ParseError::UnexpectedToken(m)) => assert_eq!(m, "Invalid clause syntax: a :- b :- c"),
        other => panic!("{:?}", other),
    }
}

#[test]
fn prolog_compiles_facts_and_rules() {
    let (code, table) = lam::prolog::compiler::compile_prolog("p(a, 1, X).\nq :- p(a, 2, Y), write('hi'), Z = 3.").unwrap();
    assert_eq!(
        code,
        vec![
            Instruction::PutStr { register: 0, value: s("a") },
            Instruction::PutConst { register: 1, value: 1 },
            Instruction::PutVar { register: 2, var_id: 2, name: s("X") },
            Instruction::Proceed,
            Instruction::PutStr { register: 0, value: s("a") },
            Instruction::PutConst { register: 1, value: 2 },
            Instruction::PutVar { register: 2, var_id: 2, name: s("Y") },
            Instruction::Call { predicate: s("p") },
            Instruction::PutStr { register: 0, value: s("hi") },
            Instruction::Call { predicate: s("write") },
            Instruction::PutVar { register: 0, var_id: 0, name: s("Z") },
            Instruction::PutConst { register: 1, value: 3 },
            Instruction::Call { predicate: s("=") },
            Instruction::Proceed,
        ]
    );
    assert_eq!(table.get(&s("p")), Some(&vec![0]));
    assert_eq!(table.get(&s("q")), Some(&vec![4]));
    let err = lam::prolog::compiler::compile_prolog("p(f(x)).").unwrap_err();
    assert_eq!(err, "Unsupported argument type in fact head");
    let err = lam::prolog::compiler::compile_prolog("p(a)").unwrap_err();
    assert_eq!(err, "Parse error: UnexpectedToken(\"Clause must end with a period\")");
}

#[test]
fn prolog_compiles_calls() {
    let (code, table) = lam::prolog::interpreter::compile_prolog("p(a).\nq :- p(b), write('x'), r.").unwrap();
    assert_eq!(
        code,
        vec![
            Instruction::Proceed,
            Instruction::Call { predicate: s("p") },
            Instruction::PutStr { register: 0, value: s("x") },
            Instruction::Call { predicate: s("write") },
            Instruction::Call { predicate: s("r") },
            Instruction::Halt,
        ]
    );
    assert_eq!(table.get(&s("q")), Some(&vec![1]));
    let (code, table) = lam::prolog::interpreter::compile_prolog("hello :- write('Hi'), nl.\nfact(1).").unwrap();
    assert_eq!(
        code,
        vec![
            Instruction::PutStr { register: 0, value: s("Hi") },
            Instruction::Call { predicate: s("write") },
            Instruction::Call { predicate: s("nl") },
            Instruction::Halt,
            Instruction::Proceed,
        ]
    );
    assert_eq!(table.get(&s("hello")), Some(&vec![0]));
    assert_eq!(table.get(&s("fact")), Some(&vec![4]));
}
