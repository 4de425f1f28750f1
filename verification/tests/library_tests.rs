use lam::display::program_listing;
use lam::instruction_parser::parse_instructions;
use lam::expression::{evaluate as evaluate_in, Expression};
use lam::lambda::{beta_reduce, free_vars, substitute};
use lam::languages::prolog::ast::{PrologClause, PrologGoal, PrologTerm};
use lam::languages::prolog::interpreter::{allocate_clause_vars, compile_clause, compile_program};
use lam::languages::prolog::parser::PrologParser;
use lam::languages::prolog::session::{ReplAction, Session};
use lam::languages::prolog::{compile_fact, compile_query, extract_inner, retract_clause, try_compile_query, try_load_program};
use lam::machine::{Instruction, Machine, MachineError};
use lam::arithmetic::Expr;
use lam::tables::PredicateTable;
use lam::term::Term;
use lam::unification::unify_terms;
use lam::union_find::UnionFind;
use std::collections::HashSet;

fn s(x: &str) -> String {
    x.to_string()
}

fn failure_message(e: MachineError) -> String {
    match e {
        MachineError::UnificationFailed(m) => m,
        other => panic!("unexpected error {:?}", other),
    }
}

#[test]
fn union_find_resolves_bindings() {
    let mut uf = UnionFind::new();
    assert_eq!(uf.resolve(&Term::Var(0)), Term::Var(0));
    uf.bind(0, &Term::Const(42)).unwrap();
    assert_eq!(uf.resolve(&Term::Var(0)), Term::Const(42));
}

#[test]
fn union_find_self_binding_is_skipped() {
    let mut uf = UnionFind::new();
    uf.bind(0, &Term::Var(0)).unwrap();
    assert_eq!(uf.resolve(&Term::Var(0)), Term::Var(0));
    uf.bind(1, &Term::Var(0)).unwrap();
    uf.bind(0, &Term::Var(1)).unwrap();
    assert_eq!(uf.resolve(&Term::Var(0)), Term::Var(0));
}

#[test]
fn union_find_bind_then_undo() {
    let mut uf = UnionFind::new();
    uf.bind(0, &Term::Const(1)).unwrap();
    uf.bind(1, &Term::Var(0)).unwrap();
    assert_eq!(uf.resolve(&Term::Var(1)), Term::Const(1));
    uf.undo_trail(0);
    assert_eq!(uf.resolve(&Term::Var(0)), Term::Var(0));
    assert_eq!(uf.resolve(&Term::Var(1)), Term::Var(1));
}

#[test]
fn unify_terms_binds_and_undoes() {
    let mut uf = UnionFind::new();
    let a = Term::Compound(s("f"), vec![Term::Var(0), Term::Const(2)]);
    let b = Term::Compound(s("f"), vec![Term::Const(1), Term::Var(1)]);
    unify_terms(&mut uf, &a, &b).unwrap();
    assert_eq!(uf.resolve(&Term::Var(0)), Term::Const(1));
    assert_eq!(uf.resolve(&Term::Var(1)), Term::Const(2));
    uf.undo_trail(0);
    assert_eq!(uf.resolve(&Term::Var(0)), Term::Var(0));
    assert_eq!(uf.resolve(&Term::Var(1)), Term::Var(1));
}

#[test]
fn unify_terms_messages() {
    let mut uf = UnionFind::new();
    let e = unify_terms(&mut uf, &Term::Const(1), &Term::Const(2)).unwrap_err();
    assert_eq!(failure_message(e), "Constants do not match: 1 vs 2");
    let f = Term::Compound(s("f"), vec![Term::Const(1)]);
    let g = Term::Compound(s("g"), vec![Term::Const(1)]);
    let e = unify_terms(&mut uf, &f, &g).unwrap_err();
    assert_eq!(failure_message(e), "Compound term mismatch: f vs g");
    let e = unify_terms(&mut uf, &Term::Str(s("a")), &Term::Const(1)).unwrap_err();
    assert_eq!(failure_message(e), "Failed to unify Str(\"a\") with Const(1)");
}

#[test]
fn lambda_free_variables() {
    let t = Term::Lambda(0, Box::new(Term::Compound(s("f"), vec![Term::Var(0), Term::Var(1)])));
    let expected: HashSet<usize> = [1].into_iter().collect();
    assert_eq!(free_vars(&t), expected);
    assert!(free_vars(&Term::Const(3)).is_empty());
}

#[test]
fn substitution_renames_a_capturing_parameter() {
    let t = Term::Lambda(1, Box::new(Term::Var(0)));
    let r = substitute(&t, 0, &Term::Var(1));
    assert_eq!(r, Term::Lambda(2, Box::new(Term::Var(1))));
    let t = Term::Lambda(0, Box::new(Term::Var(0)));
    assert_eq!(substitute(&t, 0, &Term::Const(5)), t);
    let t = Term::Lambda(1, Box::new(Term::Var(1)));
    assert_eq!(substitute(&t, 0, &Term::Var(1)), Term::Lambda(2, Box::new(Term::Var(2))));
}

#[test]
fn beta_reduction_goes_under_other_terms() {
    let id = Term::Lambda(0, Box::new(Term::Var(0)));
    let app = Term::App(Box::new(id), Box::new(Term::Const(1)));
    let t = Term::Compound(s("g"), vec![app]);
    assert_eq!(beta_reduce(&t), Term::Compound(s("g"), vec![Term::Const(1)]));
    let stuck = Term::App(Box::new(Term::Var(3)), Box::new(Term::Const(1)));
    assert_eq!(beta_reduce(&stuck), stuck);
}

#[test]
fn choice_then_fail_restores_the_state() {
    let mut m = Machine::new(2, vec![]);
    m.execute_put_const(0, 7).unwrap();
    m.pc = 5;
    m.execute_choice().unwrap();
    m.execute_put_const(0, 9).unwrap();
    m.execute_fail().unwrap();
    assert_eq!(m.registers[0], Some(Term::Const(7)));
    assert_eq!(m.pc, 7);
    assert_eq!(m.choice_stack.len(), 0);
}

#[test]
fn backtracking_undoes_a_unification() {
    let mut m = Machine::new(1, vec![]);
    m.execute_put_var(0, 0, s("X")).unwrap();
    m.execute_choice().unwrap();
    m.execute_get_const(0, 5).unwrap();
    assert_eq!(m.substitution.get(&0), Some(&Term::Const(5)));
    m.execute_fail().unwrap();
    assert!(m.substitution.get(&0).is_none());
    assert_eq!(m.trail.len(), 0);
}

#[test]
fn cut_then_fail_has_no_choice_point() {
    let mut m = Machine::new(1, vec![]);
    m.execute_choice().unwrap();
    m.execute_choice().unwrap();
    m.execute_cut().unwrap();
    assert!(matches!(m.execute_fail(), Err(MachineError::NoChoicePoint)));
}

#[test]
fn assert_then_retract_restores_the_table() {
    let mut m = Machine::new(1, vec![]);
    m.register_predicate(s("p"), 0);
    m.execute_assert_clause(s("p"), 7).unwrap();
    assert_eq!(m.predicate_table.get(&s("p")), Some(&vec![0, 7]));
    m.execute_retract_clause(s("p"), 7).unwrap();
    assert_eq!(m.predicate_table.get(&s("p")), Some(&vec![0]));
}

#[test]
fn call_then_proceed_returns() {
    let mut m = Machine::new(1, vec![Instruction::Proceed; 6]);
    m.register_predicate(s("p"), 4);
    m.pc = 2;
    m.execute_call(s("p")).unwrap();
    assert_eq!(m.pc, 4);
    m.execute_proceed().unwrap();
    assert_eq!(m.pc, 2);
    assert_eq!(m.control_stack.len(), 0);
}

#[test]
fn allocate_then_deallocate() {
    let mut m = Machine::new(1, vec![]);
    m.execute_allocate(3).unwrap();
    assert_eq!(m.environment_stack, vec![vec![None, None, None]]);
    m.execute_deallocate().unwrap();
    assert!(m.environment_stack.is_empty());
    assert!(matches!(m.execute_deallocate(), Err(MachineError::EnvironmentMissing)));
}

#[test]
fn unify_is_reflexive() {
    let mut m = Machine::new(1, vec![]);
    let t = Term::Compound(s("f"), vec![Term::Var(0), Term::Const(1)]);
    assert!(m.unify(&t, &t));
    assert!(m.substitution.is_empty());
    assert!(m.trail.is_empty());
}

#[test]
fn expressions_read_registers() {
    let regs = vec![Some(Term::Const(5)), None, Some(Term::Str(s("x")))];
    let e = Expression::Add(Box::new(Expression::Var(0)), Box::new(Expression::Const(2)));
    assert_eq!(evaluate_in(&e, &regs).unwrap(), 7);
    let e = Expression::Div(Box::new(Expression::Const(-7)), Box::new(Expression::Const(2)));
    assert_eq!(evaluate_in(&e, &regs).unwrap(), -3);
    for idx in [1usize, 2, 9] {
        match evaluate_in(&Expression::Var(idx), &regs) {
            Err(MachineError::UninitializedRegister(r)) => assert_eq!(r, idx),
            other => panic!("unexpected {:?}", other),
        }
    }
}

#[test]
fn expressions_refuse_division_by_zero() {
    let regs = vec![Some(Term::Const(0))];
    let e = Expression::Div(Box::new(Expression::Var(7)), Box::new(Expression::Var(0)));
    assert_eq!(failure_message(evaluate_in(&e, &regs).unwrap_err()), "Division by zero");
    let e = Expression::Div(Box::new(Expression::Var(7)), Box::new(Expression::Const(1)));
    assert!(matches!(evaluate_in(&e, &regs), Err(MachineError::UninitializedRegister(7))));
    let e = Expression::Sub(Box::new(Expression::Var(4)), Box::new(Expression::Var(5)));
    assert!(matches!(evaluate_in(&e, &regs), Err(MachineError::UninitializedRegister(4))));
}

#[test]
fn instruction_texts() {
    assert_eq!(Instruction::PutConst { register: 0, value: -42 }.to_string(), "PUT_CONST R0, -42");
    assert_eq!(
        Instruction::PutVar { register: 1, var_id: 3, name: s("X") }.to_string(),
        "PUT_VAR   R1, 3, \"X\""
    );
    assert_eq!(Instruction::Call { predicate: s("p") }.to_string(), "CALL      \"p\"");
    assert_eq!(Instruction::Choice.to_string(), "CHOICE");
    assert_eq!(
        Instruction::ArithmeticIs {
            target: 0,
            expression: Expr::Add(Box::new(Expr::Const(1)), Box::new(Expr::Const(2))),
        }
        .to_string(),
        "ARITHMETIC_IS R0, Add(Const(1), Const(2))"
    );
    assert_eq!(
        Instruction::SetLocal { index: 0, value: Term::Compound(s("f"), vec![Term::Const(1)]) }.to_string(),
        "SET_LOCAL 0 <- Compound(\"f\", [Const(1)])"
    );
    assert_eq!(
        Instruction::MultiIndexedCall { predicate: s("p"), index_registers: vec![0, 1] }.to_string(),
        "MULTI_INDEXED_CALL \"p\", [0, 1]"
    );
    assert_eq!(
        Instruction::BuildCompound { target: 2, functor: s("f"), arg_registers: vec![] }.to_string(),
        "BUILD_COMPOUND R2, f []"
    );
    assert_eq!(Instruction::GetStructure { register: 1, functor: s("g"), arity: 2 }.to_string(), "GET_STRUCTURE R1, g / 2");
    assert_eq!(Instruction::Move { src: 1, dst: 2 }.to_string(), "MOVE      R1 -> R2");
}

#[test]
fn term_texts() {
    assert_eq!(Term::Const(-3).to_string(), "-3");
    assert_eq!(Term::Str(s("hello")).to_string(), "hello");
    assert_eq!(Term::Var(2).to_string(), "Var(2)");
    let t = Term::Compound(s("f"), vec![Term::Const(1), Term::Compound(s("g"), vec![]), Term::Var(2)]);
    assert_eq!(t.to_string(), "f(1, g(), Var(2))");
    assert_eq!(Term::Lambda(0, Box::new(Term::Var(0))).to_string(), "Lambda(0, Var(0))");
}

#[test]
fn error_texts_and_listing() {
    let e = MachineError::StructureMismatch {
        expected_functor: s("f"),
        expected_arity: 2,
        found_functor: s("g"),
        found_arity: 1,
    };
    assert_eq!(e.to_string(), "Structure mismatch: expected f/2 but found g/1.");
    assert_eq!(MachineError::NoChoicePoint.to_string(), "No choice point available.");
    assert_eq!(MachineError::RegisterOutOfBounds(4).to_string(), "Register 4 is out of bounds.");
    assert_eq!(
        MachineError::NoIndexEntry(s("p"), Term::Const(1)).to_string(),
        "No index entry for predicate p with key Const(1)."
    );
    let code = vec![Instruction::PutConst { register: 0, value: 1 }, Instruction::Halt];
    assert_eq!(program_listing(&code), "PUT_CONST R0, 1\nHALT\n");
    assert_eq!(program_listing(&vec![]), "");
}

#[test]
fn command_arguments() {
    assert_eq!(extract_inner("assert(foo(1)).", "assert("), "foo(1)");
    assert_eq!(extract_inner(":- initialization(main).", ":- initialization("), "main");
    assert_eq!(extract_inner("retract( p(X) )", "retract("), "p(X)");
}

#[test]
fn facts_and_queries_compile() {
    let (code, pred, arity) = compile_fact("parent(1, \"bob\", X, alice).");
    assert_eq!(pred, "parent");
    assert_eq!(arity, 4);
    assert_eq!(
        code,
        vec![
            Instruction::GetConst { register: 0, value: 1 },
            Instruction::GetStr { register: 1, value: s("bob") },
            Instruction::GetVar { register: 2, var_id: 1000, name: s("X") },
            Instruction::GetStr { register: 3, value: s("alice") },
            Instruction::BuildCompound { target: 4, functor: s("parent"), arg_registers: vec![0, 1, 2, 3] },
            Instruction::Proceed,
        ]
    );
    let q = compile_query("p(X, Y, X)");
    assert_eq!(
        q,
        vec![
            Instruction::PutVar { register: 0, var_id: 100, name: s("X") },
            Instruction::PutVar { register: 1, var_id: 101, name: s("Y") },
            Instruction::PutVar { register: 2, var_id: 100, name: s("X") },
            Instruction::BuildCompound { target: 3, functor: s("p"), arg_registers: vec![0, 1, 2] },
            Instruction::Call { predicate: s("p") },
            Instruction::Proceed,
            Instruction::Halt,
        ]
    );
    assert!(try_compile_query("nothing").is_none());
    assert!(try_compile_query("p(1,,2)").is_none());
}

#[test]
fn retracting_clauses() {
    let mut code = vec![Instruction::Proceed];
    let mut table = PredicateTable::new();
    table.push(s("p"), 0);
    table.push(s("p"), 5);
    assert!(retract_clause(&mut code, &mut table, "p(1)"));
    assert_eq!(table.get(&s("p")), Some(&vec![5]));
    assert!(retract_clause(&mut code, &mut table, "p(1)"));
    assert!(!retract_clause(&mut code, &mut table, "p(1)"));
    assert!(!retract_clause(&mut code, &mut table, "q(1)"));
    assert_eq!(code.len(), 1);
}

#[test]
fn program_files_load() {
    let src = "% facts\nnum(1).\n\nassert(num(2)).\nretract(num(1)).\nretract(other(1)).\n:- initialization(num(X)).\n";
    let p = try_load_program(src).unwrap();
    assert_eq!(p.output, vec![s("true."), s("false.")]);
    assert_eq!(p.table.get(&s("num")), Some(&vec![3]));
    assert_eq!(p.code.len(), 6);
    assert_eq!(p.query.unwrap().len(), 5);
    assert!(try_load_program("broken line").is_none());
}

#[test]
fn session_answers_commands() {
    let mut session = Session::new();
    match session.step("assert(num(1)).") {
        Some(ReplAction::Reply(r)) => assert_eq!(r, "true."),
        _ => panic!("expected a reply"),
    }
    assert_eq!(session.code.len(), 3);
    match session.step("  ?- ?- num(X).  ") {
        Some(ReplAction::Run { code, start, show_bindings }) => {
            assert_eq!(start, 3);
            assert!(show_bindings);
            assert_eq!(code.len(), 3 + 5);
            assert_eq!(code[7], Instruction::Halt);
        },
        _ => panic!("expected a run"),
    }
    match session.step(":- initialization(num(1)).") {
        Some(ReplAction::Run { show_bindings, .. }) => assert!(!show_bindings),
        _ => panic!("expected a run"),
    }
    match session.step(":- dynamic(num/1).") {
        Some(ReplAction::Reply(r)) => assert_eq!(r, "true."),
        _ => panic!("expected a reply"),
    }
    match session.step("retract(num(1)).") {
        Some(ReplAction::Reply(r)) => assert_eq!(r, "true."),
        _ => panic!("expected a reply"),
    }
    match session.step("retract(num(1)).") {
        Some(ReplAction::Reply(r)) => assert_eq!(r, "false."),
        _ => panic!("expected a reply"),
    }
    assert!(session.step("what").is_none());
    assert!(matches!(session.step("HaLt."), Some(ReplAction::Quit)));
    assert!(matches!(session.step(" quit. "), Some(ReplAction::Quit)));
}

#[test]
fn prolog_parser_reads_facts() {
    let mut p = PrologParser::new("parent(alice, \"bob\", 'Carl', X, 42).");
    let clause = p.parse_fact().unwrap();
    assert_eq!(
        clause,
        PrologClause {
            head: PrologGoal {
                predicate: s("parent"),
                args: vec![
                    PrologTerm::Atom(s("alice")),
                    PrologTerm::Str(s("bob")),
                    PrologTerm::Atom(s("Carl")),
                    PrologTerm::Var(s("X")),
                    PrologTerm::Const(42),
                ],
            },
            body: None,
        }
    );
    let mut p = PrologParser::new("halt.");
    assert_eq!(p.parse_query().unwrap(), vec![PrologGoal { predicate: s("halt"), args: vec![] }]);
}

#[test]
fn prolog_parser_errors() {
    assert_eq!(PrologParser::new("p(1").parse_fact().unwrap_err(), "Expected ')'");
    assert_eq!(PrologParser::new("p(1)").parse_fact().unwrap_err(), "Expected '.'");
    assert_eq!(PrologParser::new("(x)").parse_goal().unwrap_err(), "Expected identifier");
    assert_eq!(PrologParser::new("   ").parse_term().unwrap_err(), "Unexpected end of input while parsing term");
    assert_eq!(PrologParser::new("\"abc").parse_string().unwrap_err(), "Unterminated string literal");
    assert_eq!(PrologParser::new("'abc").parse_quoted_atom().unwrap_err(), "Unterminated quoted atom");
    assert_eq!(PrologParser::new("abc").parse_number().unwrap_err(), "cannot parse integer from empty string");
    assert_eq!(PrologParser::new("99999999999").parse_number().unwrap_err(), "number too large to fit in target type");
    let mut p = PrologParser::new(" a ,  B,3 ) rest");
    assert_eq!(
        p.parse_term_list().unwrap(),
        vec![PrologTerm::Atom(s("a")), PrologTerm::Var(s("B")), PrologTerm::Const(3)]
    );
    assert!(p.consume_expected(")").is_ok());
    assert_eq!(p.parse_identifier().unwrap(), "rest");
}

fn var(n: &str) -> PrologTerm {
    PrologTerm::Var(s(n))
}

fn goal(p: &str, args: Vec<PrologTerm>) -> PrologGoal {
    PrologGoal { predicate: s(p), args }
}

#[test]
fn clauses_compile_with_registers() {
    let rule = PrologClause {
        head: goal("grandparent", vec![var("X"), var("Z")]),
        body: Some(vec![
            goal("parent", vec![var("X"), var("Y")]),
            goal("parent", vec![var("Y"), var("Z")]),
            goal("write", vec![var("Z")]),
            goal("nl", vec![]),
        ]),
    };
    assert_eq!(allocate_clause_vars(&rule), vec![(s("X"), 0), (s("Z"), 1), (s("Y"), 2)]);
    let call = |p: &str| Instruction::Call { predicate: s(p) };
    let mv = |src: usize, dst: usize| Instruction::Move { src, dst };
    assert_eq!(
        compile_clause(&rule, 0),
        vec![
            Instruction::GetVar { register: 0, var_id: 0, name: s("X") },
            Instruction::GetVar { register: 1, var_id: 1, name: s("Z") },
            mv(0, 10),
            mv(2, 11),
            call("parent"),
            mv(10, 0),
            mv(11, 2),
            mv(2, 10),
            mv(1, 11),
            call("parent"),
            mv(10, 2),
            mv(11, 1),
            Instruction::GetVar { register: 1, var_id: 1, name: s("Z") },
            call("write"),
            call("nl"),
            Instruction::Proceed,
        ]
    );
    let fact = PrologClause {
        head: goal("parent", vec![PrologTerm::Atom(s("alice")), PrologTerm::Const(1)]),
        body: None,
    };
    let directive = PrologClause {
        head: goal("directive", vec![]),
        body: Some(vec![goal("write", vec![PrologTerm::Str(s("hi"))])]),
    };
    let fact2 = PrologClause { head: goal("parent", vec![PrologTerm::Const(2)]), body: None };
    let (code, table, directives) = compile_program(vec![fact, directive, fact2]);
    assert_eq!(
        code,
        vec![
            Instruction::GetStr { register: 0, value: s("alice") },
            Instruction::GetConst { register: 0, value: 1 },
            Instruction::Proceed,
            Instruction::GetConst { register: 0, value: 2 },
            Instruction::Proceed,
        ]
    );
    assert_eq!(table.get(&s("parent")), Some(&vec![0, 3]));
    assert_eq!(
        directives,
        vec![Instruction::PutStr { register: 0, value: s("hi") }, call("write"), Instruction::Proceed]
    );
}

#[test]
fn builtins_print_to_the_output() {
    let code = vec![
        Instruction::PutStr { register: 0, value: s("hello") },
        Instruction::Call { predicate: s("write") },
        Instruction::Call { predicate: s("nl") },
        Instruction::PutVar { register: 1, var_id: 7, name: s("X") },
        Instruction::Call { predicate: s("print") },
        Instruction::GetConst { register: 1, value: 3 },
        Instruction::Call { predicate: s("print_subst") },
    ];
    let mut m = Machine::new(2, code);
    m.run().unwrap();
    let out: String = m.output.iter().collect();
    assert_eq!(
        out,
        "hello\n--- Machine Registers ---\nReg   0: Str(\"hello\")\nReg   1: Var(7) \"X\"\n-------------------------\n\
         --- Current Substitution ---\nVariable X (id 7) = Const(3)\n----------------------------\n"
    );
    let mut fresh = Machine::new(0, vec![]);
    fresh.execute_call(s("print_subst")).unwrap();
    fresh.execute_call(s("write")).unwrap();
    let out: String = fresh.output.iter().collect();
    assert_eq!(out, "--- Current Substitution ---\n(no bindings)\n----------------------------\n");
    assert_eq!(lam::machine::ping(), "pong");
}

#[test]
fn builtin_listings_are_ordered_and_padded() {
    let mut m = Machine::new(12, vec![]);
    assert!(m.unify(&Term::Var(5), &Term::Const(1)));
    assert!(m.unify(&Term::Var(2), &Term::Const(9)));
    m.execute_put_const(11, 4).unwrap();
    m.execute_call(s("print_subst")).unwrap();
    m.execute_call(s("print")).unwrap();
    let out: String = m.output.iter().collect();
    assert_eq!(
        out,
        "--- Current Substitution ---\nVariable _2 (id 2) = Const(9)\nVariable _5 (id 5) = Const(1)\n\
         ----------------------------\n--- Machine Registers ---\nReg  11: Const(4)\n-------------------------\n"
    );
}

#[test]
fn term_text_matches_the_debug_form() {
    let odd = s("a\"b\\c\n\t\u{1}\u{7f}é'\u{301}x\u{200b}");
    let terms = vec![
        Term::Str(odd.clone()),
        Term::Compound(odd.clone(), vec![Term::Const(-1), Term::Var(3), Term::Str(s("q"))]),
        Term::Modal(s("box"), Box::new(Term::Lambda(2, Box::new(Term::App(Box::new(Term::Var(2)), Box::new(Term::Const(0))))))),
        Term::Constraint(s("c"), vec![]),
        Term::HigherOrder(Box::new(Term::Prob(Box::new(Term::Temporal(s("t"), Box::new(Term::Const(5))))))),
    ];
    for t in terms {
        assert_eq!(lam::text::term_to_text(&t), format!("{:?}", t));
    }
}

#[test]
fn listings_read_back() {

    let code = vec![
        Instruction::PutConst { register: 0, value: -42 },
        Instruction::GetConst { register: 12, value: 7 },
        Instruction::PutVar { register: 1, var_id: 100, name: s("My Var") },
        Instruction::GetVar { register: 2, var_id: 3, name: s("X") },
        Instruction::Call { predicate: s("parent") },
        Instruction::TailCall { predicate: s("loop") },
        Instruction::IndexedCall { predicate: s("p"), index_register: 4 },
        Instruction::AssertClause { predicate: s("q"), address: 10 },
        Instruction::RetractClause { predicate: s("q"), address: 10 },
        Instruction::PutStr { register: 0, value: s("hello world") },
        Instruction::GetStr { register: 0, value: s("a\"b") },
        Instruction::Allocate { n: 3 },
        Instruction::Deallocate,
        Instruction::Proceed,
        Instruction::Choice,
        Instruction::Fail,
        Instruction::Cut,
        Instruction::Halt,
    ];
    let text = program_listing(&code);
    assert_eq!(parse_instructions(&text).unwrap(), code);
    let compound = vec![Instruction::BuildCompound { target: 2, functor: s("f"), arg_registers: vec![0, 1] }];
    assert!(parse_instructions(&program_listing(&compound)).is_err());
}

#[test]
fn machine_errors() {
    let mut m = Machine::new(2, vec![]);
    assert!(matches!(m.execute_put_const(5, 1), Err(MachineError::RegisterOutOfBounds(5))));
    assert!(matches!(m.execute_get_structure(0, s("f"), 1), Err(MachineError::UninitializedRegister(0))));
    assert!(matches!(m.execute_call(s("nope")), Err(MachineError::PredicateNotFound(p)) if p == "nope"));
    m.register_predicate(s("p"), 5);
    m.execute_retract_clause(s("p"), 5).unwrap();
    assert!(matches!(m.execute_call(s("p")), Err(MachineError::PredicateClauseNotFound(p)) if p == "p"));
    assert!(matches!(m.execute_retract_clause(s("p"), 5), Err(MachineError::PredicateClauseNotFound(_))));
    m.execute_put_const(0, 1).unwrap();
    assert!(matches!(m.execute_get_structure(0, s("f"), 1), Err(MachineError::NotACompoundTerm(0))));
    m.execute_build_compound(1, s("f"), vec![0]).unwrap();
    match m.execute_get_structure(1, s("f"), 2) {
        Err(e) => assert_eq!(e.to_string(), "Structure mismatch: expected f/2 but found f/1."),
        Ok(()) => panic!("expected a mismatch"),
    }
    assert!(matches!(m.execute_indexed_call(s("q"), 0), Err(MachineError::PredicateNotInIndex(_))));
    m.register_indexed_clause(s("q"), Term::Const(2), 3);
    assert!(matches!(m.execute_indexed_call(s("q"), 0), Err(MachineError::NoIndexEntry(_, Term::Const(1)))));
    m.register_predicate(s("q"), 3);
    m.register_indexed_clause(s("q"), Term::Const(1), 3);
    m.execute_retract_clause(s("q"), 3).unwrap();
    assert!(matches!(m.execute_indexed_call(s("q"), 0), Err(MachineError::NoIndexedClause(_, Term::Const(1)))));
    m.pc = 0;
    assert!(matches!(m.step(), Err(MachineError::NoMoreInstructions)));
}

#[test]
fn indexed_call_jumps_to_the_registered_clause() {
    let mut m = Machine::new(1, vec![Instruction::Proceed; 8]);
    m.execute_put_const(0, 1).unwrap();
    m.register_indexed_clause(s("q"), Term::Const(1), 6);
    m.register_indexed_clause(s("q"), Term::Const(1), 7);
    m.register_indexed_clause(s("q"), Term::Const(2), 5);
    m.execute_indexed_call(s("q"), 0).unwrap();
    assert_eq!(m.pc, 6);
    assert_eq!(m.choice_stack.len(), 1);
    assert_eq!(m.choice_stack[0].alternative_clauses, Some(vec![7]));
}

#[test]
fn asserted_clause_is_called() {
    let mut m = Machine::new(1, vec![Instruction::Proceed; 8]);
    m.pc = 1;
    m.execute_assert_clause(s("r"), 4).unwrap();
    m.execute_call(s("r")).unwrap();
    assert_eq!(m.pc, 4);
    assert_eq!(m.control_stack.len(), 1);
    assert_eq!(m.control_stack[0].return_pc, 1);
}

#[test]
fn cut_in_a_called_predicate_keeps_the_callers_choice_points() {
    let mut m = Machine::new(1, vec![Instruction::Proceed; 6]);
    m.execute_choice().unwrap();
    m.register_predicate(s("p"), 4);
    m.register_predicate(s("p"), 5);
    m.execute_call(s("p")).unwrap();
    assert_eq!(m.choice_stack.len(), 2);
    assert_eq!(m.choice_stack[1].call_level, 1);
    m.execute_cut().unwrap();
    assert_eq!(m.choice_stack.len(), 1);
    assert_eq!(m.choice_stack[0].call_level, 0);
}

#[test]
fn ground_terms_unify_exactly_when_equal() {
    let a = Term::Compound(s("f"), vec![Term::Const(1), Term::Compound(s("g"), vec![Term::Str(s("x"))])]);
    let b = Term::Compound(s("f"), vec![Term::Const(1), Term::Compound(s("g"), vec![Term::Str(s("x"))])]);
    let c = Term::Compound(s("f"), vec![Term::Const(1), Term::Compound(s("g"), vec![Term::Str(s("y"))])]);
    let mut m = Machine::new(1, vec![]);
    assert!(m.unify(&a, &b));
    assert!(!m.unify(&a, &c));
    assert!(m.substitution.is_empty());
    assert!(m.trail.is_empty());
}

#[test]
fn rigid_terms_unify_terms_exactly_when_equal() {
    let a = Term::Compound(s("f"), vec![Term::Const(1), Term::Compound(s("g"), vec![Term::Const(2)])]);
    let b = Term::Compound(s("f"), vec![Term::Const(1), Term::Compound(s("g"), vec![Term::Const(2)])]);
    let c = Term::Compound(s("f"), vec![Term::Const(1), Term::Compound(s("g"), vec![Term::Const(3)])]);
    let mut uf = UnionFind::new();
    assert!(unify_terms(&mut uf, &a, &b).is_ok());
    assert!(unify_terms(&mut uf, &a, &c).is_err());
    assert!(uf.bindings.is_empty());
    assert!(uf.trail.is_empty());
}

#[test]
fn unified_terms_resolve_to_the_same_term() {
    // f(X0, g(X2)) = f(h(X1), g(3)): afterwards both sides stand for f(h(X1), g(3)).
    let a = Term::Compound(s("f"), vec![Term::Var(0), Term::Compound(s("g"), vec![Term::Var(2)])]);
    let b = Term::Compound(
        s("f"),
        vec![Term::Compound(s("h"), vec![Term::Var(1)]), Term::Compound(s("g"), vec![Term::Const(3)])],
    );
    let mut uf = UnionFind::new();
    unify_terms(&mut uf, &a, &b).unwrap();
    assert_eq!(uf.resolve(&Term::Var(0)), Term::Compound(s("h"), vec![Term::Var(1)]));
    assert_eq!(uf.resolve(&Term::Var(2)), Term::Const(3));
    assert_eq!(uf.resolve(&Term::Var(1)), Term::Var(1));

    let mut m = Machine::new(1, vec![]);
    assert!(m.unify(&a, &b));
    assert_eq!(m.resolve_within(&Term::Var(0), 10), Some(Term::Compound(s("h"), vec![Term::Var(1)])));
    assert_eq!(m.resolve_within(&Term::Var(2), 10), Some(Term::Const(3)));
    assert_eq!(m.resolve_within(&Term::Var(1), 10), Some(Term::Var(1)));
}

#[test]
fn path_compression_keeps_what_variables_stand_for() {
    let mut uf = UnionFind::new();
    uf.bind(0, &Term::Var(1)).unwrap();
    uf.bind(1, &Term::Var(2)).unwrap();
    uf.bind(3, &Term::Var(2)).unwrap();
    uf.bind(2, &Term::Const(5)).unwrap();
    assert_eq!(uf.resolve(&Term::Var(0)), Term::Const(5));
    assert_eq!(uf.bindings.get(&0), Some(&Term::Const(5)));
    assert_eq!(uf.resolve(&Term::Var(1)), Term::Const(5));
    assert_eq!(uf.resolve(&Term::Var(2)), Term::Const(5));
    assert_eq!(uf.resolve(&Term::Var(3)), Term::Const(5));
    assert_eq!(uf.resolve(&Term::Var(4)), Term::Var(4));
}

#[test]
fn undo_after_binds_and_resolves_restores_everything() {
    let mut uf = UnionFind::new();
    uf.bind(7, &Term::Const(0)).unwrap();
    let mark = uf.trail.len();
    uf.bind(0, &Term::Var(1)).unwrap();
    uf.bind(1, &Term::Var(2)).unwrap();
    uf.bind(2, &Term::Const(5)).unwrap();
    assert_eq!(uf.resolve(&Term::Var(0)), Term::Const(5));
    uf.bind(4, &Term::Var(0)).unwrap();
    uf.undo_trail(mark);
    assert_eq!(uf.trail.len(), mark);
    assert_eq!(uf.bindings.len(), 1);
    assert_eq!(uf.bindings.get(&7), Some(&Term::Const(0)));
    uf.undo_trail(mark + 10);
    assert_eq!(uf.trail.len(), mark);
    assert_eq!(uf.bindings.len(), 1);
}

#[test]
fn query_bindings_are_ordered_by_id_and_resolved() {
    let mut m = Machine::new(1, vec![]);
    m.variable_names.insert(7, s("Z"));
    m.variable_names.insert(2, s("Y"));
    m.variable_names.insert(0, s("X"));
    assert!(m.unify(&Term::Var(0), &Term::Var(9)));
    assert!(m.unify(&Term::Var(9), &Term::Const(4)));
    assert!(m.unify(&Term::Var(7), &Term::Compound(s("f"), vec![Term::Var(0)])));
    let answer = m.query_bindings();
    assert_eq!(
        answer,
        vec![
            (s("X"), Term::Const(4)),
            (s("Y"), Term::Var(2)),
            (s("Z"), Term::Compound(s("f"), vec![Term::Var(0)])),
        ]
    );
}

#[test]
fn choice_lines_read_with_or_without_an_address() {
    assert_eq!(parse_instructions("CHOICE\n").unwrap(), vec![Instruction::Choice]);
    assert_eq!(parse_instructions("CHOICE 7\n").unwrap(), vec![Instruction::Choice]);
    assert_eq!(
        parse_instructions("CHOICE 1, 2\n").unwrap_err(),
        "Line 1: CHOICE expects 1 parameter, got 2"
    );
    assert_eq!(program_listing(&vec![Instruction::Choice]), "CHOICE\n");
}

#[test]
fn bounded_runs() {
    let code = vec![
        Instruction::PutConst { register: 0, value: 10 },
        Instruction::Choice,
        Instruction::PutConst { register: 1, value: 20 },
        Instruction::Fail,
        Instruction::PutConst { register: 1, value: 30 },
        Instruction::Halt,
        Instruction::PutConst { register: 1, value: 40 },
    ];
    let mut m = Machine::new(2, code.clone());
    assert!(matches!(m.run_for(100), Some(Ok(()))));
    assert_eq!(m.registers[1], Some(Term::Const(30)));
    assert_eq!(m.pc, 5);

    let mut short = Machine::new(2, code);
    assert!(short.run_for(2).is_none());

    let divide = vec![Instruction::ArithmeticIs {
        target: 0,
        expression: Expr::Div(Box::new(Expr::Const(1)), Box::new(Expr::Const(0))),
    }];
    assert!(Machine::new(1, divide).run_for(10).is_none());

    let mut failing = Machine::new(1, vec![Instruction::Fail]);
    assert!(matches!(failing.run_for(10), Some(Err(MachineError::NoChoicePoint))));
}

#[test]
fn bounded_run_stops_at_a_cyclic_binding() {
    let mut m = Machine::new(1, vec![Instruction::GetConst { register: 0, value: 1 }]);
    m.substitution.insert(0, Term::Var(1));
    m.substitution.insert(1, Term::Var(0));
    m.registers[0] = Some(Term::Var(0));
    assert!(m.run_for(50).is_none());
}
