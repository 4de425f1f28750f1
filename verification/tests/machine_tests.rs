use lam::arithmetic::{evaluate, Expr};
use lam::machine::{Instruction, Machine};
use lam::term::Term;

#[test]
fn test_arithmetic_is() {
    let code = vec![Instruction::ArithmeticIs {
        target: 0,
        expression: Expr::Mul(
            Box::new(Expr::Add(Box::new(Expr::Const(3)), Box::new(Expr::Const(4)))),
            Box::new(Expr::Const(2)),
        ),
    }];
    let mut machine = Machine::new(1, code);
    let _ = machine.run();
    assert_eq!(machine.registers[0], Some(Term::Const(14)));
}

#[test]
fn test_evaluate_const() {
    let expr = Expr::Const(42);
    assert_eq!(evaluate(&expr), 42);
}

#[test]
fn test_evaluate_add() {
    let expr = Expr::Add(Box::new(Expr::Const(3)), Box::new(Expr::Const(4)));
    assert_eq!(evaluate(&expr), 7);
}

#[test]
fn test_evaluate_complex() {
    let expr = Expr::Mul(
        Box::new(Expr::Sub(Box::new(Expr::Const(10)), Box::new(Expr::Const(2)))),
        Box::new(Expr::Add(Box::new(Expr::Const(1)), Box::new(Expr::Const(3)))),
    );
    assert_eq!(evaluate(&expr), 32);
}

#[test]
fn test_backtracking_constants() {
    let code = vec![
        Instruction::PutConst { register: 0, value: 10 },
        Instruction::Choice,
        Instruction::PutConst { register: 1, value: 20 },
        Instruction::Fail,
        Instruction::PutConst { register: 1, value: 30 },
    ];
    let mut machine = Machine::new(2, code);
    let _ = machine.run();
    assert_eq!(machine.registers[0], Some(Term::Const(10)));
    assert_eq!(machine.registers[1], Some(Term::Const(30)));
    assert_eq!(machine.choice_stack.len(), 0);
}

#[test]
fn test_backtracking_variables() {
    let code = vec![
        Instruction::PutVar { register: 0, var_id: 0, name: "X".to_string() },
        Instruction::Choice,
        Instruction::GetConst { register: 0, value: 100 },
        Instruction::Fail,
        Instruction::GetConst { register: 0, value: 300 },
    ];
    let mut machine = Machine::new(1, code);
    let _ = machine.run();
    assert_eq!(machine.substitution.get(&0), Some(&Term::Const(300)));
    assert_eq!(machine.trail.len(), 1);
    assert_eq!(machine.choice_stack.len(), 0);
}

#[test]
fn benchmark_arithmetic_is() {
    let expr = Expr::Mul(
        Box::new(Expr::Add(Box::new(Expr::Const(3)), Box::new(Expr::Const(4)))),
        Box::new(Expr::Const(2)),
    );
    let code = vec![Instruction::ArithmeticIs { target: 0, expression: expr }];
    let iterations = 10000;
    let start = std::time::Instant::now();
    for _ in 0..iterations {
        let mut machine = Machine::new(1, code.clone());
        let _ = machine.run();
        assert_eq!(machine.registers[0], Some(Term::Const(14)));
    }
    let duration = start.elapsed();
    println!("Benchmark: Executed {} iterations in {:?}", iterations, duration);
}

#[test]
fn test_build_compound() {
    let code = vec![
        Instruction::PutConst { register: 0, value: 42 },
        Instruction::PutConst { register: 1, value: 99 },
        Instruction::BuildCompound { target: 2, functor: "f".to_string(), arg_registers: vec![0, 1] },
    ];
    let mut machine = Machine::new(3, code);
    let _ = machine.run();
    let expected = Term::Compound("f".to_string(), vec![Term::Const(42), Term::Const(99)]);
    assert_eq!(machine.registers[2], Some(expected));
}

#[test]
fn test_cut() {
    let code = vec![
        Instruction::Choice,
        Instruction::PutConst { register: 0, value: 1 },
        Instruction::Cut,
        Instruction::Fail,
        Instruction::PutConst { register: 0, value: 2 },
        Instruction::Proceed,
    ];
    let mut machine = Machine::new(1, code);
    let _ = machine.run();
    assert_eq!(machine.registers[0], Some(Term::Const(1)));
    assert_eq!(machine.choice_stack.len(), 0);
}

#[test]
fn test_dynamic_clause_management() {
    let code = vec![
        Instruction::AssertClause { predicate: "p".to_string(), address: 3 },
        Instruction::Call { predicate: "p".to_string() },
        Instruction::Proceed,
        Instruction::PutConst { register: 0, value: 1 },
        Instruction::Proceed,
        Instruction::RetractClause { predicate: "p".to_string(), address: 3 },
        Instruction::Call { predicate: "p".to_string() },
        Instruction::Proceed,
    ];
    let mut machine = Machine::new(1, code);
    let _ = machine.run();
    assert_eq!(machine.registers[0], Some(Term::Const(1)));
    assert_eq!(machine.registers[0], Some(Term::Const(1)));
}

#[test]
fn test_environment() {
    let code = vec![
        Instruction::Allocate { n: 2 },
        Instruction::SetLocal { index: 0, value: Term::Const(42) },
        Instruction::SetLocal { index: 1, value: Term::Const(99) },
        Instruction::GetLocal { index: 0, register: 0 },
        Instruction::GetLocal { index: 1, register: 1 },
        Instruction::Deallocate,
    ];
    let mut machine = Machine::new(2, code);
    let _ = machine.run();
    assert_eq!(machine.registers[0], Some(Term::Const(42)));
    assert_eq!(machine.registers[1], Some(Term::Const(99)));
    assert_eq!(machine.environment_stack.len(), 0);
}

#[test]
fn test_get_structure() {
    let code = vec![
        Instruction::PutConst { register: 0, value: 1 },
        Instruction::PutConst { register: 1, value: 2 },
        Instruction::BuildCompound { target: 2, functor: "f".to_string(), arg_registers: vec![0, 1] },
        Instruction::GetStructure { register: 2, functor: "f".to_string(), arity: 2 },
    ];
    let mut machine = Machine::new(3, code);
    let _ = machine.run();
    let expected = Term::Compound("f".to_string(), vec![Term::Const(1), Term::Const(2)]);
    assert_eq!(machine.registers[2], Some(expected));
}

#[test]
fn test_indexed_call() {
    let code = vec![
        Instruction::IndexedCall { predicate: "p".to_string(), index_register: 0 },
        Instruction::PutConst { register: 0, value: 10 },
        Instruction::Fail,
        Instruction::PutConst { register: 0, value: 20 },
        Instruction::Proceed,
    ];
    let mut machine = Machine::new(1, code);
    machine.register_indexed_clause("p".to_string(), Term::Const(1), 1);
    machine.register_indexed_clause("p".to_string(), Term::Const(2), 3);
    machine.registers[0] = Some(Term::Const(2));
    let _ = machine.run();
    assert_eq!(machine.registers[0], Some(Term::Const(20)));
}

#[test]
fn test_put_const_instruction() {
    let code = vec![Instruction::PutConst { register: 0, value: 42 }];
    let mut machine = Machine::new(2, code);
    assert_eq!(machine.registers[0], None);
    assert_eq!(machine.registers[1], None);
    let cont = machine.step();
    assert!(cont.is_ok());
    assert_eq!(machine.registers[0], Some(Term::Const(42)));
    assert_eq!(machine.registers[1], None);
    assert!(machine.step().is_err());
}

#[test]
fn test_put_var_instruction() {
    let code = vec![Instruction::PutVar { register: 1, var_id: 0, name: "X".to_string() }];
    let mut machine = Machine::new(2, code);
    machine.run().unwrap();
    assert_eq!(machine.registers[1], Some(Term::Var(0)));
}

#[test]
fn test_get_const_unification_success() {
    let code = vec![
        Instruction::PutConst { register: 0, value: 42 },
        Instruction::GetConst { register: 0, value: 42 },
    ];
    let mut machine = Machine::new(1, code);
    machine.run().unwrap();
    assert_eq!(machine.registers[0], Some(Term::Const(42)));
}

#[test]
fn test_get_const_unification_failure() {
    let code = vec![
        Instruction::PutConst { register: 0, value: 42 },
        Instruction::GetConst { register: 0, value: 100 },
    ];
    let mut machine = Machine::new(1, code);
    assert!(machine.run().is_err());
}

#[test]
fn test_get_var_unification() {
    let code = vec![
        Instruction::PutVar { register: 0, var_id: 0, name: "X".to_string() },
        Instruction::GetVar { register: 0, var_id: 1, name: "Y".to_string() },
    ];
    let mut machine = Machine::new(1, code);
    machine.run().unwrap();
    assert_eq!(machine.registers[0], Some(Term::Var(0)));
    let binding = machine.substitution.get(&1).cloned();
    assert_eq!(binding, Some(Term::Var(0)));
}

#[test]
fn test_call_and_proceed_with_lookup() {
    let code = vec![
        Instruction::PutConst { register: 0, value: 10 },
        Instruction::Call { predicate: "dummy_pred".to_string() },
        Instruction::PutConst { register: 1, value: 20 },
        Instruction::Proceed,
        Instruction::PutConst { register: 2, value: 30 },
    ];
    let mut machine = Machine::new(3, code);
    machine.register_predicate("dummy_pred".to_string(), 2);
    machine.run().unwrap();
    assert_eq!(machine.registers[0], Some(Term::Const(10)));
    assert_eq!(machine.registers[1], Some(Term::Const(20)));
    assert_eq!(machine.registers[2], Some(Term::Const(30)));
    assert_eq!(machine.control_stack.len(), 0);
}

#[test]
fn benchmark_path_inference() {
    let code = vec![
        Instruction::PutConst { register: 0, value: 1 },
        Instruction::PutConst { register: 1, value: 3 },
        Instruction::Call { predicate: "path".to_string() },
        Instruction::Proceed,
        Instruction::PutConst { register: 0, value: 1 },
        Instruction::PutConst { register: 1, value: 2 },
        Instruction::Proceed,
        Instruction::PutConst { register: 0, value: 2 },
        Instruction::PutConst { register: 1, value: 3 },
        Instruction::Proceed,
        Instruction::PutConst { register: 0, value: 1 },
        Instruction::PutConst { register: 1, value: 3 },
        Instruction::Proceed,
        Instruction::Call { predicate: "edge".to_string() },
        Instruction::Proceed,
        Instruction::PutVar { register: 2, var_id: 0, name: "Z".to_string() },
        Instruction::Call { predicate: "edge".to_string() },
        Instruction::Call { predicate: "path".to_string() },
        Instruction::Proceed,
    ];
    let mut machine = Machine::new(3, code);
    machine.register_predicate("edge".to_string(), 4);
    machine.register_predicate("edge".to_string(), 7);
    machine.register_predicate("edge".to_string(), 10);
    machine.register_predicate("path".to_string(), 13);
    machine.register_predicate("path".to_string(), 15);
    let start = std::time::Instant::now();
    let _ = machine.run();
    let duration = start.elapsed();
    println!("Path Inference Benchmark: Solution: X = {:?}, Y = {:?}", machine.registers[0], machine.registers[1]);
    println!("Path Inference Benchmark: Execution time: {:?}", duration);
    assert!(machine.registers[0].is_some());
    assert!(machine.registers[1].is_some());
}

#[test]
fn test_tail_call() {
    let code = vec![
        Instruction::Allocate { n: 1 },
        Instruction::SetLocal { index: 0, value: Term::Const(100) },
        Instruction::TailCall { predicate: "p".to_string() },
        Instruction::PutConst { register: 0, value: 999 },
        Instruction::PutConst { register: 0, value: 200 },
        Instruction::Proceed,
    ];
    let mut machine = Machine::new(1, code);
    machine.register_predicate("p".to_string(), 4);
    let _ = machine.run();
    assert_eq!(machine.registers[0], Some(Term::Const(200)));
    assert_eq!(machine.environment_stack.len(), 0);
}

#[test]
fn test_compound_unification() {
    let term1 = Term::Compound("f".to_string(), vec![Term::Const(42), Term::Var(1)]);
    let mut machine = Machine::new(1, vec![]);
    machine.registers[0] = Some(term1);
    if let Some(compound_term) = machine.registers[0].clone() {
        if let Term::Compound(_, args) = compound_term {
            let success = machine.unify(&Term::Var(2), &args[1]);
            assert!(success, "Unification of the compound subterm failed");
        } else {
            panic!("Register 0 does not contain a compound term");
        }
    } else {
        panic!("Register 0 is empty");
    }
    let binding = machine.substitution.get(&2).cloned();
    assert_eq!(binding, Some(Term::Var(1)));
}
