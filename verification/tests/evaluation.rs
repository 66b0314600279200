use emat::interpret::scope::{Function, RuntimeScope, VariableError};
use emat::interpret::value::RuntimeValue;
use emat::interpret::{Interpreter, RuntimeError, DEFAULT_DEPTH};
use emat::parse::ast::{ASTNode, AssignmentProp, Operation};
use emat::parse::Parser;

fn literal(text: &String) -> u64 {
    text.parse::<f64>().unwrap_or(f64::NAN).to_bits()
}

fn binary(operation: Operation, a: u64, b: u64) -> u64 {
    let (x, y) = (f64::from_bits(a), f64::from_bits(b));
    let z = match operation {
        Operation::Add => x + y,
        Operation::Sub => x - y,
        Operation::Mul => x * y,
        Operation::Div => x / y,
        Operation::Assign => y,
    };
    z.to_bits()
}

fn program(src: &str) -> Vec<ASTNode> {
    Parser::new(src.to_string()).unwrap().gen_ast(&literal).unwrap().try_program().unwrap()
}

fn run_in(src: &str, scope: &mut RuntimeScope) -> Result<RuntimeValue, RuntimeError> {
    Interpreter::new(program(src), binary).evaluate(scope)
}

fn run(src: &str) -> Result<RuntimeValue, RuntimeError> {
    run_in(src, &mut RuntimeScope::new())
}

fn number(x: f64) -> RuntimeValue {
    RuntimeValue::Number(x.to_bits())
}

#[test]
fn a_variable_is_assigned_and_read() {
    assert_eq!(run("x = 5\nx + 1"), Ok(number(6.0)));
}

#[test]
fn a_function_is_defined_and_called() {
    assert_eq!(run("add(a,b) = a + b\nadd(2,3)"), Ok(number(5.0)));
}

#[test]
fn division_by_zero_is_null() {
    assert_eq!(run("1/0"), Ok(RuntimeValue::Null));
    assert_eq!(run("0/0"), Ok(RuntimeValue::Null));
    assert_eq!(run("1/(0-0)"), Ok(RuntimeValue::Null));
    assert_eq!(run("1/(0*(0-1))"), Ok(RuntimeValue::Null));
}

#[test]
fn arithmetic_on_a_function_is_null() {
    assert_eq!(run("f(a) = a\nf + 1"), Ok(RuntimeValue::Null));
    assert_eq!(run("f(a) = a\n1 - f"), Ok(RuntimeValue::Null));
    assert_eq!(run("f(a) = a\nf * f"), Ok(RuntimeValue::Null));
    assert_eq!(run("f(a) = a\n2 / f"), Ok(RuntimeValue::Null));
}

#[test]
fn arithmetic_on_null_is_null() {
    assert_eq!(run("(1/0) + 1"), Ok(RuntimeValue::Null));
    assert_eq!(run("2 * (1/0)"), Ok(RuntimeValue::Null));
}

#[test]
fn an_unbound_name_is_an_error_with_the_name() {
    assert_eq!(
        run("y + 1"),
        Err(RuntimeError::Variable(VariableError::DoesNotExist("y".to_string())))
    );
}

#[test]
fn a_free_name_in_a_body_is_looked_up_where_the_call_stands() {
    assert_eq!(run("f() = y\ng(y) = f()\ng(3)"), Ok(number(3.0)));
    assert_eq!(
        run("f() = y\nf()"),
        Err(RuntimeError::Variable(VariableError::DoesNotExist("y".to_string())))
    );
    assert_eq!(run("f() = y\ny = 7\nf()"), Ok(number(7.0)));
}

#[test]
fn the_four_operations_compute() {
    assert_eq!(run("7 - 2 * 3"), Ok(number(1.0)));
    assert_eq!(run("8 / 2 / 2"), Ok(number(2.0)));
    assert_eq!(run("2.5 * 2"), Ok(number(5.0)));
    assert_eq!(run("1 + 2 + 3.5"), Ok(number(6.5)));
    assert_eq!(run("1 / 4"), Ok(number(0.25)));
    assert_eq!(run("(1 + 2) * 3"), Ok(number(9.0)));
    assert_eq!(run("0.1 + 0.2"), Ok(number(0.1 + 0.2)));
}

#[test]
fn an_empty_program_is_null() {
    assert_eq!(run(""), Ok(RuntimeValue::Null));
}

#[test]
fn the_value_of_a_program_is_that_of_its_last_node() {
    assert_eq!(run("1\n2\n3"), Ok(number(3.0)));
    assert_eq!(run("1\n"), Ok(number(-1.0)));
}

#[test]
fn an_assignment_is_null_and_binds_in_the_scope() {
    let mut scope = RuntimeScope::new();
    assert_eq!(run_in("x = 5", &mut scope), Ok(RuntimeValue::Null));
    let x = scope.get_variable(&"x".to_string()).unwrap();
    assert_eq!(x.value, number(5.0));
    assert!(!x.is_const);
    assert_eq!(run_in("x * 2", &mut scope), Ok(number(10.0)));
}

#[test]
fn an_assignment_takes_the_product_on_its_right_only() {
    let mut scope = RuntimeScope::new();
    assert_eq!(run_in("x = 2 * 3 + 4", &mut scope), Ok(RuntimeValue::Null));
    assert_eq!(scope.get_variable(&"x".to_string()).unwrap().value, number(6.0));
}

#[test]
fn a_definition_is_null_and_binds_the_function() {
    let mut scope = RuntimeScope::new();
    assert_eq!(run_in("id(a) = a", &mut scope), Ok(RuntimeValue::Null));
    let id = scope.get_variable(&"id".to_string()).unwrap();
    assert_eq!(
        id.value,
        RuntimeValue::Function(Function {
            name: "id".to_string(),
            body: Box::new(ASTNode::Identifier("a".to_string())),
            args: vec!["a".to_string()],
        })
    );
    assert!(id.is_const);
    assert!(scope.is_constant(&"id".to_string()));
    assert_eq!(run_in("id(a) = a + 1", &mut scope), Ok(RuntimeValue::Null));
    assert!(scope.is_constant(&"id".to_string()));
    assert_eq!(run_in("id(1)", &mut scope), Ok(number(2.0)));
}

#[test]
fn a_definition_on_a_fresh_scope_binds_a_constant() {
    let mut scope = RuntimeScope::new();
    assert_eq!(run_in("f() = 1", &mut scope), Ok(RuntimeValue::Null));
    assert!(scope.is_constant(&"f".to_string()));
    assert_eq!(run_in("x = 5", &mut scope), Ok(RuntimeValue::Null));
    assert!(!scope.is_constant(&"x".to_string()));
}

#[test]
fn a_call_leaves_the_callers_scope_as_it_was() {
    let mut scope = RuntimeScope::new();
    assert_eq!(run_in("a = 1\nf(a) = a * 10\nf(4)", &mut scope), Ok(number(40.0)));
    assert_eq!(scope.get_variable(&"a".to_string()).unwrap().value, number(1.0));
    assert_eq!(scope.variables().len(), 2);
    assert!(scope.into_parent().is_none());
}

#[test]
fn arguments_are_evaluated_against_the_callers_scope() {
    let mut scope = RuntimeScope::new();
    assert_eq!(run_in("f(a) = a\nx = 2\nf(x * x)", &mut scope), Ok(number(4.0)));
    assert_eq!(run_in("f(y = 9)", &mut scope), Ok(RuntimeValue::Null));
    assert_eq!(scope.get_variable(&"y".to_string()).unwrap().value, number(9.0));
}

#[test]
fn a_call_with_too_few_arguments_is_an_error() {
    assert_eq!(
        run("f(a,b) = a\nf(1)"),
        Err(RuntimeError::ArityMismatch("f".to_string()))
    );
}

#[test]
fn arguments_beyond_the_parameters_are_not_evaluated() {
    assert_eq!(run("f(a) = a\nf(1, 2)"), Ok(number(1.0)));
    assert_eq!(run("f(a) = a\nf(1, nothing)"), Ok(number(1.0)));
}

#[test]
fn a_call_of_something_else_than_a_function_is_an_error() {
    assert_eq!(run("x = 1\nx(2)"), Err(RuntimeError::NotAFunction("x".to_string())));
    assert_eq!(run("g(1)"), Err(RuntimeError::NotAFunction("g".to_string())));
}

#[test]
fn calls_nest_up_to_the_bound() {
    assert_eq!(
        run("f(x) = f(x)\nf(1)"),
        Err(RuntimeError::DepthExceeded("f".to_string()))
    );
    let nested = Interpreter::new(program("f(x) = g(x)\ng(x) = x + 1\nf(1)"), binary);
    assert_eq!(nested.evaluate(&mut RuntimeScope::new()), Ok(number(2.0)));
    let shallow = Interpreter::new(program("f(x) = g(x)\ng(x) = x + 1\nf(1)"), binary)
        .with_depth(1);
    assert_eq!(
        shallow.evaluate(&mut RuntimeScope::new()),
        Err(RuntimeError::DepthExceeded("g".to_string()))
    );
    let none = Interpreter::new(program("f(x) = x\nf(1)"), binary).with_depth(0);
    assert_eq!(
        none.evaluate(&mut RuntimeScope::new()),
        Err(RuntimeError::DepthExceeded("f".to_string()))
    );
    assert_eq!(DEFAULT_DEPTH, 256);
}

#[test]
fn a_function_can_be_passed_on_and_called() {
    assert_eq!(run("inc(a) = a + 1\ntwice(f, x) = f(f(x))\ntwice(inc, 5)"), Ok(number(7.0)));
    assert_eq!(run("inc(a) = a + 1\nother = inc\nother(1)"), Ok(number(2.0)));
}

#[test]
fn an_assignment_target_alone_is_a_value() {
    let interpreter = Interpreter::new(vec![], binary);
    let node = ASTNode::AssignmentProp(AssignmentProp::Identifier("x".to_string()));
    assert_eq!(
        interpreter.eval(&node, &mut RuntimeScope::new()),
        Ok(RuntimeValue::AssignmentProp(AssignmentProp::Identifier("x".to_string())))
    );
}

#[test]
fn an_assignment_to_something_else_than_a_name_does_nothing() {
    let interpreter = Interpreter::new(vec![], binary);
    let mut scope = RuntimeScope::new();
    let to_number = ASTNode::BinaryExpression {
        left: Box::new(ASTNode::NumericLiteral(1.0f64.to_bits())),
        right: Box::new(ASTNode::NumericLiteral(2.0f64.to_bits())),
        operation: Operation::Assign,
    };
    assert_eq!(interpreter.eval(&to_number, &mut scope), Ok(RuntimeValue::Null));
    let to_signature = ASTNode::BinaryExpression {
        left: Box::new(ASTNode::AssignmentProp(AssignmentProp::Function(
            "f".to_string(),
            vec!["a".to_string()],
        ))),
        right: Box::new(ASTNode::NumericLiteral(2.0f64.to_bits())),
        operation: Operation::Assign,
    };
    assert_eq!(interpreter.eval(&to_signature, &mut scope), Ok(RuntimeValue::Null));
    assert!(scope.variables().is_empty());
}

#[test]
fn a_program_inside_a_node_runs_against_the_same_scope() {
    let interpreter = Interpreter::new(vec![], binary);
    let mut scope = RuntimeScope::new();
    let node = ASTNode::Program(program("x = 3\nx * x"));
    assert_eq!(interpreter.eval(&node, &mut scope), Ok(number(9.0)));
    assert!(scope.is_defined(&"x".to_string()));
}

#[test]
fn eval_identifier_reads_the_scope() {
    let interpreter = Interpreter::new(vec![], binary);
    let mut scope = RuntimeScope::new();
    scope.set_variable_or_const(&"x".to_string(), number(1.5), false).unwrap();
    assert_eq!(interpreter.eval_identifier(&"x".to_string(), &scope), Ok(number(1.5)));
    assert_eq!(
        interpreter.eval_identifier(&"z".to_string(), &scope),
        Err(RuntimeError::Variable(VariableError::DoesNotExist("z".to_string())))
    );
}

#[test]
fn values_combine_to_numbers_or_null() {
    assert_eq!(number(1.0).add(number(2.0), &binary), number(3.0));
    assert_eq!(number(1.0).sub(number(2.0), &binary), number(-1.0));
    assert_eq!(number(3.0).mul(number(2.0), &binary), number(6.0));
    assert_eq!(number(3.0).div(number(2.0), &binary), number(1.5));
    assert_eq!(number(3.0).div(number(0.0), &binary), RuntimeValue::Null);
    assert_eq!(number(3.0).div(number(-0.0), &binary), RuntimeValue::Null);
    assert_eq!(RuntimeValue::Null.add(number(2.0), &binary), RuntimeValue::Null);
    assert_eq!(number(2.0).sub(RuntimeValue::Null, &binary), RuntimeValue::Null);
    assert_eq!(RuntimeValue::Null.mul(RuntimeValue::Null, &binary), RuntimeValue::Null);
}

#[test]
fn a_runtime_error_says_what_went_wrong() {
    assert_eq!(run("y + 1").unwrap_err().message(), "Variable does not exist: y");
    assert_eq!(run("x = 1\nx(2)").unwrap_err().message(), "Not a function: x");
    assert_eq!(run("f(a,b) = a\nf(1)").unwrap_err().message(), "Too few arguments for: f");
    assert_eq!(run("f(x) = f(x)\nf(1)").unwrap_err().message(), "Calls nested too deep at: f");
}
