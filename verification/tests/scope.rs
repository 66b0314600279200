use emat::interpret::scope::{Binding, RuntimeScope, Variable, VariableError};
use emat::interpret::value::RuntimeValue;

fn key(name: &str) -> String {
    name.to_string()
}

#[test]
fn a_new_scope_binds_nothing() {
    let scope = RuntimeScope::new();
    assert!(scope.variables().is_empty());
    assert!(!scope.is_defined(&key("x")));
    assert_eq!(scope.get_variable(&key("x")), None);
    assert_eq!(scope.get_var_or_const(&key("x")), Err(VariableError::DoesNotExist(key("x"))));
    assert!(!scope.is_constant(&key("x")));
}

#[test]
fn a_new_name_carries_the_mark_that_was_asked() {
    let mut scope = RuntimeScope::new();
    assert_eq!(scope.set_variable_or_const(&key("x"), RuntimeValue::Number(1), true), Ok(()));
    assert_eq!(
        scope.get_var_or_const(&key("x")),
        Ok(Variable { value: RuntimeValue::Number(1), is_const: true })
    );
    assert!(scope.is_defined(&key("x")));
    assert!(scope.is_constant(&key("x")));
    assert_eq!(scope.set_variable_or_const(&key("y"), RuntimeValue::Number(2), false), Ok(()));
    assert_eq!(
        scope.get_var_or_const(&key("y")),
        Ok(Variable { value: RuntimeValue::Number(2), is_const: false })
    );
    assert!(!scope.is_constant(&key("y")));
}

#[test]
fn a_known_name_is_overwritten_with_the_mark_that_was_asked() {
    let mut scope = RuntimeScope::new();
    scope.set_variable_or_const(&key("x"), RuntimeValue::Number(1), false).unwrap();
    scope.set_variable_or_const(&key("x"), RuntimeValue::Number(2), true).unwrap();
    assert_eq!(
        scope.get_variable(&key("x")),
        Some(Variable { value: RuntimeValue::Number(2), is_const: true })
    );
    assert!(scope.is_constant(&key("x")));
    scope.set_variable_or_const(&key("x"), RuntimeValue::Null, false).unwrap();
    assert_eq!(
        scope.get_variable(&key("x")),
        Some(Variable { value: RuntimeValue::Null, is_const: false })
    );
    assert_eq!(scope.variables().len(), 1);
}

#[test]
fn the_bindings_come_in_the_order_of_their_names() {
    let mut scope = RuntimeScope::new();
    scope.set_variable_or_const(&key("b"), RuntimeValue::Number(1), false).unwrap();
    scope.set_variable_or_const(&key("a"), RuntimeValue::Number(2), false).unwrap();
    scope.set_variable_or_const(&key("b"), RuntimeValue::Number(3), false).unwrap();
    assert_eq!(
        scope.variables(),
        vec![
            Binding {
                name: key("b"),
                variable: Variable { value: RuntimeValue::Number(3), is_const: false },
            },
            Binding {
                name: key("a"),
                variable: Variable { value: RuntimeValue::Number(2), is_const: false },
            },
        ]
    );
}

#[test]
fn a_name_is_looked_up_through_the_parents() {
    let mut root = RuntimeScope::new();
    root.set_variable_or_const(&key("x"), RuntimeValue::Number(1), false).unwrap();
    let middle = RuntimeScope::new_parent(root);
    let inner = RuntimeScope::general_new(Some(middle));
    assert!(inner.is_defined(&key("x")));
    assert_eq!(
        inner.get_variable(&key("x")),
        Some(Variable { value: RuntimeValue::Number(1), is_const: false })
    );
    assert!(inner.variables().is_empty());
    assert!(!inner.is_defined(&key("y")));
}

#[test]
fn a_write_shadows_in_the_innermost_frame() {
    let mut root = RuntimeScope::new();
    root.set_variable_or_const(&key("x"), RuntimeValue::Number(1), false).unwrap();
    let mut inner = RuntimeScope::new_parent(root);
    inner.set_variable_or_const(&key("x"), RuntimeValue::Number(2), true).unwrap();
    assert_eq!(
        inner.get_variable(&key("x")),
        Some(Variable { value: RuntimeValue::Number(2), is_const: true })
    );
    assert_eq!(inner.variables().len(), 1);
    let root = inner.into_parent().unwrap();
    assert_eq!(
        root.get_variable(&key("x")),
        Some(Variable { value: RuntimeValue::Number(1), is_const: false })
    );
    assert!(root.into_parent().is_none());
}

#[test]
fn a_scope_without_parent_is_made_by_general_new() {
    let scope = RuntimeScope::general_new(None);
    assert!(scope.variables().is_empty());
    assert!(scope.into_parent().is_none());
}

#[test]
fn a_variable_error_says_what_went_wrong() {
    assert_eq!(VariableError::DoesNotExist(key("x")).message(), "Variable does not exist: x");
    assert_eq!(
        VariableError::CannotAssignConstants(key("pi")).message(),
        "Cannot assign to constant: pi"
    );
    assert_eq!(
        VariableError::VariableShadowingNotSupported(key("x")).message(),
        "Variable shadowing is not supported: x"
    );
}
