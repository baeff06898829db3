use natsuzora::error::{Location, NatsuzoraError};
use natsuzora::{Context, Value};

fn test_location() -> Location {
    Location::new(1, 1, 0)
}

fn create_test_context() -> Context {
    let user = Value::Object(vec![(
        "email".to_string(),
        Value::String("alice@example.com".to_string()),
    )]);
    let root = Value::Object(vec![
        ("name".to_string(), Value::String("Alice".to_string())),
        ("user".to_string(), user),
    ]);
    Context::new(root).unwrap()
}

#[test]
fn context_test_resolve_simple() {
    let ctx = create_test_context();
    let value = ctx.resolve(&["name".to_string()], test_location()).unwrap();
    assert_eq!(value, &Value::String("Alice".to_string()));
}

#[test]
fn context_test_resolve_path() {
    let ctx = create_test_context();
    let value = ctx
        .resolve(&["user".to_string(), "email".to_string()], test_location())
        .unwrap();
    assert_eq!(value, &Value::String("alice@example.com".to_string()));
}

#[test]
fn context_test_undefined_variable() {
    let ctx = create_test_context();
    let result = ctx.resolve(&["unknown".to_string()], test_location());
    assert!(result.is_err());
}

#[test]
fn context_test_scope_stack() {
    let mut ctx = create_test_context();
    let bindings = vec![("item".to_string(), Value::Integer(42))];
    ctx.push_scope(bindings).unwrap();

    let value = ctx.resolve(&["item".to_string()], test_location()).unwrap();
    assert_eq!(value, &Value::Integer(42));

    ctx.pop_scope();
    assert!(ctx.resolve(&["item".to_string()], test_location()).is_err());
}

#[test]
fn context_test_shadowing_error() {
    let mut ctx = create_test_context();
    let bindings = vec![("name".to_string(), Value::String("Bob".to_string()))];
    let result = ctx.push_scope(bindings);
    assert!(matches!(result, Err(NatsuzoraError::ShadowingError { .. })));
}

#[test]
fn context_test_include_scope_allows_shadowing() {
    let mut ctx = create_test_context();
    let bindings = vec![("name".to_string(), Value::String("Bob".to_string()))];
    ctx.push_include_scope(bindings);
    let value = ctx.resolve(&["name".to_string()], test_location()).unwrap();
    assert_eq!(value, &Value::String("Bob".to_string()));
}

#[test]
fn context_root_must_be_object() {
    assert!(matches!(Context::new(Value::Integer(1)), Err(NatsuzoraError::TypeError { .. })));
    assert!(matches!(Context::new(Value::Null), Err(NatsuzoraError::TypeError { .. })));
}

#[test]
fn context_property_of_non_object_is_type_error() {
    let ctx = create_test_context();
    let r = ctx.resolve(&["name".to_string(), "first".to_string()], test_location());
    assert!(matches!(r, Err(NatsuzoraError::TypeError { .. })));
    let r = ctx.resolve(&["user".to_string(), "phone".to_string()], test_location());
    assert!(matches!(r, Err(NatsuzoraError::UndefinedVariable { .. })));
}

#[test]
fn context_shadowing_checks_outer_scopes() {
    let mut ctx = create_test_context();
    ctx.push_scope(vec![("item".to_string(), Value::Integer(1))]).unwrap();
    let r = ctx.push_scope(vec![("item".to_string(), Value::Integer(2))]);
    assert!(matches!(r, Err(NatsuzoraError::ShadowingError { .. })));
    // Newest scope wins on lookup.
    ctx.push_include_scope(vec![("item".to_string(), Value::Integer(3))]);
    assert_eq!(ctx.resolve(&["item".to_string()], test_location()).unwrap(), &Value::Integer(3));
}

#[test]
fn context_array_access() {
    let root = Value::Object(vec![(
        "xs".to_string(),
        Value::Array(vec![Value::Integer(7), Value::String("b".to_string())]),
    )]);
    let ctx = Context::new(root).unwrap();
    let path = vec!["xs".to_string()];
    assert_eq!(ctx.get_array_len(&path, test_location()).unwrap(), 2);
    assert_eq!(ctx.get_array_item(&path, 1, test_location()).unwrap(), Value::String("b".to_string()));
    assert!(matches!(ctx.get_array_item(&path, 2, test_location()), Err(NatsuzoraError::TypeError { .. })));
    assert!(matches!(
        ctx.get_array_len(&["missing".to_string()], test_location()),
        Err(NatsuzoraError::UndefinedVariable { .. })
    ));
}

#[test]
fn context_shadowing_error_names_the_binding() {
    let mut ctx = create_test_context();
    let r = ctx.push_scope(vec![("fresh".to_string(), Value::Null), ("user".to_string(), Value::Null)]);
    match r {
        Err(NatsuzoraError::ShadowingError { name }) => assert_eq!(name, "user"),
        other => panic!("expected shadowing error, got {:?}", other),
    }
}
