use natsuzora::{Natsuzora, NatsuzoraError, Value};

fn s(x: &str) -> Value {
    Value::String(x.to_string())
}

fn obj(pairs: Vec<(&str, Value)>) -> Value {
    Value::Object(pairs.into_iter().map(|(k, v)| (k.to_string(), v)).collect())
}

fn render(source: &str, data: Value) -> Result<String, NatsuzoraError> {
    Natsuzora::parse(source)?.render(data)
}

#[test]
fn renderer_test_render_text() {
    assert_eq!(render("Hello, world!", obj(vec![])).unwrap(), "Hello, world!");
}

#[test]
fn renderer_test_render_variable() {
    assert_eq!(render("Hello, {[ name ]}!", obj(vec![("name", s("Alice"))])).unwrap(), "Hello, Alice!");
}

#[test]
fn renderer_test_render_variable_escaped() {
    let result = render("{[ html ]}", obj(vec![("html", s("<script>alert('xss')</script>"))])).unwrap();
    assert_eq!(result, "&lt;script&gt;alert(&#39;xss&#39;)&lt;/script&gt;");
}

#[test]
fn renderer_test_render_if_true() {
    let result = render("{[#if visible]}Hello{[/if]}", obj(vec![("visible", Value::Bool(true))])).unwrap();
    assert_eq!(result, "Hello");
}

#[test]
fn renderer_test_render_if_false() {
    let result = render("{[#if visible]}Hello{[/if]}", obj(vec![("visible", Value::Bool(false))])).unwrap();
    assert_eq!(result, "");
}

#[test]
fn renderer_test_render_if_else() {
    let result = render("{[#if visible]}Yes{[#else]}No{[/if]}", obj(vec![("visible", Value::Bool(false))])).unwrap();
    assert_eq!(result, "No");
}

#[test]
fn renderer_test_render_each() {
    let data = obj(vec![("items", Value::Array(vec![s("a"), s("b"), s("c")]))]);
    assert_eq!(render("{[#each items as item]}{[ item ]}{[/each]}", data).unwrap(), "abc");
}

#[test]
fn renderer_test_render_unless_false() {
    let result = render("{[#unless hidden]}visible{[/unless]}", obj(vec![("hidden", Value::Bool(false))])).unwrap();
    assert_eq!(result, "visible");
}

#[test]
fn renderer_test_render_unless_true() {
    let result = render("{[#unless hidden]}visible{[/unless]}", obj(vec![("hidden", Value::Bool(true))])).unwrap();
    assert_eq!(result, "");
}

#[test]
fn renderer_test_render_unsecure() {
    assert_eq!(render("{[!unsecure html]}", obj(vec![("html", s("<b>bold</b>"))])).unwrap(), "<b>bold</b>");
}

#[test]
fn renderer_test_render_path() {
    let data = obj(vec![("user", obj(vec![("profile", obj(vec![("name", s("Alice"))]))]))]);
    assert_eq!(render("{[ user.profile.name ]}", data).unwrap(), "Alice");
}

#[test]
fn test_null_without_modifier_error() {
    let result = render("{[ value ]}", obj(vec![("value", Value::Null)]));
    assert!(matches!(result, Err(NatsuzoraError::TypeError { .. })));
}

#[test]
fn test_nullable_modifier() {
    assert_eq!(render("{[ value? ]}", obj(vec![("value", Value::Null)])).unwrap(), "");
}

#[test]
fn test_required_modifier_null_error() {
    let result = render("{[ value! ]}", obj(vec![("value", Value::Null)]));
    assert!(matches!(result, Err(NatsuzoraError::TypeError { .. })));
}

#[test]
fn test_required_modifier_empty_string_error() {
    let result = render("{[ value! ]}", obj(vec![("value", s(""))]));
    assert!(matches!(result, Err(NatsuzoraError::TypeError { .. })));
}

#[test]
fn test_required_modifier_with_value() {
    assert_eq!(render("{[ value! ]}", obj(vec![("value", s("hello"))])).unwrap(), "hello");
}

#[test]
fn renderer_test_stringify_integer() {
    assert_eq!(render("[{[ value ]}]", obj(vec![("value", Value::Integer(42))])).unwrap(), "[42]");
}

#[test]
fn renderer_test_stringify_boolean_error() {
    assert!(render("{[ value ]}", obj(vec![("value", Value::Bool(true))])).is_err());
}

#[test]
fn renderer_test_comment_ignored() {
    assert_eq!(render("Hello{[% comment ]}World", obj(vec![])).unwrap(), "HelloWorld");
}

#[test]
fn test_render_unless_null() {
    assert_eq!(render("{[#unless x]}shown{[/unless]}", obj(vec![("x", Value::Null)])).unwrap(), "shown");
}

#[test]
fn test_render_unless_zero() {
    assert_eq!(render("{[#unless x]}shown{[/unless]}", obj(vec![("x", Value::Integer(0))])).unwrap(), "shown");
}

#[test]
fn test_render_unless_empty_string() {
    assert_eq!(render("{[#unless x]}shown{[/unless]}", obj(vec![("x", s(""))])).unwrap(), "shown");
}

#[test]
fn test_render_unless_non_zero() {
    assert_eq!(render("{[#unless x]}shown{[/unless]}", obj(vec![("x", Value::Integer(1))])).unwrap(), "");
}

#[test]
fn test_truthiness_empty_string() {
    assert_eq!(render("{[#if value]}yes{[#else]}no{[/if]}", obj(vec![("value", s(""))])).unwrap(), "no");
}

#[test]
fn test_truthiness_zero() {
    assert_eq!(render("{[#if value]}yes{[#else]}no{[/if]}", obj(vec![("value", Value::Integer(0))])).unwrap(), "no");
}

#[test]
fn test_truthiness_empty_array() {
    assert_eq!(render("{[#if value]}yes{[#else]}no{[/if]}", obj(vec![("value", Value::Array(vec![]))])).unwrap(), "no");
}

#[test]
fn renderer_test_whitespace_control_strip_before() {
    assert_eq!(render("line1\n  {[- name ]}", obj(vec![("name", s("Alice"))])).unwrap(), "line1\nAlice");
}

#[test]
fn renderer_test_whitespace_control_strip_after() {
    assert_eq!(render("{[ name -]}\nnext", obj(vec![("name", s("Alice"))])).unwrap(), "Alicenext");
}

#[test]
fn renderer_test_whitespace_control_both_sides() {
    assert_eq!(render("before\n  {[- name -]}\nafter", obj(vec![("name", s("Alice"))])).unwrap(), "before\nAliceafter");
}

#[test]
fn test_whitespace_control_with_each() {
    let template = "<ul>\n  {[-#each items as item-]}\n  <li>{[ item ]}</li>\n  {[-/each-]}\n</ul>";
    let result = render(template, obj(vec![("items", Value::Array(vec![s("a"), s("b")]))])).unwrap();
    assert_eq!(result, "<ul>\n  <li>a</li>\n  <li>b</li>\n</ul>");
}

#[test]
fn test_whitespace_control_with_if() {
    let template = "{[-#if x-]}\nyes\n{[-/if-]}\n";
    assert_eq!(render(template, obj(vec![("x", Value::Bool(true))])).unwrap(), "yes\n");
}

#[test]
fn lib_test_template_reuse() {
    let tmpl = Natsuzora::parse("Hello, {[ name ]}!").unwrap();
    assert_eq!(tmpl.render(obj(vec![("name", s("Alice"))])).unwrap(), "Hello, Alice!");
    assert_eq!(tmpl.render(obj(vec![("name", s("Bob"))])).unwrap(), "Hello, Bob!");
}

#[test]
fn lib_test_render_simple() {
    assert_eq!(render("Hello, {[ name ]}!", obj(vec![("name", s("World"))])).unwrap(), "Hello, World!");
}

#[test]
fn renderer_root_must_be_object() {
    assert!(matches!(render("x", Value::Array(vec![])), Err(NatsuzoraError::TypeError { .. })));
}

#[test]
fn renderer_undefined_variable_carries_location() {
    match render("ab\n  {[ missing ]}", obj(vec![])) {
        Err(NatsuzoraError::UndefinedVariable { name, location }) => {
            assert_eq!(name, "missing");
            assert_eq!(location.line, 2);
            assert_eq!(location.column, 3);
        }
        other => panic!("expected undefined variable, got {:?}", other),
    }
}

#[test]
fn renderer_each_over_non_array_is_type_error() {
    let data = obj(vec![("xs", obj(vec![("a", Value::Integer(1))]))]);
    assert!(matches!(render("{[#each xs as x]}{[ x ]}{[/each]}", data), Err(NatsuzoraError::TypeError { .. })));
}

#[test]
fn renderer_parse_errors_surface_as_parse_error() {
    assert!(matches!(render("{[ if ]}", obj(vec![])), Err(NatsuzoraError::ParseError { .. })));
    assert!(matches!(render("{[% open", obj(vec![])), Err(NatsuzoraError::ParseError { .. })));
}

#[test]
fn test_html_escaping() {
    assert_eq!(render("{[ html ]}", obj(vec![("html", s("<b>bold</b>"))])).unwrap(), "&lt;b&gt;bold&lt;/b&gt;");
}

#[test]
fn lib_test_if_block() {
    assert_eq!(render("{[#if show]}visible{[/if]}", obj(vec![("show", Value::Bool(true))])).unwrap(), "visible");
}

#[test]
fn lib_test_each_block() {
    let data = obj(vec![("items", Value::Array(vec![s("a"), s("b"), s("c")]))]);
    assert_eq!(render("{[#each items as item]}{[ item ]}{[/each]}", data).unwrap(), "abc");
}

#[test]
fn test_pagination_example() {
    let template = "{[#each pagination.pages as page]}{[#if page.current]}[{[ page.num ]}]{[#else]}{[ page.num ]}{[/if]}{[/each]}";
    let page = |n: i64, current: bool| obj(vec![("num", Value::Integer(n)), ("current", Value::Bool(current))]);
    let data = obj(vec![(
        "pagination",
        obj(vec![("pages", Value::Array(vec![page(1, false), page(2, true), page(3, false)]))]),
    )]);
    assert_eq!(render(template, data).unwrap(), "1[2]3");
}

#[test]
fn renderer_shadowing_and_undefined_name_the_variable() {
    let data = obj(vec![("x", s("root")), ("a", Value::Array(vec![s("1")]))]);
    match render("{[#each a as x]}{[/each]}", data) {
        Err(NatsuzoraError::ShadowingError { name }) => assert_eq!(name, "x"),
        other => panic!("unexpected {:?}", other),
    }
    match render("{[ user.nick ]}", obj(vec![("user", obj(vec![]))])) {
        Err(NatsuzoraError::UndefinedVariable { name, .. }) => assert_eq!(name, "nick"),
        other => panic!("unexpected {:?}", other),
    }
}
