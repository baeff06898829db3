use natsuzora::template_loader::within_root;
use natsuzora::{Natsuzora, NatsuzoraError, TemplateLoader, Value};

fn s(x: &str) -> Value {
    Value::String(x.to_string())
}

fn obj(pairs: Vec<(&str, Value)>) -> Value {
    Value::Object(pairs.into_iter().map(|(k, v)| (k.to_string(), v)).collect())
}

fn render(source: &str, data: Value) -> Result<String, NatsuzoraError> {
    Natsuzora::parse(source)?.render(data)
}

#[test]
fn escaped_output_has_no_raw_markup() {
    let nasty = "<a href=\"x\" onclick='y'>&amp;</a>";
    let out = render("{[ v ]}", obj(vec![("v", s(nasty))])).unwrap();
    for c in ['<', '>', '"', '\''] {
        assert!(!out.contains(c));
    }
    assert_eq!(render("{[!unsecure v]}", obj(vec![("v", s(nasty))])).unwrap(), nasty);
}

#[test]
fn escape_sequence_renders_literally() {
    assert_eq!(render("{[{]} name ]}", obj(vec![])).unwrap(), "{[ name ]}");
}

#[test]
fn null_policy_per_modifier() {
    let d = || obj(vec![("p", Value::Null)]);
    assert!(matches!(render("{[ p ]}", d()), Err(NatsuzoraError::TypeError { .. })));
    assert_eq!(render("{[ p? ]}", d()).unwrap(), "");
    assert!(matches!(render("{[ p! ]}", d()), Err(NatsuzoraError::TypeError { .. })));
}

#[test]
fn empty_string_policy_per_modifier() {
    let d = || obj(vec![("p", s(""))]);
    assert_eq!(render("{[ p ]}", d()).unwrap(), "");
    assert_eq!(render("{[ p? ]}", d()).unwrap(), "");
    assert!(matches!(render("{[ p! ]}", d()), Err(NatsuzoraError::TypeError { .. })));
}

#[test]
fn if_and_unless_are_complements() {
    for v in [Value::Integer(0), Value::Integer(2), s(""), s("a"), Value::Null, Value::Bool(true)] {
        let a = render("{[#if p]}B{[/if]}", obj(vec![("p", v.duplicate())])).unwrap();
        let b = render("{[#unless p]}B{[/unless]}", obj(vec![("p", v)])).unwrap();
        assert_eq!(format!("{a}{b}"), "B");
    }
}

#[test]
fn each_renders_one_copy_per_item_in_order() {
    let items = Value::Array(vec![Value::Integer(3), Value::Integer(1), Value::Integer(2)]);
    let out = render("{[#each a as x]}<{[ x ]}>{[/each]}", obj(vec![("a", items)])).unwrap();
    assert_eq!(out, "<3><1><2>");
}

#[test]
fn each_shadowing_fails_but_include_may_shadow() {
    let data = obj(vec![("x", s("root")), ("a", Value::Array(vec![s("1")]))]);
    assert!(matches!(render("{[#each a as x]}{[/each]}", data), Err(NatsuzoraError::ShadowingError { .. })));
    let outer = obj(vec![("a", Value::Array(vec![s("1")])), ("b", Value::Array(vec![s("2")]))]);
    assert!(matches!(
        render("{[#each a as x]}{[#each b as x]}{[/each]}{[/each]}", outer),
        Err(NatsuzoraError::ShadowingError { .. })
    ));
}

#[test]
fn recursion_guard_stops_self_include() {
    let t = Natsuzora::parse("{[!include /loop ]}").unwrap();
    let mut loader = TemplateLoader::new("/r".to_string());
    loader.store_source("/loop".to_string(), "again {[!include /loop ]}");
    assert!(matches!(t.render_with_loader(obj(vec![]), &loader), Err(NatsuzoraError::IncludeError { .. })));
}

#[test]
fn sandbox_failure_is_reported_on_include() {
    assert!(!within_root("/etc/_passwd.ntzr", "/srv/templates"));
    let t = Natsuzora::parse("{[!include /evil ]}").unwrap();
    let mut loader = TemplateLoader::new("/srv/templates".to_string());
    loader.store_failure(
        "/evil".to_string(),
        NatsuzoraError::IncludeError { message: "Path traversal detected".to_string() },
    );
    match t.render_with_loader(obj(vec![]), &loader) {
        Err(NatsuzoraError::IncludeError { message }) => assert!(message.contains("traversal")),
        other => panic!("expected include error, got {:?}", other),
    }
}

#[test]
fn removing_a_comment_keeps_output() {
    let d = || obj(vec![("n", s("v"))]);
    assert_eq!(
        render("a{[% c ]}b {[ n ]}{[% x y ]} c", d()).unwrap(),
        render("ab {[ n ]} c", d()).unwrap()
    );
    assert_eq!(render("a\n  {[-% c -]}\nb", d()).unwrap(), "a\nb");
}

#[test]
fn rendering_is_deterministic() {
    let t = Natsuzora::parse("{[#each xs as x]}{[ x ]},{[/each]}{[ y? ]}").unwrap();
    let d = || obj(vec![("xs", Value::Array(vec![s("a"), s("<")])), ("y", Value::Null)]);
    assert_eq!(t.render(d()).unwrap(), t.render(d()).unwrap());
    assert_eq!(t.render(d()).unwrap(), "a,&lt;,");
}
