use natsuzora::{Natsuzora, NatsuzoraError, TemplateLoader, Value};

const GREETING: &str = "Hello, {[ name ]}!\n";
const CARD: &str = "<div class=\"card\">\n  <h2>{[ title ]}</h2>\n  <p>{[ body ]}</p>\n</div>\n";
const BUTTON: &str = "<button class=\"{[ className ]}\">{[ label ]}</button>\n";

fn s(x: &str) -> Value {
    Value::String(x.to_string())
}

fn obj(pairs: Vec<(&str, Value)>) -> Value {
    Value::Object(pairs.into_iter().map(|(k, v)| (k.to_string(), v)).collect())
}

fn render_source(source: &str, data: Value) -> Result<String, NatsuzoraError> {
    let t = Natsuzora::parse(source)?;
    let mut loader = TemplateLoader::new("/shared".to_string());
    loader.store_source("/greeting".to_string(), GREETING);
    loader.store_source("/components/card".to_string(), CARD);
    loader.store_source("/components/button".to_string(), BUTTON);
    t.render_with_loader(data, &loader)
}

#[test]
fn include_partial_directly() {
    let result = render_source("{[!include /greeting name=name ]}", obj(vec![("name", s("Bob"))])).unwrap();
    assert_eq!(result.trim(), "Hello, Bob!");
}

#[test]
fn include_from_nested_directory() {
    let result = render_source(
        "{[!include /components/card title=t body=b ]}",
        obj(vec![("t", s("Title")), ("b", s("Body text"))]),
    )
    .unwrap();
    assert!(result.contains("<div class=\"card\">"));
    assert!(result.contains("<h2>Title</h2>"));
    assert!(result.contains("<p>Body text</p>"));
}

#[test]
fn include_button_component() {
    let result = render_source(
        "{[!include /components/button className=cls label=lbl ]}",
        obj(vec![("cls", s("btn-primary")), ("lbl", s("Click me"))]),
    )
    .unwrap();
    assert_eq!(result.trim(), "<button class=\"btn-primary\">Click me</button>");
}

#[test]
fn include_allows_shadowing_in_scope() {
    let result = render_source(
        "{[ name ]} -> {[!include /greeting name=other ]} -> {[ name ]}",
        obj(vec![("name", s("Original")), ("other", s("Shadowed"))]),
    )
    .unwrap();
    assert_eq!(result.trim(), "Original -> Hello, Shadowed!\n -> Original");
}

#[test]
fn include_with_nested_path_argument() {
    let data = obj(vec![("user", obj(vec![("profile", obj(vec![("displayName", s("Charlie"))]))]))]);
    let result = render_source("{[!include /greeting name=user.profile.displayName ]}", data).unwrap();
    assert_eq!(result.trim(), "Hello, Charlie!");
}

#[test]
fn include_inside_if_true() {
    let result = render_source(
        "{[#if showGreeting]}{[!include /greeting name=name ]}{[/if]}",
        obj(vec![("showGreeting", Value::Bool(true)), ("name", s("Dave"))]),
    )
    .unwrap();
    assert_eq!(result.trim(), "Hello, Dave!");
}

#[test]
fn include_inside_if_false() {
    let result = render_source(
        "{[#if showGreeting]}{[!include /greeting name=name ]}{[/if]}",
        obj(vec![("showGreeting", Value::Bool(false)), ("name", s("Dave"))]),
    )
    .unwrap();
    assert_eq!(result, "");
}

#[test]
fn include_missing_partial_error() {
    let result = render_source("{[!include /nonexistent ]}", obj(vec![]));
    assert!(matches!(result, Err(NatsuzoraError::IncludeError { .. })));
    if let Err(NatsuzoraError::IncludeError { message }) = result {
        assert!(message.contains("not found"), "Expected 'not found' in: {message}");
    }
}

#[test]
fn include_double_dot_path_error() {
    let result = render_source("{[!include /path/../traversal ]}", obj(vec![]));
    assert!(result.is_err());
}

#[test]
fn include_double_slash_error() {
    let result = render_source("{[!include /path//double ]}", obj(vec![]));
    assert!(result.is_err());
}

#[test]
fn include_renders_multiple_cards() {
    let cards = Value::Array(vec![
        obj(vec![("title", s("Card 1")), ("body", s("Body 1"))]),
        obj(vec![("title", s("Card 2")), ("body", s("Body 2"))]),
    ]);
    let result = render_source(
        "{[#each cards as card]}{[!include /components/card title=card.title body=card.body ]}{[/each]}",
        obj(vec![("cards", cards)]),
    )
    .unwrap();
    assert!(result.contains("<h2>Card 1</h2>"));
    assert!(result.contains("<p>Body 2</p>"));
    assert_eq!(result.matches("<div class=\"card\">").count(), 2);
}

#[test]
fn include_without_loader_is_include_error() {
    let t = Natsuzora::parse("{[!include /greeting ]}").unwrap();
    assert!(matches!(t.render(obj(vec![])), Err(NatsuzoraError::IncludeError { .. })));
}

#[test]
fn include_self_recursion_is_include_error() {
    let t = Natsuzora::parse("{[!include /a ]}").unwrap();
    let mut loader = TemplateLoader::new("/r".to_string());
    loader.store_source("/a".to_string(), "a{[!include /b ]}");
    loader.store_source("/b".to_string(), "b{[!include /a ]}");
    match t.render_with_loader(obj(vec![]), &loader) {
        Err(NatsuzoraError::IncludeError { message }) => assert!(message.contains("Circular")),
        other => panic!("expected a circular include error, got {:?}", other),
    }
}

#[test]
fn include_same_partial_twice_in_sequence_is_fine() {
    let result = render_source(
        "{[!include /greeting name=a ]}{[!include /greeting name=b ]}",
        obj(vec![("a", s("A")), ("b", s("B"))]),
    )
    .unwrap();
    assert_eq!(result, "Hello, A!\nHello, B!\n");
}

#[test]
fn include_sees_outer_names_it_does_not_shadow() {
    let t = Natsuzora::parse("{[!include /p x=y ]}").unwrap();
    let mut loader = TemplateLoader::new("/r".to_string());
    loader.store_source("/p".to_string(), "{[ x ]}{[ z ]}");
    let out = t.render_with_loader(obj(vec![("y", s("1")), ("z", s("2"))]), &loader).unwrap();
    assert_eq!(out, "12");
}
