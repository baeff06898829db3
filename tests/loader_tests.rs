use natsuzora::template_loader::within_root;
use natsuzora::validator::validate_include_name_runtime;
use natsuzora::{NatsuzoraError, TemplateLoader};

#[test]
fn template_loader_test_validate_name_valid() {
    assert!(validate_include_name_runtime("/components/card").is_ok());
    assert!(validate_include_name_runtime("/a/b/c").is_ok());
    assert!(validate_include_name_runtime("/shared/layout/header").is_ok());
}

#[test]
fn template_loader_test_validate_name_invalid() {
    assert!(validate_include_name_runtime("no-slash").is_err());
    assert!(validate_include_name_runtime("/with/../traversal").is_err());
    assert!(validate_include_name_runtime("/with//double").is_err());
    assert!(validate_include_name_runtime("/with-dash").is_err());
}

#[test]
fn template_loader_test_circular_include_detection() {
    let mut loader = TemplateLoader::new("/templates".to_string());
    loader.store_source("/a".to_string(), "A");
    loader.push_include("/a");
    let result = loader.load("/a");
    assert!(matches!(result, Err(NatsuzoraError::IncludeError { .. })));
    loader.pop_include();
    assert!(loader.load("/a").is_ok());
}

#[test]
fn loader_partial_path_mapping() {
    let loader = TemplateLoader::new("/r".to_string());
    assert_eq!(loader.partial_path("/components/card"), "/r/components/_card.ntzr");
    assert_eq!(loader.partial_path("/greeting"), "/r/_greeting.ntzr");
}

#[test]
fn loader_missing_and_failed_partials() {
    let mut loader = TemplateLoader::new("/r".to_string());
    match loader.load("/nothing") {
        Err(NatsuzoraError::IncludeError { message }) => assert!(message.contains("not found")),
        other => panic!("expected include error, got {:?}", other.map(|_| ())),
    }
    loader.store_source("/bad".to_string(), "{[ if ]}");
    assert!(matches!(loader.load("/bad"), Err(NatsuzoraError::IncludeError { .. })));
    loader.store_failure("/gone".to_string(), NatsuzoraError::IoError { message: "unreadable".to_string() });
    assert!(matches!(loader.load("/gone"), Err(NatsuzoraError::IoError { .. })));
    assert_eq!(loader.cached_count(), 2);
}

#[test]
fn loader_next_missing_walks_templates_and_partials() {
    let template = natsuzora::parse("{[#if x]}{[!include /a ]}{[/if]}").unwrap();
    let mut loader = TemplateLoader::new("/r".to_string());
    assert_eq!(loader.next_missing(&template), Some("/a".to_string()));
    loader.store_source("/a".to_string(), "{[#each xs as x]}{[!include /b/c ]}{[/each]}");
    assert_eq!(loader.next_missing(&template), Some("/b/c".to_string()));
    loader.store_source("/b/c".to_string(), "leaf");
    assert_eq!(loader.next_missing(&template), None);
}

#[test]
fn loader_sandbox_containment() {
    assert!(within_root("/r", "/r"));
    assert!(within_root("/r/a/_b.ntzr", "/r"));
    assert!(within_root("/r/a", "/r/"));
    assert!(!within_root("/rx/a", "/r"));
    assert!(!within_root("/etc/passwd", "/r"));
    assert!(!within_root("/", "/r"));
}

#[test]
fn loader_error_messages() {
    let mut loader = TemplateLoader::new("/r".to_string());
    loader.store_source("/a".to_string(), "A");
    loader.push_include("/a");
    match loader.load("/a") {
        Err(NatsuzoraError::IncludeError { message }) => assert_eq!(message, "Circular include detected"),
        other => panic!("unexpected {:?}", other.map(|_| ())),
    }
    match loader.load("/never") {
        Err(NatsuzoraError::IncludeError { message }) => assert_eq!(message, "Include file not found"),
        other => panic!("unexpected {:?}", other.map(|_| ())),
    }
    assert!(!loader.admit_path("/evil".to_string(), "/etc/_evil.ntzr"));
    match loader.load("/evil") {
        Err(NatsuzoraError::IncludeError { message }) => assert_eq!(message, "Path traversal detected"),
        other => panic!("unexpected {:?}", other.map(|_| ())),
    }
    assert!(loader.admit_path("/ok".to_string(), "/r/_ok.ntzr"));
    loader.store_missing("/gone".to_string());
    assert!(matches!(loader.load("/gone"), Err(NatsuzoraError::IncludeError { .. })));
    loader.store_source("/broken".to_string(), "x\n{[ if ]}");
    match loader.load("/broken") {
        Err(NatsuzoraError::IncludeError { message }) => {
            assert!(message.starts_with("Failed to parse include '/broken': reserved word 'if'"));
            assert!(message.ends_with("at line 2, column 4"));
        }
        other => panic!("unexpected {:?}", other.map(|_| ())),
    }
}
