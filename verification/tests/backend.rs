use localagent::backend::BackendKind;

#[test]
fn test_backend_kind_llama_cpp() {
    let kind = BackendKind::from_str("llama_cpp");
    assert!(matches!(kind, BackendKind::LlamaCpp));
}

#[test]
fn test_backend_kind_cactus_default() {
    let kind = BackendKind::from_str("cactus");
    assert!(matches!(kind, BackendKind::Cactus));
}

#[test]
fn test_backend_kind_unknown_defaults_to_cactus() {
    let kind = BackendKind::from_str("some_unknown_backend");
    assert!(matches!(kind, BackendKind::Cactus));
}

#[test]
fn test_backend_kind_empty_string_defaults_to_cactus() {
    let kind = BackendKind::from_str("");
    assert!(matches!(kind, BackendKind::Cactus));
}

#[test]
fn test_backend_kind_matching_is_case_sensitive() {
    // "LLAMA_CPP" doesn't match "llama_cpp" — falls through to Cactus default
    let kind = BackendKind::from_str("LLAMA_CPP");
    assert!(matches!(kind, BackendKind::Cactus));
}

#[test]
fn backend_kind_prefix_or_padding_does_not_match() {
    assert!(matches!(BackendKind::from_str("llama_cpp "), BackendKind::Cactus));
    assert!(matches!(BackendKind::from_str("llama"), BackendKind::Cactus));
}
