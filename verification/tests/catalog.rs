use localagent::catalog::{find_model, get_catalog};

#[test]
fn test_get_catalog_contains_expected_models() {
    let catalog = get_catalog();
    // Should have at least 2 models
    assert!(catalog.len() >= 2);

    // Gemma-3-1B should be present
    let gemma = catalog.iter().find(|m| m.id == "gemma-3-1b-it");
    assert!(gemma.is_some());
    let gemma = gemma.unwrap();
    assert_eq!(gemma.display_name, "Gemma-3-1B");
    assert_eq!(gemma.provider, "Google");
    assert!(gemma.capabilities.contains(&"chat".to_string()));
    assert_eq!(gemma.default_backend, "llama_cpp");

    // Bonsai-8B should be present
    let bonsai = catalog.iter().find(|m| m.id == "Bonsai-8B");
    assert!(bonsai.is_some());
    let bonsai = bonsai.unwrap();
    assert_eq!(bonsai.display_name, "Bonsai-8B");
    assert_eq!(bonsai.provider, "Prisma ML");
    assert!(bonsai.llama_cpp_url.is_some());
    assert!(bonsai.cactus_url.is_none());
}

#[test]
fn test_find_model_finds_existing() {
    let model = find_model("gemma-3-1b-it");
    assert!(model.is_some());
    assert_eq!(model.unwrap().id, "gemma-3-1b-it");
}

#[test]
fn test_find_model_returns_none_for_unknown() {
    let model = find_model("nonexistent-model");
    assert!(model.is_none());
}

#[test]
fn test_gemma_has_both_backends() {
    let gemma = find_model("gemma-3-1b-it").unwrap();
    assert!(gemma.llama_cpp_url.is_some());
    assert!(gemma.llama_cpp_size_mb.is_some());
    assert!(gemma.cactus_url.is_some());
    assert!(gemma.cactus_size_mb.is_some());
}

#[test]
fn test_all_models_have_non_empty_fields() {
    for model in get_catalog() {
        assert!(!model.id.is_empty(), "Model id is empty");
        assert!(!model.display_name.is_empty(), "{} has empty display_name", model.id);
        assert!(!model.provider.is_empty(), "{} has empty provider", model.id);
        assert!(!model.repo.is_empty(), "{} has empty repo", model.id);
        assert!(!model.filename.is_empty(), "{} has empty filename", model.id);
        assert!(!model.default_backend.is_empty(), "{} has empty default_backend", model.id);
        assert!(!model.capabilities.is_empty(), "{} has empty capabilities", model.id);
    }
}

#[test]
fn test_model_ids_are_unique() {
    let catalog = get_catalog();
    let ids: std::collections::HashSet<&str> = catalog.iter().map(|m| m.id.as_str()).collect();
    assert_eq!(ids.len(), catalog.len(), "Duplicate model IDs found");
}

#[test]
fn test_gemma_4_e2b_has_both_backends() {
    let model = find_model("gemma-4-e2b-it").unwrap();
    assert!(model.llama_cpp_url.is_some());
    assert!(model.llama_cpp_size_mb.is_some());
    assert!(model.cactus_url.is_some());
    assert!(model.cactus_size_mb.is_some());
}

#[test]
fn test_bonsai_has_only_llama_cpp_backend() {
    let bonsai = find_model("Bonsai-8B").unwrap();
    assert!(bonsai.llama_cpp_url.is_some());
    assert!(bonsai.cactus_url.is_none());
    assert!(bonsai.cactus_size_mb.is_none());
}

#[test]
fn test_all_model_urls_use_https() {
    for model in get_catalog() {
        if let Some(url) = &model.llama_cpp_url {
            assert!(url.starts_with("https://"), "{} llama_cpp_url is not https: {}", model.id, url);
        }
        if let Some(url) = &model.cactus_url {
            assert!(url.starts_with("https://"), "{} cactus_url is not https: {}", model.id, url);
        }
    }
}

#[test]
fn test_find_model_is_case_sensitive() {
    assert!(find_model("GEMMA-3-1B-IT").is_none());
    assert!(find_model("gemma-3-1b-it").is_some());
}

#[test]
fn catalog_lists_three_models_in_order_with_sizes() {
    let catalog = get_catalog();
    let ids: Vec<&str> = catalog.iter().map(|m| m.id.as_str()).collect();
    assert_eq!(ids, vec!["gemma-3-1b-it", "gemma-4-e2b-it", "Bonsai-8B"]);
    assert_eq!(catalog[0].llama_cpp_size_mb, Some(806));
    assert_eq!(catalog[0].cactus_size_mb, Some(653));
    assert_eq!(catalog[1].llama_cpp_size_mb, Some(3111));
    assert_eq!(catalog[1].cactus_size_mb, Some(4680));
    assert_eq!(catalog[2].llama_cpp_size_mb, Some(1160));
    assert_eq!(catalog[2].llama_cpp_quant, None);
    assert_eq!(catalog[0].llama_cpp_quant.as_deref(), Some("Q4_K_M"));
}

#[test]
fn find_model_returns_full_entry() {
    let m = find_model("Bonsai-8B").unwrap();
    assert_eq!(m.repo, "prism-ml/Bonsai-8B-gguf");
    assert_eq!(m.filename, "bonsai.gguf");
    assert_eq!(
        m.llama_cpp_url.as_deref(),
        Some("https://huggingface.co/prism-ml/Bonsai-8B-gguf/resolve/main/Bonsai-8B.gguf")
    );
    assert!(find_model("").is_none());
}
