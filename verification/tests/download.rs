use localagent::download::{
    adopt_existing_file, installed_entry_at, ExtractionProgress,
    already_downloaded_error, check_download_size, download_error_text, download_total,
    extraction_error_text, file_exists_error, hf_model_info, installed_entry, plan_download,
    sanitize_entry_path,
};

#[test]
fn plan_download_uses_default_backend_and_catalog_url() {
    let plan = plan_download("gemma-3-1b-it", None, None, None, None).unwrap();
    assert_eq!(plan.backend, "llama_cpp");
    assert_eq!(
        plan.url,
        "https://huggingface.co/unsloth/gemma-3-1b-it-GGUF/resolve/main/gemma-3-1b-it-Q4_K_M.gguf"
    );
    assert_eq!(plan.filename, "gemma-3-1b-it-Q4_K_M.gguf");
    assert_eq!(plan.size_mb, 806);
    assert_eq!(plan.model.id, "gemma-3-1b-it");
}

#[test]
fn plan_download_for_cactus() {
    let plan = plan_download("gemma-3-1b-it", Some("cactus".into()), None, None, None).unwrap();
    assert_eq!(plan.filename, "gemma-3-1b-it-int4.zip");
    assert_eq!(plan.size_mb, 653);
}

#[test]
fn plan_download_with_explicit_values() {
    let plan = plan_download(
        "Bonsai-8B",
        Some("llama_cpp".into()),
        Some("custom.gguf".into()),
        Some("https://example.com/a/b.gguf".into()),
        Some(3 * 1048576 + 5),
    )
    .unwrap();
    assert_eq!(plan.url, "https://example.com/a/b.gguf");
    assert_eq!(plan.filename, "custom.gguf");
    assert_eq!(plan.size_mb, 3);
    let plan = plan_download("Bonsai-8B", None, None, Some("https://example.com/a/b.gguf".into()), None).unwrap();
    assert_eq!(plan.filename, "b.gguf");
    assert_eq!(plan.size_mb, 1160);
}

#[test]
fn plan_download_errors() {
    assert_eq!(
        plan_download("nope", None, None, None, None).unwrap_err(),
        "Unknown model: nope"
    );
    assert_eq!(
        plan_download("Bonsai-8B", Some("cactus".into()), None, None, None).unwrap_err(),
        "No cactus URL configured for Bonsai-8B"
    );
    assert_eq!(
        plan_download("Bonsai-8B", Some("onnx".into()), None, None, None).unwrap_err(),
        "Unknown backend: onnx"
    );
    // with an explicit URL an unknown backend is accepted; its size is the llama.cpp size
    let plan = plan_download("Bonsai-8B", Some("onnx".into()), None, Some("u".into()), None).unwrap();
    assert_eq!(plan.filename, "u");
    assert_eq!(plan.size_mb, 1160);
}

#[test]
fn hf_model_info_names_the_repository() {
    let m = hf_model_info("org/name", "f.gguf", "https://x/f.gguf", "llama_cpp");
    assert_eq!(m.id, "org--name");
    assert_eq!(m.display_name, "name");
    assert_eq!(m.provider, "org");
    assert_eq!(m.repo, "org/name");
    assert_eq!(m.capabilities, vec!["chat".to_string()]);
    assert_eq!(m.description, "Custom model from org/name");
    assert_eq!(m.llama_cpp_url.as_deref(), Some("https://x/f.gguf"));
    assert!(m.cactus_url.is_none());
    let m = hf_model_info("plain", "f", "u", "cactus");
    assert_eq!(m.id, "plain");
    assert_eq!(m.display_name, "plain");
    assert_eq!(m.provider, "plain");
    assert_eq!(m.cactus_url.as_deref(), Some("u"));
    assert!(m.llama_cpp_url.is_none());
    let m = hf_model_info("a/b/c", "f", "u", "other");
    assert_eq!(m.id, "a--b--c");
    assert_eq!(m.display_name, "c");
    assert_eq!(m.provider, "a");
    assert!(m.cactus_url.is_none() && m.llama_cpp_url.is_none());
}

#[test]
fn installed_entry_records_file_and_time() {
    let m = hf_model_info("org/name", "f.gguf", "u", "cactus");
    let e = installed_entry(m, "dir".into(), 42, "cactus".into()).unwrap();
    assert_eq!(e.info.filename, "dir");
    assert_eq!(e.file_size_bytes, 42);
    assert_eq!(e.backend, "cactus");
    assert!(e.downloaded_at.contains('T'));
    assert!(e.downloaded_at.ends_with("+00:00"));
}

#[test]
fn download_total_prefers_announced_length() {
    assert_eq!(download_total(Some(123), 5), 123);
    assert_eq!(download_total(None, 5), 5 * 1048576);
    assert_eq!(download_total(None, 0), 0);
}

#[test]
fn check_download_size_allows_five_percent_short() {
    assert_eq!(check_download_size(95, 100), Ok(()));
    assert_eq!(check_download_size(0, 0), Ok(()));
    assert_eq!(check_download_size(200, 100), Ok(()));
    assert_eq!(
        check_download_size(94, 100),
        Err("Download incomplete: got 94 of 100 bytes".to_string())
    );
}

#[test]
fn download_errors_of_cancelled_downloads_are_empty() {
    assert_eq!(download_error_text("Download cancelled"), "");
    assert_eq!(download_error_text("Server returned 404"), "Server returned 404");
    assert_eq!(extraction_error_text("Download cancelled"), "");
    assert_eq!(extraction_error_text("bad zip"), "Extraction failed: bad zip");
    assert_eq!(file_exists_error("f.gguf"), "File f.gguf already exists");
    assert_eq!(already_downloaded_error("m"), "Model m is already downloaded");
}

#[test]
fn sanitize_entry_path_drops_empty_and_parent_parts() {
    assert_eq!(sanitize_entry_path("weights/model.bin"), "model.bin");
    assert_eq!(sanitize_entry_path("model.bin"), "model.bin");
    assert_eq!(sanitize_entry_path("pkg/sub/w.bin"), "sub/w.bin");
    assert_eq!(sanitize_entry_path("/abs//x/../y/"), "x/y");
    assert_eq!(sanitize_entry_path("../../etc/passwd"), "passwd");
    assert_eq!(sanitize_entry_path("a/./b"), "./b");
    assert_eq!(sanitize_entry_path("dir/"), "dir");
    assert_eq!(sanitize_entry_path(".."), "");
    assert_eq!(sanitize_entry_path(""), "");
    assert_eq!(sanitize_entry_path("...x"), "...x");
}

#[test]
fn adopt_existing_file_records_unregistered_file() {
    let mut reg = localagent::registry::ModelRegistry::new();
    let plan = plan_download("gemma-3-1b-it", Some("cactus".into()), None, None, None).unwrap();
    let filename = plan.filename.clone();
    adopt_existing_file(&mut reg, "gemma-3-1b-it", plan, 123).unwrap();
    assert_eq!(reg.installed.len(), 1);
    let e = &reg.installed[0];
    assert_eq!(e.info.id, "gemma-3-1b-it");
    assert_eq!(e.info.filename, filename);
    assert_eq!(e.backend, "cactus");
    assert_eq!(e.file_size_bytes, 123);
    assert!(e.downloaded_at.ends_with("+00:00"));

    let again = plan_download("gemma-3-1b-it", Some("cactus".into()), None, None, None).unwrap();
    assert_eq!(
        adopt_existing_file(&mut reg, "gemma-3-1b-it", again, 5).unwrap_err(),
        "Model gemma-3-1b-it is already downloaded"
    );
    assert_eq!(reg.installed.len(), 1);
    assert_eq!(reg.installed[0].file_size_bytes, 123);

    let other = plan_download("gemma-3-1b-it", None, None, None, None).unwrap();
    adopt_existing_file(&mut reg, "gemma-3-1b-it", other, 7).unwrap();
    assert_eq!(reg.installed.len(), 2);
    assert_eq!(reg.installed[1].backend, "llama_cpp");
}

#[test]
fn installed_entry_at_records_the_given_time() {
    let m = hf_model_info("org/name", "f.gguf", "u", "llama_cpp");
    let e = installed_entry_at(m, "f.gguf".into(), 7, "llama_cpp".into(), "2025-01-02T03:04:05+00:00".into());
    assert_eq!(e.downloaded_at, "2025-01-02T03:04:05+00:00");
    assert_eq!(e.info.id, "org--name");
    assert_eq!(e.info.filename, "f.gguf");
    assert_eq!(e.file_size_bytes, 7);
    assert_eq!(e.backend, "llama_cpp");
}

#[test]
fn extraction_progress_is_due_every_mebibyte() {
    let mut p = ExtractionProgress::new();
    assert!(!p.advance(262144));
    assert!(!p.advance(524288));
    assert!(p.advance(262144));
    assert_eq!(p.extracted, 1048576);
    assert_eq!(p.last_reported, 1048576);
    assert!(!p.advance(1048575));
    assert!(p.advance(1));
    assert_eq!(p.last_reported, 2097152);
}
