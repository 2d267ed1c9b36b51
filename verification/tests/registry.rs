use localagent::catalog::find_model;
use localagent::registry::{InstalledModel, ModelRegistry};

fn installed(id: &str, backend: &str, size: u64) -> InstalledModel {
    let mut info = find_model("gemma-3-1b-it").unwrap();
    info.id = id.to_string();
    InstalledModel {
        info,
        file_size_bytes: size,
        downloaded_at: "2025-01-01T00:00:00Z".into(),
        backend: backend.into(),
    }
}

#[test]
fn record_install_replaces_only_same_model_and_backend() {
    let mut reg = ModelRegistry::new();
    reg.record_install(installed("a", "llama_cpp", 1));
    reg.record_install(installed("a", "cactus", 2));
    reg.record_install(installed("b", "llama_cpp", 3));
    reg.record_install(installed("a", "llama_cpp", 4));
    let slots: Vec<(String, String, u64)> = reg
        .installed
        .iter()
        .map(|m| (m.info.id.clone(), m.backend.clone(), m.file_size_bytes))
        .collect();
    assert_eq!(
        slots,
        vec![
            ("a".to_string(), "cactus".to_string(), 2),
            ("b".to_string(), "llama_cpp".to_string(), 3),
            ("a".to_string(), "llama_cpp".to_string(), 4),
        ]
    );
    assert_eq!(reg.find_installed("a", "llama_cpp").unwrap().file_size_bytes, 4);
}

#[test]
fn find_installed_reports_missing_model() {
    let reg = ModelRegistry::new();
    assert_eq!(reg.find_installed("x", "cactus").unwrap_err(), "Model x (cactus) is not installed");
    assert!(!reg.is_registered("x", "cactus"));
}

#[test]
fn file_size_of_takes_first_entry_for_model() {
    let mut reg = ModelRegistry::new();
    reg.record_install(installed("a", "cactus", 10));
    reg.record_install(installed("a", "llama_cpp", 20));
    assert_eq!(reg.file_size_of("a"), Ok(10));
    assert_eq!(reg.file_size_of("b"), Err("Model b not installed".to_string()));
}

#[test]
fn remove_slot_forgets_installation() {
    let mut reg = ModelRegistry::new();
    reg.record_install(installed("a", "cactus", 10));
    reg.record_install(installed("a", "llama_cpp", 20));
    assert!(reg.is_registered("a", "cactus"));
    reg.remove_slot("a", "cactus");
    assert!(!reg.is_registered("a", "cactus"));
    assert!(reg.is_registered("a", "llama_cpp"));
    assert_eq!(reg.installed.len(), 1);
}

#[test]
fn present_entries_keeps_listed_files() {
    let mut reg = ModelRegistry::new();
    reg.record_install(installed("a", "cactus", 10));
    reg.record_install(installed("b", "cactus", 20));
    reg.record_install(installed("c", "cactus", 30));
    let kept = reg.present_entries(&vec![true, false, true]);
    let ids: Vec<&str> = kept.iter().map(|m| m.info.id.as_str()).collect();
    assert_eq!(ids, vec!["a", "c"]);
}
