use localagent::control::{
    inference_outcome, locate_in_registry, locate_registered, EngineState, InferenceOutcome, LoadDecision,
    LoadedModelInfo, RegistryEntry, ShutdownAction,
};

fn loaded(id: &str, backend: &str) -> LoadedModelInfo {
    LoadedModelInfo { model_id: id.into(), backend_name: backend.into(), context_size: 4096 }
}

#[test]
fn load_is_refused_during_inference() {
    let mut s = EngineState::new();
    assert!(s.finish_load(loaded("m", "llama_cpp"), 0));
    s.begin_inference().unwrap();
    assert!(matches!(s.request_load("other", &None), LoadDecision::Refused(e) if e == "Cannot change model during active inference"));
    assert_eq!(s.unload().unwrap_err(), "Cannot unload model during active inference");
    assert!(s.loaded.is_some());
    assert_eq!(s.begin_inference().unwrap_err(), "Inference already in progress");
    s.finish_inference();
    assert!(!s.inference_running);
    assert!(s.unload().is_ok());
    assert!(s.loaded.is_none());
}

#[test]
fn load_of_loaded_model_is_noop() {
    let mut s = EngineState::new();
    assert!(s.finish_load(loaded("m", "cactus"), 0));
    assert!(matches!(s.request_load("m", &None), LoadDecision::AlreadyLoaded(b) if b == "cactus"));
    assert!(matches!(s.request_load("m", &Some("cactus".into())), LoadDecision::AlreadyLoaded(_)));
    assert!(matches!(s.request_load("m", &Some("llama_cpp".into())), LoadDecision::Proceed(0)));
    assert!(matches!(s.request_load("n", &None), LoadDecision::Proceed(0)));
    assert_eq!(s.loaded_context_size(), Some(4096));
}

#[test]
fn inference_needs_a_model() {
    let mut s = EngineState::new();
    assert_eq!(s.begin_inference().unwrap_err(), "No model is loaded");
    assert!(!s.inference_running);
    assert_eq!(s.loaded_context_size(), None);
}

#[test]
fn release_if_active_unloads_matching_model_only() {
    let mut s = EngineState::new();
    assert!(s.finish_load(loaded("m", "cactus"), 0));
    assert!(!s.release_if_active("m", "llama_cpp"));
    assert!(s.loaded.is_some());
    s.begin_inference().unwrap();
    assert!(s.release_if_active("m", "cactus"));
    assert!(s.loaded.is_none());
}

#[test]
fn shutdown_happens_once() {
    let mut s = EngineState::new();
    assert_eq!(s.begin_shutdown(), ShutdownAction::ExitNow);
    assert_eq!(s.begin_shutdown(), ShutdownAction::AlreadyStarted);
    let mut s = EngineState::new();
    assert!(s.finish_load(loaded("m", "cactus"), 0));
    s.begin_inference().unwrap();
    assert_eq!(s.begin_shutdown(), ShutdownAction::WaitForInference);
}

#[test]
fn inference_outcomes() {
    assert!(matches!(inference_outcome(Some("boom".into()), false), InferenceOutcome::Failed(e) if e == "boom"));
    assert!(matches!(inference_outcome(Some("boom".into()), true), InferenceOutcome::CompletedEmpty));
    assert!(matches!(inference_outcome(None, true), InferenceOutcome::Completed));
    assert!(matches!(inference_outcome(None, false), InferenceOutcome::Completed));
}

fn entry(id: Option<&str>, backend: Option<&str>, filename: Option<&str>) -> RegistryEntry {
    RegistryEntry {
        id: id.map(|s| s.to_string()),
        backend: backend.map(|s| s.to_string()),
        filename: filename.map(|s| s.to_string()),
    }
}

#[test]
fn locate_registered_finds_first_match() {
    let entries = vec![
        entry(Some("a"), Some("cactus"), Some("a-dir")),
        entry(Some("a"), None, Some("a.gguf")),
        entry(Some("b"), Some("cactus"), None),
    ];
    assert_eq!(
        locate_registered(&entries, "a", &None),
        Ok(("a-dir".to_string(), "cactus".to_string()))
    );
    assert_eq!(
        locate_registered(&entries, "a", &Some("llama_cpp".into())),
        Err("Model a not found in registry".to_string())
    );
    assert_eq!(
        locate_registered(&vec![entry(Some("a"), None, Some("a.gguf"))], "a", &None),
        Ok(("a.gguf".to_string(), "llama_cpp".to_string()))
    );
    assert_eq!(
        locate_registered(&entries, "b", &None),
        Err("Model b has no filename".to_string())
    );
}

#[test]
fn load_finishing_after_unload_is_discarded() {
    let mut s = EngineState::new();
    let ticket = match s.request_load("m", &None) {
        LoadDecision::Proceed(t) => t,
        _ => panic!("load should proceed"),
    };
    assert!(s.unload().is_ok());
    assert!(!s.finish_load(loaded("m", "cactus"), ticket));
    assert!(s.loaded.is_none());
    let ticket = match s.request_load("m", &None) {
        LoadDecision::Proceed(t) => t,
        _ => panic!("load should proceed"),
    };
    assert_eq!(ticket, 1);
    assert!(s.finish_load(loaded("m", "cactus"), ticket));
    assert!(s.loaded.is_some());
}

#[test]
fn locate_in_registry_reads_the_registry_file() {
    let text = r#"{"installed":[{"id":"a","backend":"cactus","filename":"a.bin","file_size_bytes":1},{"id":"b","filename":"b.gguf"},{"id":"c","backend":"llama_cpp"}]}"#;
    assert_eq!(
        locate_in_registry(text, "a", &None).unwrap(),
        ("a.bin".to_string(), "cactus".to_string())
    );
    assert_eq!(
        locate_in_registry(text, "b", &None).unwrap(),
        ("b.gguf".to_string(), "llama_cpp".to_string())
    );
    assert_eq!(locate_in_registry(text, "c", &None).unwrap_err(), "Model c has no filename");
    assert_eq!(
        locate_in_registry(text, "a", &Some("llama_cpp".into())).unwrap_err(),
        "Model a not found in registry"
    );
    assert_eq!(locate_in_registry("", "a", &None).unwrap_err(), "Model a not found in registry");
}
