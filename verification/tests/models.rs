use localagent::models::{extract_quant_name, select_hf_files, select_hf_files_lowered, HfTreeEntry};

#[test]
fn test_extract_quant_name_q4_k_m() {
    assert_eq!(extract_quant_name("gemma-3-1b-it-Q4_K_M.gguf"), "Q4_K_M");
}

#[test]
fn test_extract_quant_name_q8_0() {
    assert_eq!(extract_quant_name("model-Q8_0.gguf"), "Q8_0");
}

#[test]
fn test_extract_quant_name_iq3_xxs() {
    assert_eq!(extract_quant_name("model-IQ3_XXS.gguf"), "IQ3_XXS");
}

#[test]
fn test_extract_quant_name_bf16() {
    assert_eq!(extract_quant_name("model-BF16.gguf"), "BF16");
}

#[test]
fn test_extract_quant_name_no_quant() {
    // If no quant pattern found, returns the full stem
    let result = extract_quant_name("bonsai.gguf");
    assert_eq!(result, "bonsai");

    let result = extract_quant_name("model-name.gguf");
    assert_eq!(result, "model-name");
}

#[test]
fn test_extract_quant_name_ud_iq1_s1() {
    assert_eq!(extract_quant_name("model-UD-IQ1_S1.gguf"), "UD-IQ1_S1");
}

#[test]
fn test_extract_quant_name_multiple_dashes_in_name() {
    assert_eq!(
        extract_quant_name("llama-3.2-3b-instruct-Q4_K_M.gguf"),
        "Q4_K_M"
    );
}

#[test]
fn test_extract_quant_name_f16_not_recognized() {
    // F16 doesn't start with Q/IQ/BF/UD, so the full stem is returned
    let result = extract_quant_name("model-F16.gguf");
    assert_eq!(result, "model-F16");
}

#[test]
fn test_extract_quant_name_with_version_numbers_in_name() {
    // Version numbers with dots should not confuse the parser
    assert_eq!(extract_quant_name("mistral-7b-v0.3-Q4_K_M.gguf"), "Q4_K_M");
}

#[test]
fn test_extract_quant_name_lowercase_not_recognized() {
    // Matching is case-sensitive; HuggingFace always uploads uppercase quant names
    let result = extract_quant_name("model-q4_k_m.gguf");
    assert_eq!(result, "model-q4_k_m");
}

#[test]
fn extract_quant_name_edge_cases() {
    // every trailing ".gguf" is trimmed
    assert_eq!(extract_quant_name("model-x.gguf.gguf"), "model-x");
    // the first part may itself be the quantization
    assert_eq!(extract_quant_name("Q4_0.gguf"), "Q4_0");
    // everything from the first marked part on is kept
    assert_eq!(extract_quant_name("a-Q4-b.gguf"), "Q4-b");
    assert_eq!(extract_quant_name(""), "");
    assert_eq!(extract_quant_name("model"), "model");
    // a marker must open a part, not sit inside one
    assert_eq!(extract_quant_name("aQ4.gguf"), "aQ4");
    // an empty part is no marker
    assert_eq!(extract_quant_name("a--Q2.gguf"), "Q2");
}

fn entry(path: &str, size: Option<u64>, lfs: Option<u64>) -> HfTreeEntry {
    HfTreeEntry { path: path.to_string(), size, lfs_size: lfs }
}

#[test]
fn select_hf_files_filters_sorts_and_builds_urls() {
    let entries = vec![
        entry("README.md", Some(10), None),
        entry("model-Q8_0.gguf", Some(5), Some(800)),
        entry("model-Q4_K_M.gguf", Some(400), None),
        entry("mmproj-model-f16.gguf", Some(100), None),
        entry("MODEL-MMPROJ.gguf", Some(100), None),
        entry("sub/model-Q2_K.gguf", Some(50), None),
        entry("model-TQ1_0.gguf", Some(60), None),
        entry("model-ternary.gguf", Some(60), None),
        entry("model-IQ2_XS.gguf", None, None),
        entry("model-BF16.gguf", Some(400), None),
    ];
    let files = select_hf_files("org/repo", entries);
    let names: Vec<&str> = files.iter().map(|f| f.filename.as_str()).collect();
    assert_eq!(
        names,
        vec!["model-IQ2_XS.gguf", "model-Q4_K_M.gguf", "model-BF16.gguf", "model-Q8_0.gguf"]
    );
    assert_eq!(files[0].size_bytes, 0);
    assert_eq!(files[3].size_bytes, 800);
    assert_eq!(files[1].quant_name, "Q4_K_M");
    assert_eq!(files[3].quant_name, "Q8_0");
    assert_eq!(
        files[1].download_url,
        "https://huggingface.co/org/repo/resolve/main/model-Q4_K_M.gguf"
    );
}

#[test]
fn select_hf_files_of_empty_listing_is_empty() {
    assert!(select_hf_files("org/repo", vec![]).is_empty());
}

#[test]
fn select_hf_files_lowered_filters_by_the_given_lower_case_names() {
    let entries = vec![
        entry("A-Q4_K_M.gguf", Some(30), None),
        entry("B-Q8_0.gguf", Some(10), None),
        entry("C-Q2_K.gguf", Some(20), None),
    ];
    let lowers: Vec<String> =
        vec!["a-q4_k_m.gguf".into(), "b-mmproj.gguf".into(), "c-q2_k.gguf".into()];
    let files = select_hf_files_lowered("org/r", entries, &lowers);
    let names: Vec<&str> = files.iter().map(|f| f.filename.as_str()).collect();
    assert_eq!(names, vec!["C-Q2_K.gguf", "A-Q4_K_M.gguf"]);
}
