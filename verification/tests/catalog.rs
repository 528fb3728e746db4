//! The catalog of models.

use codex_nim_proxy::catalog::build_models_response;
use codex_nim_proxy::catalog::curated_models;
use codex_nim_proxy::catalog::ModelUseCase;

#[test]
fn curated_models_have_unique_ids() {
    let mut seen = std::collections::HashSet::new();
    for m in curated_models().iter() {
        assert!(seen.insert(m.id.clone()), "duplicate id: {}", m.id);
    }
}

#[test]
fn build_response_merges_curated_and_upstream() {
    let upstream = vec![
        "qwen/qwen3-next-80b-a3b-instruct".to_string(),
        "some/other-model".to_string(),
    ];
    let resp = build_models_response(&upstream);
    let data = resp.get("data").unwrap().as_array().unwrap();
    assert!(data.len() >= curated_models().len() + 1);
    assert_eq!(data[0]["id"], "qwen/qwen3-next-80b-a3b-instruct");
    assert_eq!(data[0]["curated"], true);
    assert_eq!(data[data.len() - 1]["id"], "some/other-model");
    assert_eq!(data[data.len() - 1]["curated"], false);
}

#[test]
fn build_response_works_with_empty_upstream() {
    let resp = build_models_response(&[]);
    let data = resp.get("data").unwrap().as_array().unwrap();
    assert_eq!(data.len(), curated_models().len());
}

#[test]
fn an_upstream_id_is_listed_once() {
    let upstream = vec![
        "a/b".to_string(),
        "a/b".to_string(),
        "c/d".to_string(),
        "a/b".to_string(),
        "google/codegemma-7b".to_string(),
    ];
    let resp = build_models_response(&upstream);
    let data = resp.get("data").unwrap().as_array().unwrap();
    assert_eq!(data.len(), 14);
    assert_eq!(data[12]["id"], "a/b");
    assert_eq!(data[13]["id"], "c/d");
}

#[test]
fn a_curated_model_is_listed_with_all_it_has() {
    let resp = build_models_response(&[]);
    assert_eq!(resp["object"], "list");
    let last = &resp["data"][11];
    let expected = "{\"context_window\":8000,\"created\":0,\"curated\":true,\
        \"description\":\"Google's code model — fast, lightweight\",\
        \"display_name\":\"CodeGemma 7B\",\"id\":\"google/codegemma-7b\",\
        \"object\":\"model\",\"owned_by\":\"nvidia\",\"reasoning\":false,\
        \"tool_calls\":false,\"use_case\":\"fast\"}";
    assert_eq!(last.to_string(), expected);
}

#[test]
fn a_plain_model_is_listed_with_its_id() {
    let resp = build_models_response(&["x/y".to_string()]);
    let expected =
        "{\"created\":0,\"curated\":false,\"id\":\"x/y\",\"object\":\"model\",\"owned_by\":\"nvidia\"}";
    assert_eq!(resp["data"][12].to_string(), expected);
}

#[test]
fn uses_are_written_in_lower_case() {
    assert_eq!(ModelUseCase::Coding.name(), "coding");
    assert_eq!(ModelUseCase::Reasoning.name(), "reasoning");
    assert_eq!(ModelUseCase::Fast.name(), "fast");
    assert_eq!(ModelUseCase::Specialty.name(), "specialty");
}
