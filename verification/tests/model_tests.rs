use parrot::model::{
    alias_names, alias_url, check_default_model, model_aliases, model_size, model_sizes,
    resolve_pull_url, UnknownModelAlias,
};

#[test]
fn model_aliases_contain_all_known_models() {
    let aliases = model_aliases();
    assert!(aliases.iter().any(|(k, _)| *k == "whisper-large-v3"));
    assert!(aliases.iter().any(|(k, _)| *k == "whisper-medium"));
    assert!(aliases.iter().any(|(k, _)| *k == "whisper-small"));
    assert!(aliases.iter().any(|(k, _)| *k == "whisper-tiny"));
    assert_eq!(aliases.len(), 4);
}

#[test]
fn model_aliases_point_to_hf_urls() {
    let aliases = model_aliases();
    for (name, url) in &aliases {
        assert!(url.starts_with("https://huggingface.co/"), "{} URL should be from HuggingFace", name);
        assert!(url.ends_with("/model.bin"), "{} URL should end with model.bin", name);
        assert!(url.contains(name), "{} URL should contain model name", name);
    }
}

#[test]
fn model_sizes_contain_all_models() {
    let sizes = model_sizes();
    assert_eq!(sizes.len(), 4);
    assert!(sizes.iter().any(|(k, _)| *k == "whisper-large-v3"));
    assert!(model_size("whisper-large-v3").unwrap().contains("3GB"));
    assert!(model_size("whisper-tiny").unwrap().contains("75MB"));
}

#[test]
fn model_aliases_urls_are_valid() {
    assert_eq!(alias_url("whisper-large-v3").unwrap(),
        "https://huggingface.co/openai/whisper-large-v3/resolve/main/model.bin");
    assert_eq!(alias_url("whisper-medium").unwrap(),
        "https://huggingface.co/openai/whisper-medium/resolve/main/model.bin");
    assert_eq!(alias_url("whisper-small").unwrap(),
        "https://huggingface.co/openai/whisper-small/resolve/main/model.bin");
    assert_eq!(alias_url("whisper-tiny").unwrap(),
        "https://huggingface.co/openai/whisper-tiny/resolve/main/model.bin");
}

#[test]
fn pull_url_resolution() {
    assert_eq!(
        resolve_pull_url("whisper-tiny").unwrap(),
        "https://huggingface.co/openai/whisper-tiny/resolve/main/model.bin"
    );
    assert_eq!(resolve_pull_url("https://example.com/m.bin").unwrap(), "https://example.com/m.bin");
    assert_eq!(resolve_pull_url("nonexistent-model"), Err(UnknownModelAlias));
    assert_eq!(resolve_pull_url("http://example.com/m.bin"), Err(UnknownModelAlias));
    assert!(model_size("nonexistent-model").is_none());
}

#[test]
fn default_model_accepts_what_pull_accepts() {
    for name in ["whisper-small", "https://x/y", "nonexistent-model", "WHISPER-SMALL", ""] {
        assert_eq!(check_default_model(name).is_ok(), resolve_pull_url(name).is_ok(), "{}", name);
    }
    assert_eq!(alias_names(), "whisper-large-v3, whisper-medium, whisper-small, whisper-tiny");
}
