use draw_things_companion::registry::{parse_model_list, ModelTypeRegistry};

#[test]
fn test_registry() {
    let mut registry = ModelTypeRegistry::new();
    registry.main_models.insert("flux_1_dev.ckpt".to_string());
    registry.loras.insert("my_lora.ckpt".to_string());

    assert_eq!(registry.get_model_type("flux_1_dev.ckpt"), Some("model".to_string()));
    assert_eq!(registry.get_model_type("my_lora.ckpt"), Some("lora".to_string()));
    assert_eq!(registry.get_model_type("unknown.ckpt"), None);
}

#[test]
fn list_skips_comments_and_blank_lines() {
    let names = parse_model_list("# known models\n\n  flux_1_dev.ckpt  \r\nsd_v1.5.ckpt\n   \n#x.ckpt\nlast.ckpt");
    assert_eq!(names.len(), 3);
    assert!(names.contains("flux_1_dev.ckpt"));
    assert!(names.contains("sd_v1.5.ckpt"));
    assert!(names.contains("last.ckpt"));
    assert!(!names.contains("#x.ckpt"));
    assert!(!names.contains(""));
}

#[test]
fn list_of_empty_text_is_empty() {
    assert_eq!(parse_model_list("").len(), 0);
    assert_eq!(parse_model_list("\n\n").len(), 0);
}

#[test]
fn registry_prefers_models_over_loras() {
    let registry = ModelTypeRegistry::load_from_texts(
        Some("both.ckpt\n"),
        Some("both.ckpt\nonly_lora.ckpt"),
        None,
        Some("emb.pt"),
    );
    assert_eq!(registry.get_model_type("both.ckpt"), Some("model".to_string()));
    assert_eq!(registry.get_model_type("only_lora.ckpt"), Some("lora".to_string()));
    assert_eq!(registry.get_model_type("emb.pt"), Some("embedding".to_string()));
    assert!(!registry.is_controlnet("emb.pt"));
    assert!(registry.is_embedding("emb.pt"));
}
