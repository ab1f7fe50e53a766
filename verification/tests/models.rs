use koala::agent::models::{check_settings, select_model, set_reasoning_effort, SettingsError};
use koala::config::{LlmConfig, ModelConfig};
use koala::i18n::Lang;

fn model(name: &str, efforts: &[&str], effort: Option<&str>, window: Option<u64>) -> ModelConfig {
    ModelConfig {
        model: name.to_string(),
        reasoning_efforts: efforts.iter().map(|e| e.to_string()).collect(),
        reasoning_effort: effort.map(String::from),
        context_window: window,
    }
}

#[test]
fn switching_models_sets_effort_and_window() {
    let models = vec![
        model("fast", &[], None, None),
        model("deep", &["low", "high"], None, Some(128_000)),
        model("tuned", &["low", "high"], Some("high"), None),
    ];
    let s = select_model(&models, "fast", "deep", Lang::En).unwrap().unwrap();
    assert_eq!(s.model, "deep");
    assert_eq!(s.effort.as_deref(), Some("low"));
    assert_eq!(s.reasoning_efforts, vec!["low", "high"]);
    assert_eq!(s.context_window, Some(128_000));
    let s = select_model(&models, "fast", "tuned", Lang::En).unwrap().unwrap();
    assert_eq!(s.effort.as_deref(), Some("high"));
    let s = select_model(&models, "deep", "fast", Lang::En).unwrap().unwrap();
    assert_eq!(s.effort, None);
    assert!(select_model(&models, "deep", "deep", Lang::En).unwrap().is_none());
    assert_eq!(
        select_model(&models, "deep", "other", Lang::En).unwrap_err(),
        "Unconfigured model: other"
    );
}

#[test]
fn efforts_must_be_offered() {
    let efforts = vec!["low".to_string(), "high".to_string()];
    assert_eq!(set_reasoning_effort(&efforts, "high", Lang::En).unwrap(), "high");
    assert_eq!(
        set_reasoning_effort(&efforts, "max", Lang::En).unwrap_err(),
        "Unsupported reasoning effort: max; available: low, high"
    );
    assert_eq!(
        set_reasoning_effort(&vec![], "low", Lang::En).unwrap_err(),
        "No reasoning efforts configured for this model (llm.reasoning_efforts)"
    );
}

#[test]
fn settings_need_a_model_and_a_percentage() {
    let mut llm = LlmConfig::default();
    assert_eq!(check_settings(&llm, 75).unwrap_err(), SettingsError::MissingModel);
    llm.model = "m".to_string();
    let models = check_settings(&llm, 75).unwrap();
    assert_eq!(models.len(), 1);
    assert_eq!(models[0].model, "m");
    match check_settings(&llm, 40_000).unwrap_err() {
        SettingsError::InvalidModelSettings(m) => assert!(m.starts_with("agent.compact_threshold must be a percentage")),
        other => panic!("unexpected {other:?}"),
    }
    llm.model = "has space".to_string();
    assert!(matches!(check_settings(&llm, 75), Err(SettingsError::InvalidModelSettings(_))));
}
