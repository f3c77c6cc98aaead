use quill::config::{
    add_provider, correction_start, current_shortcut, entry_key_env, history_days, key_slots,
    migrated_config, move_provider, next_provider_id, prompt_instruction, remove_provider,
    require_https, seed_stack, set_fallback_cooldown, set_fallback_threshold, set_history_days,
    set_prompt, set_provider_field, Config, ProviderEntry,
};
use quill::corrector::{system_prompt, DEFAULT_INSTRUCTION};

fn empty() -> Config {
    Config {
        providers: None,
        llm_provider: None,
        prompt: None,
        history_days: None,
        shortcut: None,
        fallback_threshold: None,
        fallback_cooldown_mins: None,
    }
}

fn entry(id: &str, label: &str) -> ProviderEntry {
    ProviderEntry {
        id: Some(id.to_string()),
        label: label.to_string(),
        url: "u".to_string(),
        model: String::new(),
        key_env: "K".to_string(),
    }
}

fn stack_labels(cfg: &Config) -> Vec<String> {
    cfg.providers.as_ref().expect("a stack").iter().map(|e| e.label.clone()).collect()
}

fn stack_ids(cfg: &Config) -> Vec<String> {
    cfg.providers
        .as_ref()
        .expect("a stack")
        .iter()
        .map(|e| e.id.clone().unwrap_or_default())
        .collect()
}

#[test]
fn seed_stack_is_groq_first_backup_second() {
    let arr = seed_stack(&["groq", "routerai"]);
    assert_eq!(arr.len(), 2);
    assert_eq!(arr[0].label, "Groq");
    assert_eq!(arr[0].model, "llama-3.3-70b-versatile");
    assert_eq!(arr[0].key_env, "GROQ_API_KEY");
    assert_eq!(arr[0].id.as_deref(), Some("p1"));
    assert_eq!(arr[1].label, "RouterAI");
    assert_eq!(arr[1].id.as_deref(), Some("p2"));
}

#[test]
fn seed_stack_drops_unknown_names() {
    assert_eq!(seed_stack(&["groq", "nonesuch"]).len(), 1);
}

#[test]
fn next_provider_id_skips_used_ids() {
    let mut cfg = empty();
    cfg.providers = Some(vec![entry("p1", ""), entry("p4", "")]);
    assert_eq!(next_provider_id(&cfg), "p5");
    assert_eq!(next_provider_id(&empty()), "p1");
}

#[test]
fn a_plain_http_endpoint_is_refused() {
    assert!(require_https("http://api.example.com/v1").is_err(), "http would send the key in the clear");
    assert!(require_https("ftp://api.example.com").is_err());
    assert!(require_https("api.example.com").is_err(), "no scheme is not a scheme we trust");
}

#[test]
fn https_and_an_empty_field_are_fine() {
    assert!(require_https("https://api.groq.com/openai/v1").is_ok());
    assert!(require_https("  https://api.openai.com/v1 ").is_ok());
    assert!(require_https("").is_ok(), "clearing the field is not an attack");
}

#[test]
fn a_fresh_install_gets_groq_in_front() {
    let seeded = migrated_config(&empty()).expect("a fresh config is migrated");
    let labels = stack_labels(&seeded);
    assert_eq!(labels.len(), 2, "front runner plus a backup");
    assert!(labels[0].to_lowercase().contains("groq"), "groq runs first, got {:?}", labels);
}

#[test]
fn the_old_single_provider_stays_as_the_backup() {
    let mut old = empty();
    old.llm_provider = Some("openai".to_string());
    old.shortcut = Some("ctrl+alt+e".to_string());
    let seeded = migrated_config(&old).expect("a pre-stack config is migrated");
    let labels = stack_labels(&seeded);
    assert!(labels[1].to_lowercase().contains("openai"), "backup should be openai, got {:?}", labels);
    assert_eq!(seeded.shortcut.as_deref(), Some("ctrl+alt+e"), "migration must not drop the rest of the config");
}

#[test]
fn a_config_that_already_has_a_stack_is_left_alone() {
    let mut mine = empty();
    mine.providers = Some(vec![ProviderEntry {
        id: Some("p1".to_string()),
        label: "Mine".to_string(),
        url: String::new(),
        model: String::new(),
        key_env: String::new(),
    }]);
    assert!(migrated_config(&mine).is_none());
}

#[test]
fn migrating_twice_changes_nothing_the_second_time() {
    let once = migrated_config(&empty()).unwrap();
    assert!(migrated_config(&once).is_none(), "the migration is not idempotent");
}

#[test]
fn an_old_groq_or_unknown_provider_gets_the_default_backup() {
    for legacy in ["groq", "nonesuch"] {
        let mut old = empty();
        old.llm_provider = Some(legacy.to_string());
        let seeded = migrated_config(&old).unwrap();
        assert_eq!(stack_labels(&seeded), vec!["Groq", "RouterAI"]);
        assert_eq!(stack_ids(&seeded), vec!["p1", "p2"]);
    }
}

#[test]
fn adding_a_provider_prefills_or_opens_a_custom_card() {
    let mut cfg = empty();
    add_provider(&mut cfg, "openai").unwrap();
    add_provider(&mut cfg, "custom").unwrap();
    let st = cfg.providers.as_ref().unwrap();
    assert_eq!(st.len(), 2);
    assert_eq!(st[0].id.as_deref(), Some("p1"));
    assert_eq!(st[0].url, "https://api.openai.com/v1/chat/completions");
    assert_eq!(st[0].key_env, "OPENAI_API_KEY");
    assert_eq!(st[1].id.as_deref(), Some("p2"));
    assert_eq!(st[1].label, "custom");
    assert_eq!(st[1].url, "");
    assert_eq!(st[1].key_env, "QUILL_KEY_p2");
    let before = stack_ids(&cfg);
    assert_eq!(add_provider(&mut cfg, "nonesuch"), Err("unknown provider: nonesuch".to_string()));
    assert_eq!(stack_ids(&cfg), before);
}

#[test]
fn a_new_id_is_never_one_in_use() {
    let mut cfg = empty();
    cfg.providers = Some(vec![entry("p+7", ""), entry("p07", ""), entry("q9", ""), entry("p", "")]);
    assert_eq!(next_provider_id(&cfg), "p8");
    cfg.providers = Some(vec![entry("p99999999999999999999", ""), entry("p2", "")]);
    assert_eq!(next_provider_id(&cfg), "p3");
}

#[test]
fn removing_takes_out_only_that_card() {
    let mut cfg = empty();
    cfg.providers = Some(vec![entry("p1", "a"), entry("p2", "b"), entry("p3", "c")]);
    remove_provider(&mut cfg, "p2");
    assert_eq!(stack_labels(&cfg), vec!["a", "c"]);
    remove_provider(&mut cfg, "p9");
    assert_eq!(stack_labels(&cfg), vec!["a", "c"]);
    let mut none = empty();
    remove_provider(&mut none, "p1");
    assert!(none.providers.is_none());
}

#[test]
fn editing_a_field_checks_the_field_and_the_endpoint() {
    let mut cfg = empty();
    cfg.providers = Some(vec![entry("p1", "a")]);
    assert_eq!(
        set_provider_field(&mut cfg, "p1", "key_env", "X"),
        Err("field not editable: key_env".to_string())
    );
    assert!(set_provider_field(&mut cfg, "p1", "url", "http://plain").is_err());
    assert_eq!(cfg.providers.as_ref().unwrap()[0].url, "u");
    assert_eq!(
        set_provider_field(&mut cfg, "p7", "model", "m"),
        Err("unknown provider entry".to_string())
    );
    set_provider_field(&mut cfg, "p1", "url", "  https://x.example/v1 ").unwrap();
    set_provider_field(&mut cfg, "p1", "model", " m-1 ").unwrap();
    set_provider_field(&mut cfg, "p1", "label", "Mine").unwrap();
    let e = &cfg.providers.as_ref().unwrap()[0];
    assert_eq!((e.url.as_str(), e.model.as_str(), e.label.as_str()), ("https://x.example/v1", "m-1", "Mine"));
    assert_eq!(
        set_provider_field(&mut empty(), "p1", "model", "m"),
        Err("no providers configured".to_string())
    );
}

#[test]
fn moving_up_then_down_restores_the_order() {
    let mut cfg = empty();
    cfg.providers = Some(vec![entry("p1", "a"), entry("p2", "b"), entry("p3", "c")]);
    assert_eq!(move_provider(&mut cfg, "p2", true), Ok(true));
    assert_eq!(stack_labels(&cfg), vec!["b", "a", "c"]);
    assert_eq!(move_provider(&mut cfg, "p2", false), Ok(true));
    assert_eq!(stack_labels(&cfg), vec!["a", "b", "c"]);
    assert_eq!(move_provider(&mut cfg, "p1", true), Ok(false));
    assert_eq!(move_provider(&mut cfg, "p3", false), Ok(false));
    assert_eq!(move_provider(&mut cfg, "p9", false), Err("unknown provider entry".to_string()));
    assert_eq!(move_provider(&mut empty(), "p1", true), Err("no providers configured".to_string()));
}

#[test]
fn numbers_are_kept_in_range() {
    let mut cfg = empty();
    set_fallback_threshold(&mut cfg, 0);
    assert_eq!(cfg.fallback_threshold, Some(1));
    set_fallback_threshold(&mut cfg, 1000);
    assert_eq!(cfg.fallback_threshold, Some(100));
    set_fallback_cooldown(&mut cfg, 5000);
    assert_eq!(cfg.fallback_cooldown_mins, Some(1440));
    set_fallback_cooldown(&mut cfg, 30);
    assert_eq!(cfg.fallback_cooldown_mins, Some(30));
    assert_eq!(history_days(&cfg), 7);
    assert_eq!(set_history_days(&mut cfg, -3), 1);
    assert_eq!(history_days(&cfg), 1);
    assert_eq!(set_history_days(&mut cfg, 400), 365);
    assert_eq!(history_days(&cfg), 365);
    cfg.history_days = Some(1000);
    assert_eq!(history_days(&cfg), 365);
}

#[test]
fn the_stored_instruction_is_the_one_sent() {
    let mut cfg = empty();
    assert_eq!(prompt_instruction(&cfg), DEFAULT_INSTRUCTION);
    set_prompt(&mut cfg, "  Be terse.  ");
    assert_eq!(cfg.prompt.as_deref(), Some("Be terse."));
    assert_eq!(system_prompt(&prompt_instruction(&cfg)), system_prompt("  Be terse.  "));
    set_prompt(&mut cfg, " \n ");
    assert!(cfg.prompt.is_none());
    assert_eq!(prompt_instruction(&cfg), DEFAULT_INSTRUCTION);
    cfg.prompt = Some("   ".to_string());
    assert_eq!(prompt_instruction(&cfg), DEFAULT_INSTRUCTION);
}

#[test]
fn the_hotkey_slots_and_start_index_come_from_the_stack() {
    let mut cfg = empty();
    assert_eq!(current_shortcut(&cfg), "ctrl+alt+e");
    cfg.shortcut = Some("cmd+shift+k".to_string());
    assert_eq!(current_shortcut(&cfg), "cmd+shift+k");
    assert!(key_slots(&cfg).is_empty());
    cfg.providers = Some(seed_stack(&["groq", "openai"]));
    assert_eq!(key_slots(&cfg), vec!["GROQ_API_KEY", "OPENAI_API_KEY"]);
    assert_eq!(entry_key_env(&cfg, "p2"), Ok("OPENAI_API_KEY".to_string()));
    assert_eq!(entry_key_env(&cfg, "p3"), Err("unknown provider entry".to_string()));
    assert_eq!(correction_start(0, 0), Err("No model configured — open Quill settings.".to_string()));
    assert_eq!(correction_start(2, 5), Ok(1));
    assert_eq!(correction_start(3, 1), Ok(1));
}
