use quill::secrets::{has_key, key_for, key_to_load, saved_body, value_in};

#[test]
fn value_in_reads_only_its_own_slot() {
    let body = "ROUTERAI_API_KEY=rk-1\nGROQ_API_KEY=gk-2\n";
    assert_eq!(value_in(body, "GROQ_API_KEY").unwrap(), "gk-2");
    assert_eq!(value_in(body, "ROUTERAI_API_KEY").unwrap(), "rk-1");
    assert!(value_in(body, "OPENAI_API_KEY").is_none());
    assert!(value_in(body, "API_KEY").is_none());
}

#[test]
fn env_wins_over_the_file() {
    assert_eq!(key_for(Some("from-env"), "QS_T1_KEY=from-file\n", "QS_T1_KEY"), "from-env");
}

#[test]
fn an_empty_env_slot_is_no_key() {
    assert!(!has_key(Some(""), "", "QS_T2_KEY"));
}

#[test]
fn an_empty_env_slot_falls_back_to_the_file() {
    assert_eq!(key_for(Some(""), "A=1\nQS_T3_KEY=file\n", "QS_T3_KEY"), "file");
    assert_eq!(key_for(None, "QS_T3_KEY=file", "QS_T3_KEY"), "file");
    assert_eq!(key_for(None, "", "QS_T3_KEY"), "");
    assert!(has_key(None, "QS_T3_KEY=x\r\n", "QS_T3_KEY"));
    assert!(!has_key(None, "QS_T3_KEY=\n", "QS_T3_KEY"));
}

#[test]
fn value_in_takes_the_first_line_and_drops_crlf() {
    assert_eq!(value_in("K=a\r\nK=b\n", "K").as_deref(), Some("a"));
    assert_eq!(value_in("K=a\r", "K").as_deref(), Some("a\r"));
    assert_eq!(value_in(" K=a\n", "K"), None);
}

#[test]
fn saving_replaces_only_its_own_slot() {
    let body = "ROUTERAI_API_KEY=rk-1\n\nGROQ_API_KEY=old\n  \nOTHER=x";
    let out = saved_body(body, "GROQ_API_KEY", "gk-2");
    assert_eq!(out, "ROUTERAI_API_KEY=rk-1\nOTHER=x\nGROQ_API_KEY=gk-2\n");
    assert_eq!(value_in(&out, "GROQ_API_KEY").as_deref(), Some("gk-2"));
    assert_eq!(value_in(&out, "ROUTERAI_API_KEY").as_deref(), Some("rk-1"));
    assert_eq!(saved_body("", "K", "v"), "K=v\n");
}

#[test]
fn startup_loads_only_what_the_environment_lacks() {
    assert_eq!(key_to_load(Some("dev"), "K=file\n", "K"), None);
    assert_eq!(key_to_load(None, "K=file\n", "K").as_deref(), Some("file"));
    assert_eq!(key_to_load(Some(""), "K=\n", "K"), None);
    assert_eq!(key_to_load(None, "", "K"), None);
}

#[test]
fn other_slots_survive_a_save_even_with_crlf_lines() {
    let body = "A=1\r\nB=two\r\nK=old\r\n";
    let out = saved_body(body, "K", "new");
    assert_eq!(value_in(&out, "A").as_deref(), Some("1"));
    assert_eq!(value_in(&out, "B").as_deref(), Some("two"));
    assert_eq!(value_in(&out, "K").as_deref(), Some("new"));
    // A value that itself ends in a stray '\r' loses it on the rewrite.
    let odd = "A=1\r\r\n";
    assert_eq!(value_in(odd, "A").as_deref(), Some("1\r"));
    assert_eq!(value_in(&saved_body(odd, "K", "v"), "A").as_deref(), Some("1"));
}
