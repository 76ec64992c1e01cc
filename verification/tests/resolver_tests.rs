use editrion_core::resolver::{
    choose_binary, common_candidates, env_var_name, vendor_candidate, Platform,
};

#[test]
fn env_var_name_uppercases_and_appends_bin() {
    assert_eq!(env_var_name("codex"), "CODEX_BIN");
    assert_eq!(env_var_name("tool2"), "TOOL2_BIN");
    assert_eq!(env_var_name("my-tool2"), "MY-TOOL2_BIN");
}

#[test]
fn vendor_candidate_per_platform() {
    let mac = vendor_candidate(
        Platform::MacOs,
        None,
        Some("/Users/u".to_string()),
        "codex",
    );
    assert_eq!(
        mac.as_deref(),
        Some("/Users/u/Library/Application Support/Editrion/bin/codex")
    );

    let win = vendor_candidate(
        Platform::Windows,
        Some("C:/Users/u/AppData/Local".to_string()),
        Some("C:/Users/u".to_string()),
        "tool2",
    );
    assert_eq!(
        win.as_deref(),
        Some("C:/Users/u/AppData/Local/Editrion/bin/tool2.exe")
    );

    let xdg = vendor_candidate(
        Platform::OtherUnix,
        Some("/home/u/.config".to_string()),
        Some("/home/u".to_string()),
        "codex",
    );
    assert_eq!(xdg.as_deref(), Some("/home/u/.config/Editrion/bin/codex"));

    let fallback = vendor_candidate(Platform::OtherUnix, None, Some("/home/u".to_string()), "codex");
    assert_eq!(
        fallback.as_deref(),
        Some("/home/u/.config/Editrion/bin/codex")
    );

    let nothing = vendor_candidate(Platform::MacOs, None, None, "codex");
    assert!(nothing.is_none());
}

#[test]
fn common_candidates_in_order() {
    let c = common_candidates("codex");
    assert_eq!(
        c,
        vec![
            "/opt/homebrew/bin/codex".to_string(),
            "/usr/local/bin/codex".to_string(),
            "/usr/bin/codex".to_string(),
        ]
    );
}

#[test]
fn override_variable_beats_common_path() {
    let chosen = choose_binary(
        Some("/env/codex".to_string()),
        None,
        vec![Some("/usr/bin/codex".to_string()), None, None],
        None,
        None,
    );
    assert_eq!(chosen.as_deref(), Some("/env/codex"));
}

#[test]
fn nothing_found_reports_unresolved() {
    let chosen = choose_binary(None, None, vec![None, None, None], None, None);
    assert!(chosen.is_none());
}

#[test]
fn precedence_walks_the_ladder() {
    let chosen = choose_binary(
        None,
        Some("/vendor/codex".to_string()),
        vec![Some("/usr/bin/codex".to_string())],
        Some("/which/codex".to_string()),
        None,
    );
    assert_eq!(chosen.as_deref(), Some("/vendor/codex"));

    let chosen = choose_binary(
        None,
        None,
        vec![None, Some("/usr/local/bin/codex".to_string()), Some("/usr/bin/codex".to_string())],
        Some("/which/codex".to_string()),
        None,
    );
    assert_eq!(chosen.as_deref(), Some("/usr/local/bin/codex"));

    let chosen = choose_binary(None, None, vec![None], None, Some("/login/codex".to_string()));
    assert_eq!(chosen.as_deref(), Some("/login/codex"));
}
