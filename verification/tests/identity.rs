use orbit_core::identity::{
    grok_build_ledger_aliases_requested, legacy_identity, normalize_agent_name, stored_model,
};

#[test]
fn grok_build_ledger_alias_does_not_warn_for_matching_public_id() {
    for (requested, provider) in [("grok-4.6", "grok-4.6-build"), ("grok-4.5", "grok-4.5-build")] {
        let (stored, warned) = stored_model(Some(requested), Some(provider));
        assert_eq!(stored.as_deref(), Some(requested), "requested={requested} provider={provider}");
        assert!(!warned, "requested={requested} provider={provider}");
    }
}

#[test]
fn grok_build_ledger_mismatch_across_public_versions_still_warns() {
    let (stored, warned) = stored_model(Some("grok-4.6"), Some("grok-4.5-build"));
    assert_eq!(stored.as_deref(), Some("grok-4.5-build"));
    assert!(warned, "requested grok-4.6 vs ledger grok-4.5-build is real drift");
}

#[test]
fn grok_build_ledger_model_is_stored_as_the_requested_public_id() {
    let (stored, warned) = stored_model(Some("grok-4.6"), Some("grok-4.6-build"));
    assert_eq!(stored.as_deref(), Some("grok-4.6"));
    assert!(!warned);
}

#[test]
fn provider_model_wins_and_blank_reports_are_ignored() {
    assert_eq!(stored_model(Some("gpt-5"), Some(" gpt-5.1 ")), (Some("gpt-5.1".to_string()), true));
    assert_eq!(stored_model(Some("gpt-5"), Some("gpt-5")), (Some("gpt-5".to_string()), false));
    assert_eq!(stored_model(Some("gpt-5"), Some("  ")), (Some("gpt-5".to_string()), false));
    assert_eq!(stored_model(None, Some("m")), (Some("m".to_string()), false));
    assert!(!grok_build_ledger_aliases_requested("grok-4.6", "-build"));
    assert!(!grok_build_ledger_aliases_requested("other-1", "other-1-build"));
}

#[test]
fn agent_names_come_from_the_cli_file_name() {
    assert_eq!(normalize_agent_name("/usr/local/bin/Codex"), "codex");
    assert_eq!(normalize_agent_name("GROK"), "grok");
    assert_eq!(normalize_agent_name(".."), "..");
    assert_eq!(legacy_identity(Some("/bin/Codex"), Some("  m1 ")), (Some("codex".to_string()), Some("m1".to_string())));
    assert_eq!(legacy_identity(Some("  "), Some("  ")), (None, None));
}
