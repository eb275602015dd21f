use grindlewald::digest::sha256_hex;
use grindlewald::privileged::{
    check_approved_job, check_manifest_digest, installation_script, quoted_command,
    revoke_job_request, shell_quote, sudoers_rule, validate_job, validate_job_id,
    validate_username,
};

#[test]
fn job_ids_and_usernames_reject_shell_syntax_and_paths() {
    assert!(validate_job_id("550e8400-e29b-41d4-a716-446655440000").is_ok());
    assert!(validate_job_id("../../sudoers").is_err());
    assert!(validate_job_id("job;touch-x").is_err());
    assert!(validate_username("sample.user").is_ok());
    assert!(validate_username("sample ALL=(ALL)").is_err());
}

#[test]
fn shell_arguments_are_single_quoted_safely() {
    assert_eq!(shell_quote("plain"), "'plain'");
    assert_eq!(shell_quote("it's safe"), "'it'\\''s safe'");
}

#[test]
fn manifest_digest_changes_with_the_approved_command() {
    assert_ne!(sha256_hex(b"first"), sha256_hex(b"second"));
    assert_eq!(sha256_hex(b"first").len(), 64);
}

#[test]
fn sudo_policy_only_allows_one_validated_run_identifier() {
    let rule = sudoers_rule("sampleuser").unwrap();
    assert!(rule.contains("^run [A-Za-z0-9-]{1,64}$"));
    assert!(!rule.contains("approve"));
    assert!(!rule.contains("uninstall"));
}

#[test]
fn sha256_hex_matches_the_published_digest() {
    assert_eq!(
        sha256_hex(b"abc"),
        "ba7816bf8f01cfea414140de5dae2223b00361a396177a9cb410ff61f20015ad"
    );
    assert_eq!(
        sha256_hex(b""),
        "e3b0c44298fc1c149afbf4c8996fb92427ae41e4649b934ca495991b7852b855"
    );
}

#[test]
fn installation_scripts_quote_every_value_and_check_inputs() {
    let script = installation_script(
        "/Applications/Grindlewald's Test.app/Contents/MacOS/grindlewald",
        &"a".repeat(64),
        "sampleuser",
        42,
    )
    .unwrap();
    assert!(script.contains("finish-install 'sampleuser'"));
    assert!(script.contains("'/Applications/Grindlewald'\\''s Test.app/Contents/MacOS/grindlewald'"));
    assert!(script.contains(".new-42'"));
    assert!(installation_script("/x", "abc", "sampleuser", 1).is_err());
    assert!(installation_script("/x", &"a".repeat(64), "bad user", 1).is_err());
}

#[test]
fn commands_are_quoted_word_by_word() {
    assert_eq!(quoted_command(&["a b", "c"]), "'a b' 'c'");
    assert_eq!(quoted_command(&[]), "");
    let revoke = revoke_job_request("job-1").unwrap();
    assert!(revoke.ends_with("'revoke' 'job-1'"));
    assert!(revoke_job_request("job 1").is_err());
}

#[test]
fn approvals_check_the_manifest_and_the_stored_job() {
    let manifest = b"{\"id\":\"job\",\"command\":\"echo hi\"}";
    let digest = sha256_hex(manifest);
    assert!(check_manifest_digest(manifest, &digest).is_ok());
    assert!(check_manifest_digest(manifest, &digest.to_uppercase()).is_ok());
    assert!(check_manifest_digest(b"other", &digest).is_err());
    assert!(check_approved_job("job", "job", "echo hi").is_ok());
    assert!(check_approved_job("job", "other", "echo hi").is_err());
    assert!(validate_job("job", "echo hi").is_ok());
    assert!(validate_job("job", "   ").is_err());
}
