use ghost::context::make_base_ctx;
use ghost::hooks::{apply_hook_result, ctx_from_fields, ctx_to_fields, HookError, HookField};
use ghost::profile::default_profile;

fn sample_ctx() -> ghost::context::Ctx {
    let mut c = make_base_ctx(
        "linux".to_string(),
        Some("ci".to_string()),
        "/work/project".to_string(),
    );
    let (tc, prof) = default_profile();
    c.toolchain = tc;
    c.profile = prof;
    c.log.push("started".to_string());
    c
}

#[test]
fn no_script_passes_context_through_unchanged() {
    let c = sample_ctx();
    let expected = c.clone();
    let r = apply_hook_result(c, None);
    assert_eq!(r, Ok(expected));
}

#[test]
fn encode_decode_round_trip() {
    let c = sample_ctx();
    let fields = ctx_to_fields(c.clone());
    assert_eq!(fields.len(), 28);
    let back = ctx_from_fields(fields);
    assert_eq!(back, Some(c));
}

#[test]
fn script_setting_profile_name_changes_only_that_field() {
    let c = sample_ctx();
    let mut fields = ctx_to_fields(c.clone());
    assert_eq!(fields[21].0, "profile.name");
    fields[21].1 = HookField::S("release".to_string());
    let r = apply_hook_result(c.clone(), Some(fields));
    let new_ctx = r.unwrap();
    assert_eq!(new_ctx.profile.name, "release");
    assert_eq!(new_ctx.toolchain, c.toolchain);
    assert_eq!(new_ctx.os, c.os);
    assert_eq!(new_ctx.profile.defines, c.profile.defines);
    assert_eq!(new_ctx.log, c.log);
}

#[test]
fn malformed_context_is_rejected() {
    let c = sample_ctx();
    let mut fields = ctx_to_fields(c.clone());
    fields[0].1 = HookField::L(vec![]);
    assert_eq!(apply_hook_result(c.clone(), Some(fields)), Err(HookError::BadContext));

    let mut fields2 = ctx_to_fields(c.clone());
    fields2[1].0 = "environment".to_string();
    assert_eq!(apply_hook_result(c.clone(), Some(fields2)), Err(HookError::BadContext));

    let mut fields3 = ctx_to_fields(c.clone());
    fields3.pop();
    assert_eq!(apply_hook_result(c, Some(fields3)), Err(HookError::BadContext));
}

#[test]
fn base_ctx_defaults_environment_tag() {
    let c = make_base_ctx("linux".to_string(), None, "/w".to_string());
    assert_eq!(c.env, "dev");
    assert_eq!(c.project_root, "/w");
    assert_eq!(c.workspace_root, "/w");
}

#[test]
fn round_trip_preserves_absent_options_and_empty_lists() {
    let c = make_base_ctx("macos".to_string(), None, String::new());
    let fields = ctx_to_fields(c.clone());
    assert_eq!(ctx_from_fields(fields), Some(c));
}
