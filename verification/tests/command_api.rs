use dolby_metafier::command::{
    build_save_args, combine_output, default_save_name, get_default_metafier_path,
    is_metafier_working, report_file_name, split_params, trim_list_from_result, validate_args,
    AppState, CommandResult,
};

#[test]
fn default_path_per_platform() {
    assert_eq!(
        get_default_metafier_path(true),
        "C:\\Program Files\\Dolby\\Dolby_Vision_Professional_Tools_v5.5.0\\metafier.exe"
    );
    assert_eq!(
        get_default_metafier_path(false),
        "/usr/local/bin/dolby_vision_professional_tools/metafier"
    );
}

#[test]
fn fresh_app_state_is_empty() {
    let s = AppState::new();
    assert_eq!(s.loaded_file, "");
    assert_eq!(s.default_path, "");
    assert_eq!(s.metafier_path, None);
}

#[test]
fn combine_output_concatenates() {
    assert_eq!(combine_output("out", "err"), "outerr");
    assert_eq!(combine_output("", ""), "");
}

#[test]
fn validate_args_plain_modes() {
    let args = validate_args(0, "a.xml").unwrap();
    assert_eq!(args, vec!["--validate".to_string(), "a.xml".to_string()]);
    let args = validate_args(1, "a.xml").unwrap();
    assert_eq!(args, vec!["--validate".to_string(), "a.xml".to_string()]);
}

#[test]
fn validate_args_with_lift() {
    let args = validate_args(2, "b.xml").unwrap();
    assert_eq!(
        args,
        vec!["--validate".to_string(), "--with-lift".to_string(), "b.xml".to_string()]
    );
}

#[test]
fn validate_args_rejects_bad_mode_and_missing_file() {
    assert_eq!(validate_args(3, "a.xml").unwrap_err(), "Invalid validation mode");
    assert_eq!(validate_args(0, "").unwrap_err(), "No file loaded");
    // the missing file is reported before the bad mode
    assert_eq!(validate_args(9, "").unwrap_err(), "No file loaded");
}

#[test]
fn trim_list_from_failed_run_is_error() {
    let res = CommandResult { success: false, msg: "tool not found".to_string() };
    assert_eq!(trim_list_from_result(&res).unwrap_err(), "tool not found");
}

#[test]
fn trim_list_from_clean_run_is_analyzed() {
    let res = CommandResult {
        success: true,
        msg: "Metadata version: 7.8.9\nL2 Trim Count (4, t".to_string(),
    };
    let out = trim_list_from_result(&res).unwrap();
    assert_eq!(out.xml_data.xml_version.as_deref(), Some("7.8.9"));
    assert_eq!(out.trim_list.l2, vec!["4".to_string()]);
}

#[test]
fn metafier_probe_needs_success_and_banner() {
    let ok = CommandResult { success: true, msg: "Metafier application v5".to_string() };
    assert!(is_metafier_working(&ok));
    let wrong_text = CommandResult { success: true, msg: "something else".to_string() };
    assert!(!is_metafier_working(&wrong_text));
    let failed = CommandResult { success: false, msg: "Metafier application v5".to_string() };
    assert!(!is_metafier_working(&failed));
}

#[test]
fn save_name_appends_suffix() {
    assert_eq!(default_save_name("movie"), "movie_edited.xml");
}

#[test]
fn report_name_holds_base_and_date() {
    assert_eq!(report_file_name("movie", "2024_05_01"), "movie_Mtfr_rprt_2024_05_01.txt");
}

#[test]
fn split_params_on_whitespace() {
    assert_eq!(
        split_params("  --fix   --level 2 "),
        vec!["--fix".to_string(), "--level".to_string(), "2".to_string()]
    );
    assert_eq!(split_params(""), Vec::<String>::new());
    assert_eq!(split_params("   "), Vec::<String>::new());
}

#[test]
fn split_params_matches_std_on_unicode_whitespace() {
    let s = "--a\u{a0}--b\u{2003}--c\u{3000}";
    let expected: Vec<String> = s.split_whitespace().map(|t| t.to_string()).collect();
    assert_eq!(split_params(s), expected);
    assert_eq!(
        split_params(s),
        vec!["--a".to_string(), "--b".to_string(), "--c".to_string()]
    );
}

#[test]
fn save_args_hold_output_then_params() {
    let args = build_save_args("in.xml", "out.xml", "--a --b");
    assert_eq!(
        args,
        vec![
            "in.xml".to_string(),
            "--output".to_string(),
            "out.xml".to_string(),
            "--a".to_string(),
            "--b".to_string(),
        ]
    );
}
