use dolby_metafier::analyzer::analyze_logs;

#[test]
fn empty_input_yields_empty_result() {
    let r = analyze_logs("");
    assert!(r.trim_list.l2.is_empty());
    assert!(r.trim_list.l8.is_empty());
    assert!(r.xml_data.to_pairs().is_empty());
}

#[test]
fn unrecognized_lines_are_ignored() {
    let r = analyze_logs("hello world\nsome diagnostic text\n\n###\n");
    assert!(r.trim_list.l2.is_empty());
    assert!(r.trim_list.l8.is_empty());
    assert!(r.xml_data.to_pairs().is_empty());
}

#[test]
fn l2_trim_counts_extracted_in_order() {
    let r = analyze_logs("L2 Trim Count (3, foo (7, bar");
    assert_eq!(r.trim_list.l2, vec!["3".to_string(), "7".to_string()]);
    assert!(r.trim_list.l8.is_empty());
}

#[test]
fn l8_trim_counts_extracted_in_order() {
    let r = analyze_logs("L8 Trim Count (1, x (2, y (30, z");
    assert_eq!(r.trim_list.l8, vec!["1".to_string(), "2".to_string(), "30".to_string()]);
    assert!(r.trim_list.l2.is_empty());
}

#[test]
fn malformed_groups_are_skipped() {
    // no comma after digits, letters inside parentheses, empty parentheses
    let r = analyze_logs("L2 Trim Count (3) (a, (, (7, ok");
    assert_eq!(r.trim_list.l2, vec!["7".to_string()]);
}

#[test]
fn later_trim_line_replaces_earlier_whole_list() {
    let r = analyze_logs("L2 Trim Count (1, (2,\nL2 Trim Count (9,");
    assert_eq!(r.trim_list.l2, vec!["9".to_string()]);
}

#[test]
fn trim_line_without_groups_clears_the_list() {
    let r = analyze_logs("L2 Trim Count (1, x\nL2 Trim Count none");
    assert!(r.trim_list.l2.is_empty());
}

#[test]
fn cm_version_bare_trigger_yields_empty_value() {
    let r = analyze_logs("Level254 CMVersion:");
    assert_eq!(r.xml_data.cm_version.as_deref(), Some(""));
}

#[test]
fn cm_version_trim_covers_unicode_whitespace() {
    let r = analyze_logs("Level254 CMVersion:\u{a0}4.0\u{a0}\u{2003}");
    assert_eq!(r.xml_data.cm_version.as_deref(), Some("4.0"));
}

#[test]
fn mastering_monitor_allows_unicode_space_after_id() {
    let r = analyze_logs("Mastering Monitor: (ID\u{a0}55)");
    assert_eq!(r.xml_data.mastering_monitor.as_deref(), Some("55"));
}

#[test]
fn metadata_version_last_write_wins() {
    let r = analyze_logs("Metadata version: 1.2.3\nother line\nMetadata version: 4.5.6");
    assert_eq!(r.xml_data.xml_version.as_deref(), Some("4.5.6"));
}

#[test]
fn metadata_version_picks_first_dotted_triple() {
    let r = analyze_logs("Metadata version: 205.11.0 extra 9.9.9");
    assert_eq!(r.xml_data.xml_version.as_deref(), Some("205.11.0"));
}

#[test]
fn metadata_version_without_triple_sets_nothing() {
    let r = analyze_logs("Metadata version: 4.5");
    assert_eq!(r.xml_data.xml_version, None);
}

#[test]
fn cm_version_is_remainder_trimmed() {
    let r = analyze_logs("Level254 CMVersion:   4.0  ");
    assert_eq!(r.xml_data.cm_version.as_deref(), Some("4.0"));
}

#[test]
fn aspect_ratio_image_is_truncated_not_rounded() {
    let r = analyze_logs("Aspect Ratios (Canvas - Image): 1.78 - 1.779");
    assert_eq!(r.xml_data.aspect_canvas.as_deref(), Some("1.78"));
    assert_eq!(r.xml_data.aspect_image.as_deref(), Some("1.77"));
}

#[test]
fn aspect_ratio_image_boundary_truncates() {
    let r = analyze_logs("Aspect Ratios (Canvas - Image): 1.78 - 1.775");
    assert_eq!(r.xml_data.aspect_image.as_deref(), Some("1.77"));
}

#[test]
fn aspect_ratio_pads_missing_fraction() {
    let r = analyze_logs("Aspect Ratios (Canvas - Image): 2 - 2");
    assert_eq!(r.xml_data.aspect_canvas.as_deref(), Some("2"));
    assert_eq!(r.xml_data.aspect_image.as_deref(), Some("2.00"));
}

#[test]
fn aspect_ratio_drops_leading_zeros_of_image_only() {
    let r = analyze_logs("Aspect Ratios (Canvas - Image): 007.5 - 007.5");
    assert_eq!(r.xml_data.aspect_canvas.as_deref(), Some("007.5"));
    assert_eq!(r.xml_data.aspect_image.as_deref(), Some("7.50"));
}

#[test]
fn frame_rate_rounds_to_two_decimals() {
    let r = analyze_logs("Frame Rate: 23.976fps");
    assert_eq!(r.xml_data.frame_rate.as_deref(), Some("23.98"));
}

#[test]
fn frame_rate_rounding_carries_into_integer_part() {
    let r = analyze_logs("Frame Rate: 23.996fps");
    assert_eq!(r.xml_data.frame_rate.as_deref(), Some("24.00"));
    let r = analyze_logs("Frame Rate: 9.999fps");
    assert_eq!(r.xml_data.frame_rate.as_deref(), Some("10.00"));
}

#[test]
fn frame_rate_integer_gets_two_decimals() {
    let r = analyze_logs("Frame Rate: 60fps");
    assert_eq!(r.xml_data.frame_rate.as_deref(), Some("60.00"));
}

#[test]
fn frame_rate_needs_fps_suffix() {
    let r = analyze_logs("Frame Rate: 23.976");
    assert_eq!(r.xml_data.frame_rate, None);
}

#[test]
fn mastering_monitor_id_extracted() {
    let r = analyze_logs("Mastering Monitor: Sony BVM-X300 (ID 42)");
    assert_eq!(r.xml_data.mastering_monitor.as_deref(), Some("42"));
}

#[test]
fn mastering_monitor_allows_space_run_after_id() {
    let r = analyze_logs("Mastering Monitor: (ID   7)");
    assert_eq!(r.xml_data.mastering_monitor.as_deref(), Some("7"));
}

#[test]
fn level6_pair_extracted_as_written() {
    let r = analyze_logs("Level6 (MaxFALL - MaxCLL): 1000 - 2000");
    assert_eq!(r.xml_data.max_fall.as_deref(), Some("1000"));
    assert_eq!(r.xml_data.max_cll.as_deref(), Some("2000"));
}

#[test]
fn level6_pair_allows_tight_dash_and_decimals() {
    let r = analyze_logs("Level6 (MaxFALL - MaxCLL): 0.5-2.75");
    assert_eq!(r.xml_data.max_fall.as_deref(), Some("0.5"));
    assert_eq!(r.xml_data.max_cll.as_deref(), Some("2.75"));
}

#[test]
fn color_encoding_sets_five_fields() {
    let r = analyze_logs("Color Encoding: pq(1000,0.0001) rgb full bt2020");
    assert_eq!(r.xml_data.color_space.as_deref(), Some("rgb"));
    assert_eq!(r.xml_data.signal_range.as_deref(), Some("full"));
    assert_eq!(r.xml_data.color_primaries.as_deref(), Some("bt2020"));
    assert_eq!(r.xml_data.eotf.as_deref(), Some("pq"));
    assert_eq!(r.xml_data.white_point.as_deref(), Some("D65"));
}

#[test]
fn color_encoding_needs_three_words() {
    let r = analyze_logs("Color Encoding: pq(1000,0.0001) rgb full");
    assert_eq!(r.xml_data.color_space, None);
    assert_eq!(r.xml_data.white_point, None);
}

#[test]
fn one_bad_line_does_not_block_other_fields() {
    let text = "Frame Rate: oops\nMastering Monitor: (ID 31)";
    let r = analyze_logs(text);
    assert_eq!(r.xml_data.frame_rate, None);
    assert_eq!(r.xml_data.mastering_monitor.as_deref(), Some("31"));
}

#[test]
fn full_report_extracts_everything() {
    let text = "Validation started\r\n\
                Metadata version: 2.0.5\r\n\
                Level254 CMVersion: 4.0\r\n\
                Aspect Ratios (Canvas - Image): 1.78 - 2.394\r\n\
                Frame Rate: 23.976fps\r\n\
                Mastering Monitor: X300 (ID 20)\r\n\
                Level6 (MaxFALL - MaxCLL): 368 - 778\r\n\
                Color Encoding: pq(4000,0.005) ycc limited bt2020\r\n\
                L2 Trim Count (100, trims (600, trims\r\n\
                L8 Trim Count (2, trims\r\n\
                Validation complete\r\n";
    let r = analyze_logs(text);
    assert_eq!(r.xml_data.xml_version.as_deref(), Some("2.0.5"));
    assert_eq!(r.xml_data.cm_version.as_deref(), Some("4.0"));
    assert_eq!(r.xml_data.aspect_canvas.as_deref(), Some("1.78"));
    assert_eq!(r.xml_data.aspect_image.as_deref(), Some("2.39"));
    assert_eq!(r.xml_data.frame_rate.as_deref(), Some("23.98"));
    assert_eq!(r.xml_data.mastering_monitor.as_deref(), Some("20"));
    assert_eq!(r.xml_data.max_fall.as_deref(), Some("368"));
    assert_eq!(r.xml_data.max_cll.as_deref(), Some("778"));
    assert_eq!(r.xml_data.color_space.as_deref(), Some("ycc"));
    assert_eq!(r.xml_data.signal_range.as_deref(), Some("limited"));
    assert_eq!(r.xml_data.color_primaries.as_deref(), Some("bt2020"));
    assert_eq!(r.xml_data.eotf.as_deref(), Some("pq"));
    assert_eq!(r.xml_data.white_point.as_deref(), Some("D65"));
    assert_eq!(r.trim_list.l2, vec!["100".to_string(), "600".to_string()]);
    assert_eq!(r.trim_list.l8, vec!["2".to_string()]);
}

#[test]
fn repeated_analysis_is_deterministic() {
    let text = "Metadata version: 1.2.3\nL2 Trim Count (5, x\nFrame Rate: 25fps";
    let a = analyze_logs(text);
    let b = analyze_logs(text);
    assert_eq!(a.xml_data.to_pairs(), b.xml_data.to_pairs());
    assert_eq!(a.trim_list.l2, b.trim_list.l2);
    assert_eq!(a.trim_list.l8, b.trim_list.l8);
}

#[test]
fn pairs_carry_only_matched_fields_in_fixed_order() {
    let r = analyze_logs("Frame Rate: 24fps\nMetadata version: 1.0.0");
    let pairs = r.xml_data.to_pairs();
    assert_eq!(
        pairs,
        vec![
            ("XML Version".to_string(), "1.0.0".to_string()),
            ("Frame Rate".to_string(), "24.00".to_string()),
        ]
    );
}
