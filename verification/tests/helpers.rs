use videodb::filter::{prepare_where_clause, DurationArg, FilterArg};
use videodb::human::{readable_duration, readable_file_size};
use videodb::text::{entry_name_of, names_missing_from, str_eq, to_ascii_upper, u64_to_dec};

fn no_filter() -> FilterArg {
    FilterArg { name: None, tag: None, duration: None, duration_range: 5, limit: 0 }
}

#[test]
fn empty_filter_orders_by_name_with_no_params() {
    let (clause, params) = prepare_where_clause(&no_filter());
    assert_eq!(clause, "ORDER BY name");
    assert!(params.is_empty());
}

#[test]
fn name_filter_uppercases_and_appends_glob_star() {
    let arg = FilterArg { name: Some("abc".to_string()), ..no_filter() };
    let (clause, params) = prepare_where_clause(&arg);
    assert_eq!(clause, "WHERE name GLOB ? ORDER BY name");
    assert_eq!(params, vec!["ABC*"]);
}

#[test]
fn tag_filter_uppercases_its_parameter() {
    let arg = FilterArg { tag: Some("drama".to_string()), ..no_filter() };
    let (clause, params) = prepare_where_clause(&arg);
    assert_eq!(clause, "WHERE tag=? ORDER BY name");
    assert_eq!(params, vec!["DRAMA"]);
}

#[test]
fn duration_filter_uses_saturating_window() {
    let arg = FilterArg { duration: Some(DurationArg(100)), ..no_filter() };
    let (clause, params) = prepare_where_clause(&arg);
    assert_eq!(clause, "WHERE duration BETWEEN ? AND ? ORDER BY name");
    assert_eq!(params, vec!["95", "105"]);

    let low = FilterArg { duration: Some(DurationArg(3)), ..no_filter() };
    let (_, params) = prepare_where_clause(&low);
    assert_eq!(params, vec!["0", "8"]);
}

#[test]
fn combined_filters_join_with_and_in_fixed_order() {
    let arg = FilterArg {
        name: Some("a".to_string()),
        tag: Some("t".to_string()),
        duration: Some(DurationArg(60)),
        duration_range: 5,
        limit: 0,
    };
    let (clause, params) = prepare_where_clause(&arg);
    assert_eq!(
        clause,
        "WHERE name GLOB ? AND tag=? AND duration BETWEEN ? AND ? ORDER BY name"
    );
    assert_eq!(params, vec!["A*", "T", "55", "65"]);
}

#[test]
fn duration_parses_seconds_minutes_hours() {
    assert_eq!(DurationArg::from_str("90").unwrap().0, 90);
    assert_eq!(DurationArg::from_str("1:30").unwrap().0, 90);
    assert_eq!(DurationArg::from_str("1:2:3").unwrap().0, 3723);
    assert_eq!(DurationArg::from_str("0:0:0").unwrap().0, 0);
    assert_eq!(DurationArg::from_str("+5").unwrap().0, 5);
}

#[test]
fn duration_rejects_non_numbers() {
    assert!(DurationArg::from_str("").is_err());
    assert!(DurationArg::from_str(":").is_err());
    assert!(DurationArg::from_str("1:").is_err());
    assert!(DurationArg::from_str("a").is_err());
    assert!(DurationArg::from_str("1:2b").is_err());
    assert!(DurationArg::from_str("+").is_err());
    assert!(DurationArg::from_str("99999999999999999999999999").is_err());
}

#[test]
fn file_sizes_scale_by_1024_with_exact_count_in_parentheses() {
    assert_eq!(readable_file_size(0), "0B");
    assert_eq!(readable_file_size(1024), "1024B");
    assert_eq!(readable_file_size(1025), "1KB(1025)");
    assert_eq!(readable_file_size(2048), "2KB(2048)");
    assert_eq!(readable_file_size(1024 * 1024 + 1), "1024KB(1048577)");
    assert_eq!(readable_file_size(1024 * 1025), "1MB(1049600)");
    assert_eq!(readable_file_size(u32::MAX), "3GB(4294967295)");
}

#[test]
fn durations_render_zero_padded_parts() {
    assert_eq!(readable_duration(0), "00:00");
    assert_eq!(readable_duration(59), "00:59");
    assert_eq!(readable_duration(60), "01:00");
    assert_eq!(readable_duration(90), "01:30");
    assert_eq!(readable_duration(3600), "01:00:00");
    assert_eq!(readable_duration(3661), "01:01:01");
    assert_eq!(readable_duration(86399), "23:59:59");
}

#[test]
fn entry_names_drop_extension_and_dashes_and_uppercase() {
    assert_eq!(entry_name_of("ab-c.mp4"), "ABC");
    assert_eq!(entry_name_of("video"), "VIDEO");
    assert_eq!(entry_name_of("a.b.c"), "A");
    assert_eq!(entry_name_of(".hidden"), "");
    assert_eq!(entry_name_of("x-y-z"), "XYZ");
}

#[test]
fn missing_names_are_those_the_other_side_lacks() {
    let have = vec!["a.mp4".to_string(), "b.mp4".to_string(), "c.mp4".to_string()];
    let known = vec!["b.mp4".to_string()];
    assert_eq!(names_missing_from(&have, &known), vec!["a.mp4", "c.mp4"]);
    assert!(names_missing_from(&known, &have).is_empty());
}

#[test]
fn missing_names_report_a_repeated_name_once() {
    let have = vec![
        "a.mp4".to_string(),
        "b.mp4".to_string(),
        "a.mp4".to_string(),
        "c.mp4".to_string(),
    ];
    let known = vec!["b.mp4".to_string()];
    assert_eq!(names_missing_from(&have, &known), vec!["a.mp4", "c.mp4"]);
}

#[test]
fn string_helpers_behave_exactly() {
    assert!(str_eq("abc", "abc"));
    assert!(!str_eq("abc", "abd"));
    assert!(!str_eq("abc", "ab"));
    assert_eq!(to_ascii_upper("aB-9z"), "AB-9Z");
    assert_eq!(u64_to_dec(0), "0");
    assert_eq!(u64_to_dec(90210), "90210");
}
