use ogedit::log_file::{days_to_ymd, format_datetime, get_datetime, log_file_name, sanitize_path_for_filename};

#[test]
fn sanitize_windows_path() {
    assert_eq!(sanitize_path_for_filename("C:\\Users\\John\\Project"), "c--users--john--project");
}

#[test]
fn sanitize_unix_path_and_special_characters() {
    assert_eq!(sanitize_path_for_filename("/home/user/My Project"), "home--user--my_project");
    assert_eq!(sanitize_path_for_filename("/a<b>c\"d|e?f*g\th/"), "a_b_c_d_e_f_g_h");
    assert_eq!(sanitize_path_for_filename("//double//slash"), "double--slash");
    assert_eq!(sanitize_path_for_filename("a-/b"), "a-b");
    assert_eq!(sanitize_path_for_filename("ÄBC"), "Äbc");
}

#[test]
fn sanitize_empty_results_become_unknown() {
    assert_eq!(sanitize_path_for_filename("///"), "unknown");
    assert_eq!(sanitize_path_for_filename(""), "unknown");
    assert_eq!(sanitize_path_for_filename("C:"), "c");
    assert_eq!(sanitize_path_for_filename(":"), "unknown");
}

#[test]
fn log_file_name_drops_date_dashes() {
    assert_eq!(log_file_name("c--users--john", "2024-03-15", 1234), "c--users--john_20240315_1234.log");
    assert_eq!(log_file_name("x", "", 0), "x__0.log");
}

#[test]
fn days_to_ymd_known_dates() {
    assert_eq!(days_to_ymd(0), (1970, 1, 1));
    assert_eq!(days_to_ymd(31), (1970, 2, 1));
    assert_eq!(days_to_ymd(365), (1971, 1, 1));
    assert_eq!(days_to_ymd(11016), (2000, 2, 29));
    assert_eq!(days_to_ymd(11017), (2000, 3, 1));
    assert_eq!(days_to_ymd(19723), (2024, 1, 1));
    assert_eq!(days_to_ymd(19782), (2024, 2, 29));
    assert_eq!(days_to_ymd(-1), (1969, 12, 31));
    assert_eq!(days_to_ymd(-719468), (0, 3, 1));
}

#[test]
fn format_datetime_pads_fields() {
    assert_eq!(format_datetime(0, 5), ("1970-01-01".to_string(), "00:00:00.005".to_string()));
    assert_eq!(
        format_datetime(1_709_251_199, 999),
        ("2024-02-29".to_string(), "23:59:59.999".to_string())
    );
    assert_eq!(
        format_datetime(951_782_400 + 3600 * 9 + 60 * 7 + 3, 42),
        ("2000-02-29".to_string(), "09:07:03.042".to_string())
    );
}

#[test]
fn get_datetime_has_the_documented_shape() {
    let (date, time) = get_datetime();
    assert_eq!(date.len(), 10);
    assert_eq!(time.len(), 12);
    let d: Vec<char> = date.chars().collect();
    assert_eq!(d[4], '-');
    assert_eq!(d[7], '-');
    let t: Vec<char> = time.chars().collect();
    assert_eq!(t[2], ':');
    assert_eq!(t[5], ':');
    assert_eq!(t[8], '.');
    assert!(date.as_str() >= "2020-01-01");
}

#[test]
fn days_to_ymd_walks_the_calendar() {
    // Day after day over several years, including 2000 (leap, divisible by
    // 400) and 2100 (not leap), the dates follow the calendar.
    let leap = |y: i32| y % 4 == 0 && (y % 100 != 0 || y % 400 == 0);
    let days_in = |y: i32, m: u32| match m {
        2 => if leap(y) { 29 } else { 28 },
        4 | 6 | 9 | 11 => 30,
        _ => 31,
    };
    let mut expected = days_to_ymd(10_900);
    for days in 10_900i64..11_400 {
        assert_eq!(days_to_ymd(days), expected);
        let (y, m, d) = expected;
        expected = if d < days_in(y, m) { (y, m, d + 1) } else if m < 12 { (y, m + 1, 1) } else { (y + 1, 1, 1) };
    }
    assert_eq!(days_to_ymd(47_540), (2100, 2, 28));
    assert_eq!(days_to_ymd(47_541), (2100, 3, 1));
}
