use infospot::helpers::{
    charset_char, country_code_to_flag, export_filename, flag_of_uppercase, format_country,
    format_country_with, format_duration, format_release_date, generate_random_string, json_path,
    long_date_string, month_name_str, month_of, sanitize_filename, string_from_indices,
    text_ends_with, CHARSET_LEN,
};
use infospot::recent::{extract_date, format_date_header, format_date_header_on, format_time, group_by_day};
use infospot::text::{
    chars_eq, chars_of, decimal_chars, digit_value, find_char, join_strings, slice_chars,
    split_chars, string_of, string_of_range,
};
use infospot::mock_data::get_mock_recently_played;
use infospot::models::RecentlyPlayedItem;

fn chars(text: &str) -> Vec<char> {
    text.chars().collect()
}

#[test]
fn durations_are_minutes_and_two_digit_seconds() {
    assert_eq!(format_duration(354000), "5:54");
    assert_eq!(format_duration(61000), "1:01");
    assert_eq!(format_duration(60000), "1:00");
    assert_eq!(format_duration(59999), "0:59");
    assert_eq!(format_duration(999), "0:00");
    assert_eq!(format_duration(0), "0:00");
    assert_eq!(format_duration(u32::MAX), "71582:47");
}

#[test]
fn forbidden_characters_become_underscores() {
    assert_eq!(sanitize_filename("a/b\\c:d*e?f\"g<h>i|j"), "a_b_c_d_e_f_g_h_i_j");
    assert_eq!(sanitize_filename("Road Trip Mix"), "Road Trip Mix");
    assert_eq!(sanitize_filename(""), "");
    assert_eq!(sanitize_filename("\u{e9}t\u{e9}: 2024"), "\u{e9}t\u{e9}_ 2024");
}

#[test]
fn export_file_is_named_after_the_playlist() {
    assert_eq!(export_filename("AC/DC: Best"), "AC_DC_ Best.json");
    assert_eq!(json_path("/tmp/list"), "/tmp/list.json");
    assert_eq!(json_path("/tmp/list.json"), "/tmp/list.json");
    assert_eq!(json_path("json"), "json.json");
    assert_eq!(json_path(""), ".json");
    assert!(text_ends_with(&chars("a.json"), &chars(".json")));
    assert!(!text_ends_with(&chars("a.jsonx"), &chars(".json")));
    assert!(text_ends_with(&chars("abc"), &chars("")));
}

#[test]
fn random_strings_have_the_length_and_the_characters() {
    for length in [0usize, 1, 16, 200] {
        let text = generate_random_string(length);
        assert_eq!(text.chars().count(), length);
        assert!(text.chars().all(|c| c.is_ascii_alphanumeric()));
    }
}

#[test]
fn charset_is_letters_then_digits() {
    assert_eq!(CHARSET_LEN, 62);
    let all: Vec<usize> = (0..CHARSET_LEN).collect();
    assert_eq!(
        string_from_indices(&all),
        "ABCDEFGHIJKLMNOPQRSTUVWXYZabcdefghijklmnopqrstuvwxyz0123456789"
    );
    assert_eq!(charset_char(0), 'A');
    assert_eq!(charset_char(25), 'Z');
    assert_eq!(charset_char(26), 'a');
    assert_eq!(charset_char(61), '9');
    assert_eq!(string_from_indices(&vec![7, 30, 52]), "He0");
}

#[test]
fn release_dates_are_written_out() {
    assert_eq!(format_release_date("1975-11-21"), "November 21, 1975");
    assert_eq!(format_release_date("1971-11-08"), "November 8, 1971");
    assert_eq!(format_release_date("2000-01-01"), "January 1, 2000");
    assert_eq!(format_release_date("1999-12-31"), "December 31, 1999");
    assert_eq!(format_release_date("2020-05-00"), "May , 2020");
    assert_eq!(format_release_date("2020-02-x9"), "February x9, 2020");
}

#[test]
fn other_release_dates_stay_as_they_are() {
    assert_eq!(format_release_date("1975"), "1975");
    assert_eq!(format_release_date("1975-11"), "1975-11");
    assert_eq!(format_release_date("1975-13-01"), "1975-13-01");
    assert_eq!(format_release_date("1975-00-01"), "1975-00-01");
    assert_eq!(format_release_date("1975-1-01"), "1975-1-01");
    assert_eq!(format_release_date("1975-11-21-x"), "1975-11-21-x");
    assert_eq!(format_release_date(""), "");
}

#[test]
fn months_have_numbers_and_names() {
    assert_eq!(month_of(&chars("01")), Some(1));
    assert_eq!(month_of(&chars("09")), Some(9));
    assert_eq!(month_of(&chars("10")), Some(10));
    assert_eq!(month_of(&chars("12")), Some(12));
    assert_eq!(month_of(&chars("00")), None);
    assert_eq!(month_of(&chars("13")), None);
    assert_eq!(month_of(&chars("1")), None);
    assert_eq!(month_of(&chars("1a")), None);
    let names: Vec<&str> = (1..=12).map(month_name_str).collect();
    assert_eq!(
        names,
        vec![
            "January", "February", "March", "April", "May", "June", "July", "August",
            "September", "October", "November", "December"
        ]
    );
    assert_eq!(long_date_string("June", &chars("007"), &chars("1999")), "June 7, 1999");
}

#[test]
fn flags_are_regional_indicators() {
    assert_eq!(country_code_to_flag("DE"), "\u{1f1e9}\u{1f1ea}");
    assert_eq!(country_code_to_flag("us"), "\u{1f1fa}\u{1f1f8}");
    assert_eq!(country_code_to_flag("DEU"), "");
    assert_eq!(country_code_to_flag("D"), "");
    assert_eq!(country_code_to_flag("1a"), "");
    assert_eq!(country_code_to_flag("\u{e9}"), "");
    assert_eq!(country_code_to_flag(""), "");
    assert_eq!(flag_of_uppercase("FR"), "\u{1f1eb}\u{1f1f7}");
    assert_eq!(flag_of_uppercase("A1"), "");
}

#[test]
fn countries_are_shown_with_name_and_flag() {
    assert_eq!(format_country("DE"), "Germany \u{1f1e9}\u{1f1ea}");
    assert_eq!(format_country("FR"), "France \u{1f1eb}\u{1f1f7}");
    assert_eq!(format_country("de"), "de \u{1f1e9}\u{1f1ea}");
    assert_eq!(format_country("XX"), "XX \u{1f1fd}\u{1f1fd}");
    assert_eq!(format_country("???"), "???");
    assert_eq!(format_country_with("DE", Some("Germany"), ""), "Germany");
    assert_eq!(format_country_with("DE", None, "f"), "DE f");
    assert_eq!(format_country_with("DE", None, ""), "DE");
}

#[test]
fn dates_and_times_are_cut_from_timestamps() {
    assert_eq!(extract_date("2024-01-15T14:30:00Z"), "2024-01-15");
    assert_eq!(extract_date("2024-01-15"), "2024-01-15");
    assert_eq!(extract_date("T1"), "");
    assert_eq!(format_time("2024-01-15T14:30:00Z"), "14:30");
    assert_eq!(format_time("2024-01-15T14:30"), "14:30");
    assert_eq!(format_time("2024-01-15T14"), "2024-01-15T14");
    assert_eq!(format_time("2024-01-15"), "2024-01-15");
    assert_eq!(format_time("aTb:cTd:e"), "b:c");
}

#[test]
fn day_headings_name_today_and_yesterday() {
    assert_eq!(format_date_header_on("2024-01-15", "2024-01-15", "2024-01-14"), "Today");
    assert_eq!(format_date_header_on("2024-01-14", "2024-01-15", "2024-01-14"), "Yesterday");
    assert_eq!(format_date_header_on("2024-01-05", "2024-01-15", "2024-01-14"), "January 5, 2024");
    assert_eq!(format_date_header_on("2024-13-05", "2024-01-15", "2024-01-14"), "13 5, 2024");
    assert_eq!(format_date_header_on("today", "today", "x"), "today");
    assert_eq!(format_date_header_on("a-b-c", "a-b-c", "x"), "Today");
    assert_eq!(format_date_header("1999-12-31"), "December 31, 1999");
    assert_eq!(format_date_header("no date"), "no date");
}

#[test]
fn played_tracks_are_grouped_by_day_latest_first() {
    let track = || get_mock_recently_played().remove(0).track;
    let at = |time: &str| RecentlyPlayedItem { track: track(), played_at: time.to_string() };
    let items = vec![
        at("2024-12-25T10:00:00Z"),
        at("2024-12-26T09:00:00Z"),
        at("2024-12-25T08:00:00Z"),
        at("2024-12-24T23:59:59Z"),
        at("2024-12-26T07:00:00Z"),
    ];
    let days: Vec<(String, Vec<usize>)> =
        group_by_day(&items).into_iter().map(|g| (g.key, g.positions)).collect();
    assert_eq!(
        days,
        vec![
            ("2024-12-26".to_string(), vec![1, 4]),
            ("2024-12-25".to_string(), vec![0, 2]),
            ("2024-12-24".to_string(), vec![3]),
        ]
    );
    assert!(group_by_day(&Vec::new()).is_empty());
}

#[test]
fn texts_are_split_joined_and_searched() {
    let pieces: Vec<String> = split_chars(&chars("a,b,,c,"), ',').iter().map(string_of).collect();
    assert_eq!(pieces, vec!["a", "b", "", "c", ""]);
    let whole: Vec<String> = split_chars(&chars(""), ',').iter().map(string_of).collect();
    assert_eq!(whole, vec![""]);
    assert_eq!(join_strings(&vec!["a".to_string(), "b".to_string(), "".to_string()], '-'), "a-b-");
    assert_eq!(join_strings(&Vec::new(), '-'), "");
    assert_eq!(find_char(&chars("hello"), 0, 'l'), 2);
    assert_eq!(find_char(&chars("hello"), 3, 'l'), 3);
    assert_eq!(find_char(&chars("hello"), 4, 'l'), 5);
    assert_eq!(string_of(&slice_chars(&chars("hello"), 1, 3)), "el");
    assert_eq!(string_of_range(&chars("hello"), 2, 5), "llo");
    assert_eq!(chars_of("h\u{e9}"), vec!['h', '\u{e9}']);
    assert!(chars_eq(&chars("ab"), &chars("ab")));
    assert!(!chars_eq(&chars("ab"), &chars("abc")));
    assert!(!chars_eq(&chars("ab"), &chars("ac")));
}

#[test]
fn numbers_are_written_in_decimal() {
    assert_eq!(string_of(&decimal_chars(0)), "0");
    assert_eq!(string_of(&decimal_chars(7)), "7");
    assert_eq!(string_of(&decimal_chars(10)), "10");
    assert_eq!(string_of(&decimal_chars(1234567890)), "1234567890");
    assert_eq!(string_of(&decimal_chars(u64::MAX)), "18446744073709551615");
    assert_eq!(digit_value('0'), Some(0));
    assert_eq!(digit_value('9'), Some(9));
    assert_eq!(digit_value('a'), None);
    assert_eq!(digit_value('/'), None);
}
