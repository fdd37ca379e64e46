use music_tag::lyrics::{get_duration, split_lyrics, Lyrics};
use music_tag::split::{generate_artist, split_artist_to_string, split_artists_to_string};
use music_tag::text::{parse_digits, parse_i32, str_eq};

fn strings(v: &[&str]) -> Vec<String> {
    v.iter().map(|s| s.to_string()).collect()
}

#[test]
fn split_mixed_delimiters_in_order() {
    assert_eq!(split_artist_to_string("A & B / C"), strings(&["A", "B", "C"]));
}

#[test]
fn split_only_delimiters_is_empty() {
    assert_eq!(split_artist_to_string("  /  & "), Vec::<String>::new());
}

#[test]
fn split_empty_is_empty() {
    assert_eq!(split_artist_to_string(""), Vec::<String>::new());
}

#[test]
fn split_trims_unicode_white_space() {
    assert_eq!(split_artist_to_string("\u{3000}Ann\t/ Bo\n"), strings(&["Ann", "Bo"]));
}

#[test]
fn split_several_values_concatenates() {
    let values = strings(&["A/B", "C"]);
    assert_eq!(split_artists_to_string(&values), strings(&["A", "B", "C"]));
    assert_eq!(split_artists_to_string(&values), split_artist_to_string("A/B/C"));
}

#[test]
fn generate_artist_appends_slash() {
    assert_eq!(generate_artist(&strings(&["A", "B"])), "A/B/");
    assert_eq!(generate_artist(&Vec::new()), "");
}

#[test]
fn joined_names_split_back() {
    let names = strings(&["Ann", "Bo Li"]);
    assert_eq!(split_artist_to_string(&generate_artist(&names)), names);
}

#[test]
fn lyrics_lines_split_on_each_break_kind() {
    assert_eq!(split_lyrics("a\r\nb\nc\r"), strings(&["a", "b", "c"]));
}

#[test]
fn lyrics_last_line_without_break_kept() {
    assert_eq!(split_lyrics(" a \nb"), strings(&["a", "b"]));
    assert_eq!(split_lyrics(""), Vec::<String>::new());
    assert_eq!(split_lyrics("a\n\nb"), strings(&["a", "", "b"]));
}

#[test]
fn timestamp_parsed() {
    let (d, text) = get_duration("[01:02.50]hello");
    let d = d.unwrap();
    assert_eq!((d.minute(), d.seconds(), d.milliseconds()), (1, 2, 50));
    assert_eq!(text, "hello");
}

#[test]
fn no_bracket_no_timestamp() {
    let (d, text) = get_duration("no-bracket text");
    assert!(d.is_none());
    assert_eq!(text, "no-bracket text");
}

#[test]
fn malformed_timestamp_keeps_whole_line() {
    let (d, text) = get_duration("[ab:02.50]hello");
    assert!(d.is_none());
    assert_eq!(text, "[ab:02.50]hello");
    let (d, text) = get_duration("[01:02.5x]x");
    assert!(d.is_none());
    assert_eq!(text, "[01:02.5x]x");
}

#[test]
fn timestamp_seconds_wrap_and_truncate() {
    let (d, _) = get_duration("[00:75.509]");
    assert!(d.is_none());
    let (d, text) = get_duration("[+3:1.509]x");
    let d = d.unwrap();
    assert_eq!((d.minute(), d.seconds(), d.milliseconds()), (3, 1, 50));
    assert_eq!(text, "x");
    let (d, _) = get_duration("[00:99999]");
    let d = d.unwrap();
    assert_eq!((d.minute(), d.seconds(), d.milliseconds()), (0, 39, 0));
    let (d, _) = get_duration("[00:-1.00]");
    let d = d.unwrap();
    assert_eq!((d.minute(), d.seconds(), d.milliseconds()), (0, 0, 0));
}

#[test]
fn timestamp_round_trip_all_fields() {
    for m in [0u64, 7, 42, 99] {
        for s in [0u64, 9, 30, 59] {
            for c in [0u64, 5, 50, 99] {
                let line = format!("[{:02}:{:02}.{:02}]t", m, s, c);
                let (d, text) = get_duration(&line);
                let d = d.unwrap();
                assert_eq!((d.minute(), d.seconds(), d.milliseconds()), (m, s, c));
                assert_eq!(text, "t");
                assert_eq!(format!("[{}]t", d.to_string()), line);
            }
        }
    }
}

#[test]
fn duration_text_is_padded() {
    let (d, _) = get_duration("[03:04.05]");
    assert_eq!(d.unwrap().to_string(), "03:04.05");
}

#[test]
fn lyrics_lines_with_time() {
    let l = Lyrics::from("[00:01.00]one\r\ntwo");
    assert_eq!(l.lines(), &strings(&["[00:01.00]one", "two"]));
    let timed = l.lines_with_time();
    assert_eq!(timed.len(), 2);
    assert_eq!(timed[0].0.unwrap().seconds(), 1);
    assert_eq!(timed[0].1, "one");
    assert!(timed[1].0.is_none());
    assert_eq!(timed[1].1, "two");
}

#[test]
fn i32_parsing_follows_std() {
    assert_eq!(parse_i32("2024"), Some(2024));
    assert_eq!(parse_i32("-12"), Some(-12));
    assert_eq!(parse_i32("+7"), Some(7));
    assert_eq!(parse_i32("2147483647"), Some(i32::MAX));
    assert_eq!(parse_i32("-2147483648"), Some(i32::MIN));
    assert_eq!(parse_i32("2147483648"), None);
    assert_eq!(parse_i32("00000000000042"), Some(42));
    assert_eq!(parse_i32("2024-01-01"), None);
    assert_eq!(parse_i32(""), None);
    assert_eq!(parse_i32("-"), None);
}

#[test]
fn digits_and_equality() {
    assert_eq!(parse_digits("0123"), Some(123));
    assert_eq!(parse_digits("1a"), None);
    assert!(str_eq("abc", "abc"));
    assert!(!str_eq("abc", "abd"));
}
