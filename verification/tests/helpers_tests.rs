use linefeed::helpers::{days_to_ymd, epoch_time_formatted, epoch_to_utc_parts, format_timestamp, nick_to_mask, truncate_chars, ymd_to_days};
use linefeed::glob::mask_matches;

#[test]
fn nick_to_mask_completes_partials() {
    assert_eq!(nick_to_mask("nick"), "nick!*@*");
    assert_eq!(nick_to_mask("nick!user@host"), "nick!user@host");
    assert_eq!(nick_to_mask("nick@host"), "nick!*@host");
    assert_eq!(nick_to_mask("nick!user"), "nick!user@*");
    assert_eq!(nick_to_mask("*!*@*"), "*!*@*");
    assert_eq!(nick_to_mask("*@host"), "*!*@host");
}

#[test]
fn mask_matches_globs() {
    assert!(mask_matches("*", "anything"));
    assert!(mask_matches("a*c", "abc"));
    assert!(mask_matches("a*c", "ac"));
    assert!(mask_matches("a?c", "abc"));
    assert!(!mask_matches("a?c", "ac"));
    assert!(mask_matches("nick!*@*", "nick!user@host"));
    assert!(!mask_matches("nick!*@*", "other!user@host"));
    assert!(mask_matches("*@*.example.com", "n!u@host.example.com"));
    assert!(!mask_matches("abc", "abcd"));
    assert!(mask_matches("", ""));
    assert!(!mask_matches("", "x"));
    assert!(mask_matches("**a", "a"));
    // A `*` in the text is an ordinary character for the pattern's `*`.
    assert!(mask_matches("*b", "*ab"));
    assert!(mask_matches("a*", "a*"));
    assert!(!mask_matches("a?", "a"));
}

#[test]
fn nick_to_mask_is_idempotent() {
    for input in ["nick", "a@b", "x!y", "*@host", "n!u@h"] {
        let once = nick_to_mask(input);
        assert_eq!(nick_to_mask(&once), once);
    }
}

#[test]
fn days_and_dates_round_trip() {
    assert_eq!(days_to_ymd(0), (1970, 1, 1));
    assert_eq!(days_to_ymd(19723), (2024, 1, 1));
    assert_eq!(days_to_ymd(11016), (2000, 2, 29));
    for days in [0u64, 59, 60, 365, 10957, 11016, 19723, 2932896] {
        let (y, m, d) = days_to_ymd(days);
        assert_eq!(ymd_to_days(y as i64, m, d), days as i64);
    }
}

#[test]
fn utc_parts_of_known_instant() {
    // 2024-03-05 14:07:09 UTC
    assert_eq!(epoch_to_utc_parts(1709647629), (3, 5, 14, 7, 9));
}

#[test]
fn epoch_time_formats() {
    assert_eq!(epoch_time_formatted(1709647629, 0, "short"), "[14:07]");
    assert_eq!(epoch_time_formatted(1709647629, 0, "long"), "[14:07:09]");
    assert_eq!(epoch_time_formatted(1709647629, 0, "full"), "[03-05 14:07]");
    assert_eq!(epoch_time_formatted(1709647629, 3600, "short"), "[15:07]");
    assert_eq!(epoch_time_formatted(10, -3600, "long"), "[00:00:00]");
}

#[test]
fn format_timestamp_renders_utc() {
    assert_eq!(format_timestamp(0), "Unknown");
    assert_eq!(format_timestamp(1709647629), "Mar 5, 2024 14:07 UTC");
}

#[test]
fn truncate_chars_counts_characters() {
    assert_eq!(truncate_chars("héllo", 2), "hé...");
    assert_eq!(truncate_chars("abc", 10), "abc");
    assert_eq!(truncate_chars("abc", 3), "abc");
    assert_eq!(truncate_chars("abc", 0), "...");
}

#[test]
fn each_next_day_number_is_the_next_calendar_day() {
    assert_eq!(days_to_ymd(58), (1970, 2, 28));
    assert_eq!(days_to_ymd(59), (1970, 3, 1));
    assert_eq!(days_to_ymd(11016), (2000, 2, 29));
    assert_eq!(days_to_ymd(11017), (2000, 3, 1));
    assert_eq!(days_to_ymd(10956), (1999, 12, 31));
    assert_eq!(days_to_ymd(10957), (2000, 1, 1));
    assert_eq!(days_to_ymd(47540), (2100, 2, 28));
    assert_eq!(days_to_ymd(47541), (2100, 3, 1));
}

#[test]
fn day_counts_past_i64_max_read_as_days_before_1970() {
    assert_eq!(days_to_ymd(u64::MAX), (1969, 12, 31));
    assert_eq!(days_to_ymd(1u64 << 63), (2030437271, 6, 7));
}
