use linefeed::formatting::{bold_color, link_target};
use linefeed::formatting::{irc_color, layout_irc_text, nick_color, parse_irc_colors, split_urls, strip_irc_formatting};

#[test]
fn reverse_control_is_not_italic() {
    let spans = parse_irc_colors("\x16rev\x16 plain");
    assert_eq!(spans[0].text, "rev");
    assert!(spans[0].reverse);
    assert!(!spans[0].italic);
    assert_eq!(spans[1].text, " plain");
    assert!(!spans[1].reverse);
}

#[test]
fn strip_keeps_digits_beyond_two_per_color() {
    // "\x03042026" = color 04 followed by the literal text "2026".
    assert_eq!(strip_irc_formatting("\x03042026 party"), "2026 party");
    assert_eq!(strip_irc_formatting("\x034,051234"), "1234");
}

#[test]
fn color_99_and_out_of_palette_codes_mean_default() {
    let spans = parse_irc_colors("\x0399text");
    assert_eq!(spans[0].text, "text");
    assert_eq!(spans[0].fg_color, None);

    // Extended palette code 52 is pure red, not `52 % 16`.
    let spans = parse_irc_colors("\x0352warning");
    assert_eq!(spans[0].fg_color.and_then(|c| irc_color(c as u64)), Some((0xff, 0, 0)));
}

#[test]
fn background_requires_foreground() {
    // "\x03,2 pm" is a color reset followed by the literal text ",2 pm".
    let spans = parse_irc_colors("\x03,2 pm meeting");
    assert_eq!(spans[0].text, ",2 pm meeting");
    assert_eq!(spans[0].bg_color, None);
    // Same for the stripper.
    assert_eq!(strip_irc_formatting("\x03,2 pm"), ",2 pm");
}

#[test]
fn urls_only_match_at_word_boundaries() {
    let segs = layout_irc_text("awww.so cute");
    assert!(segs.iter().all(|s| !s.is_url));

    let segs = layout_irc_text("see www.example.com now");
    let url: Vec<_> = segs.iter().filter(|s| s.is_url).collect();
    assert_eq!(url.len(), 1);
    assert_eq!(url[0].text, "www.example.com");

    let segs = layout_irc_text("(https://rust-lang.org)");
    assert!(segs.iter().any(|s| s.is_url && s.text == "https://rust-lang.org"));
}

#[test]
fn layout_text_equals_stripped_text() {
    let input = "\x02bold\x02 see https://example.org/x and \x0304red\x03 end";
    let joined: String = layout_irc_text(input).iter().map(|s| s.text.as_str()).collect();
    assert_eq!(joined, strip_irc_formatting(input));
}

#[test]
fn split_urls_is_lossless() {
    let text = "go to http://a.example/b, then www.c.example!";
    let parts = split_urls(text);
    let joined: String = parts.iter().map(|(t, _)| t.as_str()).collect();
    assert_eq!(joined, text);
    assert!(parts.iter().any(|(t, u)| *u && t == "http://a.example/b,"));
}

#[test]
fn palette_codes_map_to_expected_colors() {
    assert_eq!(irc_color(0), Some((255, 255, 255)));
    assert_eq!(irc_color(1), Some((0, 0, 0)));
    assert_eq!(irc_color(99), None);
    assert_eq!(irc_color(100), None);
}

#[test]
fn nick_color_is_stable() {
    assert_eq!(nick_color("alice"), nick_color("alice"));
}

#[test]
fn parse_tracks_bold_and_colors() {
    let spans = parse_irc_colors("a\x02b\x0f\x0312,04c");
    assert_eq!(spans[0].text, "a");
    assert!(!spans[0].bold);
    assert_eq!(spans[1].text, "b");
    assert!(spans[1].bold);
    assert_eq!(spans[2].text, "c");
    assert!(!spans[2].bold);
    assert_eq!(spans[2].fg_color, Some(12));
    assert_eq!(spans[2].bg_color, Some(4));
}

#[test]
fn bold_colors_brighten_and_www_links_get_a_scheme() {
    assert_eq!(bold_color((10, 215, 250)), (50, 255, 255));
    assert_eq!(link_target("www.example.org"), "https://www.example.org");
    assert_eq!(link_target("http://example.org"), "http://example.org");
    assert_eq!(link_target("www"), "www");
}

#[test]
fn span_after_reset_has_default_style() {
    let spans = parse_irc_colors("\x02\x0304,02\x1Fbold\x0Fplain");
    let last = spans.last().unwrap();
    assert_eq!(last.text, "plain");
    assert_eq!(last.fg_color, None);
    assert_eq!(last.bg_color, None);
    assert!(!last.bold && !last.underline && !last.italic && !last.reverse);
    assert!(spans[0].bold && spans[0].underline);
    assert_eq!(spans[0].fg_color, Some(4));
}
