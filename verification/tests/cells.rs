use rustypac::cells::{count_fitting, pad_end, truncate_end};
use unicode_width::UnicodeWidthStr;

#[test]
fn text_that_fits_is_shown_whole() {
    assert_eq!(truncate_end("name", 4), "name");
    assert_eq!(truncate_end("", 0), "");
    assert_eq!(truncate_end("資料", 4), "資料");
}

#[test]
fn text_that_does_not_fit_ends_in_dots() {
    assert_eq!(truncate_end("abcdefgh", 7), "abcd...");
    assert_eq!(truncate_end("abcdefgh", 3), "...");
    assert_eq!(truncate_end("abcdefgh", 2), "..");
    assert_eq!(truncate_end("abcdefgh", 0), "");
}

#[test]
fn a_wide_character_that_does_not_fit_leaves_a_space() {
    assert_eq!(truncate_end("資料資料", 6), "資 ...");
    assert_eq!(truncate_end("資料資料", 7), "資料...");
    assert_eq!(truncate_end("資料資料", 4), " ...");
}

#[test]
fn padding_fills_every_cell() {
    assert_eq!(pad_end("ab", 5), "ab   ");
    assert_eq!(pad_end("資料", 5), "資料 ");
    for text in ["plain", "資料📦archive", "e\u{301}a\u{301}", "1\u{fe0f}\u{20e3}x", "⛓️‍💥"] {
        for limit in 0..12 {
            assert_eq!(UnicodeWidthStr::width(pad_end(text, limit).as_str()), limit);
        }
    }
}

#[test]
fn what_fits_ends_at_the_first_count_that_does_not() {
    assert_eq!(count_fitting(&[1, 2, 3, 4], 3), 3);
    assert_eq!(count_fitting(&[1, 5, 2], 3), 1);
    assert_eq!(count_fitting(&[4], 3), 0);
    assert_eq!(count_fitting(&[], 3), 0);
}

#[test]
fn inert_characters_part_what_stands_around_them() {
    let inert: Vec<char> = (' '..='~')
        .filter(|character| !character.is_ascii_digit() && *character != '#' && *character != '*')
        .collect();
    let samples = [
        "", "a", "1", "#", "📦", "\u{fe0f}", "\u{fe0f}\u{20e3}", "\u{200d}💥", "\u{338}",
        "\u{1f1e6}\u{1f1e7}", "\u{17d2}\u{1780}", "⛓️", "\u{0644}", "\u{0627}",
    ];
    for head in samples {
        for tail in samples {
            for character in &inert {
                let whole = format!("{head}{character}{tail}");
                assert_eq!(
                    UnicodeWidthStr::width(whole.as_str()),
                    UnicodeWidthStr::width(head) + 1 + UnicodeWidthStr::width(tail),
                    "{whole:?}"
                );
            }
        }
    }
}
