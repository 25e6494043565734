use rustypac::progress::{DisplayState, Duration, ProgressModel};
use rustypac::render::{
    format_row, layout_mode, plain_line, select_mode, structured_line, usable_width, Fields,
    LayoutMode,
};
use unicode_width::UnicodeWidthStr;

const FULL: &str = "📦 very_long_filename_t...  ▐  ██████████░░░░░░░░░░  50%  ▐    1.0 / 2.0 GiB    ▐   10.3MiB/s  ▐  ETA  00:30";
const SMALL: &str = "📦 very_long_filename_t...  ▐   50%  ▐    1.0 GiB  ▐   10.3MiB/s  ▐ 00:30";
const MINIMAL: &str = "📦 very_long_filename_t...  ▐   50%  ▐   10.3MiB/s  ▐ 00:30";
const COMPACT: &str = "📦 very_long_filename_t...   50%   10.3MiB/s 00:30";
const PLAIN: &str = "📦 very_long_filename_t... 50% 10.3MiB/s 00:30";

fn active_model() -> ProgressModel {
    ProgressModel {
        filename: "very_long_filename_that_does_not_fit.zst".to_owned(),
        state: DisplayState::Active,
        downloaded: 1 << 30,
        total: Some(2 << 30),
        bytes_per_second: Some(10_800_333),
        elapsed: Duration::from_secs(90),
        eta: Some(Duration::from_secs(30)),
    }
}

fn completed_model() -> ProgressModel {
    ProgressModel {
        filename: "cachyos-v3.db".to_owned(),
        state: DisplayState::Success,
        downloaded: 128_307,
        total: Some(128_307),
        bytes_per_second: Some(8_493_466),
        elapsed: Duration::zero(),
        eta: None,
    }
}

fn skipped_model() -> ProgressModel {
    ProgressModel {
        filename: "core.db.sig".to_owned(),
        state: DisplayState::Skipped,
        downloaded: 0,
        total: None,
        bytes_per_second: None,
        elapsed: Duration::zero(),
        eta: None,
    }
}

fn width(text: &str) -> usize {
    UnicodeWidthStr::width(text)
}

fn ghostty_width(text: &str) -> usize {
    UnicodeWidthStr::width(text) + text.matches("⛓️‍💥").count() * 2
}

fn strip_ansi(text: &str) -> String {
    let mut result = String::new();
    let mut characters = text.chars().peekable();
    while let Some(character) = characters.next() {
        if character == '\u{1b}' && characters.peek() == Some(&'[') {
            characters.next();
            for next in characters.by_ref() {
                if ('@'..='~').contains(&next) {
                    break;
                }
            }
        } else {
            result.push(character);
        }
    }
    result
}

#[test]
fn formats_approved_active_rows_at_mode_minimums() {
    let model = active_model();
    for (mode, expected) in [
        (LayoutMode::Full, FULL),
        (LayoutMode::Small, SMALL),
        (LayoutMode::Minimal, MINIMAL),
        (LayoutMode::Compact, COMPACT),
        (LayoutMode::Plain, PLAIN),
    ] {
        let actual = format_row(&model, width(expected), false);
        assert_eq!(layout_mode(&model, width(expected)), mode);
        assert_eq!(actual, expected);
        assert_eq!(width(&actual), width(expected));
    }
}

#[test]
fn extreme_truncates_the_entire_plain_row_to_display_width() {
    let target_width = width(PLAIN) - 1;
    let expected = "📦 very_long_filename_t... 50% 10.3MiB/s 0...";

    let actual = format_row(&active_model(), target_width, false);

    assert_eq!(
        layout_mode(&active_model(), target_width),
        LayoutMode::Extreme
    );
    assert_eq!(actual, expected);
    assert_eq!(width(&actual), target_width);
}

#[test]
fn formats_approved_completion_rows() {
    let model = completed_model();
    for expected in [
        "📦 cachyos-v3.db            ▐  ████████████████████ 100%  ▐  125.3 / 125.3 KiB  ▐    8.1MiB/s  ▐  DONE 00:00",
        "📦 cachyos-v3.db            ▐  100%  ▐  125.3 KiB  ▐    8.1MiB/s  ▐ 00:00",
        "📦 cachyos-v3.db            ▐  100%  ▐    8.1MiB/s  ▐ 00:00",
        "📦 cachyos-v3.db            100%    8.1MiB/s 00:00",
        "📦 cachyos-v3.db 100% 8.1MiB/s 00:00",
    ] {
        assert_eq!(format_row(&model, width(expected), false), expected);
    }
}

#[test]
fn formats_approved_skipped_rows_with_unavailable_fields() {
    let model = skipped_model();
    for expected in [
        "⛓️‍💥 core.db.sig              ▐                       N/A   ▐       N/A           ▐     N/A      ▐  N/A",
        "⛓️‍💥 core.db.sig N/A",
    ] {
        assert_eq!(format_row(&model, ghostty_width(expected), false), expected);
    }
}

#[test]
fn skipped_full_row_aligns_with_download_rows_in_ghostty() {
    let terminal_width = width(FULL) + 40;
    let completed = format_row(&completed_model(), terminal_width, false);
    let skipped = format_row(&skipped_model(), terminal_width, false);

    assert_eq!(
        ghostty_width(&skipped),
        ghostty_width(&completed),
        "the broken-chain fallback glyphs must not push skipped fields right"
    );
    assert_eq!(ghostty_width(&skipped), terminal_width);
}

#[test]
fn structured_modes_keep_23_filename_cells_and_give_surplus_only_to_filename() {
    let model = active_model();
    for (mode, minimum) in [
        (LayoutMode::Full, FULL),
        (LayoutMode::Small, SMALL),
        (LayoutMode::Minimal, MINIMAL),
        (LayoutMode::Compact, COMPACT),
    ] {
        let minimum_width = width(minimum);
        assert_eq!(layout_mode(&model, minimum_width), mode);
        assert_eq!(
            width(&format_row(&model, minimum_width, false)),
            minimum_width
        );

        let wider = format_row(&model, minimum_width + 2, false);
        let expected = minimum.replacen("very_long_filename_t...", "very_long_filename_tha...", 1);
        assert_eq!(wider, expected);
        assert_eq!(width(&wider), minimum_width + 2);
    }
}

#[test]
fn each_mode_yields_to_the_next_one_cell_below_its_minimum() {
    let model = active_model();
    for (minimum, next) in [
        (FULL, LayoutMode::Small),
        (SMALL, LayoutMode::Minimal),
        (MINIMAL, LayoutMode::Compact),
        (COMPACT, LayoutMode::Plain),
        (PLAIN, LayoutMode::Extreme),
    ] {
        assert_eq!(layout_mode(&model, width(minimum) - 1), next);
    }
}

#[test]
fn truncation_respects_unicode_display_cells() {
    let mut model = active_model();
    model.filename = "資料📦archive-name-that-is-long.zst".to_owned();
    let row = format_row(&model, width(MINIMAL), false);

    assert_eq!(width(&row), width(MINIMAL));
    assert!(row.contains("..."));
    assert!(!row.contains('\u{fffd}'));
}

#[test]
fn colors_content_by_state_and_structured_separators_purple() {
    const WHITE: &str = "\u{1b}[37m";
    const GREEN: &str = "\u{1b}[32m";
    const DARK_GRAY: &str = "\u{1b}[90m";
    const RED: &str = "\u{1b}[31m";
    const PURPLE: &str = "\u{1b}[35m";

    for (state, color) in [
        (DisplayState::Active, WHITE),
        (DisplayState::Paused, WHITE),
        (DisplayState::Success, GREEN),
        (DisplayState::Skipped, DARK_GRAY),
        (DisplayState::Error, RED),
        (DisplayState::Interrupted, RED),
    ] {
        let mut model = active_model();
        model.state = state;
        let colored = format_row(&model, width(FULL), true);
        assert!(
            colored.contains(color),
            "missing content color for {state:?}"
        );
        assert!(
            colored.contains(PURPLE),
            "missing purple separator for {state:?}"
        );
        assert_eq!(strip_ansi(&colored), format_row(&model, width(FULL), false));
    }
}

#[test]
fn color_false_emits_no_ansi_in_any_mode() {
    for target_width in [
        width(FULL),
        width(SMALL),
        width(MINIMAL),
        width(COMPACT),
        width(PLAIN),
        width(PLAIN) - 1,
    ] {
        assert!(!format_row(&active_model(), target_width, false).contains('\u{1b}'));
    }
}

#[test]
fn long_times_show_hours_and_missing_ones_nothing() {
    let mut model = active_model();
    model.filename = "a".to_owned();
    model.eta = Some(Duration::from_secs(36_061));
    let fields = Fields::from(&model);
    assert_eq!(fields.time, "10:01:01");
    assert_eq!(fields.full_time, "ETA  10:01:01");
    model.eta = None;
    let fields = Fields::from(&model);
    assert_eq!(fields.time, "N/A");
    assert_eq!(fields.full_time, "N/A");
}

#[test]
fn unknown_totals_are_unavailable() {
    let mut model = active_model();
    model.total = None;
    model.bytes_per_second = None;
    model.downloaded = 1_023;
    let fields = Fields::from(&model);
    assert_eq!(fields.percentage, "N/A");
    assert_eq!(fields.transfer, "N/A");
    assert_eq!(fields.speed, "N/A");
    assert_eq!(fields.current, "1023 B");
    assert_eq!(fields.bar, "░".repeat(20));
    model.total = Some(0);
    assert_eq!(Fields::from(&model).percentage, "N/A");
}

#[test]
fn more_than_all_is_shown_as_all() {
    let mut model = active_model();
    model.downloaded = 3 << 30;
    let fields = Fields::from(&model);
    assert_eq!(fields.percentage, "100%");
    assert_eq!(fields.bar, "█".repeat(20));
    assert_eq!(fields.transfer, "3.0 / 2.0 GiB");
}

#[test]
fn lines_are_made_of_icon_name_and_fields() {
    let fields = Fields::from(&completed_model());
    assert_eq!(
        structured_line(DisplayState::Success, &fields, LayoutMode::Compact, "name"),
        "📦 name  100%    8.1MiB/s 00:00"
    );
    assert_eq!(
        plain_line(DisplayState::Success, &fields, "name"),
        "📦 name 100% 8.1MiB/s 00:00"
    );
    let skipped = Fields::from(&skipped_model());
    assert_eq!(plain_line(DisplayState::Skipped, &skipped, "name"), "⛓️‍💥 name N/A");
}

#[test]
fn the_richest_mode_that_fits_is_selected() {
    for (usable, mode) in [
        (50, LayoutMode::Full),
        (49, LayoutMode::Small),
        (39, LayoutMode::Minimal),
        (29, LayoutMode::Compact),
        (19, LayoutMode::Plain),
        (9, LayoutMode::Extreme),
    ] {
        assert_eq!(select_mode(50, 40, 30, 20, 10, usable), mode);
    }
}

#[test]
fn every_width_is_used_and_never_exceeded() {
    for model in [active_model(), completed_model(), skipped_model()] {
        let mut richest = layout_mode(&model, 0);
        for terminal in 0..200 {
            let usable = usable_width(model.state, terminal);
            let row = format_row(&model, terminal, false);
            let mode = layout_mode(&model, terminal);
            assert!(width(&row) <= usable);
            if mode != LayoutMode::Plain {
                assert_eq!(width(&row), usable);
            }
            if mode != richest {
                assert!((mode as usize) < (richest as usize));
                richest = mode;
            }
        }
        assert_eq!(richest, LayoutMode::Full);
    }
}

#[test]
fn tiny_terminals_show_dots() {
    let model = active_model();
    assert_eq!(format_row(&model, 0, false), "");
    assert_eq!(format_row(&model, 3, false), "...");
    assert_eq!(format_row(&model, 5, false), "📦...");
    assert_eq!(format_row(&model, 4, false), " ...");
    assert_eq!(format_row(&skipped_model(), 1, false), "");
}

#[test]
fn separators_keep_their_places_in_every_state() {
    let terminal = width(FULL) + 7;
    let places = |row: &str| -> Vec<usize> {
        row.char_indices()
            .filter(|(_, character)| *character == '▐')
            .map(|(index, _)| ghostty_width(&row[..index]))
            .collect()
    };
    let active = places(&format_row(&active_model(), terminal, false));
    assert_eq!(active.len(), 4);
    assert_eq!(places(&format_row(&completed_model(), terminal, false)), active);
    let skipped = places(&format_row(&skipped_model(), terminal - 5, false));
    assert_eq!(skipped.len(), 4);
    let gaps = |all: &[usize]| -> Vec<usize> { all.windows(2).map(|w| w[1] - w[0]).collect() };
    assert_eq!(gaps(&skipped), gaps(&active));
}
