use metronome::scheduler::{Signature, TickEvent};
use metronome::ui::{
    bar_cells, bar_rows, centered_column, centered_start, columns_of_width, dot_accented,
    flush_right_column, help_box_top, help_row, help_shown_count, help_visible, hud_column,
    hud_text, marker_columns, right_help_column, right_help_start_column, tap_info, tap_layout,
    tap_progress, text_columns, tick_column, token_styles, TapLayout,
};

fn event(bpm: u16, numerator: u8, denominator: u8, playing: bool) -> TickEvent {
    TickEvent {
        is_accent: false,
        beat_in_bar: 1,
        tick_in_beat: 0,
        bpm,
        signature: Signature { numerator, denominator },
        playing,
    }
}

fn bar(width: u16, numerator: u8, tpb: u8, beat: u8, tick: u8) -> String {
    bar_cells(width, numerator, tpb, beat, tick).into_iter().collect()
}

#[test]
fn columns_of_plain_text() {
    assert_eq!(text_columns(""), 0);
    assert_eq!(text_columns("Metronome"), 9);
    assert_eq!(text_columns("120 BPM  |  4/4  |  sub 1  |  RUN"), 33);
}

#[test]
fn columns_of_wide_and_narrow_characters() {
    // Ideographs take two columns each, a combining accent none.
    assert_eq!(text_columns("\u{65e5}\u{672c}"), 4);
    assert_eq!(text_columns("e\u{301}"), 1);
    assert_eq!(text_columns("<\u{2191}>/<\u{2193}>: \u{b1}1   <\u{2190}>/<\u{2192}>: \u{b1}5"), 25);
}

#[test]
fn status_text_is_set_flush_right() {
    assert_eq!(hud_column(80, "abc"), Some(77));
    assert_eq!(hud_column(80, "120 BPM  |  4/4  |  sub 1  |  RUN"), Some(47));
    assert_eq!(hud_column(80, "\u{65e5}\u{672c}"), Some(76));
    assert_eq!(hud_column(3, "abc"), Some(0));
    assert_eq!(hud_column(2, "abc"), Some(0));
    assert_eq!(hud_column(0, "abc"), None);
}

#[test]
fn text_is_centred() {
    assert_eq!(centered_column(80, "abcd"), 38);
    assert_eq!(centered_column(80, "abc"), 38);
    assert_eq!(centered_column(81, "abc"), 39);
    assert_eq!(centered_column(80, "\u{25cf}\u{25cf}\u{25cb}\u{25cb}\u{25cb}\u{25cb}\u{25cb}\u{25cb}"), 36);
    assert_eq!(centered_column(4, "abcd"), 0);
    assert_eq!(centered_column(3, "abcd"), 0);
    assert_eq!(centered_column(0, ""), 0);
}

#[test]
fn rows_of_the_bar() {
    assert_eq!(bar_rows(24), (2, 21));
    assert_eq!(bar_rows(6), (2, 3));
    assert_eq!(bar_rows(5), (2, 2));
    assert_eq!(bar_rows(4), (2, 2));
    assert_eq!(bar_rows(0), (2, 2));
}

#[test]
fn rows_of_the_help() {
    assert_eq!(help_row(24), 23);
    assert_eq!(help_row(1), 0);
    assert_eq!(help_row(0), 0);
    assert_eq!(help_box_top(24, true), Some(19));
    assert_eq!(help_box_top(5, true), Some(0));
    assert_eq!(help_box_top(4, true), None);
    assert_eq!(help_box_top(24, false), None);
}

#[test]
fn short_help_on_the_right() {
    assert_eq!(right_help_column(80, "abcde"), Some(75));
    assert_eq!(right_help_column(8, "abcde"), Some(3));
    assert_eq!(right_help_column(7, "abcde"), None);
    assert_eq!(right_help_column(0, ""), None);
    assert_eq!(right_help_column(3, ""), Some(3));
}

#[test]
fn help_line_is_cut_to_the_row() {
    assert_eq!(help_visible("<q>: Quit", 80), "<q>: Quit");
    assert_eq!(help_visible("<q>: Quit", 10), "<q>: Quit");
    assert_eq!(help_visible("<q>: Quit", 9), "<q>: Qui");
    assert_eq!(help_visible("<q>: Quit", 5), "<q>:");
    assert_eq!(help_visible("<q>: Quit", 1), "");
    assert_eq!(help_visible("<q>: Quit", 0), "");
    assert_eq!(help_visible("<\u{2191}> up", 5), "<\u{2191}> ");
}

#[test]
fn key_tokens_are_bold() {
    assert_eq!(
        token_styles("<q> Quit"),
        vec![true, true, true, false, false, false, false, false]
    );
    assert_eq!(token_styles("a<b"), vec![false, true, true]);
    assert_eq!(token_styles("a>b"), vec![false, false, false]);
    assert_eq!(token_styles("<<a>>"), vec![true, true, true, true, false]);
    assert_eq!(token_styles(""), Vec::<bool>::new());
    assert_eq!(token_styles("<\u{2191}>/<\u{2193}>"), vec![true, true, true, false, true, true, true]);
}

#[test]
fn marks_of_the_beats() {
    assert_eq!(marker_columns(16, 4, 1), vec![0, 4, 8, 12, 15]);
    assert_eq!(marker_columns(10, 3, 2), vec![0, 3, 6, 9]);
    assert_eq!(marker_columns(80, 7, 4), vec![0, 11, 22, 34, 45, 57, 68, 79]);
    assert_eq!(marker_columns(1, 2, 3), vec![0, 0, 0]);
    assert_eq!(marker_columns(2, 4, 1), vec![0, 0, 1, 1, 1]);
}

#[test]
fn column_of_the_tick() {
    assert_eq!(tick_column(16, 4, 1, 1, 0), 0);
    assert_eq!(tick_column(16, 4, 1, 3, 0), 8);
    assert_eq!(tick_column(10, 3, 2, 2, 1), 5);
    assert_eq!(tick_column(80, 4, 4, 4, 3), 75);
    // A tick beyond the beat, or a beat beyond the bar, stays on the row.
    assert_eq!(tick_column(16, 4, 1, 4, 3), 15);
    assert_eq!(tick_column(16, 4, 1, 9, 0), 15);
    assert_eq!(tick_column(65535, 255, 255, 255, 255), 65534);
}

#[test]
fn bar_in_common_time() {
    assert_eq!(bar(16, 4, 1, 1, 0), "\u{25cf}===|---|---|--|");
    assert_eq!(bar(16, 4, 1, 2, 0), "|---\u{25cf}===|---|--|");
    assert_eq!(bar(16, 4, 1, 4, 0), "|---|---|---\u{25cf}==|");
}

#[test]
fn bar_with_subdivided_beats() {
    assert_eq!(bar(10, 3, 2, 2, 1), "|--|=\u{25cf}|--|");
    assert_eq!(bar(10, 3, 2, 3, 1), "|--|--|=\u{25cf}|");
    assert_eq!(bar(20, 2, 4, 1, 3), "|======\u{25cf}==|--------|");
}

#[test]
fn bar_too_narrow_for_its_beats() {
    assert_eq!(bar(0, 4, 1, 1, 0), "");
    assert_eq!(bar(1, 4, 1, 1, 0), "\u{25cf}");
    assert_eq!(bar(2, 4, 1, 1, 0), "\u{25cf}|");
    assert_eq!(bar(3, 4, 1, 3, 0), "|\u{25cf}|");
    assert_eq!(bar(5, 2, 1, 2, 0), "|-\u{25cf}=|");
}

#[test]
fn bar_with_a_position_outside_it() {
    assert_eq!(bar(9, 2, 1, 3, 0), "|---|---\u{25cf}");
    assert_eq!(bar(9, 2, 2, 1, 5), "|===|---\u{25cf}");
}

#[test]
fn status_text() {
    assert_eq!(hud_text(&event(120, 4, 4, true), 1), "120 BPM  |  4/4  |  sub 1  |  RUN");
    assert_eq!(hud_text(&event(20, 6, 8, false), 3), " 20 BPM  |  6/8  |  sub 3  |  PAUSE");
    assert_eq!(hud_text(&event(7, 12, 16, true), 4), "  7 BPM  |  12/16  |  sub 4  |  RUN");
    assert_eq!(hud_text(&event(0, 255, 1, true), 0), "  0 BPM  |  255/1  |  sub 0  |  RUN");
    assert_eq!(
        hud_text(&event(65535, 4, 4, false), 2),
        "65535 BPM  |  4/4  |  sub 2  |  PAUSE"
    );
}

#[test]
fn status_text_is_what_the_formatter_writes() {
    let mut bpm: u16 = 0;
    while bpm <= 1200 {
        let expected = format!("{:>3} BPM  |  {}/{}  |  sub {}  |  {}", bpm, 7, 8, 2, "RUN");
        assert_eq!(hud_text(&event(bpm, 7, 8, true), 2), expected);
        bpm += 1;
    }
}

#[test]
fn tap_screen_texts() {
    assert_eq!(tap_info(0, None), "Taps: 0/8   BPM: --");
    assert_eq!(tap_info(1, None), "Taps: 1/8   BPM: --");
    assert_eq!(tap_info(5, Some(120)), "Taps: 5/8   BPM: 120");
    assert_eq!(tap_info(8, Some(65535)), "Taps: 8/8   BPM: 65535");
    assert_eq!(tap_progress(0), "\u{25cb}\u{25cb}\u{25cb}\u{25cb}\u{25cb}\u{25cb}\u{25cb}\u{25cb}");
    assert_eq!(tap_progress(3), "\u{25cf}\u{25cf}\u{25cf}\u{25cb}\u{25cb}\u{25cb}\u{25cb}\u{25cb}");
    assert_eq!(tap_progress(8), "\u{25cf}\u{25cf}\u{25cf}\u{25cf}\u{25cf}\u{25cf}\u{25cf}\u{25cf}");
    assert_eq!(tap_progress(20), "\u{25cf}\u{25cf}\u{25cf}\u{25cf}\u{25cf}\u{25cf}\u{25cf}\u{25cf}");
}

#[test]
fn widths_wrap_round_at_sixteen_bits() {
    assert_eq!(columns_of_width(0), 0);
    assert_eq!(columns_of_width(65535), 65535);
    assert_eq!(columns_of_width(65536), 0);
    assert_eq!(columns_of_width(65536 + 33), 33);
}

#[test]
fn flush_right_by_column_count() {
    assert_eq!(flush_right_column(80, 33), Some(47));
    assert_eq!(flush_right_column(80, 80), Some(0));
    assert_eq!(flush_right_column(80, 81), Some(0));
    assert_eq!(flush_right_column(1, 0), Some(1));
    assert_eq!(flush_right_column(0, 0), None);
    assert_eq!(flush_right_column(0, 5), None);
    assert_eq!(flush_right_column(65535, 65535), Some(0));
}

#[test]
fn centred_by_column_count() {
    assert_eq!(centered_start(80, 4), 38);
    assert_eq!(centered_start(80, 3), 38);
    assert_eq!(centered_start(81, 3), 39);
    assert_eq!(centered_start(4, 4), 0);
    assert_eq!(centered_start(3, 4), 0);
    assert_eq!(centered_start(65535, 0), 32767);
}

#[test]
fn short_help_by_column_count() {
    assert_eq!(right_help_start_column(80, 25), Some(55));
    assert_eq!(right_help_start_column(28, 25), Some(3));
    assert_eq!(right_help_start_column(27, 25), None);
    assert_eq!(right_help_start_column(65535, 65534), None);
    assert_eq!(right_help_start_column(65535, 65532), Some(3));
}

#[test]
fn help_characters_shown_by_column_count() {
    assert_eq!(help_shown_count(86, 86, 120), 86);
    assert_eq!(help_shown_count(86, 86, 87), 86);
    assert_eq!(help_shown_count(86, 86, 86), 85);
    assert_eq!(help_shown_count(86, 86, 40), 39);
    assert_eq!(help_shown_count(86, 86, 1), 0);
    assert_eq!(help_shown_count(86, 86, 0), 0);
    assert_eq!(help_shown_count(3, 6, 6), 3);
    assert_eq!(help_shown_count(0, 0, 0), 0);
}

#[test]
fn the_dot_is_accented_only_on_the_first_tick_of_the_bar() {
    assert!(dot_accented(true, 1, 0));
    assert!(!dot_accented(false, 1, 0));
    assert!(!dot_accented(true, 2, 0));
    assert!(!dot_accented(true, 1, 1));
}

#[test]
fn rows_of_the_tap_screen() {
    assert_eq!(
        tap_layout(80, 24),
        TapLayout { title_row: 11, info_row: 12, progress_row: 13, flash_row: 13, flash_column: 40 }
    );
    assert_eq!(
        tap_layout(81, 25),
        TapLayout { title_row: 11, info_row: 12, progress_row: 13, flash_row: 13, flash_column: 40 }
    );
    assert_eq!(
        tap_layout(0, 2),
        TapLayout { title_row: 0, info_row: 1, progress_row: 2, flash_row: 2, flash_column: 0 }
    );
    assert_eq!(
        tap_layout(65535, 65535),
        TapLayout {
            title_row: 32766,
            info_row: 32767,
            progress_row: 32768,
            flash_row: 32768,
            flash_column: 32767,
        }
    );
}
