use metronome::input::Key;
use metronome::tap::{estimate_bpm, tap_tempo, TapSession, TapStatus};

const MS: u64 = 1_000_000;

#[test]
fn four_taps_half_a_second_apart() {
    assert_eq!(tap_tempo(&vec![0, 500 * MS, 1000 * MS, 1500 * MS]), Some(120));
    assert_eq!(
        tap_tempo(&vec![9_000 * MS, 9_500 * MS, 10_000 * MS, 10_500 * MS]),
        Some(120)
    );
}

#[test]
fn fewer_than_four_taps_give_no_tempo() {
    assert_eq!(tap_tempo(&vec![]), None);
    assert_eq!(tap_tempo(&vec![0]), None);
    assert_eq!(tap_tempo(&vec![0, 500 * MS]), None);
    assert_eq!(tap_tempo(&vec![0, 500 * MS, 1000 * MS]), None);
}

#[test]
fn uneven_taps_go_by_their_mean() {
    // Gaps of 400, 600 and 500 ms: half a second on the mean.
    assert_eq!(tap_tempo(&vec![0, 400 * MS, 1000 * MS, 1500 * MS]), Some(120));
    // Gaps of 700 ms: 85.71 beats a minute.
    assert_eq!(tap_tempo(&vec![0, 700 * MS, 1400 * MS, 2100 * MS]), Some(86));
    // Gaps of 800 ms: exactly 75.
    assert_eq!(tap_tempo(&vec![0, 800 * MS, 1600 * MS, 2400 * MS, 3200 * MS]), Some(75));
}

#[test]
fn tapped_tempo_rounds_a_half_up() {
    // Three gaps in 1.6 s: 112.5 beats a minute.
    assert_eq!(estimate_bpm(&vec![0, 10, 20, 1_600 * MS]), Some(113));
}

#[test]
fn tapped_tempo_stays_within_the_playable_range() {
    assert_eq!(tap_tempo(&vec![0, MS, 2 * MS, 3 * MS]), Some(400));
    assert_eq!(tap_tempo(&vec![0, 10_000 * MS, 20_000 * MS, 30_000 * MS]), Some(20));
    assert_eq!(tap_tempo(&vec![5, 5, 5, 5]), Some(400));
}

#[test]
fn estimate_needs_two_taps_and_is_not_clamped() {
    assert_eq!(estimate_bpm(&vec![]), None);
    assert_eq!(estimate_bpm(&vec![77]), None);
    assert_eq!(estimate_bpm(&vec![0, 500 * MS]), Some(120));
    assert_eq!(estimate_bpm(&vec![0, MS]), Some(60_000));
    assert_eq!(estimate_bpm(&vec![0, 10_000 * MS]), Some(6));
    assert_eq!(estimate_bpm(&vec![0, 100]), Some(65_535));
    assert_eq!(estimate_bpm(&vec![3, 3]), Some(65_535));
    assert_eq!(estimate_bpm(&vec![0, u64::MAX]), Some(0));
}

#[test]
fn a_clock_that_went_back_counts_as_no_time() {
    assert_eq!(estimate_bpm(&vec![1_000 * MS, 0, 500 * MS]), Some(240));
}

#[test]
fn session_collects_taps_until_the_eighth() {
    let mut s = TapSession::new();
    assert_eq!(s.estimate(), None);
    assert_eq!(s.filled(), 0);
    for k in 0..7u64 {
        assert_eq!(s.handle_key(Key::Char(' '), k * 500 * MS), TapStatus::Collecting);
        assert_eq!(s.filled(), (k + 1) as usize);
    }
    assert_eq!(s.estimate(), Some(120));
    assert_eq!(s.handle_key(Key::Char(' '), 7 * 500 * MS), TapStatus::Complete);
    assert_eq!(s.filled(), 8);
    assert_eq!(s.taps.len(), 8);
    assert_eq!(s.tempo(), Some(120));
}

#[test]
fn session_is_accepted_with_enter_once_there_are_four_taps() {
    let mut s = TapSession::new();
    assert_eq!(s.handle_key(Key::Enter, 0), TapStatus::Collecting);
    for k in 0..3u64 {
        s.handle_key(Key::Char(' '), k * 1_000 * MS);
        assert_eq!(s.handle_key(Key::Enter, 0), TapStatus::Collecting);
    }
    assert_eq!(s.tempo(), None);
    s.handle_key(Key::Char(' '), 3_000 * MS);
    assert_eq!(s.handle_key(Key::Enter, 0), TapStatus::Complete);
    assert_eq!(s.tempo(), Some(60));
}

#[test]
fn session_is_given_up_with_q_or_escape() {
    let mut s = TapSession::new();
    s.handle_key(Key::Char(' '), 10);
    let before = s.clone();
    assert_eq!(s.handle_key(Key::Char('q'), 20), TapStatus::Cancelled);
    assert_eq!(s, before);
    assert_eq!(s.handle_key(Key::Esc, 20), TapStatus::Cancelled);
    assert_eq!(s, before);
}

#[test]
fn session_ignores_other_keys() {
    let mut s = TapSession::new();
    let before = s.clone();
    assert_eq!(s.handle_key(Key::Up, 5), TapStatus::Collecting);
    assert_eq!(s.handle_key(Key::Char('x'), 5), TapStatus::Collecting);
    assert_eq!(s.handle_key(Key::Tab, 5), TapStatus::Collecting);
    assert_eq!(s, before);
}

#[test]
fn a_tap_lights_the_display_for_a_moment() {
    let mut s = TapSession::new();
    assert!(!s.flash_visible(0));
    s.handle_key(Key::Char(' '), 1_000 * MS);
    assert_eq!(s.flash_until, Some(1_150 * MS));
    assert!(s.flash_visible(1_000 * MS));
    assert!(s.flash_visible(1_150 * MS - 1));
    assert!(!s.flash_visible(1_150 * MS));
    s.handle_key(Key::Char(' '), u64::MAX - 1);
    assert_eq!(s.flash_until, Some(u64::MAX));
}
