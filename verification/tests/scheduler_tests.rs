use metronome::cli::{Cli, Commands, SoundType, Subdivision};
use metronome::input::{key_action, Action, Key};
use metronome::scheduler::{
    wait_step, Metronome, PlaybackPosition, Signature, TempoState, TickEvent, WaitStep,
};
use metronome::tempo::{ParseError, RampSpec};

fn pos(beat_in_bar: u8, tick_in_beat: u8) -> PlaybackPosition {
    PlaybackPosition { beat_in_bar, tick_in_beat }
}

fn metronome(bpm: u16, numerator: u8, denominator: u8, subdivision: Subdivision) -> Metronome {
    Metronome {
        tempo: TempoState { bpm, signature: Signature { numerator, denominator }, subdivision },
        position: pos(1, 0),
        playing: true,
        show_help: false,
        next_tick: 0,
        ramp: None,
    }
}

fn cli() -> Cli {
    Cli {
        bpm_positional: None,
        bpm: 120,
        signature: "4/4".to_string(),
        subdivision: Subdivision::Quarter,
        mute: false,
        sound: SoundType::Click,
        command: None,
    }
}

#[test]
fn ticks_per_beat_of_each_subdivision() {
    assert_eq!(Subdivision::Quarter.ticks_per_beat(), 1);
    assert_eq!(Subdivision::Eighth.ticks_per_beat(), 2);
    assert_eq!(Subdivision::Triplet.ticks_per_beat(), 3);
    assert_eq!(Subdivision::Sixteenth.ticks_per_beat(), 4);
}

#[test]
fn subdivisions_cycle() {
    assert_eq!(Subdivision::Quarter.next(), Subdivision::Eighth);
    assert_eq!(Subdivision::Eighth.next(), Subdivision::Triplet);
    assert_eq!(Subdivision::Triplet.next(), Subdivision::Sixteenth);
    assert_eq!(Subdivision::Sixteenth.next(), Subdivision::Quarter);
}

#[test]
fn signatures_cycle() {
    let s = |numerator: u8, denominator: u8| Signature { numerator, denominator };
    assert_eq!(s(4, 4).next(), s(3, 4));
    assert_eq!(s(3, 4).next(), s(6, 8));
    assert_eq!(s(6, 8).next(), s(7, 8));
    assert_eq!(s(7, 8).next(), s(4, 4));
    assert_eq!(s(5, 4).next(), s(4, 4));
    assert_eq!(s(4, 8).next(), s(4, 4));
}

#[test]
fn position_starts_on_the_accent() {
    assert_eq!(PlaybackPosition::start(), pos(1, 0));
    assert!(PlaybackPosition::start().is_accent());
    assert!(!pos(1, 1).is_accent());
    assert!(!pos(2, 0).is_accent());
}

#[test]
fn advance_within_a_beat() {
    assert_eq!(pos(1, 0).advance(4, 4), pos(1, 1));
    assert_eq!(pos(3, 2).advance(4, 4), pos(3, 3));
}

#[test]
fn advance_to_the_next_beat_and_round_the_bar() {
    assert_eq!(pos(1, 3).advance(4, 4), pos(2, 0));
    assert_eq!(pos(4, 3).advance(4, 4), pos(1, 0));
    assert_eq!(pos(1, 0).advance(1, 4), pos(2, 0));
    assert_eq!(pos(3, 0).advance(1, 3), pos(1, 0));
    assert_eq!(pos(255, 0).advance(1, 255), pos(1, 0));
    assert_eq!(pos(1, 0).advance(1, 1), pos(1, 0));
}

#[test]
fn advance_brings_a_tick_beyond_the_beat_back() {
    assert_eq!(pos(2, 3).advance(1, 4), pos(3, 0));
    assert_eq!(pos(4, 3).advance(2, 4), pos(1, 0));
    assert_eq!(pos(1, 255).advance(4, 4), pos(2, 0));
}

#[test]
fn advance_walks_through_every_tick_of_a_bar() {
    let mut p = PlaybackPosition::start();
    let mut seen: Vec<(u8, u8)> = Vec::new();
    for _ in 0..6 {
        seen.push((p.beat_in_bar, p.tick_in_beat));
        p = p.advance(2, 3);
    }
    assert_eq!(seen, vec![(1, 0), (1, 1), (2, 0), (2, 1), (3, 0), (3, 1)]);
    assert_eq!(p, pos(1, 0));
}

#[test]
fn catch_up_five_ticks_behind() {
    assert_eq!(pos(1, 1).catch_up(5, 2, 4), pos(2, 0));
}

#[test]
fn catch_up_by_nothing_changes_nothing() {
    assert_eq!(pos(3, 1).catch_up(0, 2, 4), pos(3, 1));
    assert_eq!(pos(3, 3).catch_up(0, 1, 4), pos(3, 3));
}

#[test]
fn catch_up_counts_modulo_the_ticks_per_beat() {
    assert_eq!(pos(1, 0).catch_up(1, 4, 4), pos(1, 1));
    assert_eq!(pos(1, 0).catch_up(3, 4, 4), pos(1, 3));
    assert_eq!(pos(1, 0).catch_up(4, 4, 4), pos(1, 0));
    assert_eq!(pos(1, 2).catch_up(7, 4, 4), pos(2, 1));
    assert_eq!(pos(4, 3).catch_up(1, 4, 4), pos(1, 0));
    assert_eq!(pos(2, 0).catch_up(1_000_000_007, 1, 4), pos(2, 0));
    assert_eq!(pos(4, 2).catch_up(u64::MAX, 3, 4), pos(4, 2));
}

#[test]
fn catch_up_rolls_a_tick_beyond_the_beat_over_whole_beats() {
    assert_eq!(pos(2, 3).catch_up(1, 1, 4), pos(1, 0));
    assert_eq!(pos(1, 3).catch_up(2, 2, 3), pos(2, 1));
}

#[test]
fn catch_up_always_lands_inside_the_bar() {
    let mut behind: u64 = 1;
    while behind < 40 {
        let mut beat: u8 = 1;
        while beat <= 7 {
            let mut tick: u8 = 0;
            while tick < 3 {
                let p = pos(beat, tick).catch_up(behind, 3, 7);
                assert!(p.beat_in_bar >= 1 && p.beat_in_bar <= 7);
                assert!(p.tick_in_beat < 3);
                assert_eq!(p, pos(beat, tick).catch_up(behind, 3, 7));
                tick += 1;
            }
            beat += 1;
        }
        behind += 1;
    }
}

#[test]
fn keys_and_what_they_ask() {
    assert_eq!(key_action(Key::Char('q')), Action::Quit);
    assert_eq!(key_action(Key::Esc), Action::Quit);
    assert_eq!(key_action(Key::Char(' ')), Action::TogglePlay);
    assert_eq!(key_action(Key::Up), Action::BpmUp);
    assert_eq!(key_action(Key::Down), Action::BpmDown);
    assert_eq!(key_action(Key::Right), Action::BpmUpFive);
    assert_eq!(key_action(Key::Left), Action::BpmDownFive);
    assert_eq!(key_action(Key::Char('s')), Action::CycleSubdivision);
    assert_eq!(key_action(Key::Tab), Action::CycleSignature);
    assert_eq!(key_action(Key::Char('h')), Action::ToggleHelp);
}

#[test]
fn keys_that_ask_nothing() {
    assert_eq!(key_action(Key::Enter), Action::Ignore);
    assert_eq!(key_action(Key::Other), Action::Ignore);
    assert_eq!(key_action(Key::Char('x')), Action::Ignore);
    assert_eq!(key_action(Key::Char('Q')), Action::Ignore);
    assert_eq!(key_action(Key::Char('S')), Action::Ignore);
}

#[test]
fn play_and_pause_toggle() {
    let mut m = metronome(120, 4, 4, Subdivision::Quarter);
    assert!(!m.handle_key(Key::Char(' ')));
    assert!(!m.playing);
    assert!(!m.handle_key(Key::Char(' ')));
    assert!(m.playing);
}

#[test]
fn help_toggles() {
    let mut m = metronome(120, 4, 4, Subdivision::Quarter);
    assert!(!m.apply(Action::ToggleHelp));
    assert!(m.show_help);
    assert!(!m.apply(Action::ToggleHelp));
    assert!(!m.show_help);
}

#[test]
fn tempo_moves_by_one_and_by_five() {
    let mut m = metronome(120, 4, 4, Subdivision::Quarter);
    m.handle_key(Key::Up);
    assert_eq!(m.tempo.bpm, 121);
    m.handle_key(Key::Right);
    assert_eq!(m.tempo.bpm, 126);
    m.handle_key(Key::Down);
    assert_eq!(m.tempo.bpm, 125);
    m.handle_key(Key::Left);
    assert_eq!(m.tempo.bpm, 120);
}

#[test]
fn tempo_stops_at_the_ends_of_the_range() {
    let mut m = metronome(399, 4, 4, Subdivision::Quarter);
    m.handle_key(Key::Right);
    assert_eq!(m.tempo.bpm, 400);
    m.handle_key(Key::Up);
    assert_eq!(m.tempo.bpm, 400);
    let mut m = metronome(22, 4, 4, Subdivision::Quarter);
    m.handle_key(Key::Left);
    assert_eq!(m.tempo.bpm, 20);
    m.handle_key(Key::Down);
    assert_eq!(m.tempo.bpm, 20);
}

#[test]
fn subdivision_key_keeps_the_tick() {
    let mut m = metronome(120, 4, 4, Subdivision::Sixteenth);
    m.position = pos(2, 3);
    m.handle_key(Key::Char('s'));
    assert_eq!(m.tempo.subdivision, Subdivision::Quarter);
    assert_eq!(m.position, pos(2, 3));
    // The next step of the position brings the tick back into the beat.
    m.finish_tick(0);
    assert_eq!(m.position, pos(3, 0));
}

#[test]
fn signature_key_resets_a_beat_that_no_longer_fits() {
    let mut m = metronome(120, 4, 4, Subdivision::Eighth);
    m.position = pos(4, 1);
    m.handle_key(Key::Tab);
    assert_eq!(m.tempo.signature, Signature { numerator: 3, denominator: 4 });
    assert_eq!(m.position, pos(1, 1));
    m.position = pos(3, 0);
    m.handle_key(Key::Tab);
    assert_eq!(m.tempo.signature, Signature { numerator: 6, denominator: 8 });
    assert_eq!(m.position, pos(3, 0));
    m.handle_key(Key::Tab);
    assert_eq!(m.tempo.signature, Signature { numerator: 7, denominator: 8 });
    m.position = pos(7, 0);
    m.handle_key(Key::Tab);
    assert_eq!(m.tempo.signature, Signature { numerator: 4, denominator: 4 });
    assert_eq!(m.position, pos(1, 0));
}

#[test]
fn quit_changes_nothing() {
    let mut m = metronome(120, 4, 4, Subdivision::Quarter);
    let before = m;
    assert!(m.handle_key(Key::Char('q')));
    assert_eq!(m, before);
    assert!(m.handle_key(Key::Esc));
    assert_eq!(m, before);
    assert!(m.apply(Action::Quit));
    assert_eq!(m, before);
}

#[test]
fn idle_polls_leave_the_state_alone() {
    let mut m = metronome(97, 7, 8, Subdivision::Triplet);
    m.position = pos(5, 2);
    m.next_tick = 123_456;
    let before = m;
    for _ in 0..5 {
        assert!(!m.drain_keys(&vec![]));
        assert_eq!(m, before);
    }
    assert!(!m.drain_keys(&vec![Key::Other, Key::Enter, Key::Char('z')]));
    assert_eq!(m, before);
    assert!(!m.handle_key(Key::Other));
    assert_eq!(m, before);
}

#[test]
fn lateness_check_at_the_deadline_finds_nothing_to_catch_up() {
    let mut m = metronome(120, 4, 4, Subdivision::Eighth);
    m.playing = false;
    m.position = pos(3, 1);
    m.next_tick = 1_000;
    m.finish_tick(1_000);
    assert_eq!(m.position, pos(3, 1));
    assert_eq!(m.next_tick, 1_000);
}

#[test]
fn drain_handles_every_key_in_order() {
    let mut m = metronome(120, 4, 4, Subdivision::Quarter);
    let quit = m.drain_keys(&vec![Key::Up, Key::Up, Key::Right, Key::Char('s'), Key::Char('h')]);
    assert!(!quit);
    assert_eq!(m.tempo.bpm, 127);
    assert_eq!(m.tempo.subdivision, Subdivision::Eighth);
    assert!(m.show_help);
}

#[test]
fn drain_stops_at_the_key_that_quits() {
    let mut m = metronome(120, 4, 4, Subdivision::Quarter);
    let quit = m.drain_keys(&vec![Key::Up, Key::Esc, Key::Up, Key::Up]);
    assert!(quit);
    assert_eq!(m.tempo.bpm, 121);
}

#[test]
fn start_tick_while_playing_moves_the_deadline_by_one_interval() {
    let mut m = metronome(120, 4, 4, Subdivision::Eighth);
    m.next_tick = 1_000;
    let event = m.start_tick(5_000);
    assert_eq!(m.next_tick, 250_001_000);
    assert_eq!(m.position, pos(1, 0));
    assert_eq!(
        event,
        TickEvent {
            is_accent: true,
            beat_in_bar: 1,
            tick_in_beat: 0,
            bpm: 120,
            signature: Signature { numerator: 4, denominator: 4 },
            playing: true,
        }
    );
}

#[test]
fn start_tick_off_the_accent() {
    let mut m = metronome(60, 3, 4, Subdivision::Quarter);
    m.position = pos(2, 0);
    let event = m.start_tick(0);
    assert!(!event.is_accent);
    assert_eq!(event.beat_in_bar, 2);
    assert_eq!(event.tick_in_beat, 0);
    assert_eq!(m.next_tick, 1_000_000_000);
    m.position = pos(1, 1);
    assert!(!m.start_tick(0).is_accent);
}

#[test]
fn start_tick_while_paused_counts_from_now() {
    let mut m = metronome(120, 4, 4, Subdivision::Quarter);
    m.playing = false;
    m.next_tick = 1_000;
    let event = m.start_tick(7_000_000_000);
    assert_eq!(m.next_tick, 7_500_000_000);
    assert_eq!(m.position, pos(1, 0));
    assert!(!event.playing);
    assert!(!event.is_accent);
    assert_eq!(event.bpm, 120);
}

#[test]
fn start_tick_takes_the_tempo_from_the_ramp() {
    let mut m = metronome(80, 4, 4, Subdivision::Quarter);
    m.ramp = Some(RampSpec { from_bpm: 80, to_bpm: 140, duration_ms: 10_000, start: 0 });
    m.next_tick = 0;
    let event = m.start_tick(5_000_000_000);
    assert_eq!(event.bpm, 110);
    assert_eq!(m.tempo.bpm, 110);
    assert_eq!(m.next_tick, 60_000_000_000 / 110);
    // A key may move the tempo; the ramp takes it back at the next tick.
    m.handle_key(Key::Right);
    assert_eq!(m.tempo.bpm, 115);
    assert_eq!(m.start_tick(20_000_000_000).bpm, 140);
}

#[test]
fn start_tick_holds_the_deadline_at_the_end_of_the_clock() {
    let mut m = metronome(120, 4, 4, Subdivision::Quarter);
    m.next_tick = u64::MAX - 5;
    m.start_tick(0);
    assert_eq!(m.next_tick, u64::MAX);
    m.playing = false;
    m.start_tick(u64::MAX - 1);
    assert_eq!(m.next_tick, u64::MAX);
}

#[test]
fn finish_tick_in_time_moves_one_tick_on() {
    let mut m = metronome(120, 4, 4, Subdivision::Eighth);
    m.next_tick = 500;
    m.finish_tick(400);
    assert_eq!(m.position, pos(1, 1));
    assert_eq!(m.next_tick, 500);
    m.finish_tick(500);
    assert_eq!(m.position, pos(2, 0));
    assert_eq!(m.next_tick, 500);
}

#[test]
fn finish_tick_late_catches_up_and_sets_a_new_deadline() {
    let mut m = metronome(120, 4, 4, Subdivision::Eighth);
    m.position = pos(1, 1);
    m.next_tick = 1_000_000_000;
    // One tick takes 250 ms; 1.3 s late is five whole ticks.
    m.finish_tick(2_300_000_000);
    assert_eq!(m.position, pos(2, 0));
    assert_eq!(m.next_tick, 2_550_000_000);
}

#[test]
fn finish_tick_late_by_less_than_a_tick_keeps_the_position() {
    let mut m = metronome(120, 4, 4, Subdivision::Eighth);
    m.position = pos(1, 1);
    m.next_tick = 1_000_000_000;
    m.finish_tick(1_249_999_999);
    assert_eq!(m.position, pos(1, 1));
    assert_eq!(m.next_tick, 1_499_999_999);
    m.next_tick = 1_000_000_000;
    m.finish_tick(1_250_000_000);
    assert_eq!(m.position, pos(2, 0));
}

#[test]
fn finish_tick_while_paused_keeps_the_position() {
    let mut m = metronome(120, 4, 4, Subdivision::Eighth);
    m.playing = false;
    m.position = pos(3, 1);
    m.next_tick = 1_000;
    m.finish_tick(500);
    assert_eq!(m.position, pos(3, 1));
    assert_eq!(m.next_tick, 1_000);
    m.finish_tick(9_000_000_000);
    assert_eq!(m.position, pos(3, 1));
    assert_eq!(m.next_tick, 9_250_000_000);
}

#[test]
fn a_steady_run_keeps_its_phase() {
    let mut m = metronome(120, 4, 4, Subdivision::Quarter);
    m.next_tick = 0;
    let mut now: u64 = 0;
    let mut beats: Vec<u8> = Vec::new();
    for k in 0..8u64 {
        let event = m.start_tick(now + 1_000);
        beats.push(event.beat_in_bar);
        assert_eq!(m.next_tick, (k + 1) * 500_000_000);
        m.finish_tick(now + 2_000);
        now = m.next_tick;
    }
    assert_eq!(beats, vec![1, 2, 3, 4, 1, 2, 3, 4]);
}

#[test]
fn wait_sleeps_then_spins_then_is_done() {
    assert_eq!(wait_step(10_000_000, 0), WaitStep::Sleep(8_000_000));
    assert_eq!(wait_step(10_000_000, 7_999_999), WaitStep::Sleep(1));
    assert_eq!(wait_step(10_000_000, 8_000_000), WaitStep::Spin);
    assert_eq!(wait_step(10_000_000, 9_999_999), WaitStep::Spin);
    assert_eq!(wait_step(10_000_000, 10_000_000), WaitStep::Done);
    assert_eq!(wait_step(10_000_000, 10_000_001), WaitStep::Done);
    assert_eq!(wait_step(0, 0), WaitStep::Done);
}

#[test]
fn wait_of_the_metronome_goes_by_its_deadline() {
    let mut m = metronome(120, 4, 4, Subdivision::Quarter);
    m.next_tick = 500_000_000;
    assert_eq!(m.wait_step(0), WaitStep::Sleep(498_000_000));
    assert_eq!(m.wait_step(499_000_000), WaitStep::Spin);
    assert_eq!(m.wait_step(500_000_000), WaitStep::Done);
}

#[test]
fn start_from_default_settings() {
    let m = Metronome::start(&cli(), None, 42).unwrap();
    assert_eq!(
        m,
        Metronome {
            tempo: TempoState {
                bpm: 120,
                signature: Signature { numerator: 4, denominator: 4 },
                subdivision: Subdivision::Quarter,
            },
            position: PlaybackPosition { beat_in_bar: 1, tick_in_beat: 0 },
            playing: true,
            show_help: false,
            next_tick: 42,
            ramp: None,
        }
    );
}

#[test]
fn start_prefers_the_tempo_given_without_a_flag() {
    let mut c = cli();
    c.bpm_positional = Some(90);
    c.signature = "6/8".to_string();
    c.subdivision = Subdivision::Triplet;
    assert_eq!(c.requested_bpm(), 90);
    let m = Metronome::start(&c, None, 0).unwrap();
    assert_eq!(m.tempo.bpm, 90);
    assert_eq!(m.tempo.signature, Signature { numerator: 6, denominator: 8 });
    assert_eq!(m.tempo.subdivision, Subdivision::Triplet);
}

#[test]
fn start_brings_the_tempo_into_range() {
    let mut c = cli();
    c.bpm = 5;
    assert_eq!(Metronome::start(&c, None, 0).unwrap().tempo.bpm, 20);
    c.bpm_positional = Some(1000);
    assert_eq!(Metronome::start(&c, None, 0).unwrap().tempo.bpm, 400);
}

#[test]
fn start_takes_the_tapped_tempo_only_when_tapping_was_asked_for() {
    let mut c = cli();
    assert!(!c.wants_tap());
    assert_eq!(Metronome::start(&c, Some(150), 0).unwrap().tempo.bpm, 120);
    c.command = Some(Commands::Tap { apply: false });
    assert!(c.wants_tap());
    assert_eq!(Metronome::start(&c, Some(150), 0).unwrap().tempo.bpm, 150);
    assert_eq!(Metronome::start(&c, None, 0).unwrap().tempo.bpm, 120);
}

#[test]
fn start_with_a_ramp() {
    let mut c = cli();
    c.command = Some(Commands::Ramp { pattern: "80..140@10s".to_string() });
    let m = Metronome::start(&c, None, 9).unwrap();
    assert_eq!(m.tempo.bpm, 80);
    assert_eq!(
        m.ramp,
        Some(RampSpec { from_bpm: 80, to_bpm: 140, duration_ms: 10_000, start: 9 })
    );
}

#[test]
fn start_with_a_ramp_that_cannot_be_read_plays_without_one() {
    let mut c = cli();
    c.command = Some(Commands::Ramp { pattern: "fast".to_string() });
    let m = Metronome::start(&c, None, 0).unwrap();
    assert_eq!(m.tempo.bpm, 120);
    assert_eq!(m.ramp, None);
}

#[test]
fn start_fails_on_a_bad_signature() {
    let mut c = cli();
    c.signature = "5/3".to_string();
    assert_eq!(Metronome::start(&c, None, 0), Err(ParseError::InvalidDenominator));
    c.signature = "4".to_string();
    assert_eq!(Metronome::start(&c, None, 0), Err(ParseError::InvalidFormat));
    c.signature = "0/4".to_string();
    assert_eq!(Metronome::start(&c, None, 0), Err(ParseError::InvalidNumerator));
}

#[test]
fn start_with_a_ramp_of_no_duration_gives_it_one_millisecond() {
    let mut c = cli();
    c.command = Some(Commands::Ramp { pattern: "80..140@0ms".to_string() });
    let m = Metronome::start(&c, None, 9).unwrap();
    assert_eq!(
        m.ramp,
        Some(RampSpec { from_bpm: 80, to_bpm: 140, duration_ms: 1, start: 9 })
    );
}
