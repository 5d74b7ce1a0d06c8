use music_player::command::Command;
use music_player::command::parse_command;
use music_player::scanner::DirEntry;
use music_player::scanner::find_music_files;
use music_player::session::Action;
use music_player::session::SessionState;

#[test]
fn parse_single_letter_commands() {
    assert_eq!(parse_command("q"), Command::Quit);
    assert_eq!(parse_command("p"), Command::TogglePause);
    assert_eq!(parse_command("n"), Command::Next);
    assert_eq!(parse_command("b"), Command::Previous);
}

#[test]
fn parse_trims_surrounding_whitespace() {
    assert_eq!(parse_command("  q\n"), Command::Quit);
    assert_eq!(parse_command("\tp "), Command::TogglePause);
    assert_eq!(parse_command(" 2 \n"), Command::Select(2));
}

#[test]
fn parse_track_numbers() {
    assert_eq!(parse_command("1"), Command::Select(1));
    assert_eq!(parse_command("42"), Command::Select(42));
    assert_eq!(parse_command("0"), Command::Select(0));
    assert_eq!(parse_command("007"), Command::Select(7));
    assert_eq!(parse_command("+7"), Command::Select(7));
}

#[test]
fn parse_rejects_other_lines() {
    assert_eq!(parse_command(""), Command::Invalid);
    assert_eq!(parse_command("   "), Command::Invalid);
    assert_eq!(parse_command("quit"), Command::Invalid);
    assert_eq!(parse_command("np"), Command::Invalid);
    assert_eq!(parse_command("-1"), Command::Invalid);
    assert_eq!(parse_command("1 2"), Command::Invalid);
    assert_eq!(parse_command("12x"), Command::Invalid);
    assert_eq!(parse_command("+"), Command::Invalid);
    assert_eq!(parse_command("++3"), Command::Invalid);
    assert_eq!(parse_command("99999999999999999999999999999"), Command::Invalid);
}

#[test]
fn new_session_starts_on_first_track_paused() {
    let s = SessionState::new();
    assert_eq!(s.current_track, 0);
    assert!(!s.is_playing);
}

#[test]
fn next_cycles_through_all_tracks() {
    let mut s = SessionState::new();
    let n = 3;
    let mut seen = Vec::new();
    for _ in 0..n {
        let (next, action) = s.apply(Command::Next, n);
        seen.push(next.current_track);
        assert_eq!(action, Action::Play(next.current_track));
        s = next;
    }
    assert_eq!(seen, vec![1, 2, 0]);
    assert_eq!(s.current_track, 0);
}

#[test]
fn previous_from_first_track_wraps_to_last() {
    let s = SessionState::new();
    let (prev, action) = s.apply(Command::Previous, 4);
    assert_eq!(prev.current_track, 3);
    assert_eq!(action, Action::Play(3));
}

#[test]
fn previous_undoes_next() {
    let s = SessionState::new();
    let (s1, _) = s.apply(Command::Next, 5);
    let (s2, _) = s1.apply(Command::Previous, 5);
    assert_eq!(s2.current_track, s.current_track);
}

#[test]
fn selection_in_range_is_one_based() {
    let s = SessionState::new();
    let (s1, a1) = s.apply(Command::Select(1), 2);
    assert_eq!(s1.current_track, 0);
    assert_eq!(a1, Action::Play(0));
    let (s2, a2) = s.apply(Command::Select(2), 2);
    assert_eq!(s2.current_track, 1);
    assert_eq!(a2, Action::Play(1));
}

#[test]
fn selection_out_of_range_changes_nothing() {
    let s = SessionState::new();
    let (s1, a1) = s.apply(Command::Select(0), 2);
    assert_eq!(s1, s);
    assert_eq!(a1, Action::RejectNumber);
    let (s2, a2) = s.apply(Command::Select(3), 2);
    assert_eq!(s2, s);
    assert_eq!(a2, Action::RejectNumber);
}

#[test]
fn invalid_input_changes_nothing() {
    let s = SessionState::new();
    let (s1, a1) = s.step_line("what", 2);
    assert_eq!(s1, s);
    assert_eq!(a1, Action::RejectInput);
}

#[test]
fn toggle_twice_restores_the_flag() {
    let s = SessionState::new();
    let (s1, a1) = s.apply(Command::TogglePause, 2);
    assert!(s1.is_playing);
    assert_eq!(a1, Action::Resume);
    let (s2, a2) = s1.apply(Command::TogglePause, 2);
    assert_eq!(a2, Action::Pause);
    assert_eq!(s2, s);
}

#[test]
fn quit_keeps_state_and_stops() {
    let s = SessionState::new();
    let (s1, a1) = s.step_line("q", 3);
    assert_eq!(s1, s);
    assert_eq!(a1, Action::Quit);
}

#[test]
fn valid_selection_always_demands_playback() {
    // A track change is demanded of the caller as a playback action; a
    // failure to decode is the caller's fatal error and is never folded
    // into the recovered invalid-input path.
    let s = SessionState::new();
    let (_, action) = s.step_line("2", 2);
    assert_eq!(action, Action::Play(1));
    assert_ne!(action, Action::RejectInput);
}

#[test]
fn scenario_mixed_directory_session() {
    let entries = vec![
        DirEntry { path: String::from("d/a.mp3"), name: String::from("a.mp3"), is_file: true },
        DirEntry { path: String::from("d/b.wav"), name: String::from("b.wav"), is_file: true },
        DirEntry { path: String::from("d/c.txt"), name: String::from("c.txt"), is_file: true },
    ];
    let tracks = find_music_files(&entries);
    assert_eq!(tracks, vec![String::from("d/a.mp3"), String::from("d/b.wav")]);
    let n = tracks.len();
    assert_eq!(n, 2);

    let s0 = SessionState::new();
    let (s1, a1) = s0.step_line("n", n);
    assert_eq!(s1.current_track, 1);
    assert_eq!(a1, Action::Play(1));
    let (s2, a2) = s1.step_line("n", n);
    assert_eq!(s2.current_track, 0);
    assert_eq!(a2, Action::Play(0));
    let (s3, a3) = s2.step_line("5", n);
    assert_eq!(s3.current_track, 0);
    assert_eq!(a3, Action::RejectNumber);
    let (s4, a4) = s3.step_line("q", n);
    assert_eq!(s4.current_track, 0);
    assert_eq!(a4, Action::Quit);
}
