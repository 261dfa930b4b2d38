use fomu::app::{App, Command, Key, PresetChange};
use fomu::tracks::catalog::{catalog, TrackPool};
use fomu::tracks::loader::TrackLoader;
use fomu::ui::render::{hyperlink, SUPPORT_URL};
use fomu::ui::visualizers::{Visualizer, LEFT_PADDING, STEPS_PER_ROW};

fn loader_with(files: &[&str]) -> TrackLoader {
    TrackLoader::new("/t".to_string(), files.iter().map(|f| f.to_string()).collect())
}

#[test]
fn the_player_starts_on_the_named_preset_or_on_the_first() {
    let app = App::new("relax");
    assert_eq!(app.preset().name, "relax");
    assert_eq!(app.selected_preset_index(), 4);
    assert!(!app.is_selecting_preset());
    assert!(app.pending_preset().is_none());
    assert!(app.current_track().is_none());
    assert!(app.is_running());
    assert_eq!(app.all_presets().len(), 6);
    let app = App::new("no such preset");
    assert_eq!(app.preset().name, "focus");
    assert_eq!(app.selected_preset_index(), 0);
}

#[test]
fn keys_give_commands_while_no_preset_is_chosen() {
    let mut app = App::new("focus");
    assert_eq!(app.handle_key(Key::Char(' '), false), Command::TogglePause);
    assert_eq!(app.handle_key(Key::Char('n'), false), Command::SkipTrack);
    assert_eq!(app.handle_key(Key::Char('s'), false), Command::OpenSupportUrl);
    for key in [Key::Char('+'), Key::Char('='), Key::Char(']'), Key::Up] {
        assert_eq!(app.handle_key(key, false), Command::VolumeUp);
    }
    for key in [Key::Char('-'), Key::Char('_'), Key::Char('['), Key::Down] {
        assert_eq!(app.handle_key(key, false), Command::VolumeDown);
    }
    for key in [Key::Char('x'), Key::Enter, Key::Left, Key::Right, Key::Other, Key::Char('c')] {
        assert_eq!(app.handle_key(key, false), Command::Nothing);
    }
    assert!(app.is_running());
    assert!(!app.is_selecting_preset());
    assert_eq!(app.handle_key(Key::Char(' '), true), Command::TogglePause);
}

#[test]
fn quit_keys_end_the_player() {
    for (key, control) in [
        (Key::Char('q'), false),
        (Key::Esc, false),
        (Key::Char('c'), true),
        (Key::Char('q'), true),
    ] {
        let mut app = App::new("focus");
        assert_eq!(app.handle_key(key, control), Command::Nothing);
        assert!(!app.is_running());
    }
}

#[test]
fn the_selection_goes_round_the_presets() {
    let mut app = App::new("deep");
    assert_eq!(app.handle_key(Key::Char('p'), false), Command::Nothing);
    assert!(app.is_selecting_preset());
    assert_eq!(app.selected_preset_index(), 1);
    app.handle_key(Key::Left, false);
    assert_eq!(app.selected_preset_index(), 0);
    app.handle_key(Key::Char('j'), false);
    assert_eq!(app.selected_preset_index(), 5);
    app.handle_key(Key::Right, false);
    assert_eq!(app.selected_preset_index(), 0);
    app.handle_key(Key::Char('k'), false);
    app.handle_key(Key::Char('p'), false);
    assert_eq!(app.selected_preset_index(), 2);
    assert_eq!(app.handle_key(Key::Char(' '), false), Command::Nothing);
    assert_eq!(app.handle_key(Key::Char('n'), false), Command::Nothing);
    assert_eq!(app.selected_preset_index(), 2);
    assert!(app.is_selecting_preset());
    assert_eq!(app.handle_key(Key::Enter, false), Command::ConfirmPreset);
    assert!(app.is_selecting_preset());
    assert_eq!(app.handle_key(Key::Esc, false), Command::Nothing);
    assert!(!app.is_selecting_preset());
    assert!(app.is_running());
    assert_eq!(app.selected_preset_index(), 1);
    app.handle_key(Key::Char('p'), false);
    app.handle_key(Key::Right, false);
    app.handle_key(Key::Char('q'), false);
    assert!(!app.is_selecting_preset());
    assert!(app.is_running());
    assert_eq!(app.selected_preset_index(), 1);
}

#[test]
fn taking_the_current_preset_changes_nothing() {
    let loader = loader_with(&["aurora.mp3"]);
    let mut app = App::new("flow");
    app.handle_key(Key::Char('p'), false);
    assert!(matches!(app.confirm_preset_selection(&loader), PresetChange::Unchanged));
    assert!(!app.is_selecting_preset());
    assert_eq!(app.preset().name, "flow");
}

#[test]
fn a_preset_without_tracks_waits_until_one_is_on_disk() {
    let mut loader = loader_with(&["aurora.mp3"]);
    let mut app = App::new("focus");
    app.handle_key(Key::Char('p'), false);
    for _ in 0..4 {
        app.handle_key(Key::Right, false);
    }
    match app.confirm_preset_selection(&loader) {
        PresetChange::Download(pools) => assert_eq!(pools, vec![TrackPool::CalmFocus]),
        _ => panic!("no track of this preset is on disk"),
    }
    assert_eq!(app.preset().name, "focus");
    assert_eq!(app.pending_preset(), Some("relax"));
    assert!(!app.check_pending_preset(&loader));
    assert_eq!(app.pending_preset(), Some("relax"));
    loader.set_files(vec!["aurora.mp3".to_string(), "cobalt.mp3".to_string()]);
    assert!(app.check_pending_preset(&loader));
    assert_eq!(app.preset().name, "relax");
    assert_eq!(app.selected_preset_index(), 4);
    assert!(app.pending_preset().is_none());
    assert!(!app.check_pending_preset(&loader));
    let track = match app.load_next_track(&loader) {
        Some(track) => track,
        None => panic!("a track is on disk"),
    };
    assert_eq!(track.slug, "cobalt");
}

#[test]
fn a_preset_with_tracks_is_switched_to() {
    let loader = loader_with(&["aurora.mp3", "cicadas.mp3", "snowfall.mp3"]);
    let mut app = App::new("relax");
    assert!(app.load_next_track(&loader).is_none());
    app.handle_key(Key::Char('p'), false);
    app.handle_key(Key::Right, false);
    match app.confirm_preset_selection(&loader) {
        PresetChange::Switched(pools) => {
            assert_eq!(pools, vec![TrackPool::GentleMovement, TrackPool::Atmospheric])
        }
        _ => panic!("tracks of this preset are on disk"),
    }
    assert_eq!(app.preset().name, "morning");
    assert!(app.pending_preset().is_none());
    assert!(app.preset_has_tracks(&loader, app.preset()));
    let relax = &app.all_presets()[4];
    assert!(!app.preset_has_tracks(&loader, relax));
    let mut seen = Vec::new();
    for _ in 0..3 {
        match app.load_next_track(&loader) {
            Some(track) => {
                assert_eq!(app.current_track().map(|t| t.slug), Some(track.slug));
                seen.push(track.slug);
            }
            None => panic!("tracks are on disk"),
        }
    }
    seen.sort();
    assert_eq!(seen, vec!["aurora", "cicadas", "snowfall"]);
    let mut again = Vec::new();
    for _ in 0..3 {
        again.push(app.load_next_track(&loader).map(|t| t.slug));
    }
    again.sort();
    assert_eq!(again, vec![Some("aurora"), Some("cicadas"), Some("snowfall")]);
}

#[test]
fn a_playlist_of_one_track_repeats_it() {
    let loader = loader_with(&["first-snow.mp3"]);
    let mut app = App::new("creative");
    for _ in 0..3 {
        assert_eq!(app.load_next_track(&loader).map(|t| t.slug), Some("first-snow"));
    }
    let all: Vec<String> = catalog().iter().map(|t| t.filename()).collect();
    let full = TrackLoader::new("/t".to_string(), all);
    app.create_playlist(&full);
    let mut seen = Vec::new();
    for _ in 0..12 {
        seen.push(app.load_next_track(&full).map(|t| t.slug));
    }
    seen.sort();
    seen.dedup();
    assert_eq!(seen.len(), 12);
}

#[test]
fn elapsed_time_has_two_digits_for_each_part() {
    assert_eq!(App::elapsed_time(0), "00:00:00");
    assert_eq!(App::elapsed_time(59), "00:00:59");
    assert_eq!(App::elapsed_time(60), "00:01:00");
    assert_eq!(App::elapsed_time(3723), "01:02:03");
    assert_eq!(App::elapsed_time(86399), "23:59:59");
    assert_eq!(App::elapsed_time(360_000), "100:00:00");
    assert_eq!(App::elapsed_time(u64::MAX), "5124095576030431:00:15");
}

#[test]
fn a_hyperlink_wraps_the_text_in_escape_sequences() {
    assert_eq!(
        hyperlink("https://example.org/", "example"),
        "\x1b]8;;https://example.org/\x1b\\example\x1b]8;;\x1b\\"
    );
    assert_eq!(hyperlink("", ""), "\x1b]8;;\x1b\\\x1b]8;;\x1b\\");
    assert_eq!(SUPPORT_URL, "https://www.scottbuckley.com.au/library/donate/");
}

const BLOCKS: [char; 9] = [' ', '▁', '▂', '▃', '▄', '▅', '▆', '▇', '█'];

/// The bars, drawn with the arithmetic of the machine.
fn bars_by_floats(bands: &[f32], width: usize, height: usize) -> Vec<String> {
    let num_bars = bands.len();
    let total_gaps = num_bars - 1;
    let bar_width = (width.saturating_sub(total_gaps) / num_bars).clamp(1, 2);
    let mut lines = Vec::new();
    for row in 0..height {
        let mut row_chars = String::new();
        for _ in 0..6 {
            row_chars.push(' ');
        }
        let threshold = 1.0 - (row as f32 / height as f32);
        for (i, &level) in bands.iter().enumerate() {
            let ch = if level >= threshold {
                '█'
            } else if level >= threshold - (1.0 / height as f32) {
                let partial_idx = ((level - threshold + (1.0 / height as f32))
                    * height as f32
                    * (BLOCKS.len() - 1) as f32) as usize;
                BLOCKS[partial_idx.min(BLOCKS.len() - 1)]
            } else {
                ' '
            };
            for _ in 0..bar_width {
                row_chars.push(ch);
            }
            if i < num_bars - 1 {
                row_chars.push(' ');
            }
        }
        lines.push(row_chars);
    }
    lines
}

fn to_bits(values: &[f32]) -> Vec<u32> {
    values.iter().map(|v| v.to_bits()).collect()
}

#[test]
fn bars_are_drawn_row_by_row() {
    assert_eq!(LEFT_PADDING, 6);
    assert_eq!(STEPS_PER_ROW, 8.0f32.to_bits());
    let mut visualizer = Visualizer::new();
    visualizer.update(0, &[]);
    // Three bars of no, half and full level in a field of two rows.
    let lines = visualizer.render_sized(0, &to_bits(&[0.0, 0.5, 1.0]), 5, 2);
    assert_eq!(lines, vec!["          █", "        █ █"]);
    let lines = visualizer.render_sized(0, &to_bits(&[0.25, 0.75]), 5, 2);
    assert_eq!(lines, vec!["         ▄▄", "      ▄▄ ██"]);
    let narrow = visualizer.render_sized(0, &to_bits(&[0.3, 2.0]), 0, 2);
    assert_eq!(narrow, bars_by_floats(&[0.3, 2.0], 0, 2));
    let one = visualizer.render_sized(0, &to_bits(&[0.4]), 80, 1);
    assert_eq!(one, vec!["      ▃▃"]);
    assert!(visualizer.render_sized(0, &to_bits(&[0.1, 0.2, 0.3]), 10, 0).is_empty());
}

#[test]
fn bars_agree_with_the_same_steps_in_floats() {
    let visualizer = Visualizer::new();
    let mut state: u64 = 0x0123_4567_89AB_CDEF;
    for round in 0..3000 {
        let mut bands = Vec::new();
        let count = 1 + round % 17;
        for _ in 0..count {
            state ^= state << 13;
            state ^= state >> 7;
            state ^= state << 17;
            let level = match state % 11 {
                0 => 0.0,
                1 => 1.0,
                2 => -0.25,
                3 => 1.5,
                4 => f32::NAN,
                5 => ((state >> 20) % 9) as f32 / 8.0,
                6 => ((state >> 20) % 57) as f32 / 56.0,
                _ => ((state >> 11) % 1_000_000) as f32 / 1_000_000.0,
            };
            bands.push(level);
        }
        let height = (state >> 50) as usize % 9;
        let width = (state >> 40) as usize % 60;
        let expected = bars_by_floats(&bands, width, height);
        let got = visualizer.render_sized(0, &to_bits(&bands), width, height);
        assert_eq!(got, expected, "levels {:?}, width {}, height {}", bands, width, height);
    }
}
