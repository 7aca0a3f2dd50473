//! The terminal viewer: how it is started and configured, its keys, its lines and its pictures.

use duscape::bottom_line::{
    controls_legend, selected_line, small_files_legend, status_line, status_room, tips, Slide,
    StatusLine, Strip, Ticker, FRAME, IDLE_TICK, REST, SLIDE,
};
use duscape::cli::{resolve_folder, window_arg, Opt, WindowArg};
use duscape::clipboard::{base64, osc52};
use duscape::color::xterm_256;
use duscape::config::{
    config_path_in, BaseConfig, ConfigError, DuscapeConfig, KeybindConfig, CONFIG_VERSION,
};
use duscape::controls::{
    handle_event, handle_keypress_delete_file_mode, handle_keypress_error_message, handle_keypress_exiting_mode,
    handle_keypress_loading_mode, handle_keypress_normal_mode, handle_keypress_screen_too_small,
    is_key_release, is_mouse_noise, is_passed_on, measure_cell_pixels, modal_of, needs_quit_delay,
    shows_disk, Chrome, Control, ListJump, Modal, UiMode,
};
use duscape::entries::{FileMetadata, FileType};
use duscape::error::Error;
use duscape::front::{choose_front, without_launch_services, Front, Started};
use duscape::grid::{empty_folder, fits, Drawn, RectangleGrid};
use duscape::keybind::{
    Event, KeyBinding, KeyCode, KeyEvent, KeyEventKind, KeyModifiers, Keybinds, MouseButton,
    MouseEvent, MouseEventKind,
};
use duscape::message_box::{
    centred, first_that_fits, lone_line, message_cells, message_rows, names_line, printable,
    question_line, DoomedFile, Line,
};
use duscape::names::Name;
use duscape::palette::median_cut;
use duscape::picture::{block_image, only_described, prepare_image, Color, Prepared, Request};
use duscape::canvas::Rgba;
use duscape::sixel::{sixel, sixel_runs};
use duscape::terminal::{
    erase_cells, graphics_protocol, kitty_delete, kitty_known, kitty_place, parse_reply,
    placement_in, queried_cell_pixels, sixel_place, terminal_query, Cells, Detected, Environment,
    KittyGraphics, NoGraphics, Pictures, Placement, PreparedImage, Protocol, Reply, SixelGraphics,
    TerminalGraphics,
};
use duscape::tui::{
    config_named, folder_details, graphics_for, passed_on, tick_pause, FolderInfo, GraphicsKind,
    PassedOn,
};

const NONE: KeyModifiers = KeyModifiers { shift: false, control: false, alt: false, other: false };
const WITH_SHIFT: KeyModifiers = KeyModifiers { shift: true, ..NONE };
const WITH_CONTROL: KeyModifiers = KeyModifiers { control: true, ..NONE };

fn n(name: &str) -> Name {
    name.as_bytes().to_vec()
}

fn args(list: &[&str]) -> Vec<Name> {
    list.iter().map(|arg| n(arg)).collect()
}

fn press(code: KeyCode, modifiers: KeyModifiers) -> Event {
    Event::Key(KeyEvent { code, modifiers, kind: KeyEventKind::Press })
}

fn key_char(c: char) -> Event {
    press(KeyCode::Char(c), NONE)
}

const TERMINAL: Started = Started { terminal: true, display: true, own_console: false };
const LAUNCHER: Started = Started { terminal: false, display: true, own_console: false };

// ---------------------------------------------------------------- how it is started

#[test]
fn in_a_terminal_it_is_the_terminal_viewer() {
    assert_eq!(choose_front(&args(&["duscape", "/"]), TERMINAL, true), Front::Terminal);
    // With no display either (a console, an ssh session without X).
    let bare = Started { display: false, ..LAUNCHER };
    assert_eq!(choose_front(&args(&["duscape"]), bare, true), Front::Terminal);
}

#[test]
fn from_a_launcher_or_explorer_it_is_the_window() {
    assert_eq!(choose_front(&args(&["duscape"]), LAUNCHER, true), Front::Window);
    let explorer = Started { own_console: true, ..TERMINAL };
    assert_eq!(choose_front(&args(&["duscape.exe"]), explorer, true), Front::Window);
}

#[test]
fn the_flags_decide_and_a_benchmark_is_the_terminals() {
    assert_eq!(choose_front(&args(&["duscape", "--gui", "/"]), TERMINAL, true), Front::Window);
    assert_eq!(choose_front(&args(&["duscape", "--tui"]), LAUNCHER, true), Front::Terminal);
    // Redirected, as the benchmark scripts run it.
    assert_eq!(
        choose_front(&args(&["duscape", "--benchmark", "/"]), LAUNCHER, true),
        Front::Terminal
    );
    assert_eq!(choose_front(&args(&["duscape", "--help"]), LAUNCHER, true), Front::Terminal);
    // Which viewer comes before what is only the terminal's, wherever it stands.
    assert_eq!(
        choose_front(&args(&["duscape", "--benchmark", "--gui", "/"]), TERMINAL, true),
        Front::Window
    );
    assert_eq!(
        choose_front(&args(&["duscape", "--version", "--", "--gui"]), LAUNCHER, true),
        Front::Terminal
    );
    // After `--`, a folder's name.
    assert_eq!(
        choose_front(&args(&["duscape", "--", "--gui"]), TERMINAL, true),
        Front::Terminal
    );
}

#[test]
fn named_for_the_window_it_is_the_window() {
    for name in [
        "duscape-gui",
        "/usr/local/bin/duscape-linux",
        r"C:\tools\duscape-windows.exe",
        "Duscape-Mac",
    ] {
        assert_eq!(choose_front(&args(&[name]), TERMINAL, true), Front::Window, "{name}");
    }
    assert_eq!(choose_front(&args(&["duscape"]), TERMINAL, true), Front::Terminal);
}

#[test]
fn on_windows_a_shared_console_is_a_terminal_redirected_or_not() {
    // The console is the shell's, so it is a terminal session whatever the handles are.
    let redirected_in_a_shell = Started { terminal: true, display: true, own_console: false };
    assert_eq!(
        choose_front(&args(&["duscape.exe"]), redirected_in_a_shell, true),
        Front::Terminal
    );
}

#[test]
fn launch_services_serial_numbers_are_dropped() {
    assert_eq!(
        without_launch_services(&args(&["duscape", "-psn_0_1234", "-a"])),
        args(&["duscape", "-a"])
    );
}

#[test]
fn built_without_the_window_it_is_always_the_terminal_viewer() {
    assert_eq!(choose_front(&args(&["duscape", "--gui"]), LAUNCHER, false), Front::Terminal);
}

#[test]
fn resolve_folder_errors_for_missing_path() {
    let missing = n("/nonexistent_diskonaut_test_path_9f3c2a");
    let err = resolve_folder(missing, false, None).unwrap_err();
    assert!(matches!(err, Error::FolderNotFound(_)));
    assert_eq!(resolve_folder(n("/link"), true, Some(n("/target"))), Ok(n("/target")));
    assert_eq!(resolve_folder(n("/link"), true, None), Ok(n("/link")));
}

#[test]
fn options_become_what_a_scan_does() {
    let opt = Opt {
        folder: Some(n("/tmp")),
        gui: false,
        tui: false,
        no_elevate: false,
        apparent_size: true,
        config: None,
        snapshots: false,
        one_file_system: true,
        hard_link_threshold: Some(3),
        benchmark: false,
        issues: false,
        bench_repeat: 1,
        bench_profile: false,
        bench_shards: 1,
        bench_shard_depth: 1,
        max_depth: Some(4),
        single_thread: true,
        no_device_read: true,
        threads: Some(2),
    };
    let options = opt.scan_options(false);
    assert!(options.show_apparent_size && options.one_file_system);
    assert!(!options.parallel && !options.read_device);
    assert_eq!(options.threads, Some(2));
    assert_eq!(options.max_depth, Some(4));
    assert_eq!(options.hard_link_threshold, Some(3));
}

#[test]
fn the_windows_own_arguments() {
    assert_eq!(window_arg(n("-a"), false), WindowArg::ApparentSize);
    assert_eq!(window_arg(n("--help"), false), WindowArg::Help);
    assert_eq!(window_arg(n("/tmp"), false), WindowArg::Folder(n("/tmp")));
    assert!(matches!(window_arg(n("--dance"), false), WindowArg::Unknown(_)));
}

#[test]
fn the_config_an_error_names() {
    let (asked, usual) = (Some(n("/a")), Some(n("/b")));
    assert_eq!(config_named(&asked, &usual), n("/a"));
    assert_eq!(config_named(&None, &usual), n("/b"));
    assert_eq!(config_named(&None, &None), n("config"));
}

#[test]
fn folder_not_found_display() {
    let err = Error::FolderNotFound("/nope".into());
    assert_eq!(err.message(), "Folder '/nope' does not exist");
}

#[test]
fn no_stdout_display() {
    let err = Error::NoStdout;
    assert_eq!(err.message(), "Failed to get stdout: are you trying to pipe 'diskonaut'?");
}

// ---------------------------------------------------------------- its config

/// A config from the text of its file.
fn config(text: &str) -> DuscapeConfig {
    let table: toml::Table = toml::from_str(text).unwrap();
    let bound = |name: &str| {
        let keybinds = table.get("keybinds")?.as_table()?;
        Some(keybinds.get(name)?.as_str()?.to_string())
    };
    let apparent = table
        .get("base")
        .and_then(|base| base.get("apparent-size"))
        .and_then(toml::Value::as_bool);
    DuscapeConfig {
        version: table["version"].as_integer().unwrap() as u32,
        base: BaseConfig { apparent_size: apparent.unwrap_or(false) },
        keybinds: KeybindConfig {
            quit: bound("quit"),
            delete: bound("delete"),
            move_left: bound("move-left"),
            move_right: bound("move-right"),
            move_up: bound("move-up"),
            move_down: bound("move-down"),
            enter: bound("enter"),
            parent: bound("parent"),
            zoom_in: bound("zoom-in"),
            zoom_out: bound("zoom-out"),
            reset_zoom: bound("reset-zoom"),
            confirm: bound("confirm"),
            cancel: bound("cancel"),
            switch_panel: bound("switch-panel"),
            rescan: bound("rescan"),
            rescan_all: bound("rescan-all"),
            toggle_size: bound("toggle-size"),
        },
    }
}

#[test]
fn default_config_has_expected_keybinds() {
    let kb = DuscapeConfig::default().keybinds().unwrap();
    assert_eq!(kb.delete, KeyBinding::char('d'));
    assert_eq!(kb.quit, KeyBinding::char('q'));
}

#[test]
fn parses_example_config() {
    let toml = r#"
version = 1

[base]
apparent-size = false

[keybinds]
delete = "x"
move-left = "left"
"#;
    let cfg = config(toml);
    assert_eq!(cfg.version, CONFIG_VERSION);
    assert!(!cfg.base.apparent_size);
    let kb = cfg.keybinds().unwrap();
    assert_eq!(kb.delete, KeyBinding::char('x'));
    assert_eq!(kb.move_left, KeyBinding::key(KeyCode::Left));
    assert_eq!(kb.move_right, KeyBinding::char('l'));
}

#[test]
fn rejects_unsupported_version() {
    let err = DuscapeConfig::load(Some(Ok(config("version = 2\n")))).unwrap_err();
    assert!(matches!(err, ConfigError::UnsupportedVersion(2)));
    assert!(DuscapeConfig::load(Some(Ok(config("version = 1\n")))).is_ok());
    assert_eq!(DuscapeConfig::load(None), Ok(DuscapeConfig::default()));
    let unread = ConfigError::Io("denied".into());
    assert_eq!(
        DuscapeConfig::load(Some(Err(unread))),
        Err(ConfigError::Io("denied".into()))
    );
}

#[test]
fn invalid_keybind_returns_error() {
    let cfg = config(
        r#"
version = 1

[keybinds]
delete = "not-a-real-key-name-here"
"#,
    );
    let err = cfg.keybinds().unwrap_err();
    assert!(matches!(err, ConfigError::InvalidKeybind { .. }));
    assert!(err.message().contains("delete"), "{}", err.message());
    // The first action that is set to no key is the one named, not one that is fine.
    let cfg = config("version = 1\n[keybinds]\nquit = \"q\"\nenter = \"no\"\nparent = \"nor\"\n");
    assert_eq!(
        cfg.keybinds(),
        Err(ConfigError::InvalidKeybind {
            name: "enter".to_string(),
            reason: "unknown key: no".to_string(),
        })
    );
}

#[test]
fn errors_of_a_config_in_words() {
    let version = ConfigError::UnsupportedVersion(2).message();
    assert!(version.contains('2'), "{version}");
    assert!(ConfigError::Io("denied".into()).message().contains("denied"));
    assert!(ConfigError::Parse("line 3".into()).message().contains("line 3"));
    let error = Error::Config {
        path: "/c".into(),
        source: ConfigError::Parse("line 3".into()),
    };
    assert!(error.message().contains("/c") && error.message().contains("line 3"));
    assert!(Error::Io("broken pipe".into()).message().contains("broken pipe"));
}

#[test]
fn rescan_keys_default_to_r_and_shift_r() {
    let kb = DuscapeConfig::default().keybinds().unwrap();
    // Terminals report an upper-case letter with Shift held; the binding is the letter alone.
    let shifted_r = press(KeyCode::Char('R'), WITH_SHIFT);
    let plain_r = press(KeyCode::Char('r'), NONE);
    assert!(kb.rescan_all.matches_event(&shifted_r));
    assert!(!kb.rescan.matches_event(&shifted_r));
    assert!(kb.rescan.matches_event(&plain_r));
    assert!(!kb.rescan_all.matches_event(&plain_r));
}

#[test]
fn a_config_from_before_the_rename_is_read_until_there_is_a_new_one() {
    let home = n("/home/me");
    let new = n("/home/me/.config/duscape/config.toml");
    let old = n("/home/me/.config/diskonaut/config.toml");
    // Neither: the new place, for a missing file to be defaults.
    assert_eq!(config_path_in(&home, false, false), new);
    assert_eq!(config_path_in(&home, false, true), old);
    assert_eq!(config_path_in(&home, true, true), new);
}

#[test]
fn keys_are_read_and_named() {
    assert_eq!(KeyBinding::parse("x"), Ok(KeyBinding::char('x')));
    assert_eq!(KeyBinding::parse("left"), Ok(KeyBinding::key(KeyCode::Left)));
    assert!(KeyBinding::parse("").is_err());
    assert_eq!(KeyBinding::key(KeyCode::Backspace).label(), "BACKSPACE");
    assert_eq!(KeyBinding::char('d').label(), "d");
}

// ---------------------------------------------------------------- its keys

#[test]
fn loading_mode_q_prompts_exit() {
    let kb = Keybinds::default();
    assert_eq!(handle_keypress_loading_mode(&key_char('q'), &kb), Control::PromptExit);
}

#[test]
fn normal_mode_d_opens_delete_flow() {
    let kb = Keybinds::default();
    // Which stays as it is without a selected tile.
    assert_eq!(handle_keypress_normal_mode(&key_char('d'), &kb), Control::PromptDeletion);
}

#[test]
fn screen_too_small_ctrl_c_exits() {
    let kb = Keybinds::default();
    let event = press(KeyCode::Char('c'), WITH_CONTROL);
    assert_eq!(handle_keypress_screen_too_small(&event, &kb), Control::Exit);
}

#[test]
fn exiting_mode_y_quits() {
    let kb = Keybinds::default();
    assert_eq!(handle_keypress_exiting_mode(&key_char('y'), &kb), Control::Exit);
}

#[test]
fn delete_mode_n_returns_to_normal() {
    let kb = Keybinds::default();
    assert_eq!(handle_keypress_delete_file_mode(&key_char('n'), &kb), Control::NormalMode);
    assert_eq!(handle_keypress_delete_file_mode(&key_char('y'), &kb), Control::DeleteFiles);
}

#[test]
fn key_releases_are_not_keypresses() {
    let release = Event::Key(KeyEvent {
        code: KeyCode::Char('q'),
        modifiers: NONE,
        kind: KeyEventKind::Release,
    });
    assert!(is_key_release(&release));
    assert!(!is_key_release(&key_char('q')));
    let repeat = Event::Key(KeyEvent {
        code: KeyCode::Char('j'),
        modifiers: NONE,
        kind: KeyEventKind::Repeat,
    });
    assert!(!is_key_release(&repeat), "holding a key down still moves");
}

fn mouse(kind: MouseEventKind) -> Event {
    Event::Mouse(MouseEvent { kind, column: 10, row: 5, modifiers: NONE })
}

#[test]
fn mouse_movement_is_not_passed_on() {
    assert!(!is_mouse_noise(&mouse(MouseEventKind::Down(MouseButton::Left))));
    assert!(!is_mouse_noise(&mouse(MouseEventKind::Down(MouseButton::Right))));
    for kind in [
        MouseEventKind::Moved,
        MouseEventKind::Drag(MouseButton::Left),
        MouseEventKind::Up(MouseButton::Left),
        MouseEventKind::ScrollUp,
        MouseEventKind::ScrollDown,
    ] {
        assert!(is_mouse_noise(&mouse(kind)), "{kind:?}");
        assert!(!is_passed_on(&mouse(kind)), "{kind:?}");
    }
    assert!(!is_mouse_noise(&key_char('q')), "keys are not mouse noise");
    assert!(is_passed_on(&key_char('q')));
}

#[test]
fn a_running_scan_is_not_interrupted_by_a_delete() {
    let kb = Keybinds::default();
    assert_eq!(handle_keypress_loading_mode(&key_char('d'), &kb), Control::ShowWarning);
    let control = handle_keypress_loading_mode(&key_char('r'), &kb);
    assert_ne!(control, Control::RescanSelected);
}

#[test]
fn keys_of_the_usual_view() {
    let kb = Keybinds::default();
    let normal = |event: Event| handle_keypress_normal_mode(&event, &kb);
    assert_eq!(normal(key_char('l')), Control::MoveRight);
    assert_eq!(normal(press(KeyCode::Down, NONE)), Control::MoveDown);
    assert_eq!(normal(press(KeyCode::Down, WITH_SHIFT)), Control::ExtendSelection(1));
    assert_eq!(normal(press(KeyCode::Up, WITH_SHIFT)), Control::ExtendSelection(-1));
    assert_eq!(normal(press(KeyCode::End, NONE)), Control::JumpList(ListJump::End));
    assert_eq!(normal(key_char('R')), Control::RescanAll);
    assert_eq!(normal(key_char('q')), Control::PromptExit);
    assert_eq!(
        normal(mouse(MouseEventKind::Down(MouseButton::Left))),
        Control::Click { button: MouseButton::Left, column: 10, row: 5 }
    );
    assert_eq!(handle_keypress_error_message(&press(KeyCode::Esc, NONE), &kb), Control::NormalMode);
    assert!(needs_quit_delay(&key_char('q'), &kb));
    assert!(!needs_quit_delay(&key_char('j'), &kb));
}

#[test]
fn the_default_keys() {
    let kb = Keybinds::default();
    let normal = |event: Event| handle_event(UiMode::Normal, &event, &kb);
    for (event, control) in [
        (key_char('h'), Control::MoveLeft),
        (key_char('j'), Control::MoveDown),
        (key_char('k'), Control::MoveUp),
        (press(KeyCode::Left, NONE), Control::MoveLeft),
        (press(KeyCode::Enter, NONE), Control::Enter),
        (press(KeyCode::Esc, NONE), Control::GoUp),
        (key_char('d'), Control::PromptDeletion),
        (key_char('+'), Control::ZoomIn),
        (key_char('-'), Control::ZoomOut),
        (key_char('0'), Control::ResetZoom),
        (key_char('a'), Control::ToggleSize),
        (key_char('r'), Control::RescanSelected),
        (press(KeyCode::Char('c'), WITH_CONTROL), Control::PromptExit),
        (press(KeyCode::Tab, NONE), Control::SwitchFocus),
        (press(KeyCode::PageDown, NONE), Control::JumpList(ListJump::PageDown)),
        (key_char('y'), Control::Nothing),
    ] {
        assert_eq!(normal(event), control, "{event:?}");
    }
    assert_eq!(handle_event(UiMode::DeleteFiles, &key_char('y'), &kb), Control::DeleteFiles);
    assert_eq!(handle_event(UiMode::DeleteFiles, &key_char('d'), &kb), Control::Nothing);
    let leaving = UiMode::Exiting { app_loaded: true };
    assert_eq!(handle_event(leaving, &key_char('y'), &kb), Control::Exit);
    assert_eq!(handle_event(UiMode::WarningMessage, &key_char('x'), &kb), Control::ResetMode);
}

#[test]
fn events_are_passed_on_with_the_pause_a_quit_needs() {
    let kb = Keybinds::default();
    assert_eq!(passed_on(&Event::Resize(80, 24), &kb), PassedOn::Resized);
    assert_eq!(passed_on(&key_char('q'), &kb), PassedOn::Keypress { delay: true });
    assert_eq!(passed_on(&key_char('j'), &kb), PassedOn::Keypress { delay: false });
    assert_eq!(tick_pause(true), 0);
    assert_eq!(tick_pause(false) + FRAME, IDLE_TICK);
}

#[test]
fn what_each_mode_shows() {
    let loading = Chrome::of(UiMode::Loading);
    assert!(loading.scanning && loading.flashes_clipboard && !loading.flashes_space);
    let normal = Chrome::of(UiMode::Normal);
    assert!(!normal.scanning && normal.flashes_space && normal.shows_zoom);
    assert!(!Chrome::of(UiMode::WarningMessage).shows_zoom);
    assert!(Chrome::of(UiMode::Exiting { app_loaded: false }).scanning);
    assert_eq!(modal_of(UiMode::DeleteFiles), Modal::Deletion);
    assert_eq!(modal_of(UiMode::Normal), Modal::Nothing);
    assert!(shows_disk(UiMode::Normal, true));
    assert!(!shows_disk(UiMode::Normal, false));
    assert!(!shows_disk(UiMode::Loading, true));
    assert_eq!(measure_cell_pixels(Some(((800, 600), (100, 30))), None, (8, 16)), (8, 20));
    assert_eq!(measure_cell_pixels(None, Some((9, 18)), (8, 16)), (9, 18));
    assert_eq!(measure_cell_pixels(None, None, (8, 16)), (8, 16));
}

#[test]
fn the_side_panel_of_a_folder() {
    let folder = FolderInfo { path: n("/"), size: 300, num_descendants: 10 };
    let root = folder_details(&folder, true, true, 300, Some(400), Some(100));
    assert_eq!((root.scan_total, root.disk), (None, Some((400, 100))));
    let below = folder_details(&folder, false, true, 900, Some(400), Some(100));
    assert_eq!((below.scan_total, below.disk), (Some(900), None));
    assert_eq!(folder_details(&folder, true, false, 300, Some(400), Some(100)).disk, None);
    assert_eq!(folder_details(&folder, true, true, 300, Some(400), None).disk, None);
    assert_eq!((below.size, below.descendants), (300, 10));
}

// ---------------------------------------------------------------- its help line

#[test]
fn legend_names_the_bound_delete_key() {
    let legend = controls_legend(&Keybinds::default(), false, false);
    assert!(legend.contains("<d> - delete"), "{legend}");
    assert!(!legend.contains("BACKSPACE"), "{legend}");
}

#[test]
fn legend_follows_a_rebound_delete_key() {
    let kb = Keybinds { delete: KeyBinding::key(KeyCode::Backspace), ..Keybinds::default() };
    let legend = controls_legend(&kb, false, false);
    assert!(legend.contains("<BACKSPACE> - delete"), "{legend}");
}

#[test]
fn legend_names_the_rescan_keys_once_scanned() {
    let legend = controls_legend(&Keybinds::default(), false, false);
    assert!(legend.contains("<r/R> - rescan folder/all"), "{legend}");
    let legend = controls_legend(&Keybinds::default(), true, false);
    assert!(!legend.contains("rescan"), "{legend}");
}

#[test]
fn legend_omits_delete_while_scanning() {
    let legend = controls_legend(&Keybinds::default(), true, false);
    assert!(!legend.contains("delete"), "{legend}");
    assert!(tips(&Keybinds::default(), true, true)
        .iter()
        .all(|tip| !tip.contains("delete") && !tip.contains("rescan")));
}

#[test]
fn legend_names_the_switch_panel_key_while_there_is_a_list() {
    let legend = controls_legend(&Keybinds::default(), false, true);
    assert!(legend.contains("<TAB> - list/map"), "{legend}");
    let legend = controls_legend(&Keybinds::default(), false, false);
    assert!(!legend.contains("TAB"), "{legend}");
}

fn line(strip: &Strip, ticker: Ticker, width: u16) -> String {
    strip.render(&ticker, width).into_iter().map(|(c, _)| c).collect()
}

const MILLISECOND: u64 = 1_000_000;
const START: u64 = 60_000 * MILLISECOND;

/// Drive `ticker` a frame at a time from `start` until it next comes to rest, with no key
/// pressed. Returns when it did.
fn next_stop(strip: &Strip, ticker: &mut Ticker, width: u16, start: u64) -> u64 {
    let mut now = start;
    let quiet_since = start - REST;
    while !ticker.sliding() {
        strip.advance(ticker, width, quiet_since, now);
        now += FRAME;
    }
    let started = now - FRAME;
    while ticker.sliding() {
        strip.advance(ticker, width, quiet_since, now);
        now += FRAME;
    }
    assert!(now - FRAME - started <= 100 * MILLISECOND);
    now - FRAME
}

#[test]
fn ticker_rests_five_seconds_then_slides_to_the_first_tip_within_100_ms() {
    let strip = Strip::new(&Keybinds::default(), false, true);
    let mut ticker = Ticker::default();
    let start = START;
    let width = 300;
    assert!(line(&strip, ticker, width).starts_with("<arrows> - move around"));
    // Still, however often it is ticked, until five quiet seconds have passed.
    for tenth in 0..50 {
        let now = start + tenth * 100 * MILLISECOND;
        assert!(!strip.advance(&mut ticker, width, start, now));
        assert!(!ticker.sliding());
    }
    let mut now = start + REST;
    strip.advance(&mut ticker, width, start, now);
    assert!(ticker.sliding());
    let mut frames = vec![line(&strip, ticker, width)];
    while ticker.sliding() {
        now += FRAME;
        if strip.advance(&mut ticker, width, start, now) {
            frames.push(line(&strip, ticker, width));
        }
    }
    assert!(now - (start + REST) <= 100 * MILLISECOND);
    assert!(frames.len() >= 4, "a slide, not a jump: {}", frames.len());
    assert!(frames.last().unwrap().starts_with("Tip: Ctrl+click"));
}

#[test]
fn a_key_press_restarts_the_rest() {
    let strip = Strip::new(&Keybinds::default(), false, true);
    let mut ticker = Ticker::default();
    let start = START;
    let pressed = start + 4_000 * MILLISECOND;
    strip.advance(&mut ticker, 300, pressed, start + 6_000 * MILLISECOND);
    assert!(!ticker.sliding());
    strip.advance(&mut ticker, 300, pressed, pressed + REST);
    assert!(ticker.sliding());
}

#[test]
fn a_segment_too_wide_is_shown_a_page_at_a_time() {
    let strip = Strip::new(&Keybinds::default(), false, true);
    let mut ticker = Ticker::default();
    let width = 40;
    let legend = strip.legend.clone();
    let mut now = START;
    let mut pages = vec![line(&strip, ticker, width)];
    while ticker.segment == 0 {
        now = next_stop(&strip, &mut ticker, width, now);
        pages.push(line(&strip, ticker, width));
    }
    // Every page before the tip is a window on the legend, and the last ends where it does.
    let (tip, pages) = pages.split_last().unwrap();
    assert!(tip.starts_with("Tip: "), "{tip}");
    assert!(pages.len() > 2);
    for page in pages {
        assert!(legend.contains(page.as_str()), "{page}");
    }
    assert!(legend.ends_with(pages.last().unwrap().as_str()));
}

#[test]
fn ticker_shows_every_tip_between_legends_and_comes_round() {
    let strip = Strip::new(&Keybinds::default(), false, true);
    let mut ticker = Ticker::default();
    let mut now = START;
    let mut starts = Vec::new();
    loop {
        now = next_stop(&strip, &mut ticker, 300, now);
        starts.push(line(&strip, ticker, 12));
        if ticker.segment == 0 {
            break;
        }
    }
    assert_eq!(starts.len(), strip.tips.len() * 2, "{starts:?}");
    for (index, start) in starts.iter().enumerate() {
        let expected = if index % 2 == 0 { "Tip: " } else { "<arrows> - " };
        assert!(start.starts_with(expected), "{index}: {start}");
    }
}

#[test]
fn a_legend_that_changes_mid_slide_still_lands_on_the_next_tip() {
    let scanning = Strip::new(&Keybinds::default(), true, true);
    let done = Strip::new(&Keybinds::default(), false, true);
    let mut ticker = Ticker::default();
    let start = START;
    // The whole legend fits, so its one slide heads for the first tip.
    scanning.advance(&mut ticker, 1000, start - REST, start);
    assert!(ticker.sliding());
    // The scan finishes mid-slide, and the legend grows.
    let mut now = start;
    while ticker.sliding() {
        now += FRAME;
        done.advance(&mut ticker, 1000, start - REST, now);
    }
    assert!(line(&done, ticker, 40).starts_with("Tip: "), "{}", line(&done, ticker, 40));
}

#[test]
fn a_legend_that_shrinks_under_the_ticker_does_not_jump_back() {
    // Resting past where the shorter legend's last page starts: it shows that page, not the
    // start again, and not the next segment.
    let short = Strip::new(&Keybinds::default(), true, false);
    let ticker = Ticker { column: 10_000, ..Ticker::default() };
    let shown = line(&short, ticker, 20);
    assert!(short.legend.ends_with(shown.as_str()), "{shown}");
}

#[test]
fn a_slide_is_over_in_time() {
    let strip = Strip::new(&Keybinds::default(), false, true);
    let mut ticker = Ticker::default();
    strip.advance(&mut ticker, 300, START, START + REST);
    assert!(ticker.sliding());
    strip.advance(&mut ticker, 300, START, START + REST + SLIDE);
    assert!(!ticker.sliding());
    assert_eq!(ticker.segment, 1);
}

#[test]
fn a_slide_is_seven_eighths_done_at_half_time() {
    let strip = Strip::new(&Keybinds::default(), false, true);
    for columns in [0, 1, 80, 1000, usize::MAX] {
        let slide = Slide { from: 0, to: columns, to_next: true, started: START, shown: 0 };
        let mut ticker = Ticker { slide: Some(slide), ..Ticker::default() };
        let moved = strip.advance(&mut ticker, 300, START, START + SLIDE / 2);
        let shown = ((columns as u128 * 7 + 4) / 8) as usize;
        assert_eq!(ticker.slide.map(|slide| slide.shown), Some(shown));
        assert_eq!(moved, shown != 0);
    }
}

#[test]
fn the_line_of_the_entry_in_hand() {
    let entry = FileMetadata {
        name: n("docs"),
        size: 2048,
        descendants: Some(3),
        file_type: FileType::Folder,
    };
    let line = selected_line(&entry, "2.0K", 200).expect("room");
    assert!(line.contains("docs") && line.contains("2.0K") && line.contains('3'), "{line}");
    assert_eq!(selected_line(&entry, "2.0K", 3), None);
    assert_eq!((status_room(80, true), status_room(80, false)), (62, 79));
    assert_eq!(status_room(1, false), 0);
    assert_eq!(small_files_legend(), "(x = Small files)");
    let long = FileMetadata { name: vec![b'x'; 65_540], descendants: None, ..entry.copy() };
    let long = FileMetadata { file_type: FileType::File, ..long };
    assert_eq!(selected_line(&long, "2.0K", 80), None, "far too long");
    let none = status_line(&None, &None, "", &None, 60);
    assert_eq!(none, StatusLine::Nothing);
    let read = status_line(&None, &None, "", &Some("/a".to_string()), 60);
    assert!(matches!(read, StatusLine::LastRead { whole: true }), "{read:?}");
}

// ---------------------------------------------------------------- its questions

fn doomed(name: &str) -> DoomedFile {
    DoomedFile {
        name: name.to_string(),
        path: format!("/data/{name}"),
        file_type: FileType::File,
        descendants: None,
    }
}

fn whole(text: &str) -> Line {
    Line::Whole(text.to_string())
}

#[test]
fn one_entry_reads_as_it_always_did() {
    let files = vec![doomed("notes.txt")];
    assert_eq!(question_line(&files, "10", 60), "Delete this file?");
    assert_eq!(names_line(&files, 60), whole("/data/notes.txt"));
    assert_eq!(names_line(&files, 15), Line::Cut("notes.txt".to_string()));
    assert_eq!(names_line(&Vec::new(), 60), whole(""), "of no entries");
}

#[test]
fn several_entries_are_counted_and_named_as_far_as_they_fit() {
    let files = vec![doomed("alpha"), doomed("beta"), doomed("gamma")];
    assert_eq!(question_line(&files, "4.0K", 60), "Delete these 3 items (4.0K)?");
    assert_eq!(question_line(&files, "4.0K", 16), "Delete 3 items?");
    assert_eq!(names_line(&files, 60), whole("alpha, beta, gamma"));
    assert_eq!(names_line(&files, 18), whole("alpha, beta, gamma"), "exactly fits");
    assert_eq!(names_line(&files, 17), whole("alpha and 2 more"));
    assert_eq!(names_line(&files, 5), Line::Cut("alpha and 2 more".to_string()));
}

#[test]
fn wide_characters_take_two_columns() {
    let files = vec![doomed("日本"), doomed("語")];
    assert_eq!(names_line(&files, 8), whole("日本, 語"));
    assert_eq!(names_line(&files, 7), Line::Cut("日本 and 1 more".to_string()));
    assert_eq!(first_that_fits(&vec![20, 10, 5], 12), 1);
    assert_eq!(first_that_fits(&vec![20, 10, 5], 2), 2, "the last where none fits");
    assert_eq!(lone_line("a".into(), 3, "b".into(), 4), whole("a"));
    assert_eq!(lone_line("a".into(), 4, "b".into(), 4), Line::Cut("b".to_string()));
}

#[test]
fn a_folder_is_asked_about_with_what_it_holds() {
    let folder = DoomedFile {
        file_type: FileType::Folder,
        descendants: Some(1234),
        ..doomed("docs")
    };
    let files = vec![folder];
    assert_eq!(question_line(&files, "", 60), "Delete folder with 1,234 children?");
    assert_eq!(question_line(&files, "", 20), "Delete folder?");
    assert_eq!(question_line(&files, "", 3), "Delete?");
}

#[test]
fn control_characters_are_not_drawn() {
    assert_eq!(printable("a\x1b[31mb\u{7f}\u{85}é"), "a?[31mb??é");
    for code in 0..0x300u32 {
        if let Some(c) = char::from_u32(code) {
            let drawn = printable(&c.to_string());
            assert_eq!(drawn == "?" && c != '?', c.is_control(), "{code:x}");
        }
    }
}

#[test]
fn the_question_is_in_the_middle_of_the_screen() {
    let screen = Cells { x: 0, y: 0, width: 100, height: 24 };
    let cells = message_cells(screen);
    assert_eq!(cells, Cells { x: 25, y: 7, width: 50, height: 10 });
    assert_eq!(message_cells(Cells { width: 200, ..screen }).width, 150);
    assert_eq!(message_rows(cells, false), [9, 12, 15]);
    assert_eq!(message_rows(cells, true), [11, 13]);
    assert_eq!(centred(25, 50, 11), 45);
    assert_eq!(centred(25, 50, 60), 25);
}

// ---------------------------------------------------------------- its treemap

fn tile(name: &str, x: u16, width: u16) -> duscape::entries::Tile {
    duscape::entries::Tile {
        entry: FileMetadata {
            name: n(name),
            size: 1,
            descendants: None,
            file_type: FileType::File,
        },
        x,
        y: 0,
        width,
        height: 10,
    }
}

#[test]
fn a_tile_past_the_edge_is_left_out() {
    let screen = Cells { x: 0, y: 0, width: 40, height: 12 };
    assert!(fits(screen, &tile("a", 20, 19)));
    assert!(!fits(screen, &tile("a", 20, 20)), "its border is on the next column");
    let tiles = vec![tile("a", 0, 20), tile("b", 20, 20), tile("c", 20, 10)];
    let marked = vec![n("c")];
    let grid = RectangleGrid {
        rectangles: &tiles,
        small_files_coordinates: Some((30, 4)),
        selected_rect_index: Some(0),
        marked: &marked,
    };
    assert_eq!(
        grid.render(screen),
        [
            Drawn { index: 0, selected: true, marked: false },
            Drawn { index: 2, selected: false, marked: true },
        ]
    );
    assert_eq!(grid.small_files(screen), Some(Cells { x: 30, y: 4, width: 10, height: 8 }));
}

#[test]
fn an_empty_folder_says_so() {
    let area = Cells { x: 2, y: 1, width: 40, height: 10 };
    assert_eq!(empty_folder(area), ("Folder is empty".to_string(), 15, 5));
}

// ---------------------------------------------------------------- its clipboard

#[test]
fn osc52_frames_the_text() {
    assert_eq!(osc52("'a b'"), b"\x1b]52;c;J2EgYic=\x07");
}

#[test]
fn base64_pads_to_fours() {
    for (plain, code) in [
        ("", ""),
        ("f", "Zg=="),
        ("fo", "Zm8="),
        ("foo", "Zm9v"),
        ("foob", "Zm9vYg=="),
        ("fooba", "Zm9vYmE="),
        ("foobar", "Zm9vYmFy"),
    ] {
        assert_eq!(base64(plain.as_bytes()), code.as_bytes(), "{plain}");
    }
}

// ---------------------------------------------------------------- its pictures

fn prepared(png_len: usize) -> PreparedImage {
    PreparedImage {
        generation: 7,
        data: vec![0xAB; png_len],
        columns: 20,
        rows: 10,
        description: "PNG 1×1".to_string(),
    }
}

#[test]
fn kitty_sequences_are_quiet_chunked_and_placed() {
    let mut out = Vec::new();
    let placement = Placement { image: prepared(5000), column: 3, row: 4 };
    kitty_place(&mut out, &placement);
    let text = String::from_utf8(out).expect("ascii");
    assert!(text.starts_with("\x1b7\x1b[5;4H"), "saves the cursor, goes to row 5 col 4");
    assert!(text.ends_with("\x1b8"), "puts the cursor back");
    let first = text.find("\x1b_Ga=T,f=100,t=d,").expect("transmit and place");
    let header = &text[first..text[first..].find(';').map(|at| first + at).expect(";")];
    for key in ["i=53596", "c=20", "r=10", "C=1", "z=-1", "q=2", "m=1"] {
        assert!(header.contains(key), "{key} in {header}");
    }
    // 5000 bytes are 6668 base64 characters: two chunks.
    assert_eq!(text.matches("\x1b_G").count(), 2);
    assert!(text.contains("\x1b_Gm=0,q=2;"), "the last chunk says it is the last");
    for chunk in text.split("\x1b_G").skip(1) {
        let data = chunk.split(';').nth(1).unwrap_or_default();
        let data = data.split("\x1b\\").next().unwrap_or_default();
        assert!(data.len() <= 4096, "chunk of {}", data.len());
    }

    let mut out = Vec::new();
    kitty_delete(&mut out);
    assert_eq!(out, b"\x1b_Ga=d,d=I,i=53596,q=2\x1b\\");
}

#[test]
fn the_reply_waits_for_device_attributes() {
    let kitty = |reply: &[u8]| parse_reply(reply).map(|reply| reply.kitty);
    assert_eq!(kitty(b""), None);
    assert_eq!(kitty(b"\x1b_Gi=31;OK\x1b\\"), None);
    assert_eq!(kitty(b"\x1b_Gi=31;OK\x1b\\\x1b[?62;"), None);
    assert_eq!(kitty(b"\x1b_Gi=31;OK\x1b\\\x1b[?62;22c"), Some(true));
    assert_eq!(kitty(b"\x1b[?1;2c"), Some(false));
    assert_eq!(kitty(b"\x1b_Gi=31;EINVAL:bad\x1b\\\x1b[?62;22c"), Some(false));
}

#[test]
fn the_reply_says_sixels_and_cell_size() {
    assert_eq!(
        parse_reply(b"\x1b[6;20;10t\x1b[?62;4;22c"),
        Some(Reply {
            answered: true,
            kitty: false,
            sixel: true,
            cell_pixels: Some((10, 20)),
        })
    );
    let sixel = |reply: &[u8]| parse_reply(reply).map(|reply| reply.sixel);
    assert_eq!(sixel(b"\x1b[?4c"), Some(true));
    assert_eq!(sixel(b"\x1b[?1;2c"), Some(false));
    assert_eq!(sixel(b"\x1b[?62;14;42c"), Some(false), "14 and 42 are not 4");
    let cell = |reply: &[u8]| parse_reply(reply).and_then(|reply| reply.cell_pixels);
    assert_eq!(cell(b"\x1b[?62;4c"), None, "no report");
    assert_eq!(cell(b"\x1b[6;0;0t\x1b[?62;4c"), None, "a report of nothing");
}

fn filled(width: usize, height: usize, pixel: impl Fn(usize, usize) -> [u8; 4]) -> Rgba {
    let mut data = Vec::new();
    for y in 0..height {
        for x in 0..width {
            data.extend_from_slice(&pixel(x, y));
        }
    }
    Rgba { width, height, data }
}

#[test]
fn sixels_are_banded_and_run_length_coded() {
    // 8×7: red on top, a transparent row, then blue — two bands.
    let picture = filled(8, 7, |_, y| match y {
        0..=2 => [255, 0, 0, 255],
        3 => [0, 0, 0, 0],
        _ => [0, 0, 255, 255],
    });
    let text = String::from_utf8(sixel(&picture)).expect("ascii");
    assert!(text.starts_with("\x1bP0;1;0q\"1;1;8;7"), "{text:?}");
    assert!(text.ends_with("\x1b\\"), "{text:?}");
    let red = text.find(";2;100;0;0").expect("red in the palette");
    let blue = text.find(";2;0;0;100").expect("blue in the palette");
    let register = |at: usize| text[..at].rsplit('#').next().unwrap_or_default().to_string();
    let (red, blue) = (register(red), register(blue));
    // Band one: red in rows 0–2 (bits 0b000111 → 'F'), blue in rows 4–5 (0b110000 → 'o').
    assert!(
        text.contains(&format!("#{red}!8F$#{blue}!8o-"))
            || text.contains(&format!("#{blue}!8o$#{red}!8F-")),
        "{text:?}"
    );
    // Band two: blue in its first row only, and nothing after it.
    assert!(text.ends_with(&format!("#{blue}!8@\x1b\\")), "{text:?}");
}

#[test]
fn sixel_runs_code_long_runs_and_drop_trailing_blanks() {
    let mut out = Vec::new();
    sixel_runs(&[1, 1, 1, 2, 2, 2, 2, 2, 0, 0], &mut out);
    assert_eq!(out, b"@@@!5A");
}

#[test]
fn median_cut_fits_the_palette_to_the_picture() {
    let pixels: Vec<(u32, [u8; 3])> = (0..4)
        .flat_map(|colour| {
            (0..10).map(move |_| [[255, 0, 0], [0, 255, 0], [0, 0, 255], [9, 9, 9]][colour])
        })
        .enumerate()
        .map(|(at, colour)| (at as u32, colour))
        .collect();
    let (palette, indices) = median_cut(&pixels, 256);
    assert_eq!(palette.len(), 4);
    for (&(_, colour), &index) in pixels.iter().zip(&indices) {
        assert_eq!(palette[usize::from(index)], colour);
    }
    let gradient: Vec<(u32, [u8; 3])> = (0..=255u8)
        .flat_map(|r| (0..4u8).map(move |g| [r, g * 60, 0]))
        .enumerate()
        .map(|(at, c)| (at as u32, c))
        .collect();
    let (palette, indices) = median_cut(&gradient, 16);
    assert_eq!(palette.len(), 16);
    assert!(indices.iter().all(|&index| usize::from(index) < 16));
    assert_eq!(median_cut(&[], 256), (Vec::new(), Vec::new()));
}

#[test]
fn distinct_colours_are_kept_apart_while_there_are_registers() {
    let (red, blue) = ([255, 0, 0], [0, 0, 255]);
    let pixels = [(0, red), (1, red), (2, red), (3, blue)];
    let (palette, indices) = median_cut(&pixels, 2);
    assert_eq!(palette.len(), 2);
    assert_eq!(palette[usize::from(indices[0])], red);
    assert_eq!(palette[usize::from(indices[3])], blue);
    // Sixteen colours, each more often than the one before, and as many registers.
    let mut many: Vec<(u32, [u8; 3])> = Vec::new();
    for colour in 0..16u8 {
        for _ in 0..=colour {
            many.push((many.len() as u32, [colour * 16, 255 - colour, colour % 3]));
        }
    }
    let (palette, indices) = median_cut(&many, 16);
    assert_eq!(palette.len(), 16);
    for (&(_, colour), &index) in many.iter().zip(&indices) {
        assert_eq!(palette[usize::from(index)], colour);
    }
    // One register for all: their average.
    assert_eq!(median_cut(&pixels, 1).0, [[191, 0, 64]]);
}

#[test]
fn sixel_sequences_are_placed_and_erased() {
    let mut out = Vec::new();
    let placement = Placement { image: prepared(3), column: 3, row: 4 };
    sixel_place(&mut out, &placement);
    assert_eq!(out, b"\x1b7\x1b[5;4H\xAB\xAB\xAB\x1b8");
    let mut out = Vec::new();
    erase_cells(&mut out, Cells { x: 3, y: 4, width: 20, height: 2 });
    assert_eq!(
        String::from_utf8(out).expect("ascii"),
        "\x1b7\x1b[0m\x1b[5;4H\x1b[20X\x1b[6;4H\x1b[20X\x1b8"
    );
}

#[test]
fn colours_map_to_the_nearest_of_the_256() {
    assert_eq!(xterm_256(0, 0, 0), 16);
    assert_eq!(xterm_256(255, 255, 255), 231);
    assert_eq!(xterm_256(255, 0, 0), 196);
    assert_eq!(xterm_256(128, 128, 128), 244, "a grey from the grey ramp");
    assert_eq!(xterm_256(0, 95, 135), 24);
}

fn request(pictures: Pictures) -> Request {
    Request {
        generation: 3,
        path: n("/wide.png"),
        cells: (39, 11),
        cell_pixels: (8, 16),
        pictures,
    }
}

#[test]
fn a_picture_is_sent_as_a_png_in_whole_cells() {
    // 39×11 cells of 8×16 is 312×176px; 1600×400 fits as 312×78, 39×5 cells.
    assert_eq!(request(Pictures::Kitty).picture_room(), (312, 176));
    let scaled = filled(312, 78, |x, y| [(x % 256) as u8, (y % 256) as u8, 128, 255]);
    let made = prepare_image(&request(Pictures::Kitty), &scaled, "PNG 1600×400".to_string());
    let Prepared::Image(image) = made else {
        panic!("expected a picture, got {made:?}");
    };
    assert_eq!((image.generation, image.columns, image.rows), (3, 39, 5));
    let decoded = image::load_from_memory(&image.data).expect("a PNG").to_rgba8();
    assert_eq!((decoded.width(), decoded.height()), (312, 78));
    assert_eq!(decoded.into_raw(), scaled.data);
    assert!(image.description.ends_with("1600×400"));
}

#[test]
fn a_picture_as_sixels_is_in_whole_bands() {
    // 11 rows of 16px is 176px, cut to 174.
    assert_eq!(request(Pictures::Sixel).picture_room(), (312, 174));
    let scaled = filled(43, 174, |_, _| [10, 20, 30, 255]);
    let made = prepare_image(&request(Pictures::Sixel), &scaled, "PNG 400×1600".to_string());
    let Prepared::Image(image) = made else {
        panic!("expected a picture, got {made:?}");
    };
    let text = String::from_utf8_lossy(&image.data).into_owned();
    assert!(text.starts_with("\x1bP0;1;0q\"1;1;43;174#"), "{text:?}");
    assert_eq!((image.columns, image.rows), (6, 11));
}

#[test]
fn a_picture_in_half_blocks() {
    // Red above, nothing below.
    let scaled = filled(312, 78, |_, y| if y < 39 { [255, 0, 0, 255] } else { [0, 0, 0, 0] });
    for (true_color, red) in [(true, Color::Rgb(255, 0, 0)), (false, Color::Indexed(196))] {
        let blocks = request(Pictures::Blocks { true_color });
        let made = prepare_image(&blocks, &scaled, "PNG 1600×400".to_string());
        let Prepared::Blocks(image) = made else {
            panic!("expected blocks, got {made:?}");
        };
        // 39 cells across, 78/8 → 10 half rows, 5 rows.
        assert_eq!((image.columns, image.rows), (39, 5));
        assert_eq!(image.pixels.len(), 39 * 10);
        assert_eq!(image.pixel(0, 0), Some(red), "the red top half");
        assert_eq!(image.pixel(38, 9), None, "the transparent bottom half");
        assert_eq!(image.pixel(39, 0), None, "outside");
        assert!(image.description.ends_with("1600×400"));
        let again = block_image(&blocks, &scaled, true_color, String::new());
        assert_eq!(again.pixels, image.pixels);
    }
}

#[test]
fn without_graphics_a_picture_is_only_described() {
    assert!(only_described(&request(Pictures::Described), 1, 100));
    assert!(only_described(&request(Pictures::Kitty), 101, 100), "too large to read");
    assert!(!only_described(&request(Pictures::Kitty), 100, 100));
}

fn environment() -> Environment {
    Environment {
        graphics: String::new(),
        tmux: String::new(),
        term: String::new(),
        kitty_window_id: String::new(),
        ghostty_resources_dir: String::new(),
        term_program: String::new(),
        wt_session: String::new(),
        colorterm: String::new(),
    }
}

#[test]
fn terminals_are_known_or_asked() {
    let kitty = Environment { kitty_window_id: "1".into(), ..environment() };
    let Detected::Known(graphics) = kitty.detect() else {
        panic!("known");
    };
    assert_eq!(graphics_protocol(&graphics), Some(Protocol::Kitty));
    assert!(kitty_known(&Some(graphics)));
    assert!(!kitty_known(&None));
    assert!(matches!(environment().detect(), Detected::Ask { .. }));
    let sixels = Reply { answered: true, kitty: false, sixel: true, cell_pixels: Some((10, 20)) };
    let judged = environment().judge(Some(sixels));
    assert_eq!(judged.protocol, Some(Protocol::Sixel));
    assert_eq!(queried_cell_pixels(&Some(judged)), Some((10, 20)));
    assert_eq!(queried_cell_pixels(&None), None);
    let colourful = Environment { colorterm: "truecolor".into(), ..environment() };
    assert!(colourful.true_color_supported());
    assert_eq!(colourful.pictures(None), Pictures::Blocks { true_color: true });
    assert_eq!(colourful.pictures(Some(Protocol::Kitty)), Pictures::Kitty);
    assert_eq!(graphics_for(Pictures::Sixel), GraphicsKind::Sixel);
    assert_eq!(graphics_for(Pictures::Described), GraphicsKind::NoGraphics);
    let asked = terminal_query(true);
    assert!(asked.ends_with(b"\x1b[c"), "the device attributes end the answer");
    assert!(asked.len() > terminal_query(false).len());
    let nothing = TerminalGraphics { protocol: None, cell_pixels: None };
    assert_eq!(graphics_protocol(&nothing), None);
}

#[test]
fn a_picture_is_sent_once_and_taken_away() {
    let place = |generation: u64| Placement {
        image: PreparedImage { generation, ..prepared(3) },
        column: 1,
        row: 1,
    };
    let mut kitty = KittyGraphics { shown: None };
    assert!(!kitty.show(&Some(place(1))).is_empty());
    assert!(kitty.show(&Some(place(1))).is_empty(), "there already");
    assert!(!kitty.show(&Some(place(2))).is_empty(), "another");
    assert_eq!(kitty.show(&None), b"\x1b_Ga=d,d=I,i=53596,q=2\x1b\\");
    assert!(kitty.show(&None).is_empty());
    let mut sixel = SixelGraphics { shown: None };
    assert!(sixel.prepare(&Some(place(1))).is_empty(), "nothing to erase");
    assert!(!sixel.show(&Some(place(1))).is_empty());
    assert!(sixel.show(&Some(place(1))).is_empty(), "there already");
    assert!(!sixel.prepare(&None).is_empty(), "erased");
    assert!(kitty.stays_under_text() && !sixel.stays_under_text());
    assert!(NoGraphics.show(&Some(place(1))).is_empty() && NoGraphics.stays_under_text());
    let area = Cells { x: 10, y: 5, width: 30, height: 12 };
    let placed = placement_in(area, prepared(3));
    assert_eq!((placed.column, placed.row), (15, 5), "centred across");
}
