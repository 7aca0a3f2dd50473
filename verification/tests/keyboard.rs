//! Keys and buttons from the window systems.

use duscape::backend::{level_keysym, systems_to_try, Button, Mods, System};
use duscape::keys;
use duscape::mac_view::{
    carried_over, goes_up, mouse_down, not_a_folder, scroll_list, wheel_zooms, MacPress, Scrolled,
    Turned,
};
use duscape::script::{clicks, key, key_press, modifiers, parse, Step};
use duscape::wayland::{
    button_of, keymap_bytes, next_buffer, wheel, Keyboard, NextBuffer, Output, Surface, Wheel,
    MAX_BUFFERS,
};
use duscape::window::{mac_key, KeyAction};
use duscape::x11::{
    announced_property, clipboard_answer, mods, ClipboardAtoms, Given, Keymap, XEvent, XInput,
    XWindow, CONTROL, LOCK, SHIFT,
};
use duscape::xkb::{keysym_from_name, space, trimmed, Xkb};
use duscape::state::pointer::Hit;
use duscape::state::{Direction, Jump, Mods as Marking};

const KEYMAP: &str = r#"xkb_keymap {
xkb_keycodes "evdev+aliases(qwerty)" {
    minimum = 8;
    maximum = 255;
    <ESC>  = 9;
    <AE01> = 10;
    <AE11> = 20;
    <AD01> = 24;
    <AC01> = 38;
    <LEFT> = 113;
    <KPEN> = 104;
    alias <LatA> = <AC01>;
    indicator 1 = "Caps Lock";
};
xkb_types "complete" { type "ONE_LEVEL" { modifiers= none; level_name[Level1]= "Any"; }; };
xkb_compatibility "complete" { interpret.useModMapMods= AnyLevel; };
xkb_symbols "pc+de+inet(evdev)" {
    name[group1]="German";
    key  <ESC> {         [          Escape ] };
    key <AE01> {         [               1,          exclam,     onesuperior,      exclamdown ] };
    key <AE11> {         [          ssharp,        question,       backslash,    questiondown ] };
    key <AD01> {
        type= "FOUR_LEVEL",
        symbols[Group1]= [               q,               Q,              at,     Greek_OMEGA ]
    };
    key <LatA> {         [               a,               A,              ae,              AE ] };
    key <LEFT> {         [            Left ] };
    key <KPEN> {         [        KP_Enter ] };
    modifier_map Shift { <LFSH>, <RTSH> };
};
xkb_geometry "pc(pc105)" { width= 470; };
};"#;

#[test]
fn letters_shift_by_case_and_caps_lock_only_touches_letters() {
    let a = u32::from('a');
    assert_eq!(level_keysym(a, 0, false, false), a);
    assert_eq!(level_keysym(a, 0, true, false), u32::from('A'));
    assert_eq!(level_keysym(a, 0, false, true), u32::from('A'));
    assert_eq!(level_keysym(a, 0, true, true), a);
    let (one, bang) = (u32::from('1'), u32::from('!'));
    assert_eq!(level_keysym(one, bang, false, false), one);
    assert_eq!(level_keysym(one, bang, true, false), bang);
    assert_eq!(level_keysym(one, bang, false, true), one);
    assert_eq!(level_keysym(keys::LEFT, 0, true, true), keys::LEFT);
}

#[test]
fn every_latin_letter_has_its_other_case() {
    for plain in 0..0x100u32 {
        let c = char::from_u32(plain).expect("a Latin-1 character");
        let (lower, upper) = if c.is_alphabetic() {
            (c.to_lowercase().next(), c.to_uppercase().next())
        } else {
            (Some(c), Some(c))
        };
        assert_eq!(char::from_u32(level_keysym(plain, 0, false, false)), lower, "{c}");
        assert_eq!(char::from_u32(level_keysym(plain, 0, true, false)), upper, "{c}");
    }
}

#[test]
fn a_window_system_is_asked_for_or_tried_in_turn() {
    let forced = |name: &str| Some(name.to_string());
    assert_eq!(systems_to_try(&None, true), Ok(vec![System::Wayland, System::X11]));
    assert_eq!(systems_to_try(&None, false), Ok(vec![System::X11, System::Wayland]));
    assert_eq!(systems_to_try(&forced("x11"), true), Ok(vec![System::X11]));
    assert_eq!(systems_to_try(&forced("wayland"), false), Ok(vec![System::Wayland]));
    assert!(systems_to_try(&forced("mir"), true).is_err());
}

#[test]
fn the_core_mapping_is_read_by_column() {
    // Two keycodes from 8: `a`/`A` given as one keysym, `1`/`!` as two, and Left as one.
    let map = Keymap {
        min_keycode: 8,
        per_keycode: 2,
        keysyms: vec![
            u32::from('a'),
            0,
            u32::from('1'),
            u32::from('!'),
            keys::LEFT,
            0,
        ],
    };
    assert_eq!(map.keysym(8, 0), Some(u32::from('a')));
    assert_eq!(map.keysym(8, SHIFT), Some(u32::from('A')));
    assert_eq!(map.keysym(9, SHIFT), Some(u32::from('!')));
    assert_eq!(map.keysym(10, SHIFT | LOCK), Some(keys::LEFT));
    assert_eq!(map.keysym(7, 0), None);
    assert_eq!(map.keysym(11, 0), None);
}

#[test]
fn events_of_the_x_server() {
    let mut window = XWindow {
        keymap: Keymap { min_keycode: 8, per_keycode: 1, keysyms: vec![u32::from('a')] },
        size: (640, 480),
    };
    let plain = Mods { shift: false, control: false };
    assert_eq!(window.event(XEvent::Expose { count: 0 }), XInput::Redraw);
    assert_eq!(window.event(XEvent::Expose { count: 2 }), XInput::Nothing);
    assert_eq!(window.event(XEvent::Configure { width: 640, height: 480 }), XInput::Nothing);
    assert_eq!(
        window.event(XEvent::Configure { width: 800, height: 480 }),
        XInput::Resized { width: 800, height: 480 }
    );
    assert_eq!(window.size, (800, 480));
    assert_eq!(
        window.event(XEvent::Key { keycode: 8, state: CONTROL }),
        XInput::Key { keysym: u32::from('a'), mods: Mods { shift: false, control: true } }
    );
    assert_eq!(window.event(XEvent::Key { keycode: 9, state: 0 }), XInput::Nothing);
    assert_eq!(
        window.event(XEvent::Button { detail: 1, x: 3, y: 4, state: 0 }),
        XInput::Button { button: Button::Left, x: 3, y: 4, mods: plain }
    );
    assert_eq!(
        window.event(XEvent::Button { detail: 4, x: 3, y: 4, state: SHIFT }),
        XInput::Button { button: Button::WheelUp, x: 3, y: 4, mods: mods(SHIFT) }
    );
    assert_eq!(
        window.event(XEvent::Button { detail: 8, x: 0, y: 0, state: 0 }),
        XInput::Button { button: Button::Back, x: 0, y: 0, mods: plain }
    );
    assert_eq!(window.event(XEvent::Leave), XInput::Leave);
    assert_eq!(window.event(XEvent::Focus(false)), XInput::Focus(false));
    assert_eq!(window.event(XEvent::Message { closes: true }), XInput::Close);
    assert_eq!(window.event(XEvent::Message { closes: false }), XInput::Nothing);
    assert_eq!(window.event(XEvent::SelectionClear), XInput::DropClipboard);
    assert_eq!(window.event(XEvent::Mapping), XInput::FetchKeymap);
}

#[test]
fn a_paste_is_answered_in_what_was_asked_for() {
    let atoms = ClipboardAtoms { targets: 1, utf8: 2, string: 3 };
    assert_eq!(clipboard_answer(&atoms, 1, 9), (Given::Targets, 9));
    assert_eq!(clipboard_answer(&atoms, 2, 9), (Given::Text, 9));
    assert_eq!(clipboard_answer(&atoms, 3, 9), (Given::Text, 9));
    assert_eq!(clipboard_answer(&atoms, 4, 9).0, Given::Nothing);
    assert_eq!(clipboard_answer(&atoms, 2, 0), (Given::Text, 2), "the target stands in for no property");
    assert_eq!(announced_property(true, 9), 9);
    assert_eq!(announced_property(false, 9), 0);
}

#[test]
fn keycodes_symbols_and_aliases_are_read() {
    let xkb = Xkb::parse(KEYMAP);
    assert_eq!(xkb.len(), 7);
    assert_eq!(xkb.keysym(1, false, false), Some(keys::ESCAPE));
    assert_eq!(xkb.keysym(2, false, false), Some(u32::from('1')));
    assert_eq!(xkb.keysym(2, true, false), Some(u32::from('!')));
    assert_eq!(xkb.keysym(16, false, false), Some(u32::from('q')));
    assert_eq!(xkb.keysym(16, true, false), Some(u32::from('Q')));
    assert_eq!(xkb.keysym(30, false, true), Some(u32::from('A')), "through the alias");
    assert_eq!(xkb.keysym(105, true, false), Some(keys::LEFT));
    assert_eq!(xkb.keysym(96, false, false), Some(keys::KP_ENTER));
    // ß has no name this reads, so the key means nothing rather than the US `-`.
    assert_eq!(xkb.keysym(12, false, false), None);
}

#[test]
fn keys_the_keymap_lacks_fall_back_to_a_us_layout() {
    let xkb = Xkb::empty();
    assert_eq!(xkb.keysym(32, false, false), Some(u32::from('d')));
    assert_eq!(xkb.keysym(32, true, false), Some(u32::from('D')));
    assert_eq!(xkb.keysym(13, true, false), Some(u32::from('+')));
    assert_eq!(xkb.keysym(108, false, false), Some(keys::DOWN));
    assert_eq!(xkb.keysym(28, false, false), Some(keys::RETURN));
    assert_eq!(xkb.keysym(42, false, false), None, "Shift itself");
}

#[test]
fn broken_keymaps_are_read_as_far_as_they_go() {
    assert_eq!(Xkb::parse("").len(), 0);
    assert_eq!(Xkb::parse("xkb_keycodes {").len(), 0);
    assert_eq!(Xkb::parse("xkb_keycodes { <A> = 10; } xkb_symbols { key <A> { [ a").len(), 0);
    assert_eq!(Xkb::parse("xkb_keycodes { <A> = 10; } xkb_symbols { key <A> { [ a ] }; }").len(), 1);
}

#[test]
fn white_space_is_what_the_standard_library_says() {
    for code in 0..0x3100u32 {
        if let Some(c) = char::from_u32(code) {
            assert_eq!(space(c), c.is_whitespace(), "{code:x}");
        }
    }
    let chars: Vec<char> = " \t a b\n".chars().collect();
    assert_eq!(trimmed(&chars), ['a', ' ', 'b']);
}

#[test]
fn keysyms_by_name() {
    let named = |name: &str| keysym_from_name(&name.chars().collect::<Vec<char>>());
    assert_eq!(named("a"), 0x61);
    assert_eq!(named("é"), 0xe9);
    assert_eq!(named("space"), 0x20);
    assert_eq!(named("asciitilde"), 0x7e);
    assert_eq!(named("Prior"), keys::PAGE_UP);
    assert_eq!(named("Page_Up"), keys::PAGE_UP);
    assert_eq!(named("nonsense"), 0);
    assert_eq!(named(""), 0);
}

#[test]
fn scripts_are_read_line_by_line() {
    let steps = parse("key down\n# a comment\n\nclick 10 20 2 cmd+shift\nwait 5\nquit").unwrap();
    assert_eq!(steps.len(), 4);
    assert!(matches!(&steps[0], Step::Key(key) if key == "down"));
    assert!(matches!(
        &steps[1],
        Step::Click { count: 2, right: false, flags, .. }
            if flags.command && flags.shift && !flags.option && !flags.control && !flags.function
    ));
    assert!(
        matches!(&parse("menu Copy Path").unwrap()[0], Step::Menu(Some(t)) if t == "Copy Path")
    );
    assert!(matches!(parse("menu cancel").unwrap()[0], Step::Menu(None)));
    assert!(parse("click ten 20").is_err());
    assert!(parse("dance").is_err());
}

#[test]
fn keys_by_name_or_character() {
    assert_eq!(key("down"), Some((125, '\u{f701}')));
    assert_eq!(key("r"), Some((15, 'r')));
    assert_eq!(key("R"), Some((15, 'R')));
    assert_eq!(key("nonsense"), None);
}

#[test]
fn a_scripts_key_press() {
    let press = key_press("cmd+r").unwrap();
    assert_eq!((press.code, press.character), (15, 'r'));
    assert!(press.flags.command && !press.flags.shift);
    let press = key_press("down").unwrap();
    assert!(press.flags.function && press.flags.numeric_pad);
    assert!(key_press("nonsense").is_err());
    assert!(key_press("hyper+r").is_err());
    let word: Vec<char> = "hyper".chars().collect();
    assert!(modifiers(&word).is_none());
}

#[test]
fn a_double_click_is_two_clicks() {
    assert_eq!(clicks(1), [(true, 1), (false, 1)]);
    assert_eq!(clicks(2), [(true, 1), (false, 1), (true, 2), (false, 2)]);
    assert!(clicks(0).is_empty());
}

#[test]
fn keys_of_a_mac() {
    assert_eq!(mac_key(125, "", false, false, false), KeyAction::Arrow(Direction::Down, false));
    assert_eq!(mac_key(126, "", false, false, true), KeyAction::Arrow(Direction::Up, true));
    assert_eq!(mac_key(119, "", false, false, false), KeyAction::Jump(Jump::End, false));
    assert_eq!(mac_key(36, "\r", false, false, false), KeyAction::Enter);
    assert_eq!(mac_key(15, "r", false, false, false), KeyAction::RescanSelected);
    assert_eq!(mac_key(15, "R", false, false, true), KeyAction::RescanAll);
    assert_eq!(mac_key(15, "r", true, false, false), KeyAction::Nothing, "a menu's");
    assert_eq!(mac_key(6, "z", false, false, false), KeyAction::Nothing);
}

#[test]
fn a_released_key_stops_repeating_the_next_press_is_another() {
    let mut keyboard = Keyboard::new();
    keyboard.repeat_info(25, 400);
    let press = keyboard.key(30, true).expect("a");
    assert_eq!(press.keysym, u32::from('a'));
    assert_eq!(press.repeat, Some((400, 40)));
    assert_eq!(press.generation, keyboard.held);
    assert!(keyboard.key(30, false).is_none());
    assert_ne!(press.generation, keyboard.held, "let go: it stops repeating");
    keyboard.modifiers(1, 0, 0);
    assert_eq!(keyboard.key(30, true).expect("A").keysym, u32::from('A'));
    keyboard.modifiers(4, 0, 0);
    assert_eq!(keyboard.mods(), Mods { shift: false, control: true });
    keyboard.repeat_info(0, 400);
    assert_eq!(keyboard.key(30, true).expect("a").repeat, None, "no repeating");
    assert!(keyboard.key(42, true).is_none(), "Shift itself");
}

#[test]
fn buttons_and_wheels_of_a_compositor() {
    assert_eq!(button_of(0x110), Button::Left);
    assert_eq!(button_of(0x111), Button::Right);
    assert_eq!(button_of(0x113), Button::Back);
    assert_eq!(button_of(0x116), Button::Back);
    assert_eq!(button_of(0x112), Button::Other);
    assert_eq!(wheel(2), (Button::WheelDown, 2));
    assert_eq!(wheel(-3), (Button::WheelUp, 3));
    assert_eq!(wheel(i32::MIN).1, 20, "no more than twenty at once");
    let mut wheel = Wheel { discrete_seen: false };
    assert!(wheel.takes_smooth());
    assert_eq!(wheel.discrete(1), (Button::WheelDown, 1));
    assert!(!wheel.takes_smooth(), "the notches came already");
    wheel.frame();
    assert!(wheel.takes_smooth());
}

#[test]
fn buffers_are_reused_once_released() {
    assert_eq!(next_buffer(&vec![true, false]), NextBuffer::Free(1));
    assert_eq!(next_buffer(&vec![true, true]), NextBuffer::Another);
    assert_eq!(next_buffer(&vec![true; MAX_BUFFERS]), NextBuffer::Oldest);
}

#[test]
fn a_keymap_ends_at_its_zero() {
    assert_eq!(keymap_bytes(b"abc\0"), b"abc");
    assert_eq!(keymap_bytes(b"abc"), b"abc");
}

#[test]
fn a_surface_follows_the_outputs_it_is_on() {
    let mut surface = Surface {
        outputs: vec![Output { id: 7, scale: 1 }, Output { id: 8, scale: 1 }],
        on_outputs: Vec::new(),
        preferred_scale: None,
        pending: None,
        configured: false,
        size: (800, 600),
        scale: 1,
        decorated: false,
        maximized: false,
    };
    surface.output_scale(7, 2);
    assert_eq!(surface.wanted_scale(), 2, "on none yet: the largest there is");
    surface.output_scale(8, 1);
    surface.enter_output(8);
    assert_eq!(surface.wanted_scale(), 1);
    surface.enter_output(7);
    assert_eq!(surface.wanted_scale(), 2);
    surface.leave_output(7);
    assert_eq!(surface.wanted_scale(), 1);
    surface.toplevel_configure(1024, 768, &vec![1]);
    surface.surface_configure();
    assert_eq!(surface.size, (1024, 768));
    assert!(surface.maximized);
    surface.toplevel_configure(0, 0, &Vec::new());
    surface.surface_configure();
    assert_eq!(surface.size, (1024, 768), "left to the window");
    assert!(surface.decoration_configure(true));
    assert!(!surface.decoration_configure(true), "no news");
}

#[test]
fn presses_in_a_macs_window() {
    let plain = Marking::default();
    let toggle = Marking { toggle: true, range: false };
    assert_eq!(mouse_down(Some(2), &Hit::Row(0), 1, plain), MacPress::GoToDepth(2));
    assert_eq!(mouse_down(None, &Hit::Expander(3), 1, plain), MacPress::Toggle(3));
    assert_eq!(mouse_down(None, &Hit::Expander(3), 2, plain), MacPress::Nothing);
    assert_eq!(mouse_down(None, &Hit::Row(0), 1, plain), MacPress::Click { open: false });
    assert_eq!(mouse_down(None, &Hit::Row(0), 2, plain), MacPress::Click { open: true });
    assert_eq!(mouse_down(None, &Hit::Row(0), 2, toggle), MacPress::Click { open: false });
    assert_eq!(mouse_down(None, &Hit::SmallFiles, 1, plain), MacPress::SayWhere);
    assert_eq!(mouse_down(None, &Hit::Nothing, 1, plain), MacPress::Nothing);
    assert!(goes_up(3) && !goes_up(2));
    assert_eq!(carried_over(None, true), (true, true));
    assert_eq!(carried_over(Some((false, false)), true), (false, false));
    assert_eq!(not_a_folder("/x").0, "“/x” is not a folder");
}

#[test]
fn turns_come_in_whole_steps() {
    let mut turned = Turned { left: 0 };
    assert_eq!(turned.turn(600_000), 0);
    assert_eq!(turned.turn(600_000), 1);
    assert_eq!(turned.left, 200_000);
    assert_eq!(turned.turn(-1_300_000), -1);
    assert_eq!(turned.left, -100_000);
    assert_eq!(scroll_list(&mut turned, false, 5_000_000), Scrolled::Nothing);
    assert_eq!(scroll_list(&mut turned, true, 3_100_000), Scrolled::Rows(3));
    assert_eq!(wheel_zooms(true, false, 1), Some(Scrolled::ZoomIn));
    assert_eq!(wheel_zooms(true, false, -1), Some(Scrolled::ZoomOut));
    assert_eq!(wheel_zooms(true, true, 1), None, "two fingers scroll");
    assert_eq!(wheel_zooms(false, false, 1), None);
}
