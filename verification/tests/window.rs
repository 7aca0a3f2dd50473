//! The window: what it draws, how it answers the pointer and the keyboard, and what it removes.

use duscape::backend::{Button, Mods};
use duscape::canvas::{blend, pixel_bytes, unpack, Bounds, Canvas, Rgba};
use duscape::count::DisplayCount;
use duscape::entries::{FileMetadata, FileType, Row, Tile};
use duscape::fit::{aligned, fit, fitted_text, wrap, Align, Cut, Fitted};
use duscape::fonts::{asked_by, fc_match, find_font, no_font, places, FontFace, Found};
use duscape::keys;
use duscape::menu::{Action, Entry, Platform};
use duscape::menubar::{menu_bar, sidebar_title, validate, BarLine, Choices, Command};
use duscape::names::Name;
use duscape::painting::{
    abbreviate_home, body, dialog_buttons, dialog_hint, empty_words, folder_hint, hidden_crumbs,
    mac_folder_hint, path_bar, row_look, summary, title_buttons, window_title, Body, ButtonLook,
    Crumb, RowLook,
};
use duscape::paths::{extension, file_name, file_stem};
use duscape::picture::{decode_picture, is_decoded_apart, is_large, shrink};
use duscape::preview::{
    decode, is_drawn, load, other_picture, picture, picture_preview, reads_picture,
    system_picture, tile_hue, Contents, Decoding, Loaded, ToRead, MAX_PICTURE,
};
use duscape::removal::{
    confirm_button, confirmation, copied_words, describe_files, failure_notice, removal,
    removed_words, space_freed, Removal, RemovedFile,
};
use duscape::rescan::Rescans;
use duscape::session::{
    picture_after, Input, InputAction, Message, MessageAction, Picture, Session,
};
use duscape::shell::quote_for_shell;
use duscape::state::pointer::Hit;
use duscape::state::{Contents as Shown, Direction, Jump, Preview, Viewer};
use duscape::trash::{
    candidate, home_trash, iso8601, no_name_free, own_trash, percent_encode, trash_info,
    which_trash, WhichTrash, MOST_NAMES,
};
use duscape::window::{
    key, said_after_click, KeyAction, Place, PressAction, Presses, Tick, TitleButton,
};

fn n(name: &str) -> Name {
    name.as_bytes().to_vec()
}

fn path(names: &[&str]) -> Vec<Name> {
    names.iter().map(|name| n(name)).collect()
}

// ---------------------------------------------------------------- the canvas

#[test]
fn fill_covers_exactly_its_pixels_and_blends_by_alpha() {
    let mut canvas = Canvas::new(10, 10);
    canvas.clear(0);
    canvas.fill(Bounds { x0: 2, y0: 3, x1: 6, y1: 5 }, 0xffffff, 256);
    assert_eq!(canvas.pixels[3 * 10 + 2], 0xffffff);
    assert_eq!(canvas.pixels[3 * 10 + 5], 0xffffff);
    assert_eq!(canvas.pixels[3 * 10 + 6], 0);
    assert_eq!(canvas.pixels[5 * 10 + 2], 0);
    canvas.fill(Bounds { x0: 0, y0: 0, x1: 1, y1: 1 }, 0xffffff, 128);
    let (r, ..) = unpack(canvas.pixels[0]);
    assert!((120..=135).contains(&r), "half white, got {r}");
}

#[test]
fn blit_fits_the_picture_and_averages_pixels() {
    let mut canvas = Canvas::new(10, 10);
    // A 4×4 picture, left half red and right half blue, drawn two pixels wide.
    let mut data = Vec::new();
    for _y in 0..4 {
        for x in 0..4 {
            data.extend_from_slice(if x < 2 { &[255, 0, 0, 255] } else { &[0, 0, 255, 255] });
        }
    }
    let picture = Rgba { width: 4, height: 4, data };
    let halves = vec![(0, 2), (2, 4)];
    canvas.blit(&picture, 0, 0, &halves, &halves);
    assert_eq!(canvas.pixels[0], 0xff0000);
    assert_eq!(canvas.pixels[1], 0x0000ff);
    assert_eq!(canvas.pixels[2], 0, "nothing past the picture");
}

#[test]
fn blending_by_alpha() {
    assert_eq!(blend(0x000000, 0xffffff, 256), 0xffffff);
    assert_eq!(blend(0x102030, 0xffffff, 0), 0x102030);
    assert_eq!(blend(0x000000, 0xff8000, 128), 0x7f4000);
    let mut canvas = Canvas::new(2, 2);
    canvas.blend_pixel(1, 1, 0xff0000, 256);
    assert_eq!(canvas.pixels, [0, 0, 0, 0xff0000]);
    canvas.resize(3, 1);
    assert_eq!(canvas.pixels, [0, 0, 0]);
    assert_eq!(pixel_bytes(&vec![0x00112233]), [0x33, 0x22, 0x11, 0x00]);
    assert_eq!(pixel_bytes(&vec![0xff000000, 1]), [0, 0, 0, 0xff, 1, 0, 0, 0]);
}

// ---------------------------------------------------------------- text in its room

fn widths(text: &str) -> Vec<u64> {
    text.chars().map(|c| if c == 'W' { 20 } else { 10 }).collect()
}

#[test]
fn text_too_wide_is_cut_with_an_ellipsis() {
    let name = "a_rather_long_file_name_that_will_not_fit.tar.gz";
    let (advances, room) = (widths(name), 240);
    let cut = fitted_text(name, fit(&advances, 10, room, Cut::Middle));
    assert!(cut.contains('…'));
    assert!(cut.starts_with("a_rath"), "the head is kept: {cut}");
    assert!(cut.ends_with("tar.gz"), "the tail is kept: {cut}");
    assert!(widths(&cut).iter().sum::<u64>() <= room);
    let cut = fitted_text(name, fit(&advances, 10, room, Cut::Tail));
    assert!(cut.ends_with('…'), "{cut}");
    assert_eq!(cut.chars().count(), 24);
    assert_eq!(fit(&advances, 10, 480, Cut::Middle), Fitted::Whole);
    assert_eq!(fit(&advances, 10, 10, Cut::Middle), Fitted::Nothing);
    assert_eq!(fitted_text("abc", Fitted::Nothing), "");
}

#[test]
fn text_is_wrapped_at_spaces_and_within_long_words() {
    let lines = |text: &str, room: u64| wrap(text, &widths(text), room);
    assert_eq!(lines("one two three", 70), ["one two", "three"]);
    assert_eq!(lines("one\n\ntwo", 70), ["one", "", "two"]);
    assert_eq!(lines("", 70), [""]);
    assert_eq!(lines("abcdefgh ij", 30), ["abc", "def", "gh", "ij"]);
    assert_eq!(lines("abcde fg", 30), ["abc", "de", "fg"]);
    assert_eq!(lines("WW", 15), ["W", "W"], "one at least to a line");
}

#[test]
fn text_is_aligned() {
    assert_eq!(aligned(Align::Left, 10, 100, 30), 20);
    assert_eq!(aligned(Align::Right, 10, 100, 30), 160);
    assert_eq!(aligned(Align::Center, 10, 100, 31), 89);
}

// ---------------------------------------------------------------- what is painted

#[test]
fn breadcrumbs_give_way_nearest_the_root_first() {
    let widths = vec![50, 60, 70, 80];
    assert_eq!(hidden_crumbs(&widths, 10, 20, 290), 0);
    assert_eq!(hidden_crumbs(&widths, 10, 20, 289), 1);
    assert_eq!(hidden_crumbs(&widths, 10, 20, 200), 2);
    assert_eq!(hidden_crumbs(&widths, 10, 20, 0), 2, "never the last");
    assert_eq!(hidden_crumbs(&vec![50], 10, 20, 0), 0);
    assert_eq!(
        path_bar(&widths, 10, 20, 12, 300, 1),
        [
            Crumb::Folder { x: 12, width: 50, depth: 0, last: false },
            Crumb::Separator { x: 62 },
            Crumb::Ellipsis { x: 72 },
            Crumb::Separator { x: 92 },
            Crumb::Folder { x: 102, width: 70, depth: 2, last: false },
            Crumb::Separator { x: 172 },
            Crumb::Folder { x: 182, width: 80, depth: 3, last: true },
        ]
    );
    assert_eq!(
        path_bar(&vec![50], 10, 20, 12, 30, 0),
        [Crumb::Folder { x: 12, width: 18, depth: 0, last: true }],
        "cut at the end of the bar"
    );
}

#[test]
fn the_home_folder_is_a_tilde() {
    let home = Some(path(&["/", "home", "me"]));
    let shown = |names: &[&str], whole: &str| abbreviate_home(&path(names), &home, whole);
    assert_eq!(shown(&["/", "home", "me", "Music"], "/home/me/Music"), "~/Music");
    assert_eq!(shown(&["/", "home", "me", "a", "b"], "/home/me/a/b"), "~/a/b");
    assert_eq!(shown(&["/", "home", "me"], "/home/me"), "~");
    assert_eq!(shown(&["/", "home", "you"], "/home/you"), "/home/you");
    assert_eq!(abbreviate_home(&path(&["/", "a"]), &None, "/a"), "/a");
}

#[test]
fn what_is_said_of_the_entry_in_hand() {
    assert_eq!(
        summary(FileType::Folder, Some(1234), "2.0K", "12.5"),
        "Folder · 1,234 items · 2.0K · 12.5%"
    );
    assert_eq!(summary(FileType::File, None, "2.0K", "12.5"), "2.0K · 12.5%");
    let hint = folder_hint();
    assert_eq!(hint, "Enter or double-click to open · r to rescan");
    assert_eq!(mac_folder_hint(), "Return or double-click to open · ⌘R to rescan");
    assert_eq!(body(&Preview::Empty, FileType::Folder, &hint), Body::Line(hint.clone()));
    assert_eq!(body(&Preview::Empty, FileType::File, &hint), Body::Nothing);
    assert_eq!(body(&Preview::Loading, FileType::File, &hint), Body::Line("…".to_string()));
    assert_eq!(empty_words(true), "Scanning…");
    assert_eq!(empty_words(false), "Empty folder");
    assert_eq!(window_title("docs", "2.0K"), "docs — 2.0K — diskonaut");
    assert_eq!(row_look(true, true, true, true), RowLook::Emphasised);
    assert_eq!(row_look(true, true, true, false), RowLook::Quiet);
    assert_eq!(row_look(false, true, true, true), RowLook::Marked);
    assert_eq!(row_look(false, false, true, true), RowLook::Hovered);
    assert_eq!(row_look(false, false, false, true), RowLook::Plain);
}

#[test]
fn a_dialog_is_answered_from_the_right() {
    let buttons = dialog_buttons(&Some("Delete".to_string()), true);
    assert_eq!(buttons.len(), 2);
    assert_eq!((buttons[0].label.as_str(), buttons[0].confirms), ("Delete", true));
    assert_eq!(buttons[0].look, ButtonLook::Danger);
    assert_eq!((buttons[1].label.as_str(), buttons[1].confirms), ("Cancel", false));
    let notice = dialog_buttons(&None, true);
    assert_eq!(notice.len(), 1);
    assert_eq!((notice[0].label.as_str(), notice[0].look), ("OK", ButtonLook::Accent));
    assert_eq!(dialog_hint(true), "Enter or y confirms · Esc or n cancels");
    assert_eq!(dialog_hint(false), "Enter or Esc closes");
    assert_eq!(title_buttons()[0], (TitleButton::Close, '×'));
}

// ---------------------------------------------------------------- fonts

#[test]
fn fonts_are_looked_for_in_turn() {
    let all = places(FontFace::Sans, &Some(n("/home/me")));
    assert_eq!(all.len(), 42);
    assert_eq!(all[0], n("/usr/share/fonts/truetype/dejavu/DejaVuSans.ttf"));
    assert_eq!(all[6], n("/usr/share/fonts/opentype/dejavu/DejaVuSans.ttf"));
    assert_eq!(all[41], n("/home/me/.fonts/cantarell/Cantarell-Regular.otf"));
    assert_eq!(places(FontFace::Mono, &None).len(), 25);
    assert_eq!(find_font(true, true, &vec![true]), Found::Named);
    assert_eq!(find_font(false, true, &vec![true]), Found::Matched);
    assert_eq!(find_font(false, false, &vec![false, true, true]), Found::Place(1));
    assert_eq!(find_font(false, false, &vec![false]), Found::Nowhere);
    assert_eq!(
        fc_match(&n("/usr/share/fonts/DejaVuSans.TTF\n")).as_deref(),
        Some("/usr/share/fonts/DejaVuSans.TTF")
    );
    assert_eq!(fc_match(&n("/usr/share/fonts/fixed.pcf.gz")), None);
    assert_eq!(fc_match(&n("")), None);
    assert_eq!(asked_by(FontFace::Bold).0, "DUSCAPE_FONT_BOLD");
    assert!(no_font().contains("DUSCAPE_FONT="));
}

// ---------------------------------------------------------------- keys and presses

const PLAIN: Mods = Mods { shift: false, control: false };
const SHIFTED: Mods = Mods { shift: true, control: false };
const CONTROLLED: Mods = Mods { shift: false, control: true };

#[test]
fn keys_of_the_window() {
    assert_eq!(key(keys::DOWN, PLAIN, false), KeyAction::Arrow(Direction::Down, false));
    assert_eq!(key(keys::KP_UP, SHIFTED, false), KeyAction::Arrow(Direction::Up, true));
    assert_eq!(key(keys::HOME, PLAIN, false), KeyAction::Jump(Jump::Home, false));
    assert_eq!(key(keys::DELETE, SHIFTED, false), KeyAction::Remove(true));
    assert_eq!(key(u32::from('a'), CONTROLLED, false), KeyAction::MarkAll);
    assert_eq!(key(u32::from('a'), PLAIN, false), KeyAction::ToggleSize);
    assert_eq!(key(u32::from('c'), CONTROLLED, false), KeyAction::CopyPaths(false));
    let both = Mods { shift: true, control: true };
    assert_eq!(key(u32::from('C'), both, false), KeyAction::CopyPaths(true));
    assert_eq!(key(keys::F5, PLAIN, false), KeyAction::RescanAll);
    assert_eq!(key(0xffe1, PLAIN, false), KeyAction::Nothing);
}

#[test]
fn a_dialog_takes_the_keys() {
    assert_eq!(key(keys::RETURN, PLAIN, true), KeyAction::Answer(true));
    assert_eq!(key(u32::from('y'), PLAIN, true), KeyAction::Answer(true));
    assert_eq!(key(keys::ESCAPE, PLAIN, true), KeyAction::Answer(false));
    assert_eq!(key(u32::from('n'), PLAIN, true), KeyAction::Answer(false));
    assert_eq!(key(keys::DELETE, PLAIN, true), KeyAction::Nothing);
}

const NOWHERE: Place = Place {
    dialog_button: None,
    title_bar: false,
    title_button: None,
    crumb: None,
    over_list: false,
    over_treemap: false,
    near_last: false,
};

#[test]
fn presses_of_the_window() {
    let list = Place { over_list: true, near_last: true, ..NOWHERE };
    let treemap = Place { over_treemap: true, ..NOWHERE };
    let mut presses = Presses { last: None };
    let click = PressAction::Click { toggle: false, range: false };
    assert_eq!(presses.press(Button::Left, PLAIN, list, false, 0), click);
    assert_eq!(
        presses.press(Button::Left, PLAIN, list, false, 400_000_000),
        PressAction::ClickAndEnter,
        "a double click"
    );
    assert_eq!(presses.press(Button::Left, PLAIN, list, false, 2_000_000_000), click);
    assert_eq!(presses.press(Button::Right, PLAIN, list, false, 2_000_000_001), PressAction::Context);
    assert_eq!(presses.press(Button::Back, PLAIN, list, false, 2_000_000_002), PressAction::Up);
    assert_eq!(
        presses.press(Button::WheelDown, PLAIN, list, false, 2_000_000_003),
        PressAction::Scroll(3)
    );
    assert_eq!(
        presses.press(Button::WheelUp, PLAIN, treemap, false, 2_000_000_004),
        PressAction::ZoomIn
    );
    let crumb = Place { crumb: Some(1), ..NOWHERE };
    let mut presses = Presses { last: None };
    assert_eq!(presses.press(Button::Left, PLAIN, crumb, false, 0), PressAction::GoToDepth(1));
    let button = Place { dialog_button: Some(true), ..NOWHERE };
    assert_eq!(presses.press(Button::Left, PLAIN, button, true, 1), PressAction::Answer(true));
    assert_eq!(presses.press(Button::Left, PLAIN, list, true, 2), PressAction::Nothing);
}

#[test]
fn a_tick_is_arranged_unless_one_is_due_sooner() {
    let mut tick = Tick { due: None };
    assert!(tick.at(100));
    assert!(!tick.at(200));
    assert!(tick.at(50));
    assert_eq!(tick.due, Some(50));
}

fn session() -> Session {
    Session {
        scan_id: 2,
        dialog: false,
        focused: true,
        dirty: false,
        quit: false,
        canvas: (800, 600),
        tick: Tick { due: None },
        snapshot: false,
    }
}

#[test]
fn inputs_have_the_window_drawn() {
    let mut session = session();
    assert_eq!(session.input(Input::Motion), InputAction::Hover);
    assert!(!session.dirty);
    session.changed(false);
    assert!(!session.draw());
    session.changed(true);
    assert!(session.draw());
    assert!(!session.draw(), "once");
    let resized = |pixels, rescaled| Input::Resized { pixels, rescaled };
    assert_eq!(session.input(resized((800, 600), false)), InputAction::Resize { canvas: false });
    assert_eq!(session.input(resized((801, 600), false)), InputAction::Resize { canvas: true });
    assert_eq!(session.input(resized((801, 600), true)), InputAction::Resize { canvas: true });
    assert_eq!(session.input(Input::Decorated(false)), InputAction::TitleBar(true));
    assert_eq!(session.input(Input::Focus(false)), InputAction::Nothing);
    assert!(!session.focused && session.dirty);
    session.dialog = true;
    assert_eq!(session.input(Input::Motion), InputAction::Nothing);
    session.input(Input::Close);
    assert!(session.quit && !session.draw());
}

#[test]
fn an_earlier_scan_is_let_go() {
    let mut session = session();
    assert_eq!(session.handle(Message::Batch { scan_id: 1 }), MessageAction::Nothing);
    assert_eq!(session.handle(Message::Done { scan_id: 1, tree: true }), MessageAction::Drop);
    assert_eq!(session.handle(Message::Rescanned { scan_id: 1 }), MessageAction::Drop);
    assert_eq!(session, self::session());
    assert_eq!(session.handle(Message::Batch { scan_id: 2 }), MessageAction::Absorb);
    assert!(session.dirty);
    assert_eq!(session.start_scan(), 3);
    assert_eq!(session.handle(Message::Batch { scan_id: 2 }), MessageAction::Nothing);
    assert_eq!(
        session.handle(Message::Done { scan_id: 3, tree: true }),
        MessageAction::Finish { snapshot: false }
    );
    assert_eq!(session.handle(Message::Snapshot), MessageAction::Nothing);
    session.snapshot = true;
    assert_eq!(session.handle(Message::Snapshot), MessageAction::Snapshot);
    assert!(session.quit);
    assert_eq!(picture_after(false, false), Picture::Keep);
    assert_eq!(picture_after(true, false), Picture::Drop);
}

#[test]
fn the_window_is_drawn_when_a_message_is_over() {
    let mut session = session();
    assert_eq!(session.message_shown(None, 5), None);
    assert_eq!(session.message_shown(Some(100), 5), Some(30_000_100));
    assert_eq!(session.message_shown(Some(200), 5), None, "drawn sooner anyway");
    session.handle(Message::Tick);
    assert!(session.dirty && session.tick.due.is_none());
}

// ---------------------------------------------------------------- previews

#[test]
fn pictures_the_system_decodes_are_recognised_by_extension() {
    assert_eq!(other_picture(b"a/b.HEIC").as_deref(), Some("HEIC"));
    assert_eq!(other_picture(b"a/b.bin"), None);
    assert_eq!(other_picture(b"a/heic"), None);
}

#[test]
fn extensions_are_those_of_the_standard_library() {
    for path in [
        "a/b.txt", "a/b.tar.gz", "a.b/c", ".bashrc", "a/.config.d", "..", "a/..", ".", "/", "",
        "a.", "a/b/", "a/b.c/", "a//b.c//", "a/.", ".a.b",
    ] {
        let std = std::path::Path::new(path);
        let own = |part: Option<&[u8]>| part.map(<[u8]>::to_vec);
        assert_eq!(own(extension(path.as_bytes())), std.extension().map(|part| part.to_string_lossy().into_owned().into_bytes()), "{path}");
        assert_eq!(own(file_name(path.as_bytes())), std.file_name().map(|part| part.to_string_lossy().into_owned().into_bytes()), "{path}");
        assert_eq!(own(file_stem(path.as_bytes())), std.file_stem().map(|part| part.to_string_lossy().into_owned().into_bytes()), "{path}");
    }
}

#[test]
fn what_a_file_is_previewed_as() {
    let info = |words: &str| Contents::Info(words.to_string());
    assert_eq!(
        load(b"a/b.heic", info("binary file")),
        ToRead::Picture { caption: "HEIC image".to_string() }
    );
    assert_eq!(
        load(b"a/b.bin", info("binary file")),
        ToRead::Done(Loaded::Info("binary file".to_string()))
    );
    assert_eq!(
        load(b"a/b.heic", info("empty file")),
        ToRead::Done(Loaded::Info("empty file".to_string()))
    );
    let lines = vec!["one".to_string(), "two".to_string()];
    assert_eq!(
        load(b"notes.txt", Contents::Text(lines.clone())),
        ToRead::Done(Loaded::Text(lines))
    );
    assert!(reads_picture(MAX_PICTURE) && !reads_picture(MAX_PICTURE + 1));
    let caption = || "PNG".to_string();
    assert_eq!(picture(caption(), None), Loaded::Info("PNG, too large to preview".to_string()));
    assert_eq!(
        picture(caption(), Some(Err("denied".to_string()))),
        Loaded::Info("PNG, unreadable: denied".to_string())
    );
    assert_eq!(
        picture(caption(), Some(Ok(vec![1]))),
        Loaded::Picture { bytes: vec![1], caption: caption() }
    );
    assert!(is_drawn(16384, 16384) && !is_drawn(16385, 16384));
    assert_eq!(
        system_picture(caption(), false, None),
        Preview::Info("PNG, which this Mac cannot decode".to_string())
    );
    assert_eq!(
        system_picture(caption(), true, Some((40_000, 40_000))),
        Preview::Info("PNG, too large to preview".to_string())
    );
    assert_eq!(system_picture(caption(), true, None), Preview::Picture(caption()));
}

fn png(width: u32, height: u32) -> Vec<u8> {
    let pixels = image::RgbaImage::from_fn(width, height, |x, y| {
        image::Rgba([(x % 256) as u8, (y % 256) as u8, 128, 255])
    });
    let mut bytes = std::io::Cursor::new(Vec::new());
    pixels.write_to(&mut bytes, image::ImageFormat::Png).expect("written");
    bytes.into_inner()
}

#[test]
fn pictures_are_decoded_and_scaled() {
    let picture = decode_picture(&png(8, 4)).expect("a picture");
    assert_eq!((picture.width, picture.height, picture.data.len()), (8, 4, 128));
    assert_eq!(picture.data[..4], [0, 0, 128, 255]);
    assert_eq!(picture.data[4..8], [1, 0, 128, 255]);
    assert!(is_large(&picture, 7) && !is_large(&picture, 8));
    let small = shrink(picture, 4, (4, 2));
    assert_eq!((small.width, small.height, small.data.len()), (4, 2, 32));
    let same = shrink(small, 4, (2, 1));
    assert_eq!((same.width, same.height), (4, 2), "small enough");
    assert_eq!(decode_picture(b"not a picture"), Err("which cannot be decoded here".to_string()));
    let caption = "PNG image".to_string();
    match decode(Loaded::Picture { bytes: png(3, 2), caption: caption.clone() }) {
        Decoding::Done(preview, Some(picture)) => {
            assert_eq!(preview, Preview::Picture(caption.clone()));
            assert_eq!((picture.width, picture.height), (3, 2));
            assert_eq!(picture.data[8..12], [2, 0, 128, 255]);
        }
        other => panic!("{other:?}"),
    }
    let words = "PNG image, which cannot be decoded here".to_string();
    assert_eq!(
        decode(Loaded::Picture { bytes: vec![0], caption }),
        Decoding::Done(Preview::Info(words), None)
    );
    // Decoded apart, a picture is shown in the same words.
    let shown = picture_preview("JPG image".to_string(), Err("which is torn".to_string()));
    assert_eq!(shown, (Preview::Info("JPG image, which is torn".to_string()), None));
    let info = || "a pipe".to_string();
    assert_eq!(decode(Loaded::Info(info())), Decoding::Done(Preview::Info(info()), None));
}

fn written(format: image::ImageFormat) -> Vec<u8> {
    let pixels = image::RgbImage::from_pixel(5, 3, image::Rgb([200, 100, 0]));
    let mut bytes = std::io::Cursor::new(Vec::new());
    pixels.write_to(&mut bytes, format).expect("written");
    bytes.into_inner()
}

#[test]
fn some_formats_are_decoded_apart() {
    for format in [image::ImageFormat::Png, image::ImageFormat::Gif, image::ImageFormat::Bmp] {
        let bytes = written(format);
        assert!(!is_decoded_apart(&bytes), "{format:?}");
        let picture = decode_picture(&bytes).expect("a picture");
        assert_eq!((picture.width, picture.height), (5, 3), "{format:?}");
        assert_eq!(picture.data[..4], [200, 100, 0, 255], "{format:?}");
    }
    let caption = || "a picture".to_string();
    for format in [
        image::ImageFormat::Jpeg,
        image::ImageFormat::Tiff,
        image::ImageFormat::Ico,
        image::ImageFormat::WebP,
    ] {
        let bytes = written(format);
        assert!(is_decoded_apart(&bytes), "{format:?}");
        assert_eq!(
            decode(Loaded::Picture { bytes: bytes.clone(), caption: caption() }),
            Decoding::Apart { bytes, caption: caption() }
        );
    }
    assert!(is_decoded_apart(b"MM\0*") && is_decoded_apart(b"II*\0"));
    // A PNG says after its size how its pixels are coloured.
    let mut palette = written(image::ImageFormat::Png);
    assert_eq!(palette[25], 2);
    palette[25] = 3;
    assert!(is_decoded_apart(&palette) && !is_decoded_apart(&palette[..25]));
    palette[7] = 0;
    assert!(!is_decoded_apart(&palette), "another signature");
    assert!(!is_decoded_apart(b"") && !is_decoded_apart(&[0xff, 0xd8]));
    assert!(!is_decoded_apart(b"RIFF....WAVE") && !is_decoded_apart(b"RIFF....WEB"));
}

#[test]
fn a_click_on_the_corner_says_where_the_small_entries_are() {
    let words = "The entries too small for a tile are all in the list".to_string();
    assert_eq!(said_after_click(false, &Hit::SmallFiles), Some(words));
    assert_eq!(said_after_click(true, &Hit::SmallFiles), None);
    assert_eq!(said_after_click(false, &Hit::Nothing), None);
}

#[test]
fn hues_follow_the_extension_and_stay_clear_of_folder_blue() {
    let hue = |name: &str| tile_hue(name.as_bytes());
    assert_eq!(hue("a.jpg"), hue("b.JPG"));
    assert_ne!(hue("a.jpg"), hue("a.mp4"));
    assert_eq!(hue("Makefile"), None);
    for extension in ["rs", "txt", "zip", "mov", "dmg", "pdf", "o", "a", "json"] {
        let hue = hue(&format!("x.{extension}")).expect("an extension");
        assert!(hue < 360 && !(180..280).contains(&hue), "{extension}: {hue}");
    }
    // The hash of "a" is 0xaf63dc4c8601ec8c.
    assert_eq!(hue("x.a"), Some(match 0xaf63_dc4c_8601_ec8cu64 % 260 {
        hue if hue >= 180 => hue + 100,
        hue => hue,
    }));
}

// ---------------------------------------------------------------- the Trash

#[test]
fn dates_are_iso8601() {
    assert_eq!(iso8601(0), "1970-01-01T00:00:00");
    // 2026-09-24 12:34:56 UTC.
    assert_eq!(iso8601(1_790_253_296), "2026-09-24T12:34:56");
}

#[test]
fn dates_around_leap_days() {
    assert_eq!(iso8601(951_782_399), "2000-02-28T23:59:59");
    assert_eq!(iso8601(951_782_400), "2000-02-29T00:00:00");
    assert_eq!(iso8601(951_868_800), "2000-03-01T00:00:00");
    assert_eq!(iso8601(4_107_542_400), "2100-03-01T00:00:00");
    assert_eq!(iso8601(4_107_542_399), "2100-02-28T23:59:59");
    assert_eq!(iso8601(1_735_689_599), "2024-12-31T23:59:59");
}

#[test]
fn moments_sort_as_they_are_written() {
    let moments = [0, 59, 60, 86_399, 86_400, 951_782_400, 1_790_253_296, 253_402_300_799];
    let texts: Vec<String> = moments.iter().map(|&seconds| iso8601(seconds)).collect();
    assert!(texts.iter().all(|text| text.len() == 19), "{texts:?}");
    assert!(texts.windows(2).all(|pair| pair[0] < pair[1]), "{texts:?}");
    assert_eq!(texts[7], "9999-12-31T23:59:59");
}

#[test]
fn paths_are_percent_encoded_but_slashes_kept() {
    assert_eq!(percent_encode(b"/home/me/a b%c.txt"), "/home/me/a%20b%25c.txt");
    assert_eq!(percent_encode(&[0xff, 0x0a]), "%FF%0A");
}

#[test]
fn a_file_goes_to_the_trash_of_its_filesystem() {
    let note = trash_info(b"/a b", 0);
    assert_eq!(note, "[Trash Info]\nPath=/a%20b\nDeletionDate=1970-01-01T00:00:00\n");
    let name = n("gone.txt");
    assert_eq!(candidate(&name, 0), Some((n("gone.txt"), n("gone.txt.trashinfo"))));
    assert_eq!(candidate(&name, 2), Some((n("gone.txt.2"), n("gone.txt.2.trashinfo"))));
    assert_eq!(candidate(&name, MOST_NAMES), None);
    assert!(no_name_free().contains("too many"));
    assert_eq!(home_trash(&Some(n("/data")), &None), Ok(n("/data/Trash")));
    assert_eq!(home_trash(&Some(n("")), &Some(n("/home/me"))), Ok(n("/home/me/.local/share/Trash")));
    assert_eq!(home_trash(&None, &None), Err("HOME is not set".to_string()));
    let home = vec![None, Some(1), Some(2)];
    assert_eq!(which_trash(1, &home, &Vec::new()), WhichTrash::Home);
    let parents = vec![Some(5), Some(5), Some(1), Some(5)];
    assert_eq!(which_trash(5, &home, &parents), WhichTrash::Top { above: 2 });
    assert_eq!(which_trash(6, &home, &parents), WhichTrash::Top { above: 0 });
    assert_eq!(own_trash(1000), n(".Trash-1000"));
}

// ---------------------------------------------------------------- removing and copying

fn removed(name: &str, descendants: Option<u64>) -> RemovedFile {
    RemovedFile {
        name: Some(name.to_string()),
        path: format!("/data/{name}"),
        file_type: if descendants.is_some() { FileType::Folder } else { FileType::File },
        descendants,
    }
}

#[test]
fn removals_are_asked_about() {
    assert_eq!(removal(0, false, &None), Removal::Nothing);
    assert!(matches!(removal(0, true, &None), Removal::Waits(_)));
    assert!(matches!(removal(1, false, &Some("$MFT".to_string())), Removal::Refused(..)));
    assert_eq!(removal(1, false, &None), Removal::Ask);
    let (title, detail) = confirmation(&vec![removed("a", Some(12))], "2.0K", false);
    assert_eq!(title, "Move “a” to the Trash?");
    assert_eq!(
        detail,
        "2.0K, a folder of 12 items\n/data/a\n\nThe Trash frees nothing until it is emptied."
    );
    let many: Vec<RemovedFile> = ["a", "b", "c", "d", "e", "f"]
        .iter()
        .map(|name| removed(name, None))
        .collect();
    let (title, detail) = confirmation(&many, "2.0K", true);
    assert_eq!(title, "Delete 6 items immediately?");
    assert_eq!(
        detail,
        "2.0K in all: a, b, c, d, e and 1 more\n\nThis can’t be undone."
    );
    let words = describe_files(&vec![removed("a", None)], "2.0K", true);
    assert_eq!(words, "2.0K\n\n/data/a\n\nThis can’t be undone.");
    assert_eq!(confirm_button(true), "Delete");
    assert_eq!(confirm_button(false), "Move to Trash");
    assert_eq!(removed_words(0, "0", true), None);
    assert_eq!(removed_words(1, "2.0K", true).as_deref(), Some("Deleted 1 item, freeing 2.0K"));
    assert_eq!(
        removed_words(2, "2.0K", false).as_deref(),
        Some("Moved 2 items (2.0K) to the Trash")
    );
    let (title, detail) = failure_notice("/data/a", "denied", 3);
    assert_eq!(title, "Could not remove /data/a");
    assert_eq!(detail, "denied\n\n2 more could not be removed either.");
    let freed = space_freed(400, &vec![Some(100), None, Some(20)], true);
    assert_eq!(freed, 520);
    assert_eq!(space_freed(freed, &vec![None, None, None], true), 520, "gone already");
    assert_eq!(space_freed(freed, &vec![Some(7)], false), 520, "to the Trash");
    assert_eq!(copied_words(true, "'a'", 1), "Copied 'a'");
    assert_eq!(copied_words(true, "", 1200), "Copied 1,200 paths");
    assert_eq!(copied_words(false, "", 1), "Could not copy to the clipboard");
}

#[test]
fn counts_are_grouped_by_thousands() {
    for (count, text) in [
        (0, "0"),
        (999, "999"),
        (1_000, "1,000"),
        (11_341_063, "11,341,063"),
        (u64::MAX, "18,446,744,073,709,551,615"),
    ] {
        assert_eq!(DisplayCount(count).text(), text);
    }
}

// ---------------------------------------------------------------- rescans and menus

#[test]
fn rescans_never_overlap() {
    let mut rescans = Rescans { running: Vec::new(), last_id: 0 };
    let first = rescans.start(path(&["a", "b"])).id.expect("started");
    assert_eq!(rescans.start(path(&["a", "b", "c"])).id, None, "covered already");
    let start = rescans.start(path(&["a"]));
    assert_eq!(start.stopped, [first], "the wider one takes over");
    let wider = start.id.expect("started");
    assert_eq!(rescans.len(), 1);
    assert!(rescans.running[0].covers(&path(&["a", "b"])));
    assert!(!rescans.running[0].covers(&path(&["b"])));
    let (stopped, again) = rescans.restart_under(&vec![path(&["a", "x"])]);
    assert_eq!(stopped, [wider]);
    assert_eq!(again.len(), 1);
    assert_eq!(again[0].relative, path(&["a"]));
    assert_eq!(rescans.finish(wider), None, "stopped meanwhile");
    assert_eq!(rescans.finish(again[0].id), Some(path(&["a"])));
    assert_eq!(rescans.len(), 0);
    rescans.start(path(&["z"]));
    assert_eq!(rescans.cancel_all().len(), 1);
    assert_eq!(rescans.len(), 0);
}

fn entry(name: &str) -> FileMetadata {
    FileMetadata { name: n(name), size: 1, descendants: None, file_type: FileType::File }
}

fn viewer(scanning: bool) -> Viewer {
    let mut viewer = Viewer::new(1);
    let contents = Shown {
        listing: vec![entry("a.txt")],
        tiles: vec![Tile { entry: entry("a.txt"), x: 0, y: 0, width: 9, height: 9 }],
        small_files: None,
        zoom_level: 0,
        rows: vec![Row { path: path(&["a.txt"]), entry: entry("a.txt"), depth: 0, open: false }],
        nested: Vec::new(),
    };
    assert!(contents.is_whole());
    if scanning {
        viewer.refresh(contents);
    } else {
        viewer.finish_scan(Vec::new(), 1, 1, contents);
    }
    viewer.jump(Jump::Home, false);
    viewer.enable_rescans();
    viewer
}

#[test]
fn a_running_scan_greys_out_what_changes_the_disk() {
    let platform = Platform {
        reveal: "Show in Finder".to_string(),
        quick_look: true,
        pathname: true,
        trash: true,
    };
    let enabled = |viewer: &Viewer, wanted: Action| {
        viewer
            .context_menu(&platform)
            .iter()
            .find_map(|item| match item {
                Entry::Item { action, enabled, .. } if *action == wanted => Some(*enabled),
                _ => None,
            })
    };
    let (still, busy) = (viewer(false), viewer(true));
    for action in [Action::Trash, Action::Delete, Action::RescanAll] {
        assert_eq!(enabled(&still, action), Some(true), "{action:?}");
        assert_eq!(enabled(&busy, action), Some(false), "{action:?}");
    }
    assert_eq!(enabled(&busy, Action::CopyPath), Some(true));
    let item = Entry::Item { action: Action::Open, label: "Open".to_string(), enabled: false };
    assert_eq!(item.chosen(), None, "greyed out");
    assert_eq!(Entry::Separator.chosen(), None);
}

#[test]
fn the_menu_bar_has_one_command_to_a_key() {
    let menus = menu_bar();
    let mut seen = Vec::new();
    for menu in &menus {
        for line in &menu.lines {
            if let BarLine::Item { shortcut: Some(shortcut), title, .. } = line {
                assert!(!seen.contains(shortcut), "{title}");
                seen.push(*shortcut);
            }
        }
    }
    assert!(seen.len() > 10);
    let choices = Choices {
        viewer: true,
        has_target: true,
        scanning: true,
        depth: 0,
        can_rescan: false,
    };
    assert!(!validate(Command::MoveToTrash, choices));
    assert!(validate(Command::MoveToTrash, Choices { scanning: false, ..choices }));
    assert!(!validate(Command::EnclosingFolder, choices));
    assert!(validate(Command::EnclosingFolder, Choices { depth: 1, ..choices }));
    assert_ne!(sidebar_title(true), sidebar_title(false));
}

#[test]
fn paths_are_quoted_where_they_have_to_be() {
    assert_eq!(quote_for_shell("medium.txt"), "medium.txt");
    assert_eq!(quote_for_shell("/home/me/a-b_c+1,2:3@x%"), "/home/me/a-b_c+1,2:3@x%");
    assert_eq!(quote_for_shell("my dir/file"), "'my dir/file'");
    assert_eq!(quote_for_shell("it's"), r"'it'\''s'");
    assert_eq!(quote_for_shell("$HOME"), "'$HOME'");
    assert_eq!(quote_for_shell(""), "''");
}
