//! The window's state, driven as a window drives it: over a small tree, laid out in one row of
//! tiles.

use duscape::entries::{FileMetadata, FileType, NestedTile, Row, Tile};
use duscape::names::Name;
use duscape::removal::space_freed;
use duscape::state::actions::CopiedPath;
use duscape::state::folders::{RescanChange, RescanFindings};
use duscape::state::pointer::{At, Clicked, Hit};
use duscape::state::report::{no_viewer, Around};
use duscape::state::words::{
    delete_outcome, delete_prompt, describe, last_name, marked_words, refusal, Amount, Doomed,
    Failure, StatusLeft, MESSAGE_TIME,
};
use duscape::state::{Contents, Direction, Focus, Jump, Mods, Preview, Treemap, Viewer};

const COLUMNS: u128 = 120;
const ROWS: u16 = 40;

#[derive(Clone)]
struct Node {
    name: &'static str,
    size: u128,
    children: Option<Vec<Node>>,
}

fn file(name: &'static str, size: u128) -> Node {
    Node { name, size, children: None }
}

fn folder(name: &'static str, children: Vec<Node>) -> Node {
    Node { name, size: 0, children: Some(children) }
}

fn n(name: &str) -> Name {
    name.as_bytes().to_vec()
}

fn path(names: &[&str]) -> Vec<Name> {
    names.iter().map(|name| n(name)).collect()
}

fn text(name: &[u8]) -> String {
    String::from_utf8_lossy(name).into_owned()
}

impl Node {
    fn total(&self) -> u128 {
        match &self.children {
            Some(children) => children.iter().map(Node::total).sum(),
            None => self.size,
        }
    }

    fn count(&self) -> u64 {
        match &self.children {
            Some(children) => children.iter().map(|child| 1 + child.count()).sum(),
            None => 0,
        }
    }

    fn at(&self, path: &[Name]) -> Option<&Node> {
        match path.split_first() {
            None => Some(self),
            Some((first, rest)) => self
                .children
                .as_ref()?
                .iter()
                .find(|child| child.name.as_bytes() == first.as_slice())?
                .at(rest),
        }
    }

    fn remove(&mut self, path: &[Name]) -> u128 {
        let (first, rest) = path.split_first().expect("a path");
        let children = self.children.as_mut().expect("a folder");
        let Some(index) = children
            .iter()
            .position(|child| child.name.as_bytes() == first.as_slice())
        else {
            return 0;
        };
        if rest.is_empty() {
            children.remove(index).total()
        } else {
            children[index].remove(rest)
        }
    }

    /// The entries, largest first.
    fn listing(&self) -> Vec<FileMetadata> {
        let mut entries: Vec<FileMetadata> = self
            .children
            .iter()
            .flatten()
            .map(|child| FileMetadata {
                name: n(child.name),
                size: child.total(),
                descendants: child.children.as_ref().map(|_| child.count()),
                file_type: if child.children.is_some() {
                    FileType::Folder
                } else {
                    FileType::File
                },
            })
            .collect();
        entries.sort_by(|a, b| b.size.cmp(&a.size).then(a.name.cmp(&b.name)));
        entries
    }
}

/// A window on a tree.
struct Window {
    tree: Node,
    viewer: Viewer,
    /// The folders open in place, from the folder shown.
    open: Vec<Vec<Name>>,
    /// Whether the treemap is nested.
    nested: bool,
    freed: u128,
    copied: Vec<String>,
    now: u64,
}

fn tiles_in(listing: &[FileMetadata], skip: usize, x: u16, y: u16, width: u128, height: u16) -> Vec<Tile> {
    let shown = &listing[skip.min(listing.len())..];
    let total: u128 = shown.iter().map(|entry| entry.size).sum::<u128>().max(1);
    let (mut tiles, mut before) = (Vec::new(), 0u128);
    for entry in shown {
        let start = before * width / total;
        before += entry.size;
        let end = before * width / total;
        if end > start {
            tiles.push(Tile {
                entry: entry.copy(),
                x: x + start as u16,
                y,
                width: (end - start) as u16,
                height,
            });
        }
    }
    tiles
}

impl Window {
    fn on(tree: Node) -> Window {
        let mut window = Window {
            tree,
            viewer: Viewer::new(1),
            open: Vec::new(),
            nested: false,
            freed: 0,
            copied: Vec::new(),
            now: 1,
        };
        let treemap = window.treemap(0);
        window.viewer.resize(Some(20), treemap);
        let contents = window.contents(&[], 0);
        window.viewer.finish_scan(Vec::new(), window.tree.count(), 1_350_000_000, contents);
        window
    }

    fn rows_under(&self, folder: &[Name], above: &[Name], depth: usize, rows: &mut Vec<Row>) {
        let Some(node) = self.tree.at(folder) else {
            return;
        };
        for entry in node.listing() {
            let mut path = above.to_vec();
            path.push(entry.name.clone());
            let open = self.viewer.tree_view && self.open.contains(&path);
            let mut below = folder.to_vec();
            below.push(entry.name.clone());
            rows.push(Row { path: path.clone(), entry, depth, open });
            if open {
                self.rows_under(&below, &path, depth + 1, rows);
            }
        }
    }

    fn nested_in(&self, folder: &[Name], tiles: &[Tile]) -> Vec<NestedTile> {
        let mut all = Vec::new();
        if !self.nested {
            return all;
        }
        for tile in tiles {
            let mut below = folder.to_vec();
            below.push(tile.entry.name.clone());
            let Some(node) = self.tree.at(&below) else {
                continue;
            };
            if node.children.is_none() || tile.width < 3 {
                continue;
            }
            for inside in tiles_in(
                &node.listing(),
                0,
                tile.x + 1,
                tile.y + 1,
                u128::from(tile.width) - 2,
                tile.height - 2,
            ) {
                let path = vec![tile.entry.name.clone(), inside.entry.name.clone()];
                all.push(NestedTile { path, tile: inside, depth: 1 });
            }
        }
        all
    }

    fn contents(&self, folder: &[Name], zoom_level: usize) -> Contents {
        let listing = self.tree.at(folder).expect("a folder").listing();
        let tiles = tiles_in(&listing, zoom_level, 0, 0, COLUMNS, ROWS);
        let mut rows = Vec::new();
        self.rows_under(folder, &[], 0, &mut rows);
        let nested = self.nested_in(folder, &tiles);
        let contents = Contents { listing, tiles, small_files: None, zoom_level, rows, nested };
        assert!(contents.is_whole());
        contents
    }

    fn treemap(&self, zoom_level: usize) -> Treemap {
        let listing = &self.viewer.contents.listing;
        let tiles = tiles_in(listing, zoom_level, 0, 0, COLUMNS, ROWS);
        let nested = self.nested_in(&self.viewer.folder, &tiles);
        Treemap { tiles, small_files: None, zoom_level, nested }
    }

    fn rows_now(&self) -> Vec<Row> {
        let mut rows = Vec::new();
        self.rows_under(&self.viewer.folder, &[], 0, &mut rows);
        rows
    }

    fn toggle_row(&mut self, index: usize) -> bool {
        if let Some(row) = self.viewer.contents.rows.get(index) {
            let path = row.path.clone();
            match self.open.iter().position(|open| *open == path) {
                Some(at) => {
                    self.open.remove(at);
                }
                None => self.open.push(path),
            }
        }
        let rows = self.rows_now();
        self.viewer.toggle_row(index, rows)
    }

    fn arrow(&mut self, direction: Direction, extend: bool) {
        let beside = self.viewer.beside(direction);
        if let Some(index) = self.viewer.arrow(direction, extend, beside) {
            self.toggle_row(index);
        }
        self.copy_if_due();
    }

    fn jump(&mut self, jump: Jump) {
        self.viewer.jump(jump, false);
    }

    fn copy_paths(&mut self, absolute: bool) -> bool {
        let kind = if absolute { "absolute" } else { "relative" };
        let paths: Vec<CopiedPath> = self
            .viewer
            .target_paths()
            .iter()
            .map(|path| {
                let names: Vec<String> = path.iter().map(|name| text(name)).collect();
                let text = names.join("/");
                CopiedPath {
                    kind: kind.to_string(),
                    text: if absolute { format!("/root/{text}") } else { text },
                }
            })
            .collect();
        match self.viewer.copy_paths(&paths) {
            Some(request) => {
                self.copied.push(request.text.clone());
                self.viewer.copied(&request, true, self.now);
                true
            }
            None => false,
        }
    }

    fn copy_if_due(&mut self) {
        if self.viewer.take_copy_due() {
            self.copy_paths(false);
        }
    }

    fn click_at(&mut self, at: At, mods: Mods) {
        let hit = self.viewer.hit(at);
        let clicked = self.viewer.click(&hit, mods);
        if let Clicked::Inside(path) = clicked {
            for length in 1..path.len() {
                let above = path[..length].to_vec();
                if !self.open.contains(&above) {
                    self.open.push(above);
                }
            }
            let rows = self.rows_now();
            self.viewer.reveal_row(path, rows, true);
        }
        self.copy_if_due();
    }

    fn row(&self, name: &str) -> At {
        let row = self
            .viewer
            .contents
            .rows
            .iter()
            .position(|row| row.entry.name == n(name))
            .expect("listed");
        At::List { row, indents: (9, 9) }
    }

    fn tile(&self, name: &str) -> At {
        let tile = self
            .viewer
            .contents
            .tiles
            .iter()
            .find(|tile| tile.entry.name == n(name))
            .expect("a tile");
        At::Cell(tile.x + tile.width / 2, tile.y + tile.height / 2)
    }

    fn enter(&mut self, name: &str) -> bool {
        let mut below = self.viewer.folder.clone();
        below.push(n(name));
        if !self.viewer.can_enter(&n(name)) {
            return false;
        }
        self.open.clear();
        let contents = self.contents(&below, 0);
        self.viewer.enter(&n(name), contents)
    }

    fn enter_selected(&mut self) -> bool {
        match self.viewer.enter_selected() {
            Some(path) => path.iter().all(|name| self.enter(&text(name))),
            None => false,
        }
    }

    fn go_up(&mut self) -> bool {
        let depth = self.viewer.depth();
        if depth == 0 {
            let contents = self.contents(&[], self.viewer.contents.zoom_level);
            return self.viewer.go_up(contents);
        }
        self.open.clear();
        let above = self.viewer.folder[..depth - 1].to_vec();
        let contents = self.contents(&above, self.viewer.zoom_above());
        self.viewer.go_up(contents)
    }

    fn zoom_in(&mut self) {
        let treemap = self.treemap(self.viewer.contents.zoom_level + 1);
        self.viewer.zoom(treemap);
    }

    fn set_tree_view(&mut self, on: bool) {
        self.nested = on;
        let flat: Vec<Row> = self
            .viewer
            .contents
            .listing
            .iter()
            .map(|entry| Row {
                path: vec![entry.name.clone()],
                entry: entry.copy(),
                depth: 0,
                open: false,
            })
            .collect();
        let treemap = self.treemap(self.viewer.contents.zoom_level);
        self.viewer.set_tree_view(on, flat, treemap);
    }

    fn removed(&mut self, paths: &[Vec<Name>], for_good: bool) {
        let sizes: Vec<Option<u128>> = paths
            .iter()
            .map(|path| Some(self.tree.remove(path)).filter(|size| *size > 0))
            .collect();
        self.freed = space_freed(self.freed, &sizes, for_good);
        let folder = self.viewer.folder.clone();
        let contents = self.contents(&folder, self.viewer.contents.zoom_level);
        self.viewer.removed(0, contents);
    }

    fn names(&self) -> Vec<String> {
        self.viewer.contents.listing.iter().map(|entry| text(&entry.name)).collect()
    }

    fn marked(&self) -> Vec<String> {
        self.viewer.marked.iter().map(|name| text(name)).collect()
    }

    fn selected(&self) -> Option<String> {
        self.viewer.selected.as_ref().map(|name| text(name))
    }

    fn rows_of(&self) -> Vec<String> {
        self.viewer
            .contents
            .rows
            .iter()
            .map(|row| {
                format!(
                    "{}{}{}",
                    "  ".repeat(row.depth),
                    text(&row.entry.name),
                    if row.open { "/" } else { "" }
                )
            })
            .collect()
    }

    fn cursor_of(&self) -> Option<String> {
        self.viewer.cursor_entry().map(|row| text(&row.entry.name))
    }
}

/// A finished scan of: `big/` (a 600, b 300), `medium.txt` 400, `small/` (c 100), `tiny.bin` 50.
fn viewer() -> Window {
    Window::on(folder(
        "",
        vec![
            folder("big", vec![file("a", 600), file("b", 300)]),
            file("medium.txt", 400),
            folder("small", vec![file("c", 100)]),
            file("tiny.bin", 50),
        ],
    ))
}

fn tree_viewer() -> Window {
    let mut window = viewer();
    window.viewer.tree_view = true;
    window
}

const TOGGLE: Mods = Mods { toggle: true, range: false };

fn plain() -> Mods {
    Mods::default()
}

#[test]
fn the_listing_is_largest_first_and_the_largest_is_in_hand() {
    let viewer = viewer();
    assert_eq!(viewer.names(), ["big", "medium.txt", "small", "tiny.bin"]);
    assert_eq!(viewer.selected().as_deref(), Some("big"));
    assert!(!viewer.viewer.scanning);
}

#[test]
fn every_tile_is_hit_at_its_center() {
    let viewer = viewer();
    assert_eq!(viewer.viewer.contents.tiles.len(), 4);
    for tile in &viewer.viewer.contents.tiles {
        let name = text(&tile.entry.name);
        let hit = viewer.viewer.hit(viewer.tile(&name));
        assert!(matches!(&hit, Hit::Tile(hit) if *hit == tile.entry.name), "{name}: {hit:?}");
    }
    assert!(matches!(viewer.viewer.hit(At::Outside), Hit::Nothing));
}

#[test]
fn list_rows_are_hit_by_their_position() {
    let mut viewer = viewer();
    let row = |row: usize| At::List { row, indents: (0, 0) };
    assert!(matches!(viewer.viewer.hit(row(0)), Hit::Row(0)));
    assert!(matches!(viewer.viewer.hit(row(2)), Hit::Row(2)));
    assert!(matches!(viewer.viewer.hit(row(10)), Hit::Nothing));
    // A list too short for its entries: the partial row at the bottom is not drawn, nor hit.
    let treemap = viewer.treemap(0);
    viewer.viewer.resize(Some(2), treemap);
    assert!(matches!(viewer.viewer.hit(row(2)), Hit::Nothing));
    viewer.viewer.scroll_list(1);
    assert_eq!(viewer.viewer.list_top, 1);
    assert!(matches!(viewer.viewer.hit(row(0)), Hit::Row(1)));
    let treemap = viewer.treemap(0);
    viewer.viewer.resize(Some(20), treemap);
    assert_eq!(viewer.viewer.list_top, 0, "four rows fit, so nothing scrolls");
}

#[test]
fn the_entry_in_hand_survives_a_resize() {
    let mut viewer = viewer();
    let at = viewer.tile("small");
    viewer.click_at(at, plain());
    assert_eq!(viewer.selected().as_deref(), Some("small"));
    let treemap = viewer.treemap(0);
    viewer.viewer.resize(Some(10), treemap);
    assert_eq!(viewer.selected().as_deref(), Some("small"));
    let at = viewer.viewer.tile_in_hand.expect("a tile in hand");
    assert_eq!(viewer.viewer.contents.tiles[at].entry.name, n("small"));
}

#[test]
fn arrows_move_through_the_list_and_cross_to_the_treemap() {
    let mut viewer = viewer();
    assert_eq!(viewer.viewer.focus, Focus::List);
    viewer.arrow(Direction::Down, false);
    assert_eq!(viewer.selected().as_deref(), Some("medium.txt"));
    viewer.arrow(Direction::Up, false);
    viewer.arrow(Direction::Up, false);
    assert_eq!(viewer.selected().as_deref(), Some("big"), "stops at the top");
    viewer.arrow(Direction::Right, false);
    assert_eq!(viewer.viewer.focus, Focus::Treemap);
    // `big` is the leftmost tile, so ← goes back to the list and keeps it in hand.
    viewer.arrow(Direction::Left, false);
    assert_eq!(viewer.viewer.focus, Focus::List);
    assert_eq!(viewer.selected().as_deref(), Some("big"));
}

#[test]
fn jumps_go_to_the_ends_of_the_list() {
    let mut viewer = viewer();
    viewer.jump(Jump::End);
    assert_eq!(viewer.selected().as_deref(), Some("tiny.bin"));
    viewer.jump(Jump::Home);
    assert_eq!(viewer.selected().as_deref(), Some("big"));
}

#[test]
fn shift_marks_a_range_that_shrinks_when_reversed() {
    let mut viewer = viewer();
    viewer.arrow(Direction::Down, true);
    viewer.arrow(Direction::Down, true);
    assert_eq!(viewer.marked(), ["big", "medium.txt", "small"]);
    viewer.arrow(Direction::Up, true);
    assert_eq!(viewer.marked(), ["big", "medium.txt"]);
    // A plain move clears them.
    viewer.arrow(Direction::Down, false);
    assert!(viewer.marked().is_empty());
}

#[test]
fn a_shift_run_keeps_the_marks_it_started_from() {
    let mut viewer = viewer();
    let at = viewer.row("big");
    viewer.click_at(at, plain());
    let at = viewer.row("tiny.bin");
    viewer.click_at(at, TOGGLE);
    assert_eq!(viewer.marked(), ["big", "tiny.bin"], "big was picked, so it joins");
    viewer.arrow(Direction::Up, true);
    viewer.arrow(Direction::Up, true);
    assert_eq!(
        viewer.marked(),
        ["big", "tiny.bin", "small", "medium.txt"],
        "swept from the anchor, on top of the marks there were"
    );
    viewer.arrow(Direction::Down, true);
    assert_eq!(
        viewer.marked(),
        ["big", "tiny.bin", "small"],
        "the range shrinks; the mark it started from stays"
    );
    viewer.jump(Jump::Home);
    assert!(viewer.marked().is_empty(), "a plain jump clears the marks");
}

#[test]
fn a_shift_run_does_not_bring_back_marks_cleared_in_the_treemap() {
    let mut viewer = viewer();
    let at = viewer.row("tiny.bin");
    viewer.click_at(at, TOGGLE);
    viewer.arrow(Direction::Up, true);
    assert_eq!(viewer.marked(), ["tiny.bin", "small"]);
    viewer.viewer.toggle_focus();
    viewer.arrow(Direction::Left, false);
    assert!(viewer.marked().is_empty(), "a plain move in the treemap clears them");
    viewer.viewer.focus = Focus::List;
    let from = viewer.viewer.selected_listing_index().expect("in hand");
    viewer.arrow(Direction::Down, true);
    let listing = viewer.names();
    let to = (from + 1).min(listing.len() - 1);
    assert_eq!(
        viewer.marked(),
        listing[from..=to],
        "only the new range, from the entry in hand"
    );
}

#[test]
fn command_click_seeds_the_marks_only_with_a_chosen_entry() {
    let mut viewer = viewer();
    assert!(!viewer.viewer.chosen, "the scan placed `big` in hand");
    let at = viewer.tile("small");
    viewer.click_at(at, TOGGLE);
    assert_eq!(viewer.marked(), ["small"]);
    viewer.click_at(at, TOGGLE);
    assert!(viewer.marked().is_empty(), "a second click takes it out");
    assert_eq!(viewer.viewer.target_names(), [n("small")]);

    // Picked with an arrow, `medium.txt` joins a selection begun with a click elsewhere.
    viewer.jump(Jump::Home);
    viewer.arrow(Direction::Down, false);
    assert!(viewer.viewer.chosen);
    viewer.click_at(at, TOGGLE);
    assert_eq!(viewer.marked(), ["medium.txt", "small"]);
    // A plain click clears the marks.
    viewer.click_at(at, plain());
    assert!(viewer.marked().is_empty());
    assert_eq!(viewer.viewer.target_names(), [n("small")]);
    // The folder just left is placed, like a deleted entry's neighbour.
    viewer.enter("big");
    viewer.go_up();
    assert!(!viewer.viewer.chosen);
}

#[test]
fn marks_are_copied_and_a_copy_takes_what_is_in_hand() {
    let mut viewer = viewer();
    viewer.viewer.set_clipboard(true);
    let at = viewer.row("medium.txt");
    viewer.click_at(at, TOGGLE);
    assert_eq!(viewer.copied.last().map(String::as_str), Some("medium.txt"));
    let at = viewer.row("tiny.bin");
    viewer.click_at(at, TOGGLE);
    assert_eq!(viewer.copied.last().map(String::as_str), Some("medium.txt tiny.bin"));
    let StatusLeft::Message(left) = viewer.viewer.status(viewer.now) else {
        panic!("a message");
    };
    assert!(left.starts_with("Copied 2 paths:"), "{left}");

    viewer.jump(Jump::Home);
    assert!(viewer.copy_paths(false));
    assert_eq!(viewer.copied.last().map(String::as_str), Some("big"));
    assert!(viewer.copy_paths(true));
    assert_eq!(viewer.copied.last().map(String::as_str), Some("/root/big"));
    let StatusLeft::Message(left) = viewer.viewer.status(viewer.now) else {
        panic!("a message");
    };
    assert!(left.starts_with("Copied absolute path:"), "{left}");
    viewer.enter_selected();
    viewer.copy_paths(false);
    assert_eq!(viewer.copied.last().map(String::as_str), Some("big/a"));
    // Without a clipboard nothing is copied, and the marks still work.
    let mut quiet = self::viewer();
    quiet.viewer.mark_all();
    assert_eq!(quiet.marked().len(), 4);
    assert!(!quiet.copy_paths(false));
    assert!(!quiet.viewer.take_copy_due());
}

#[test]
fn a_message_lasts_four_seconds() {
    let mut viewer = viewer();
    viewer.viewer.say("Hello".to_string(), 7);
    assert_eq!(viewer.viewer.message_left(7), Some(MESSAGE_TIME));
    assert_eq!(viewer.viewer.message_left(7 + MESSAGE_TIME - 1), Some(1));
    assert_eq!(viewer.viewer.message_left(7 + MESSAGE_TIME), None);
    assert!(matches!(viewer.viewer.status(8), StatusLeft::Message(text) if text == "Hello"));
    assert!(matches!(viewer.viewer.status(7 + MESSAGE_TIME), StatusLeft::Entry(entry) if entry.name == n("big")));
    assert_eq!(MESSAGE_TIME, 4_000_000_000);
}

#[test]
fn a_rescan_of_a_folder_in_hand() {
    let mut viewer = viewer();
    assert!(!viewer.viewer.can_rescan(), "nothing rescans yet");
    viewer.viewer.enable_rescans();
    assert!(viewer.viewer.can_rescan());
    let at = viewer.row("small");
    viewer.click_at(at, plain());
    assert_eq!(viewer.viewer.rescan_selected(), path(&["small"]));
    let at = viewer.row("tiny.bin");
    viewer.click_at(at, plain());
    assert_eq!(viewer.viewer.rescan_selected(), path(&[]), "a file: the folder shown");
    let at = viewer.row("small");
    viewer.click_at(at, plain());
    let small = viewer.tree.children.as_mut().expect("children")[2].children.as_mut();
    small.expect("a folder").push(file("new", 5000));
    let contents = viewer.contents(&[], 0);
    viewer.viewer.rescan_done(
        RescanFindings {
            not_walked: false,
            whole: None,
            changed: Some(RescanChange { folder: Vec::new(), levels: 0, contents }),
        },
        9,
    );
    assert_eq!(viewer.viewer.entry_named(&n("small")).expect("small").size, 5100);
    assert_eq!(viewer.selected().as_deref(), Some("small"), "still in hand");
    assert_eq!(viewer.names(), ["small", "big", "medium.txt", "tiny.bin"]);
}

#[test]
fn entering_and_leaving_keeps_the_way_back() {
    let mut viewer = viewer();
    assert!(viewer.enter_selected());
    assert_eq!(viewer.viewer.depth(), 1);
    assert_eq!(viewer.names(), ["a", "b"]);
    assert_eq!(viewer.selected().as_deref(), Some("a"));
    assert_eq!(viewer.viewer.title(&n("/root")), "big");
    // A file is not entered.
    assert!(!viewer.enter_selected());
    assert!(viewer.go_up());
    assert_eq!(viewer.selected().as_deref(), Some("big"));
    assert!(!viewer.go_up(), "already at the root");
    assert_eq!(viewer.viewer.title(&n("/home/disk/")), "disk");
    assert_eq!(viewer.viewer.title(&n("/")), "/", "a path without a last name");
}

#[test]
fn a_breadcrumb_goes_up_several_levels() {
    let mut viewer = viewer();
    viewer.enter("big");
    let above = vec![viewer.contents(&[], 0)];
    viewer.viewer.go_to_depth(0, above);
    assert_eq!(viewer.viewer.depth(), 0);
    assert_eq!(viewer.selected().as_deref(), Some("big"));
}

#[test]
fn zoom_is_restored_on_the_way_back_up() {
    let mut viewer = viewer();
    viewer.zoom_in();
    assert_eq!(viewer.viewer.contents.zoom_level, 1);
    viewer.arrow(Direction::Down, false);
    viewer.arrow(Direction::Down, false);
    assert_eq!(viewer.selected().as_deref(), Some("small"));
    viewer.enter_selected();
    assert_eq!(viewer.viewer.contents.zoom_level, 0);
    viewer.go_up();
    assert_eq!(viewer.viewer.contents.zoom_level, 1);
}

#[test]
fn toggling_the_size_keeps_the_entry_in_hand() {
    let mut viewer = viewer();
    viewer.arrow(Direction::Down, false);
    // The other size of each entry is half of it.
    for entry in viewer.tree.children.iter_mut().flatten() {
        entry.size /= 2;
        for below in entry.children.iter_mut().flatten() {
            below.size /= 2;
        }
    }
    let contents = viewer.contents(&[], 0);
    viewer.viewer.refresh(contents);
    assert_eq!(viewer.selected().as_deref(), Some("medium.txt"));
    let shown = &viewer.viewer.contents.listing;
    assert_eq!(shown.iter().map(|entry| entry.size).sum::<u128>(), 725);
    assert_eq!(viewer.viewer.selected_entry().map(|entry| entry.size), Some(200));
    let (mut rows, mut tiles) = (0, 0);
    for row in &viewer.viewer.contents.rows {
        rows += row.entry.size;
    }
    for tile in &viewer.viewer.contents.tiles {
        tiles += tile.entry.size;
    }
    assert_eq!((rows, tiles), (725, 725), "both panels show the other sizes");
}

#[test]
fn a_folder_fallen_back_to_is_not_zoomed() {
    let mut viewer = viewer();
    viewer.zoom_in();
    assert_eq!(viewer.viewer.zoom_after_removal(0), 1, "the folder shown stays as it is");
    assert_eq!(viewer.viewer.zoom_after_scan(0), 1);
    assert_eq!(viewer.viewer.zoom_after_rescan(&Vec::new(), 0), 1);
    viewer.enter("big");
    viewer.zoom_in();
    // The folder shown vanishes: the one above is shown whole, and not as it was left.
    viewer.tree.remove(&path(&["big"]));
    assert_eq!(viewer.viewer.zoom_after_removal(1), 0);
    assert_eq!(viewer.viewer.zoom_after_scan(0), 0);
    assert_eq!(viewer.viewer.zoom_after_rescan(&path(&["big"]), 0), 1);
    assert_eq!(viewer.viewer.zoom_after_rescan(&path(&["big"]), 1), 0);
    assert_eq!(viewer.viewer.zoom_after_rescan(&Vec::new(), 0), 0);
    let contents = viewer.contents(&[], viewer.viewer.zoom_after_removal(1));
    viewer.viewer.removed(1, contents);
    assert_eq!((viewer.viewer.depth(), viewer.viewer.contents.zoom_level), (0, 0));
    assert_eq!(viewer.viewer.zoom_above(), 0, "nothing above the root");
}

#[test]
fn removing_puts_the_next_entry_in_hand_and_counts_what_was_freed() {
    let mut viewer = viewer();
    viewer.arrow(Direction::Down, false);
    let targets: Vec<Vec<Name>> = viewer.viewer.target_paths();
    assert_eq!(viewer.viewer.targets().len(), 1);
    assert_eq!(targets, [path(&["medium.txt"])]);
    viewer.removed(&targets, true);
    assert_eq!(viewer.names(), ["big", "small", "tiny.bin"]);
    assert_eq!(viewer.selected().as_deref(), Some("small"));
    assert_eq!(viewer.freed, 400);
    // Moved to the Trash: gone from here, but nothing freed.
    let targets: Vec<Vec<Name>> = viewer.viewer.target_paths();
    viewer.removed(&targets, false);
    assert_eq!(viewer.freed, 400);
    // Removing what is already gone changes nothing, rather than panicking.
    viewer.removed(&targets, true);
    assert_eq!(viewer.freed, 400);
}

#[test]
fn nothing_is_deleted_while_the_outline_is_on_screen() {
    let mut viewer = Window {
        tree: folder("", vec![]),
        viewer: Viewer::new(1),
        open: Vec::new(),
        nested: false,
        freed: 0,
        copied: Vec::new(),
        now: 1,
    };
    let treemap = viewer.treemap(0);
    viewer.viewer.resize(Some(20), treemap);
    viewer.tree.children.as_mut().expect("children").push(folder("folder", vec![]));
    // Absorbed, a batch is counted but not yet on screen; catching up lays it out.
    viewer.viewer.absorb_summaries(1, 0);
    assert!(viewer.names().is_empty(), "not laid out yet");
    assert_eq!(viewer.viewer.entries_scanned, 1);
    let contents = viewer.contents(&[], 0);
    viewer.viewer.refresh(contents);
    assert_eq!(viewer.names(), ["folder"]);
    viewer.tree.children.as_mut().expect("children").push(folder("other", vec![]));
    viewer.viewer.absorb_summaries(1, 0);
    let contents = viewer.contents(&[], 0);
    viewer.viewer.refresh(contents);
    assert_eq!(viewer.names().len(), 2);
    viewer.jump(Jump::Home);
    assert!(viewer.viewer.selected.is_some());
    assert!(viewer.viewer.targets().is_empty());
    viewer.viewer.enable_rescans();
    assert!(!viewer.viewer.can_rescan());
}

#[test]
fn previews_are_asked_for_files_once_and_answers_to_old_requests_dropped() {
    let mut viewer = viewer();
    // A folder is in hand: nothing to read.
    assert_eq!(viewer.viewer.wanted_preview(), None);
    viewer.arrow(Direction::Down, false);
    let (first, asked) = viewer.viewer.wanted_preview().expect("a request");
    assert_eq!(asked, path(&["medium.txt"]));
    assert_eq!(viewer.viewer.preview, Preview::Loading);
    assert_eq!(viewer.viewer.wanted_preview(), None, "asked once");
    viewer.arrow(Direction::Down, false);
    viewer.arrow(Direction::Down, false);
    let (second, _) = viewer.viewer.wanted_preview().expect("another request");
    assert!(!viewer.viewer.preview_ready(first, Preview::Info("old".into())));
    assert!(viewer.viewer.preview_ready(second, Preview::Info("binary file".into())));
    assert_eq!(viewer.viewer.preview, Preview::Info("binary file".into()));
}

#[test]
fn a_sized_preview_is_asked_again_when_its_size_changes() {
    let mut viewer = viewer();
    viewer.arrow(Direction::Down, false);
    let (first, _) = viewer.viewer.wanted_preview_sized(Some((320, 180))).expect("a request");
    assert_eq!(viewer.viewer.wanted_preview_sized(Some((320, 180))), None, "asked once");
    let (second, _) = viewer
        .viewer
        .wanted_preview_sized(Some((640, 360)))
        .expect("a new size is a new request");
    assert!(second > first);
    assert!(!viewer.viewer.preview_ready(first, Preview::Picture("small".into())));
    assert!(viewer.viewer.preview_ready(second, Preview::Picture("PNG 640×360".into())));
}

#[test]
fn without_the_tree_view_the_rows_are_the_flat_listing() {
    let mut viewer = viewer();
    assert_eq!(viewer.rows_of(), viewer.names());
    viewer.arrow(Direction::Right, false);
    assert_eq!(viewer.viewer.focus, Focus::Treemap, "→ crosses to the treemap");
    viewer.viewer.focus = Focus::List;
    viewer.arrow(Direction::Left, false);
    assert_eq!(viewer.rows_of(), ["big", "medium.txt", "small", "tiny.bin"]);
    assert!(
        !matches!(viewer.viewer.hit(At::List { row: 0, indents: (0, 1) }), Hit::Expander(_)),
        "no expander to hit"
    );
}

#[test]
fn a_folder_opens_in_place_and_the_arrows_walk_into_it() {
    let mut viewer = tree_viewer();
    viewer.arrow(Direction::Right, false);
    assert_eq!(
        viewer.rows_of(),
        ["big/", "  a", "  b", "medium.txt", "small", "tiny.bin"]
    );
    assert_eq!(viewer.cursor_of().as_deref(), Some("big"), "stays in hand");
    assert_eq!(viewer.viewer.focus, Focus::List);
    viewer.arrow(Direction::Right, false);
    assert_eq!(viewer.cursor_of().as_deref(), Some("a"));
    assert_eq!(
        viewer.selected().as_deref(),
        Some("big"),
        "the treemap follows the row's top-level folder"
    );
    let at = viewer.viewer.tile_in_hand.expect("a tile in hand");
    assert_eq!(viewer.viewer.contents.tiles[at].entry.name, n("big"));
    viewer.arrow(Direction::Down, false);
    assert_eq!(viewer.cursor_of().as_deref(), Some("b"));
    viewer.arrow(Direction::Left, false);
    assert_eq!(viewer.cursor_of().as_deref(), Some("big"), "← goes up to the folder");
    viewer.arrow(Direction::Left, false);
    assert_eq!(viewer.rows_of(), ["big", "medium.txt", "small", "tiny.bin"]);
    assert_eq!(viewer.cursor_of().as_deref(), Some("big"));
    // → on a file still crosses to the treemap.
    viewer.jump(Jump::End);
    viewer.arrow(Direction::Right, false);
    assert_eq!(viewer.viewer.focus, Focus::Treemap);
}

#[test]
fn a_nested_row_is_what_is_acted_on() {
    let mut viewer = tree_viewer();
    viewer.arrow(Direction::Right, false);
    viewer.arrow(Direction::Right, false);
    assert_eq!(viewer.cursor_of().as_deref(), Some("a"));
    let (_, asked) = viewer.viewer.wanted_preview().expect("a file is in hand");
    assert_eq!(asked, path(&["big", "a"]));
    assert_eq!(viewer.viewer.target_paths(), [path(&["big", "a"])]);
    let targets = viewer.viewer.targets();
    assert_eq!(targets.len(), 1);
    assert_eq!(targets[0].path_to_file, path(&["big", "a"]));
    assert_eq!(targets[0].entry.size, 600);
    // Removed, the folder stays open but, smaller now than medium.txt, re-sorts below it, its
    // rows with it; the row now where the deleted one was — the folder itself — is in hand.
    viewer.removed(&[path(&["big", "a"])], true);
    assert_eq!(
        viewer.rows_of(),
        ["medium.txt", "big/", "  b", "small", "tiny.bin"]
    );
    assert_eq!(viewer.cursor_of().as_deref(), Some("big"));
    assert!(!viewer.viewer.chosen, "placed, not picked");
    assert_eq!(viewer.freed, 600);
    // Entering a nested folder goes down through the folders above it.
    viewer.arrow(Direction::Down, false);
    viewer.arrow(Direction::Down, false);
    assert_eq!(viewer.cursor_of().as_deref(), Some("small"));
    viewer.arrow(Direction::Right, false);
    viewer.arrow(Direction::Right, false);
    assert_eq!(viewer.cursor_of().as_deref(), Some("c"));
    assert!(!viewer.enter_selected(), "a file is not entered");
    viewer.arrow(Direction::Left, false);
    assert!(viewer.enter_selected());
    assert_eq!(viewer.viewer.depth(), 1);
    assert_eq!(viewer.viewer.title(&n("/root")), "small");
    assert_eq!(viewer.rows_of(), ["c"], "opened afresh: nothing open in the new folder");
    viewer.go_up();
    assert_eq!(
        viewer.rows_of(),
        ["medium.txt", "big", "small", "tiny.bin"],
        "closed again on the way back"
    );
}

#[test]
fn the_expander_opens_a_folder_on_a_click() {
    let mut viewer = tree_viewer();
    let on = |row: usize| At::List { row, indents: (0, 1) };
    let past = |row: usize| At::List { row, indents: (1, 2) };
    let far = |row: usize| At::List { row, indents: (9, 9) };
    assert!(matches!(viewer.viewer.hit(on(0)), Hit::Expander(0)));
    assert!(matches!(viewer.viewer.hit(past(0)), Hit::Row(0)));
    // A file's row has no expander.
    assert!(matches!(viewer.viewer.hit(on(1)), Hit::Row(1)));
    viewer.toggle_row(0);
    assert_eq!(viewer.rows_of()[..3], ["big/", "  a", "  b"]);
    // Its own rows are indented, so their expanders sit one level in.
    viewer.toggle_row(0);
    assert_eq!(viewer.rows_of(), ["big", "medium.txt", "small", "tiny.bin"]);
    // Clicking a nested row takes it in hand; the marks are the top-level folder's.
    viewer.toggle_row(0);
    viewer.click_at(far(1), plain());
    assert_eq!(viewer.cursor_of().as_deref(), Some("a"));
    viewer.click_at(far(4), TOGGLE);
    assert_eq!(
        viewer.marked(),
        ["big", "small"],
        "a picked nested row marks its folder"
    );
    let StatusLeft::Marked(count, size) = viewer.viewer.status(1) else {
        panic!("the marks");
    };
    assert_eq!((count, size), (2, 1000));
    let left = marked_words(count, "1000");
    assert!(left.starts_with("2 marked"), "{left}");
}

#[test]
fn a_tile_inside_a_folders_tile_is_pointed_at_and_reveals_its_row() {
    let mut viewer = tree_viewer();
    viewer.set_tree_view(true);
    let nested = &viewer.viewer.contents.nested;
    assert!(!nested.is_empty(), "big's tile holds a and b");
    let a = nested.iter().find(|inside| inside.tile.entry.name == n("a")).expect("a's tile");
    assert_eq!(a.path, path(&["big", "a"]));
    let at = At::Cell(a.tile.x + a.tile.width / 2, a.tile.y + a.tile.height / 2);
    let index = match viewer.viewer.hit(at) {
        Hit::Nested(index) => index,
        other => panic!("expected a nested tile, got {other:?}"),
    };
    assert_eq!(viewer.viewer.contents.nested[index].path, path(&["big", "a"]));
    let hit = viewer.viewer.hit(at);
    assert!(viewer.viewer.hover_at(&hit));
    assert!(!viewer.viewer.hover_at(&hit), "already there");
    let StatusLeft::Nested(over) = viewer.viewer.status(1) else {
        panic!("what is pointed at");
    };
    let entry = &viewer.viewer.contents.nested[over].tile.entry;
    let left = describe(entry, "600", "66.7%");
    assert!(left.starts_with("a — 600"), "{left}");

    viewer.click_at(at, plain());
    assert_eq!(viewer.rows_of()[..3], ["big/", "  a", "  b"], "big opened in the tree");
    assert_eq!(viewer.cursor_of().as_deref(), Some("a"));
    assert_eq!(viewer.selected().as_deref(), Some("big"));
    assert_eq!(viewer.viewer.cursor_nested(), Some(index));
    // Off, nothing is nested and the tile is the folder's again.
    viewer.set_tree_view(false);
    assert!(viewer.viewer.contents.nested.is_empty());
    assert!(matches!(viewer.viewer.hit(at), Hit::Tile(name) if name == n("big")));
}

#[test]
fn a_context_click_takes_the_entry_in_hand_and_keeps_marks_it_is_among() {
    let mut viewer = viewer();
    viewer.arrow(Direction::Down, true);
    assert_eq!(viewer.marked(), ["big", "medium.txt"]);
    let hit = viewer.viewer.hit(viewer.row("big"));
    let at = viewer.viewer.context_click(&hit);
    assert_eq!(at, Some(path(&["big"])));
    assert_eq!(viewer.marked(), ["big", "medium.txt"], "kept: it is among them");
    let hit = viewer.viewer.hit(viewer.row("small"));
    let at = viewer.viewer.context_click(&hit).expect("an entry");
    let rows = viewer.rows_now();
    viewer.viewer.reveal_row(at, rows, true);
    assert!(viewer.marked().is_empty(), "not among them");
    assert_eq!(viewer.selected().as_deref(), Some("small"));
}

#[test]
fn toggling_a_mark_twice_restores_the_marks() {
    let mut viewer = viewer();
    viewer.arrow(Direction::Down, true);
    let before = viewer.marked();
    let at = viewer.row("tiny.bin");
    viewer.click_at(at, TOGGLE);
    assert_eq!(viewer.marked(), ["big", "medium.txt", "tiny.bin"]);
    viewer.click_at(at, TOGGLE);
    assert_eq!(viewer.marked(), before);
}

#[test]
fn what_went_with_a_folder_leaves_it() {
    let mut viewer = viewer();
    viewer.enter("small");
    assert_eq!(viewer.viewer.depth(), 1);
    viewer.tree.remove(&path(&["small"]));
    let contents = viewer.contents(&[], 0);
    viewer.viewer.removed(1, contents);
    assert_eq!(viewer.viewer.depth(), 0);
    assert_eq!(viewer.names(), ["big", "medium.txt", "tiny.bin"]);
}

#[test]
fn the_words_of_a_deletion() {
    let one = |name: &str| Doomed {
        path: format!("/root/{name}"),
        name: name.to_string(),
        size: "2.0K".to_string(),
    };
    let question = delete_prompt(&vec![one("medium.txt")], "2.0K");
    assert!(question.contains("medium.txt"), "{question}");
    let question = delete_prompt(&vec![one("tiny.txt"), one("small")], "4.0K");
    assert!(question.starts_with("Delete these 2 entries?"), "{question}");
    assert_eq!(refusal(&None), None);
    let why = refusal(&Some("$MFT".to_string())).expect("refused");
    assert!(why.ends_with("$MFT"), "{why}");
    assert_eq!(delete_outcome(2, 2, &Vec::new()), Ok(()));
    let failed = Failure {
        path: "/root/tiny.txt".to_string(),
        name: "tiny.txt".to_string(),
        error: "gone".to_string(),
    };
    let error = delete_outcome(2, 1, &vec![failed]).unwrap_err();
    assert!(error.starts_with("Deleted 1 of 2; tiny.txt"), "{error}");
    assert_eq!(last_name(&path(&["a", "b"])), "b");
}

#[test]
fn the_totals_and_the_subtitle() {
    let viewer = viewer();
    let nothing = Amount { bytes: 0, text: "0".to_string() };
    let totals = viewer.viewer.totals("1.4s", &None, &nothing, 1);
    assert!(totals.contains("rescanning 1 folder"), "{totals}");
    assert!(totals.contains("1.4s"), "{totals}");
    let outside = Amount { bytes: 5, text: "100.0G".to_string() };
    let totals = viewer.viewer.totals("1.4s", &Some(outside), &nothing, 0);
    assert!(totals.contains("100.0G"), "{totals}");
    assert!(!totals.contains("rescanning"), "{totals}");
    let subtitle = viewer.viewer.subtitle("1.4K", false, "");
    assert!(subtitle.contains("1.4K"), "{subtitle}");
}

#[test]
fn a_script_sees_what_the_window_holds() {
    let mut viewer = tree_viewer();
    viewer.arrow(Direction::Right, false);
    viewer.arrow(Direction::Right, false);
    let around = Around {
        title: "root".to_string(),
        key_window: "root (Window), active true".to_string(),
        apparent: false,
        sidebar: true,
        preview: "Empty".to_string(),
        image: false,
        status: "a".to_string(),
        totals: "b".to_string(),
    };
    assert_eq!(
        viewer.viewer.state_for_script(&around),
        "title: root\nkey window: root (Window), active true\npath: \nlisting: big | medium.txt | \
         small | tiny.bin\nselected: big\nrows: big | big/a | big/b | medium.txt | small | \
         tiny.bin\ncursor: big/a\nmarked: \nfocus: List\nzoom: 0\napparent: false\nsidebar: \
         true\nscanning: false\npreview: Empty\nimage: false\nstatus: a\ntotals: b\n"
    );
    assert_eq!(no_viewer("root"), "viewer: none\ntitle: root\n");
    assert_eq!(viewer.viewer.paths_or_folder(), [path(&["big", "a"])]);
    let empty = Window::on(folder("", vec![]));
    assert_eq!(empty.viewer.paths_or_folder(), [path(&[])]);
}

#[test]
fn a_name_that_is_no_text_is_shown_with_replacements() {
    let name: Name = vec![0x61, 0xff, 0x62];
    assert_eq!(last_name(&vec![name]), "a\u{fffd}b");
    assert_eq!(last_name(&vec![n("Bücher")]), "Bücher");
}

#[test]
fn contents_that_do_not_belong_together_are_noticed() {
    let viewer = viewer();
    let mut contents = viewer.contents(&[], 0);
    assert!(contents.is_whole());
    contents.listing.pop();
    assert!(!contents.is_whole());
}

#[test]
fn the_nearest_tile_that_way_is_beside() {
    let mut viewer = viewer();
    assert_eq!(viewer.viewer.tile_in_hand, Some(0));
    assert_eq!(viewer.viewer.beside(Direction::Right), Some(1));
    assert_eq!(viewer.viewer.beside(Direction::Left), None);
    assert_eq!(viewer.viewer.beside(Direction::Up), None);
    let at = viewer.tile("small");
    viewer.click_at(at, plain());
    assert_eq!(viewer.viewer.beside(Direction::Left), Some(1));
    assert_eq!(viewer.viewer.beside(Direction::Right), Some(3));
}
