//! The treemap in a terminal: which cells each thing takes.

use vstd::prelude::*;

use crate::entries::Tile;
use crate::names::{holds_name, spelled, Name};
use crate::terminal::Cells;
use crate::text::literal;

verus! {

/// Whether every cell of a tile's border is on the screen. The border runs along `x + width` and
/// `y + height`, so those cells have to be there too.
pub open spec fn is_on_screen(screen: Cells, x: u16, y: u16, width: u16, height: u16) -> bool {
    &&& x + width < screen.x + screen.width
    &&& y + height < screen.y + screen.height
}

/// Whether every cell of a tile's border is on the screen.
pub fn fits(screen: Cells, tile: &Tile) -> (does: bool)
    ensures
        does == is_on_screen(screen, tile.x, tile.y, tile.width, tile.height),
{
    (tile.x as u32) + (tile.width as u32) < (screen.x as u32) + (screen.width as u32)
        && (tile.y as u32) + (tile.height as u32) < (screen.y as u32) + (screen.height as u32)
}

/// A tile to draw.
#[derive(Clone, Copy, Debug, PartialEq, Eq, Structural)]
pub struct Drawn {
    /// Which tile.
    pub index: usize,
    pub selected: bool,
    pub marked: bool,
}

/// The tiles among the first `count` that are drawn: those on the screen.
pub open spec fn drawn(
    screen: Cells,
    tiles: Seq<Tile>,
    selected: Option<usize>,
    marked: Seq<Seq<u8>>,
    count: int,
) -> Seq<Drawn>
    decreases count,
{
    if count <= 0 {
        Seq::empty()
    } else {
        let before = drawn(screen, tiles, selected, marked, count - 1);
        let tile = tiles[count - 1];
        if is_on_screen(screen, tile.x, tile.y, tile.width, tile.height) {
            before.push(
                Drawn {
                    index: (count - 1) as usize,
                    selected: selected == Some((count - 1) as usize),
                    marked: marked.contains(tile.entry.name@),
                },
            )
        } else {
            before
        }
    }
}

/// What a grid of tiles draws.
pub struct RectangleGrid<'a> {
    pub rectangles: &'a Vec<Tile>,
    pub small_files_coordinates: Option<(u16, u16)>,
    pub selected_rect_index: Option<usize>,
    /// Names of the entries in a multi-selection, drawn marked.
    pub marked: &'a Vec<Name>,
}

impl<'a> RectangleGrid<'a> {
    /// The tiles to draw on the screen, in order. One that reaches past its edge is left out:
    /// the layout need not add up where a folder is smaller than its contents.
    pub fn render(&self, screen: Cells) -> (tiles: Vec<Drawn>)
        ensures
            tiles@ == drawn(
                screen,
                self.rectangles@,
                self.selected_rect_index,
                spelled(self.marked@),
                self.rectangles.len() as int,
            ),
    {
        let mut tiles: Vec<Drawn> = Vec::new();
        let mut i: usize = 0;
        while i < self.rectangles.len()
            invariant
                i <= self.rectangles.len(),
                tiles@ == drawn(
                    screen,
                    self.rectangles@,
                    self.selected_rect_index,
                    spelled(self.marked@),
                    i as int,
                ),
            decreases self.rectangles.len() - i,
        {
            if fits(screen, &self.rectangles[i]) {
                let selected = match self.selected_rect_index {
                    Some(index) => index == i,
                    None => false,
                };
                let marked = holds_name(self.marked, &self.rectangles[i].entry.name);
                tiles.push(Drawn { index: i, selected, marked });
            }
            i += 1;
        }
        tiles
    }

    /// Where the corner goes that stands for the entries too small for a tile: from its first
    /// cell to the end of the area.
    pub fn small_files(&self, area: Cells) -> (cells: Option<Cells>)
        requires
            area.x + area.width <= u16::MAX,
            area.y + area.height <= u16::MAX,
            self.small_files_coordinates matches Some((x, y)) ==> x <= area.x + area.width && y
                <= area.y + area.height,
        ensures
            match self.small_files_coordinates {
                Some((x, y)) => cells == Some(
                    Cells {
                        x,
                        y,
                        width: (area.x + area.width - x) as u16,
                        height: (area.y + area.height - y) as u16,
                    },
                ),
                None => cells is None,
            },
    {
        match self.small_files_coordinates {
            Some((x, y)) => Some(
                Cells { x, y, width: area.x + area.width - x, height: area.y + area.height - y },
            ),
            None => None,
        }
    }
}

/// Everything drawn is on the screen.
pub proof fn nothing_is_drawn_off_the_screen(
    screen: Cells,
    tiles: Seq<Tile>,
    selected: Option<usize>,
    marked: Seq<Seq<u8>>,
    count: int,
    i: int,
)
    requires
        0 <= count <= tiles.len() <= usize::MAX,
        0 <= i < drawn(screen, tiles, selected, marked, count).len(),
    ensures
        ({
            let one = drawn(screen, tiles, selected, marked, count)[i];
            let tile = tiles[one.index as int];
            one.index < count && is_on_screen(screen, tile.x, tile.y, tile.width, tile.height)
        }),
    decreases count,
{
    if count > 0 && i < drawn(screen, tiles, selected, marked, count - 1).len() {
        nothing_is_drawn_off_the_screen(screen, tiles, selected, marked, count - 1, i);
    }
}

/// What is said in an empty folder, and where: in the middle of the area.
pub fn empty_folder(area: Cells) -> (line: (String, u16, u16))
    requires
        area.width >= 15,
        area.x + area.width <= u16::MAX,
        area.y + area.height <= u16::MAX,
        area.y + area.height / 2 >= 1,
    ensures
        line.0@ == "Folder is empty"@,
        line.1 == area.x + (area.width - 14) / 2,
        line.2 == area.y + area.height / 2 - 1,
{
    let spare: u16 = area.width - 15;
    (
        literal("Folder is empty"),
        spare / 2 + spare % 2 + area.x,
        (area.height / 2) + area.y - 1,
    )
}

/// Every tile that is on the screen is drawn, once and in its order: in hand if it is the one in
/// hand, and marked if its entry is.
pub proof fn every_tile_on_the_screen_is_drawn(
    screen: Cells,
    tiles: Seq<Tile>,
    selected: Option<usize>,
    marked: Seq<Seq<u8>>,
    count: int,
    at: int,
)
    requires
        0 <= at < count <= tiles.len() <= usize::MAX,
        tiles[at].x + tiles[at].width < screen.x + screen.width,
        tiles[at].y + tiles[at].height < screen.y + screen.height,
    ensures
        ({
            let all = drawn(screen, tiles, selected, marked, count);
            exists|i: int|
                0 <= i < all.len() && (#[trigger] all[i]).index == at && all[i].selected == (selected
                    == Some(at as usize)) && all[i].marked == marked.contains(
                    tiles[at].entry.name@,
                )
        }),
    decreases count,
{
    let all = drawn(screen, tiles, selected, marked, count);
    let before = drawn(screen, tiles, selected, marked, count - 1);
    if at == count - 1 {
        assert(all[before.len() as int].index == at);
    } else {
        every_tile_on_the_screen_is_drawn(screen, tiles, selected, marked, count - 1, at);
        let i = choose|i: int| {
            &&& 0 <= i < before.len()
            &&& (#[trigger] before[i]).index == at
            &&& before[i].selected == (selected == Some(at as usize))
            &&& before[i].marked == marked.contains(tiles[at].entry.name@)
        };
        assert(all[i] == before[i]);
    }
}

/// Tiles are drawn in their order, each once.
pub proof fn tiles_are_drawn_in_order(
    screen: Cells,
    tiles: Seq<Tile>,
    selected: Option<usize>,
    marked: Seq<Seq<u8>>,
    count: int,
    i: int,
    j: int,
)
    requires
        0 <= count <= tiles.len() <= usize::MAX,
        0 <= i < j < drawn(screen, tiles, selected, marked, count).len(),
    ensures
        ({
            let all = drawn(screen, tiles, selected, marked, count);
            let tile = tiles[all[i].index as int];
            &&& all[i].index < all[j].index
            &&& tile.x + tile.width < screen.x + screen.width
            &&& tile.y + tile.height < screen.y + screen.height
        }),
    decreases count,
{
    let all = drawn(screen, tiles, selected, marked, count);
    let before = drawn(screen, tiles, selected, marked, count - 1);
    nothing_is_drawn_off_the_screen(screen, tiles, selected, marked, count, i);
    if j < before.len() {
        tiles_are_drawn_in_order(screen, tiles, selected, marked, count - 1, i, j);
    } else {
        nothing_is_drawn_off_the_screen(screen, tiles, selected, marked, count - 1, i);
        assert(all[i] == before[i]);
    }
}

} // verus!
