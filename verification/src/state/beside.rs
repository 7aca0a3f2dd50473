//! The tile beside another.

use vstd::prelude::*;

use crate::entries::Tile;
use crate::state::{Direction, Viewer};

verus! {

/// How far a tile is from another in a direction: only one that lies that way, and part of it
/// level with the other, is.
pub open spec fn gap(from: Tile, to: Tile, direction: Direction) -> Option<int> {
    let (left, top) = (from.x as int, from.y as int);
    let (right, bottom) = (from.x + from.width, from.y + from.height);
    let (x, y) = (to.x as int, to.y as int);
    let (x1, y1) = (to.x + to.width, to.y + to.height);
    let across = x < right && left < x1;
    let along = y < bottom && top < y1;
    match direction {
        Direction::Left => if along && x1 <= left {
            Some(left - x1)
        } else {
            None
        },
        Direction::Right => if along && x >= right {
            Some(x - right)
        } else {
            None
        },
        Direction::Up => if across && y1 <= top {
            Some(top - y1)
        } else {
            None
        },
        Direction::Down => if across && y >= bottom {
            Some(y - bottom)
        } else {
            None
        },
    }
}

fn gap_between(from: &Tile, to: &Tile, direction: Direction) -> (found: Option<u32>)
    ensures
        match found {
            Some(found) => gap(*from, *to, direction) == Some(found as int),
            None => gap(*from, *to, direction) is None,
        },
{
    let (left, top): (u32, u32) = (from.x as u32, from.y as u32);
    let (right, bottom): (u32, u32) = (left + from.width as u32, top + from.height as u32);
    let (x, y): (u32, u32) = (to.x as u32, to.y as u32);
    let (x1, y1): (u32, u32) = (x + to.width as u32, y + to.height as u32);
    let across = x < right && left < x1;
    let along = y < bottom && top < y1;
    match direction {
        Direction::Left => if along && x1 <= left {
            Some(left - x1)
        } else {
            None
        },
        Direction::Right => if along && x >= right {
            Some(x - right)
        } else {
            None
        },
        Direction::Up => if across && y1 <= top {
            Some(top - y1)
        } else {
            None
        },
        Direction::Down => if across && y >= bottom {
            Some(y - bottom)
        } else {
            None
        },
    }
}

/// Whether a tile is the one beside another: of those that lie that way the nearest, and of the
/// nearest the first.
pub open spec fn is_beside(tiles: Seq<Tile>, from: int, direction: Direction, at: int) -> bool {
    &&& 0 <= at < tiles.len()
    &&& gap(tiles[from], tiles[at], direction) is Some
    &&& forall|other: int|
        0 <= other < tiles.len() && gap(tiles[from], #[trigger] tiles[other], direction) is Some
            ==> {
            let (mine, its) = (
                gap(tiles[from], tiles[at], direction)->0,
                gap(tiles[from], tiles[other], direction)->0,
            );
            mine < its || (mine == its && at <= other)
        }
}

impl Viewer {
    /// The tile beside the one in hand, if there is one that way.
    pub fn beside(&self, direction: Direction) -> (found: Option<usize>)
        ensures
            match found {
                Some(at) => self.tile_in_hand is Some && (self.tile_in_hand->0
                    < self.contents.tiles.len()) && is_beside(
                    self.contents.tiles@,
                    self.tile_in_hand->0 as int,
                    direction,
                    at as int,
                ),
                None => self.tile_in_hand is None || self.tile_in_hand->0
                    >= self.contents.tiles.len() || forall|at: int|
                    0 <= at < self.contents.tiles.len() ==> gap(
                        self.contents.tiles@[self.tile_in_hand->0 as int],
                        #[trigger] self.contents.tiles@[at],
                        direction,
                    ) is None,
            },
    {
        let from: usize = match self.tile_in_hand {
            Some(from) => from,
            None => return None,
        };
        if from >= self.contents.tiles.len() {
            return None;
        }
        let ghost tiles = self.contents.tiles@;
        let mut best: Option<(u32, usize)> = None;
        let mut i: usize = 0;
        while i < self.contents.tiles.len()
            invariant
                i <= self.contents.tiles.len(),
                from < self.contents.tiles.len(),
                tiles == self.contents.tiles@,
                match best {
                    Some((distance, at)) => {
                        &&& at < i
                        &&& gap(tiles[from as int], tiles[at as int], direction) == Some(
                            distance as int,
                        )
                        &&& forall|other: int|
                            0 <= other < i && gap(
                                tiles[from as int],
                                #[trigger] tiles[other],
                                direction,
                            ) is Some ==> {
                                let its = gap(tiles[from as int], tiles[other], direction)->0;
                                distance < its || (distance == its && at <= other)
                            }
                    },
                    None => forall|other: int|
                        0 <= other < i ==> gap(
                            tiles[from as int],
                            #[trigger] tiles[other],
                            direction,
                        ) is None,
                },
            decreases self.contents.tiles.len() - i,
        {
            let found = gap_between(
                &self.contents.tiles[from],
                &self.contents.tiles[i],
                direction,
            );
            if let Some(distance) = found {
                let nearer = match best {
                    Some((least, _)) => distance < least,
                    None => true,
                };
                if nearer {
                    best = Some((distance, i));
                }
            }
            i += 1;
        }
        match best {
            Some((_, at)) => Some(at),
            None => None,
        }
    }
}

/// The tile beside another lies that way, clear of it, and part of it is level with it. No other
/// tile that does is nearer.
pub proof fn the_tile_beside_lies_that_way(
    tiles: Seq<Tile>,
    from: int,
    direction: Direction,
    at: int,
    other: int,
)
    requires
        0 <= from < tiles.len(),
        is_beside(tiles, from, direction, at),
        0 <= other < tiles.len(),
    ensures
        0 <= at < tiles.len(),
        direction == Direction::Down ==> tiles[at].y >= tiles[from].y + tiles[from].height,
        direction == Direction::Up ==> tiles[at].y + tiles[at].height <= tiles[from].y,
        direction == Direction::Right ==> tiles[at].x >= tiles[from].x + tiles[from].width,
        direction == Direction::Left ==> tiles[at].x + tiles[at].width <= tiles[from].x,
        direction == Direction::Up || direction == Direction::Down ==> tiles[at].x < tiles[from].x
            + tiles[from].width && tiles[from].x < tiles[at].x + tiles[at].width,
        direction == Direction::Left || direction == Direction::Right ==> tiles[at].y
            < tiles[from].y + tiles[from].height && tiles[from].y < tiles[at].y
            + tiles[at].height,
        direction == Direction::Down && tiles[other].x < tiles[from].x + tiles[from].width
            && tiles[from].x < tiles[other].x + tiles[other].width && tiles[other].y
            >= tiles[from].y + tiles[from].height ==> tiles[at].y < tiles[other].y || (
        tiles[at].y == tiles[other].y && at <= other),
        direction == Direction::Up && tiles[other].x < tiles[from].x + tiles[from].width
            && tiles[from].x < tiles[other].x + tiles[other].width && tiles[other].y
            + tiles[other].height <= tiles[from].y ==> tiles[at].y + tiles[at].height
            > tiles[other].y + tiles[other].height || (tiles[at].y + tiles[at].height
            == tiles[other].y + tiles[other].height && at <= other),
        direction == Direction::Right && tiles[other].y < tiles[from].y + tiles[from].height
            && tiles[from].y < tiles[other].y + tiles[other].height && tiles[other].x
            >= tiles[from].x + tiles[from].width ==> tiles[at].x < tiles[other].x || (
        tiles[at].x == tiles[other].x && at <= other),
        direction == Direction::Left && tiles[other].y < tiles[from].y + tiles[from].height
            && tiles[from].y < tiles[other].y + tiles[other].height && tiles[other].x
            + tiles[other].width <= tiles[from].x ==> tiles[at].x + tiles[at].width
            > tiles[other].x + tiles[other].width || (tiles[at].x + tiles[at].width
            == tiles[other].x + tiles[other].width && at <= other),
{
    assert(gap(tiles[from], tiles[other], direction) is Some ==> gap(
        tiles[from],
        tiles[at],
        direction,
    )->0 <= gap(tiles[from], tiles[other], direction)->0);
}

/// One tile lies beside another one way only if that one lies beside it the other way, as far off.
/// A tile that touches another along part of a side is at no distance that way.
pub proof fn tiles_lie_beside_each_other(a: Tile, b: Tile)
    ensures
        gap(a, b, Direction::Right) == gap(b, a, Direction::Left),
        gap(a, b, Direction::Down) == gap(b, a, Direction::Up),
        b.x == a.x + a.width && b.y < a.y + a.height && a.y < b.y + b.height ==> gap(
            a,
            b,
            Direction::Right,
        ) == Some(0int),
        b.y == a.y + a.height && b.x < a.x + a.width && a.x < b.x + b.width ==> gap(
            a,
            b,
            Direction::Down,
        ) == Some(0int),
{
}

} // verus!
