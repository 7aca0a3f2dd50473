//! The terminal program around its rules: what it is started with, how its events are passed on
//! and how often it ticks.

use vstd::prelude::*;

use crate::bottom_line::{FRAME, IDLE_TICK};
use crate::controls::needs_quit_delay;
use crate::keybind::{Event, Keybinds};
use crate::names::{copy_name, Name};
use crate::terminal::Pictures;

verus! {

/// A folder, as the title shows it.
pub struct FolderInfo {
    pub path: Name,
    pub size: u128,
    pub num_descendants: u64,
}

/// What the title shows that the tree does not know: which size the figures are, and how long
/// the scan took once it finished, in nanoseconds.
pub struct TitleStatus {
    pub apparent_size: bool,
    pub scan_duration: Option<u64>,
    /// Small files the second pass has still to probe, while it runs.
    pub refining: Option<usize>,
}

/// What the side panel says of the folder shown.
pub struct FolderDetails {
    pub size: u128,
    pub descendants: u64,
    /// What the whole scan holds, where the folder is not all of it.
    pub scan_total: Option<u128>,
    /// What the volume uses, and how much of that is outside the scan.
    pub disk: Option<(u128, u128)>,
}

/// What the side panel says of the folder shown: the scan's total below its root, and what the
/// volume uses at the root of a finished scan.
pub fn folder_details(
    folder: &FolderInfo,
    at_root: bool,
    scanned: bool,
    total: u128,
    volume_used: Option<u128>,
    outside: Option<u128>,
) -> (details: FolderDetails)
    ensures
        details.size == folder.size,
        details.descendants == folder.num_descendants,
        details.scan_total == if at_root {
            None
        } else {
            Some(total)
        },
        details.disk == if at_root && scanned && volume_used is Some && outside is Some {
            Some((volume_used->0, outside->0))
        } else {
            None
        },
{
    let disk = match (volume_used, outside) {
        (Some(used), Some(outside)) => {
            if at_root && scanned {
                Some((used, outside))
            } else {
                None
            }
        },
        _ => None,
    };
    FolderDetails {
        size: folder.size,
        descendants: folder.num_descendants,
        scan_total: if at_root {
            None
        } else {
            Some(total)
        },
        disk,
    }
}

/// The config file that an error names: the one asked for, else the usual one.
pub fn config_named(asked: &Option<Name>, usual: &Option<Name>) -> (path: Name)
    ensures
        path@ == match *asked {
            Some(path) => path@,
            None => match *usual {
                Some(path) => path@,
                None => crate::bytes::ascii("config"@),
            },
        },
{
    match asked {
        Some(path) => copy_name(path),
        None => match usual {
            Some(path) => copy_name(path),
            None => {
                let mut path: Name = Vec::new();
                crate::bytes::append_ascii(&mut path, "config");
                assert(path@ =~= crate::bytes::ascii("config"@));
                path
            },
        },
    }
}

/// What a terminal's event is passed on as.
#[derive(Clone, Copy, Debug, PartialEq, Eq, Structural)]
pub enum PassedOn {
    /// The screen is another size: back to the usual view, and draw.
    Resized,
    /// A key or the mouse; and whether to wait a moment, for the program to have quit.
    Keypress { delay: bool },
}

/// What a terminal's event is passed on as.
pub fn passed_on(event: &Event, keybinds: &Keybinds) -> (passed: PassedOn)
    ensures
        passed == if event is Resize {
            PassedOn::Resized
        } else {
            PassedOn::Keypress {
                delay: event is Key && (keybinds.quits(*event) || keybinds.confirm.matches(
                    *event,
                )),
            }
        },
{
    match event {
        Event::Resize(_, _) => PassedOn::Resized,
        Event::Key(_) => PassedOn::Keypress { delay: needs_quit_delay(event, keybinds) },
        _ => PassedOn::Keypress { delay: false },
    }
}

/// How long to wait for the next tick after the pause of a frame, in nanoseconds: no more while
/// the help line slides.
pub fn tick_pause(sliding: bool) -> (pause: u64)
    ensures
        pause == if sliding {
            0
        } else {
            (IDLE_TICK - FRAME) as u64
        },
{
    if sliding {
        0
    } else {
        IDLE_TICK - FRAME
    }
}

/// What draws pictures in the terminal itself.
#[derive(Clone, Copy, Debug, PartialEq, Eq, Structural)]
pub enum GraphicsKind {
    Kitty,
    Sixel,
    NoGraphics,
}

/// What draws pictures in the terminal itself.
pub fn graphics_for(pictures: Pictures) -> (kind: GraphicsKind)
    ensures
        kind == match pictures {
            Pictures::Kitty => GraphicsKind::Kitty,
            Pictures::Sixel => GraphicsKind::Sixel,
            _ => GraphicsKind::NoGraphics,
        },
{
    match pictures {
        Pictures::Kitty => GraphicsKind::Kitty,
        Pictures::Sixel => GraphicsKind::Sixel,
        _ => GraphicsKind::NoGraphics,
    }
}

} // verus!
