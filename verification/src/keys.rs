//! Keysyms for the keys that type no character. Everything Latin-1 is the character.

use vstd::prelude::*;

verus! {

pub const BACKSPACE: u32 = 0xff08;

pub const TAB: u32 = 0xff09;

pub const RETURN: u32 = 0xff0d;

pub const ESCAPE: u32 = 0xff1b;

pub const HOME: u32 = 0xff50;

pub const LEFT: u32 = 0xff51;

pub const UP: u32 = 0xff52;

pub const RIGHT: u32 = 0xff53;

pub const DOWN: u32 = 0xff54;

pub const PAGE_UP: u32 = 0xff55;

pub const PAGE_DOWN: u32 = 0xff56;

pub const END: u32 = 0xff57;

pub const KP_ENTER: u32 = 0xff8d;

pub const KP_HOME: u32 = 0xff95;

pub const KP_LEFT: u32 = 0xff96;

pub const KP_UP: u32 = 0xff97;

pub const KP_RIGHT: u32 = 0xff98;

pub const KP_DOWN: u32 = 0xff99;

pub const KP_PAGE_UP: u32 = 0xff9a;

pub const KP_PAGE_DOWN: u32 = 0xff9b;

pub const KP_END: u32 = 0xff9c;

pub const KP_INSERT: u32 = 0xff9e;

pub const KP_DELETE: u32 = 0xff9f;

pub const KP_ADD: u32 = 0xffab;

pub const KP_SUBTRACT: u32 = 0xffad;

pub const KP_0: u32 = 0xffb0;

pub const F5: u32 = 0xffc2;

pub const DELETE: u32 = 0xffff;

pub const ISO_LEFT_TAB: u32 = 0xfe20;

} // verus!
