//! How the terminal draws pictures, and the sequences that put them on its screen: the kitty
//! graphics protocol, or sixels.

use vstd::prelude::*;
use vstd::slice::slice_subrange;

use crate::bytes::{append_ascii, append_bytes, append_number, ascii, decimal_bytes, plain};
use crate::clipboard::{base64, base64_code};
use crate::search::{
    find, find_bytes, number_in, parse_number, part_views, split, split_bytes,
};
use crate::text::{begins_with, ends_with, finishes_with, same_text};

verus! {

/// How pictures are shown.
#[derive(Debug, Clone, Copy, PartialEq, Eq, Structural)]
pub enum Pictures {
    /// Through the kitty graphics protocol, at full resolution.
    Kitty,
    /// As sixels, at full resolution in up to 256 colours.
    Sixel,
    /// In cells, as half blocks: in 24-bit colour, or else the xterm 256-colour palette.
    Blocks { true_color: bool },
    /// Not at all: described in words.
    Described,
}

/// A way of drawing pictures in the terminal itself, rather than in cells.
#[derive(Debug, Clone, Copy, PartialEq, Eq, Structural)]
pub enum Protocol {
    Kitty,
    Sixel,
}

/// What was found out about the terminal: how it draws pictures, if it does, and its cell size
/// in pixels if it said.
#[derive(Debug, Clone, Copy, PartialEq, Eq)]
pub struct TerminalGraphics {
    pub protocol: Option<Protocol>,
    pub cell_pixels: Option<(u16, u16)>,
}

/// What the terminal answered when it was asked.
#[derive(Debug, Clone, Copy, PartialEq, Eq)]
pub struct Reply {
    /// Whether it answered at all: the device attributes reply came.
    pub answered: bool,
    pub kitty: bool,
    pub sixel: bool,
    pub cell_pixels: Option<(u16, u16)>,
}

/// What the environment says of the terminal; a variable that is not set is empty.
#[derive(Debug)]
pub struct Environment {
    /// The variable that picks how pictures are shown.
    pub graphics: String,
    pub tmux: String,
    pub term: String,
    pub kitty_window_id: String,
    pub ghostty_resources_dir: String,
    pub term_program: String,
    pub wt_session: String,
    pub colorterm: String,
}

/// What the environment settles, or what the terminal is to be asked.
#[derive(Debug, Clone, Copy, PartialEq, Eq)]
pub enum Detected {
    Known(TerminalGraphics),
    /// Ask the terminal, and about kitty graphics too when `kitty`.
    Ask { kitty: bool },
}

/// The cell that Windows Terminal draws sixels to, whatever its font.
pub const WINDOWS_TERMINAL_CELL: (u16, u16) = (10, 20);

/// The terminals that have kitty graphics, by the name they give themselves.
pub open spec fn is_kitty_term(term: Seq<char>) -> bool {
    term == "xterm-kitty"@ || term == "xterm-ghostty"@ || term == "wezterm"@
}

impl Environment {
    /// Whether the terminal says that it has kitty graphics.
    pub open spec fn says_kitty(self) -> bool {
        ||| is_kitty_term(self.term@)
        ||| self.kitty_window_id@.len() > 0
        ||| self.ghostty_resources_dir@.len() > 0
        ||| self.term_program@ == "WezTerm"@
        ||| self.term_program@ == "ghostty"@
    }

    pub open spec fn in_tmux(self) -> bool {
        self.tmux@.len() > 0
    }

    pub open spec fn is_windows_terminal(self) -> bool {
        !self.in_tmux() && self.wt_session@.len() > 0
    }

    /// Whether the terminal is one that has sixels, by its name.
    pub open spec fn names_sixel(self) -> bool {
        !self.in_tmux() && {
            ||| self.wt_session@.len() > 0
            ||| self.term@ == "foot"@
            ||| "foot-"@.is_prefix_of(self.term@)
            ||| "mlterm"@.is_prefix_of(self.term@)
            ||| self.term_program@ == "iTerm.app"@
        }
    }

    /// Whether the terminal says it takes 24-bit colour.
    pub open spec fn says_true_color(self) -> bool {
        ||| self.colorterm@ == "truecolor"@
        ||| self.colorterm@ == "24bit"@
        ||| ends_with(self.term@, "-direct"@)
        ||| is_kitty_term(self.term@)
    }

    /// What the environment settles: the variable that picks, or a terminal with kitty
    /// graphics outside tmux. Otherwise the terminal is asked, inside tmux only about sixels.
    pub open spec fn detected(self) -> Detected {
        if self.graphics@ == "kitty"@ {
            Detected::Known(
                TerminalGraphics { protocol: Some(Protocol::Kitty), cell_pixels: None },
            )
        } else if self.graphics@ == "sixel"@ {
            Detected::Known(
                TerminalGraphics { protocol: Some(Protocol::Sixel), cell_pixels: None },
            )
        } else if self.graphics@ == "blocks"@ || self.graphics@ == "none"@ {
            Detected::Known(TerminalGraphics { protocol: None, cell_pixels: None })
        } else if self.says_kitty() && !self.in_tmux() {
            Detected::Known(
                TerminalGraphics { protocol: Some(Protocol::Kitty), cell_pixels: None },
            )
        } else {
            Detected::Ask { kitty: !self.in_tmux() }
        }
    }

    /// What the terminal's answer comes to. One that has sixels by its name is taken at its
    /// word only where it did not answer.
    pub open spec fn judged(self, reply: Reply) -> TerminalGraphics {
        TerminalGraphics {
            protocol: if reply.kitty {
                Some(Protocol::Kitty)
            } else if reply.sixel || (self.names_sixel() && !reply.answered) {
                Some(Protocol::Sixel)
            } else {
                None
            },
            cell_pixels: if reply.cell_pixels is Some {
                reply.cell_pixels
            } else if self.is_windows_terminal() && !reply.answered {
                Some(WINDOWS_TERMINAL_CELL)
            } else {
                None
            },
        }
    }
}

fn kitty_term(term: &str) -> (is: bool)
    ensures
        is == is_kitty_term(term@),
{
    same_text(term, "xterm-kitty") || same_text(term, "xterm-ghostty") || same_text(
        term,
        "wezterm",
    )
}

impl Environment {
    /// Whether the terminal says it takes 24-bit colour.
    pub fn true_color_supported(&self) -> (does: bool)
        ensures
            does == self.says_true_color(),
    {
        same_text(self.colorterm.as_str(), "truecolor") || same_text(
            self.colorterm.as_str(),
            "24bit",
        ) || finishes_with(self.term.as_str(), "-direct") || kitty_term(self.term.as_str())
    }

    /// How the terminal draws pictures, as far as the environment settles it.
    pub fn detect(&self) -> (detected: Detected)
        ensures
            detected == self.detected(),
    {
        let graphics = self.graphics.as_str();
        if same_text(graphics, "kitty") {
            return Detected::Known(
                TerminalGraphics { protocol: Some(Protocol::Kitty), cell_pixels: None },
            );
        }
        if same_text(graphics, "sixel") {
            return Detected::Known(
                TerminalGraphics { protocol: Some(Protocol::Sixel), cell_pixels: None },
            );
        }
        if same_text(graphics, "blocks") || same_text(graphics, "none") {
            return Detected::Known(TerminalGraphics { protocol: None, cell_pixels: None });
        }
        let tmux = !self.tmux.as_str().is_empty();
        let kitty = kitty_term(self.term.as_str()) || !self.kitty_window_id.as_str().is_empty()
            || !self.ghostty_resources_dir.as_str().is_empty() || same_text(
            self.term_program.as_str(),
            "WezTerm",
        ) || same_text(self.term_program.as_str(), "ghostty");
        if kitty && !tmux {
            return Detected::Known(
                TerminalGraphics { protocol: Some(Protocol::Kitty), cell_pixels: None },
            );
        }
        Detected::Ask { kitty: !tmux }
    }

    /// What the terminal's answer comes to; one that could not be asked, or did not answer,
    /// gives no reply.
    pub fn judge(&self, reply: Option<Reply>) -> (graphics: TerminalGraphics)
        ensures
            graphics == self.judged(
                match reply {
                    Some(reply) => reply,
                    None => no_reply(),
                },
            ),
    {
        let reply = match reply {
            Some(reply) => reply,
            None => Reply { answered: false, kitty: false, sixel: false, cell_pixels: None },
        };
        let tmux = !self.tmux.as_str().is_empty();
        let windows_terminal = !tmux && !self.wt_session.as_str().is_empty();
        let term = self.term.as_str();
        let sixel_by_name = !tmux && (windows_terminal || same_text(term, "foot") || begins_with(
            term,
            "foot-",
        ) || begins_with(term, "mlterm") || same_text(self.term_program.as_str(), "iTerm.app"));
        TerminalGraphics {
            protocol: if reply.kitty {
                Some(Protocol::Kitty)
            } else if reply.sixel || (sixel_by_name && !reply.answered) {
                Some(Protocol::Sixel)
            } else {
                None
            },
            cell_pixels: match reply.cell_pixels {
                Some(size) => Some(size),
                None => if windows_terminal && !reply.answered {
                    Some(WINDOWS_TERMINAL_CELL)
                } else {
                    None
                },
            },
        }
    }

    /// How pictures are shown, by a terminal that draws them so.
    pub fn pictures(&self, protocol: Option<Protocol>) -> (pictures: Pictures)
        ensures
            pictures == if self.graphics@ == "none"@ {
                Pictures::Described
            } else {
                match protocol {
                    Some(Protocol::Kitty) => Pictures::Kitty,
                    Some(Protocol::Sixel) => Pictures::Sixel,
                    None => Pictures::Blocks { true_color: self.says_true_color() },
                }
            },
    {
        if same_text(self.graphics.as_str(), "none") {
            return Pictures::Described;
        }
        match protocol {
            Some(Protocol::Kitty) => Pictures::Kitty,
            Some(Protocol::Sixel) => Pictures::Sixel,
            None => Pictures::Blocks { true_color: self.true_color_supported() },
        }
    }
}

/// A terminal that did not answer.
pub open spec fn no_reply() -> Reply {
    Reply { answered: false, kitty: false, sixel: false, cell_pixels: None }
}

/// The way of drawing pictures, once it is known.
pub fn graphics_protocol(terminal: &TerminalGraphics) -> (protocol: Option<Protocol>)
    ensures
        protocol == terminal.protocol,
{
    terminal.protocol
}

/// Whether the terminal is known to have kitty graphics. One that was never looked at is not:
/// on the way out a query would be answered into the shell.
pub fn kitty_known(terminal: &Option<TerminalGraphics>) -> (known: bool)
    ensures
        known == (terminal is Some && terminal->0.protocol == Some(Protocol::Kitty)),
{
    match terminal {
        Some(terminal) => match terminal.protocol {
            Some(protocol) => protocol == Protocol::Kitty,
            None => false,
        },
        None => false,
    }
}

/// The cell size in pixels that the terminal gave. `None` if it was not asked, or did not say.
pub fn queried_cell_pixels(terminal: &Option<TerminalGraphics>) -> (pixels: Option<(u16, u16)>)
    ensures
        pixels == match terminal {
            Some(terminal) => terminal.cell_pixels,
            None => None,
        },
{
    match terminal {
        Some(terminal) => terminal.cell_pixels,
        None => None,
    }
}

/// What to ask the terminal: a graphics query for a picture of one pixel, which stores nothing,
/// if `ask_kitty`; its cell size; then its device attributes. It answers them in order, and
/// every terminal answers the last.
pub fn terminal_query(ask_kitty: bool) -> (query: Vec<u8>)
    ensures
        query@ == if ask_kitty {
            ascii("\x1b_Gi=31,s=1,v=1,a=q,t=d,f=24;AAAA\x1b\\"@) + ascii("\x1b[16t\x1b[c"@)
        } else {
            ascii("\x1b[16t\x1b[c"@)
        },
{
    if ask_kitty {
        let mut query = plain("\x1b_Gi=31,s=1,v=1,a=q,t=d,f=24;AAAA\x1b\\");
        append_ascii(&mut query, "\x1b[16t\x1b[c");
        query
    } else {
        plain("\x1b[16t\x1b[c")
    }
}

/// The cell size that a report says: `CSI 6 ; height ; width t`.
pub open spec fn cell_size_in(before: Seq<u8>) -> Option<(u16, u16)> {
    match find(before, ascii("\x1b[6;"@)) {
        Some(at) => {
            let rest = before.skip(at + 4);
            match find(rest, seq![116u8]) {
                Some(end) => {
                    let sizes = split(rest.take(end), 59u8);
                    if sizes.len() < 2 {
                        None
                    } else {
                        match (number_in(sizes[0], 65535), number_in(sizes[1], 65535)) {
                            (Some(height), Some(width)) => if height > 0 && width > 0 {
                                Some((width as u16, height as u16))
                            } else {
                                None
                            },
                            _ => None,
                        }
                    }
                },
                None => None,
            }
        },
        None => None,
    }
}

/// What the terminal answered: nothing until the device attributes reply, `ESC [ ? … c`, has
/// arrived. Kitty graphics if an `OK` for the query came before it, sixels if 4 is among the
/// attributes.
pub open spec fn reply_in(reply: Seq<u8>) -> Option<Reply> {
    match find(reply, ascii("\x1b[?"@)) {
        Some(da) => match find(reply.skip(da + 3), seq![99u8]) {
            Some(length) => Some(
                Reply {
                    answered: true,
                    kitty: find(reply.take(da), ascii("\x1b_Gi=31;OK"@)) is Some,
                    sixel: split(reply.subrange(da + 3, da + 3 + length), 59u8).contains(
                        ascii("4"@),
                    ),
                    cell_pixels: cell_size_in(reply.take(da)),
                },
            ),
            None => None,
        },
        None => None,
    }
}

fn cell_size(before: &[u8]) -> (size: Option<(u16, u16)>)
    ensures
        size == cell_size_in(before@),
{
    let mark = plain("\x1b[6;");
    proof {
        reveal_strlit("\x1b[6;");
    }
    let at: usize = match find_bytes(before, mark.as_slice()) {
        Some(at) => at,
        None => return None,
    };
    let rest = slice_subrange(before, at + 4, before.len());
    assert(rest@ =~= before@.skip(at + 4));
    let t: [u8; 1] = [116];
    assert(t@ =~= seq![116u8]);
    let end: usize = match find_bytes(rest, t.as_slice()) {
        Some(end) => end,
        None => return None,
    };
    let sizes = split_bytes(slice_subrange(rest, 0, end), 59);
    assert(rest@.subrange(0, end as int) =~= rest@.take(end as int));
    if sizes.len() < 2 {
        assert(part_views(sizes@).len() < 2);
        return None;
    }
    assert(part_views(sizes@)[0] == sizes@[0]@);
    assert(part_views(sizes@)[1] == sizes@[1]@);
    let height: u32 = match parse_number(sizes[0].as_slice(), 65535) {
        Some(height) => height,
        None => return None,
    };
    let width: u32 = match parse_number(sizes[1].as_slice(), 65535) {
        Some(width) => width,
        None => return None,
    };
    if height > 0 && width > 0 {
        Some((width as u16, height as u16))
    } else {
        None
    }
}

/// Whether one of the parts is `wanted`.
fn any_part(parts: &Vec<Vec<u8>>, wanted: &Vec<u8>) -> (any: bool)
    ensures
        any == part_views(parts@).contains(wanted@),
{
    let mut i: usize = 0;
    while i < parts.len()
        invariant
            i <= parts.len(),
            forall|j: int| 0 <= j < i ==> part_views(parts@)[j] != wanted@,
        decreases parts.len() - i,
    {
        if crate::names::same_name(&parts[i], wanted) {
            assert(part_views(parts@)[i as int] == wanted@);
            return true;
        }
        i += 1;
    }
    false
}

/// Read the terminal's answer: `None` until the device attributes reply has arrived.
pub fn parse_reply(reply: &[u8]) -> (answer: Option<Reply>)
    ensures
        answer == reply_in(reply@),
{
    proof {
        reveal_strlit("\x1b[?");
    }
    let mark = plain("\x1b[?");
    let da: usize = match find_bytes(reply, mark.as_slice()) {
        Some(da) => da,
        None => return None,
    };
    let after = slice_subrange(reply, da + 3, reply.len());
    assert(after@ =~= reply@.skip(da + 3));
    let c: [u8; 1] = [99];
    assert(c@ =~= seq![99u8]);
    let length: usize = match find_bytes(after, c.as_slice()) {
        Some(length) => length,
        None => return None,
    };
    let attributes = split_bytes(slice_subrange(after, 0, length), 59);
    assert(after@.subrange(0, length as int) =~= reply@.subrange(da + 3, da + 3 + length));
    let before = slice_subrange(reply, 0, da);
    assert(before@ =~= reply@.take(da as int));
    let ok = plain("\x1b_Gi=31;OK");
    let four = plain("4");
    Some(
        Reply {
            answered: true,
            kitty: find_bytes(before, ok.as_slice()).is_some(),
            sixel: any_part(&attributes, &four),
            cell_pixels: cell_size(before),
        },
    )
}

/// A picture ready for the terminal: scaled to fit the preview and encoded for it.
#[derive(Debug, PartialEq, Eq)]
pub struct PreparedImage {
    /// Which request it answers, so a stale picture is never shown and a new one is sent anew.
    pub generation: u64,
    /// A PNG for kitty graphics; for sixels, the whole sequence, ready to write.
    pub data: Vec<u8>,
    /// Cells it covers once drawn.
    pub columns: u16,
    pub rows: u16,
    /// What it is, for the caption.
    pub description: String,
}

/// Where a picture goes: its top-left cell.
#[derive(Debug, PartialEq, Eq)]
pub struct Placement {
    pub image: PreparedImage,
    pub column: u16,
    pub row: u16,
}

/// A rectangle of cells.
#[derive(Debug, Clone, Copy, PartialEq, Eq, Structural)]
pub struct Cells {
    pub x: u16,
    pub y: u16,
    pub width: u16,
    pub height: u16,
}

/// The id the preview's picture goes by in the terminal, so that it and only it is replaced.
pub const KITTY_IMAGE_ID: u64 = 0xD15C;

/// Characters per chunk: the protocol's limit.
pub const KITTY_CHUNK: usize = 4096;

/// Save the cursor and go to a cell.
pub open spec fn to_cell(column: u16, row: u16) -> Seq<u8> {
    (((ascii("\x1b7\x1b["@) + decimal_bytes((row + 1) as nat)) + ascii(";"@)) + decimal_bytes(
        (column + 1) as nat,
    )) + ascii("H"@)
}

/// Put the cursor back.
pub open spec fn cursor_back() -> Seq<u8> {
    ascii("\x1b8"@)
}

/// The keys of the first chunk: transmit and place the picture over so many cells, with the
/// cursor left where it is, the picture under text, and no answer.
pub open spec fn first_keys(columns: u16, rows: u16) -> Seq<u8> {
    ((((((ascii("\x1b_Ga=T,f=100,t=d,i="@) + decimal_bytes(KITTY_IMAGE_ID as nat)) + ascii(
        ",p=1,c="@,
    )) + decimal_bytes(columns as nat)) + ascii(",r="@)) + decimal_bytes(rows as nat)) + ascii(
        ",C=1,z=-1,q=2,m="@,
    ))
}

/// A chunk's data, after whether more follow.
pub open spec fn chunk_end(more: bool, chunk: Seq<u8>) -> Seq<u8> {
    (if more {
        ascii("1;"@)
    } else {
        ascii("0;"@)
    } + chunk) + ascii("\x1b\\"@)
}

/// A chunk's data after the first, and whether more follow.
pub open spec fn next_chunk_end(more: bool, chunk: Seq<u8>) -> Seq<u8> {
    (if more {
        ascii("1,q=2;"@)
    } else {
        ascii("0,q=2;"@)
    } + chunk) + ascii("\x1b\\"@)
}

/// The chunks of what is left of the data.
pub open spec fn kitty_chunks(image: PreparedImage, data: Seq<u8>, first: bool) -> Seq<u8>
    decreases data.len(),
{
    if data.len() == 0 {
        Seq::empty()
    } else {
        let more = data.len() > KITTY_CHUNK;
        let chunk = if more {
            data.take(KITTY_CHUNK as int)
        } else {
            data
        };
        let sent = if first {
            first_keys(image.columns, image.rows) + chunk_end(more, chunk)
        } else {
            ascii("\x1b_Gm="@) + next_chunk_end(more, chunk)
        };
        if more {
            sent + kitty_chunks(image, data.skip(KITTY_CHUNK as int), false)
        } else {
            sent
        }
    }
}

/// The sequence that transmits and places a picture.
pub open spec fn kitty_placed(placement: Placement) -> Seq<u8> {
    (to_cell(placement.column, placement.row) + kitty_chunks(
        placement.image,
        base64_code(placement.image.data@),
        true,
    )) + cursor_back()
}

/// The sequence that takes the picture off the screen and out of the terminal's memory.
pub open spec fn kitty_deleted() -> Seq<u8> {
    (ascii("\x1b_Ga=d,d=I,i="@) + decimal_bytes(KITTY_IMAGE_ID as nat)) + ascii(",q=2\x1b\\"@)
}

fn append_to_cell(out: &mut Vec<u8>, column: u16, row: u16)
    ensures
        final(out)@ == old(out)@ + to_cell(column, row),
{
    let ghost before = out@;
    append_ascii(out, "\x1b7\x1b[");
    append_number(out, row as u64 + 1);
    append_ascii(out, ";");
    append_number(out, column as u64 + 1);
    append_ascii(out, "H");
    assert(out@ =~= before + to_cell(column, row));
}

fn append_first_keys(out: &mut Vec<u8>, columns: u16, rows: u16)
    ensures
        final(out)@ == old(out)@ + first_keys(columns, rows),
{
    let ghost before = out@;
    append_ascii(out, "\x1b_Ga=T,f=100,t=d,i=");
    append_number(out, KITTY_IMAGE_ID);
    append_ascii(out, ",p=1,c=");
    append_number(out, columns as u64);
    append_ascii(out, ",r=");
    append_number(out, rows as u64);
    append_ascii(out, ",C=1,z=-1,q=2,m=");
    assert(out@ =~= before + first_keys(columns, rows));
}

/// Transmit and place a picture at its cell.
pub fn kitty_place(out: &mut Vec<u8>, placement: &Placement)
    ensures
        final(out)@ == old(out)@ + kitty_placed(*placement),
{
    let ghost before = out@;
    let data = base64(placement.image.data.as_slice());
    append_to_cell(out, placement.column, placement.row);
    let ghost placed = out@;
    let mut start: usize = 0;
    assert(data@.skip(0) =~= data@);
    assert(out@ == placed);
    while start < data.len()
        invariant
            start <= data.len(),
            out@ + kitty_chunks(placement.image, data@.skip(start as int), start == 0) == placed
                + kitty_chunks(placement.image, data@, true),
        decreases data.len() - start,
    {
        let ghost so_far = out@;
        let ghost left = data@.skip(start as int);
        let more = data.len() - start > KITTY_CHUNK;
        let end: usize = if more {
            start + KITTY_CHUNK
        } else {
            data.len()
        };
        let chunk = slice_subrange(data.as_slice(), start, end);
        assert(chunk@ =~= if more {
            left.take(KITTY_CHUNK as int)
        } else {
            left
        });
        if start == 0 {
            append_first_keys(out, placement.image.columns, placement.image.rows);
            if more {
                append_ascii(out, "1;");
            } else {
                append_ascii(out, "0;");
            }
            append_bytes(out, chunk);
            append_ascii(out, "\x1b\\");
            assert(out@ =~= so_far + (first_keys(
                placement.image.columns,
                placement.image.rows,
            ) + chunk_end(more, chunk@)));
        } else {
            append_ascii(out, "\x1b_Gm=");
            if more {
                append_ascii(out, "1,q=2;");
            } else {
                append_ascii(out, "0,q=2;");
            }
            append_bytes(out, chunk);
            append_ascii(out, "\x1b\\");
            assert(out@ =~= so_far + (ascii("\x1b_Gm="@) + next_chunk_end(more, chunk@)));
        }
        if more {
            assert(left.skip(KITTY_CHUNK as int) =~= data@.skip(end as int));
        } else {
            assert(data@.skip(end as int).len() == 0);
        }
        assert(out@ + kitty_chunks(placement.image, data@.skip(end as int), false) =~= so_far
            + kitty_chunks(placement.image, left, start == 0));
        start = end;
    }
    assert(data@.skip(start as int).len() == 0);
    assert(out@ + kitty_chunks(placement.image, data@.skip(start as int), start == 0) =~= out@);
    append_ascii(out, "\x1b8");
    assert(out@ =~= before + kitty_placed(*placement));
}

/// Take the preview's picture off the screen and out of the terminal's memory.
pub fn kitty_delete(out: &mut Vec<u8>)
    ensures
        final(out)@ == old(out)@ + kitty_deleted(),
{
    let ghost before = out@;
    append_ascii(out, "\x1b_Ga=d,d=I,i=");
    append_number(out, KITTY_IMAGE_ID);
    append_ascii(out, ",q=2\x1b\\");
    assert(out@ =~= before + kitty_deleted());
}

/// The sequence that draws a sixel picture from its top-left cell.
pub open spec fn sixel_placed(placement: Placement) -> Seq<u8> {
    (to_cell(placement.column, placement.row) + placement.image.data@) + cursor_back()
}

/// Draw a sixel picture from its top-left cell, the cursor and its colours put back after.
pub fn sixel_place(out: &mut Vec<u8>, placement: &Placement)
    ensures
        final(out)@ == old(out)@ + sixel_placed(*placement),
{
    let ghost before = out@;
    append_to_cell(out, placement.column, placement.row);
    append_bytes(out, placement.image.data.as_slice());
    append_ascii(out, "\x1b8");
    assert(out@ =~= before + sixel_placed(*placement));
}

/// Blank the first `count` rows of some cells.
pub open spec fn rows_erased(cells: Cells, count: int) -> Seq<u8>
    decreases count,
{
    if count <= 0 {
        Seq::empty()
    } else {
        rows_erased(cells, count - 1) + ((((((ascii("\x1b["@) + decimal_bytes(
            (cells.y + count) as nat,
        )) + ascii(";"@)) + decimal_bytes((cells.x + 1) as nat)) + ascii("H\x1b["@))
            + decimal_bytes(cells.width as nat)) + ascii("X"@))
    }
}

/// The sequence that blanks cells in the default colours.
pub open spec fn cells_erased(cells: Cells) -> Seq<u8> {
    (ascii("\x1b7\x1b[0m"@) + rows_erased(cells, cells.height as int)) + cursor_back()
}

/// Blank `cells` in the default colours, the cursor and its colours put back after.
pub fn erase_cells(out: &mut Vec<u8>, cells: Cells)
    ensures
        final(out)@ == old(out)@ + cells_erased(cells),
{
    let ghost before = out@;
    append_ascii(out, "\x1b7\x1b[0m");
    let ghost start = out@;
    let mut row: u16 = 0;
    assert(start + rows_erased(cells, 0) =~= start);
    while row < cells.height
        invariant
            row <= cells.height,
            out@ == start + rows_erased(cells, row as int),
        decreases cells.height - row,
    {
        append_ascii(out, "\x1b[");
        append_number(out, cells.y as u64 + row as u64 + 1);
        append_ascii(out, ";");
        append_number(out, cells.x as u64 + 1);
        append_ascii(out, "H\x1b[");
        append_number(out, cells.width as u64);
        append_ascii(out, "X");
        row += 1;
        assert(out@ =~= start + rows_erased(cells, row as int));
    }
    append_ascii(out, "\x1b8");
    assert(out@ =~= before + cells_erased(cells));
}

/// Where the picture sits in the preview area: centred across it, at its top.
pub fn placement_in(area: Cells, image: PreparedImage) -> (placement: Placement)
    requires
        area.x + area.width <= u16::MAX,
    ensures
        placement.image == image,
        placement.row == area.y,
        placement.column == area.x + if area.width > image.columns {
            (area.width - image.columns) / 2
        } else {
            0
        },
{
    let spare: u16 = area.width.saturating_sub(image.columns);
    Placement { column: area.x + spare / 2, row: area.y, image }
}

/// Pictures through the kitty graphics protocol. Only a change is sent: the same picture in the
/// same place is left alone.
#[derive(Debug, PartialEq, Eq)]
pub struct KittyGraphics {
    /// The picture on screen: its generation, and its cell.
    pub shown: Option<(u64, u16, u16)>,
}

/// A picture by its generation and its cell.
pub open spec fn kitty_key(placement: Option<Placement>) -> Option<(u64, u16, u16)> {
    match placement {
        Some(placement) => Some((placement.image.generation, placement.column, placement.row)),
        None => None,
    }
}

/// A terminal without pictures.
#[derive(Debug, PartialEq, Eq)]
pub struct NoGraphics;

impl NoGraphics {
    /// What to write after a frame is drawn: nothing.
    pub fn show(&mut self, _placement: &Option<Placement>) -> (out: Vec<u8>)
        ensures
            out@.len() == 0,
    {
        Vec::new()
    }

    /// Whether a picture stays whole under text drawn over it.
    pub fn stays_under_text(&self) -> (stays: bool)
        ensures
            stays,
    {
        true
    }
}

impl Default for KittyGraphics {
    fn default() -> (graphics: Self)
        ensures
            graphics.shown is None,
    {
        KittyGraphics { shown: None }
    }
}

impl KittyGraphics {
    /// What to write after a frame is drawn, to show this and nothing else.
    pub fn show(&mut self, placement: &Option<Placement>) -> (out: Vec<u8>)
        ensures
            final(self).shown == kitty_key(*placement),
            out@ == if kitty_key(*placement) == old(self).shown {
                Seq::empty()
            } else {
                (if old(self).shown is Some {
                    kitty_deleted()
                } else {
                    Seq::empty()
                }) + (match *placement {
                    Some(placement) => kitty_placed(placement),
                    None => Seq::empty(),
                })
            },
    {
        let mut out: Vec<u8> = Vec::new();
        let wanted: Option<(u64, u16, u16)> = match placement {
            Some(placement) => Some(
                (placement.image.generation, placement.column, placement.row),
            ),
            None => None,
        };
        let same = match (wanted, self.shown) {
            (Some(a), Some(b)) => a.0 == b.0 && a.1 == b.1 && a.2 == b.2,
            (None, None) => true,
            _ => false,
        };
        if same {
            return out;
        }
        if self.shown.is_some() {
            kitty_delete(&mut out);
        }
        if let Some(placement) = placement {
            kitty_place(&mut out, placement);
        }
        self.shown = wanted;
        assert(out@ =~= (if old(self).shown is Some {
            kitty_deleted()
        } else {
            Seq::empty()
        }) + (match *placement {
            Some(placement) => kitty_placed(placement),
            None => Seq::empty(),
        }));
        out
    }

    /// The screen was cleared, and whatever was on it is gone.
    pub fn cleared(&mut self)
        ensures
            final(self).shown is None,
    {
        self.shown = None;
    }

    /// Whether the picture stays whole under text drawn over it, so that a dialog can cover it
    /// and leave it as it was once gone. If not, it is taken away while a dialog is up.
    pub fn stays_under_text(&self) -> (stays: bool)
        ensures
            stays,
    {
        true
    }
}

/// Pictures as sixels. A sixel picture is pixels painted into cells, with nothing to delete it
/// by, so before a frame that changes or removes it, its cells are erased.
#[derive(Debug, PartialEq, Eq)]
pub struct SixelGraphics {
    /// The picture on screen: its generation, and the cells it covers.
    pub shown: Option<(u64, Cells)>,
}

/// A picture by its generation and the cells it covers.
pub open spec fn sixel_key(placement: Option<Placement>) -> Option<(u64, Cells)> {
    match placement {
        Some(placement) => Some(
            (
                placement.image.generation,
                Cells {
                    x: placement.column,
                    y: placement.row,
                    width: placement.image.columns,
                    height: placement.image.rows,
                },
            ),
        ),
        None => None,
    }
}

impl Default for SixelGraphics {
    fn default() -> (graphics: Self)
        ensures
            graphics.shown is None,
    {
        SixelGraphics { shown: None }
    }
}

impl SixelGraphics {
    fn key(placement: &Option<Placement>) -> (key: Option<(u64, Cells)>)
        ensures
            key == sixel_key(*placement),
    {
        match placement {
            Some(placement) => Some(
                (
                    placement.image.generation,
                    Cells {
                        x: placement.column,
                        y: placement.row,
                        width: placement.image.columns,
                        height: placement.image.rows,
                    },
                ),
            ),
            None => None,
        }
    }

    fn is_shown(&self, wanted: Option<(u64, Cells)>) -> (same: bool)
        ensures
            same == (wanted == self.shown),
    {
        match (wanted, self.shown) {
            (Some(a), Some(b)) => a.0 == b.0 && a.1 == b.1,
            (None, None) => true,
            _ => false,
        }
    }

    /// What to write before a frame is drawn that will show this.
    pub fn prepare(&mut self, placement: &Option<Placement>) -> (out: Vec<u8>)
        ensures
            final(self).shown == if sixel_key(*placement) == old(self).shown {
                old(self).shown
            } else {
                None
            },
            out@ == if old(self).shown is Some && sixel_key(*placement) != old(self).shown {
                cells_erased((old(self).shown->0).1)
            } else {
                Seq::empty()
            },
    {
        let mut out: Vec<u8> = Vec::new();
        let wanted = SixelGraphics::key(placement);
        if let Some((_, cells)) = self.shown {
            if !self.is_shown(wanted) {
                erase_cells(&mut out, cells);
                assert(out@ =~= cells_erased(cells));
                self.shown = None;
            }
        }
        out
    }

    /// What to write after a frame is drawn, to show this and nothing else.
    pub fn show(&mut self, placement: &Option<Placement>) -> (out: Vec<u8>)
        ensures
            final(self).shown == sixel_key(*placement),
            out@ == if sixel_key(*placement) == old(self).shown {
                Seq::empty()
            } else {
                (if old(self).shown is Some {
                    cells_erased((old(self).shown->0).1)
                } else {
                    Seq::empty()
                }) + (match *placement {
                    Some(placement) => sixel_placed(placement),
                    None => Seq::empty(),
                })
            },
    {
        let mut out: Vec<u8> = Vec::new();
        let wanted = SixelGraphics::key(placement);
        if self.is_shown(wanted) {
            return out;
        }
        if let Some((_, cells)) = self.shown {
            erase_cells(&mut out, cells);
        }
        if let Some(placement) = placement {
            sixel_place(&mut out, placement);
        }
        self.shown = wanted;
        assert(out@ =~= (if old(self).shown is Some {
            cells_erased((old(self).shown->0).1)
        } else {
            Seq::empty()
        }) + (match *placement {
            Some(placement) => sixel_placed(placement),
            None => Seq::empty(),
        }));
        out
    }

    /// The screen was cleared, and whatever was on it is gone.
    pub fn cleared(&mut self)
        ensures
            final(self).shown is None,
    {
        self.shown = None;
    }

    /// Whether the picture stays whole under text drawn over it, so that a dialog can cover it
    /// and leave it as it was once gone. If not, it is taken away while a dialog is up.
    pub fn stays_under_text(&self) -> (stays: bool)
        ensures
            !stays,
    {
        false
    }
}

/// A picture's data is sent whole and in order, in pieces of no more than [`KITTY_CHUNK`] bytes:
/// each piece ends the command that it is in, all but the last say that more is to come, and the
/// last says that none is.
pub proof fn a_picture_is_sent_whole(
    image: PreparedImage,
    piece: Seq<u8>,
    rest: Seq<u8>,
    first: bool,
)
    requires
        0 < piece.len() <= 4096,
        rest.len() > 0 ==> piece.len() == 4096,
    ensures
        ({
            let keys = if first {
                first_keys(image.columns, image.rows)
            } else {
                ascii("\x1b_Gm="@)
            };
            let quiet: Seq<u8> = if first {
                ascii(";"@)
            } else {
                ascii(",q=2;"@)
            };
            kitty_chunks(image, piece + rest, first) == keys + if rest.len() > 0 {
                ascii("1"@) + quiet + piece + ascii("\x1b\\"@) + kitty_chunks(image, rest, false)
            } else {
                ascii("0"@) + quiet + piece + ascii("\x1b\\"@)
            }
        }),
        kitty_chunks(image, Seq::empty(), first).len() == 0,
{
    reveal_strlit("1;");
    reveal_strlit("0;");
    reveal_strlit("1,q=2;");
    reveal_strlit("0,q=2;");
    reveal_strlit("1");
    reveal_strlit("0");
    reveal_strlit(";");
    reveal_strlit(",q=2;");
    assert(ascii("1;"@) =~= ascii("1"@) + ascii(";"@));
    assert(ascii("0;"@) =~= ascii("0"@) + ascii(";"@));
    assert(ascii("1,q=2;"@) =~= ascii("1"@) + ascii(",q=2;"@));
    assert(ascii("0,q=2;"@) =~= ascii("0"@) + ascii(",q=2;"@));
    let data = piece + rest;
    let keys = if first {
        first_keys(image.columns, image.rows)
    } else {
        ascii("\x1b_Gm="@)
    };
    let quiet: Seq<u8> = if first {
        ascii(";"@)
    } else {
        ascii(",q=2;"@)
    };
    if rest.len() > 0 {
        assert(data.take(4096) =~= piece);
        assert(data.skip(4096) =~= rest);
        assert(kitty_chunks(image, data, first) =~= keys + (ascii("1"@) + quiet + piece + ascii(
            "\x1b\\"@,
        ) + kitty_chunks(image, rest, false)));
    } else {
        assert(data =~= piece);
        assert(kitty_chunks(image, data, first) =~= keys + (ascii("0"@) + quiet + piece + ascii(
            "\x1b\\"@,
        )));
    }
}

/// A cell is named by its row and then its column, both counted from one, and the cursor comes back
/// to where it was.
pub proof fn cells_are_counted_from_one(placement: Placement)
    ensures
        exists|after: Seq<u8>|
            kitty_placed(placement) == #[trigger] (ascii("\x1b7\x1b["@) + decimal_bytes(
                (placement.row + 1) as nat,
            ) + ascii(";"@) + decimal_bytes((placement.column + 1) as nat) + ascii("H"@) + after
                + ascii("\x1b8"@)),
        sixel_placed(placement) == ascii("\x1b7\x1b["@) + decimal_bytes((placement.row + 1) as nat)
            + ascii(";"@) + decimal_bytes((placement.column + 1) as nat) + ascii("H"@)
            + placement.image.data@ + ascii("\x1b8"@),
{
    let after = kitty_chunks(placement.image, base64_code(placement.image.data@), true);
    assert(kitty_placed(placement) == ascii("\x1b7\x1b["@) + decimal_bytes(
        (placement.row + 1) as nat,
    ) + ascii(";"@) + decimal_bytes((placement.column + 1) as nat) + ascii("H"@) + after + ascii(
        "\x1b8"@,
    ));
}

proof fn a_row_is_among_those_erased(cells: Cells, count: int, row: int) -> (around: (
    Seq<u8>,
    Seq<u8>,
))
    requires
        0 <= row < count,
    ensures
        rows_erased(cells, count) == around.0 + (ascii("\x1b["@) + decimal_bytes(
            (cells.y + row + 1) as nat,
        ) + ascii(";"@) + decimal_bytes((cells.x + 1) as nat) + ascii("H\x1b["@) + decimal_bytes(
            cells.width as nat,
        ) + ascii("X"@)) + around.1,
    decreases count,
{
    let before = rows_erased(cells, count - 1);
    let last = ascii("\x1b["@) + decimal_bytes((cells.y + count) as nat) + ascii(";"@)
        + decimal_bytes((cells.x + 1) as nat) + ascii("H\x1b["@) + decimal_bytes(
        cells.width as nat,
    ) + ascii("X"@);
    if row == count - 1 {
        assert(cells.y + row + 1 == cells.y + count);
        assert(before + last + Seq::<u8>::empty() =~= rows_erased(cells, count));
        (before, Seq::empty())
    } else {
        let around = a_row_is_among_those_erased(cells, count - 1, row);
        let its = ascii("\x1b["@) + decimal_bytes((cells.y + row + 1) as nat) + ascii(";"@)
            + decimal_bytes((cells.x + 1) as nat) + ascii("H\x1b["@) + decimal_bytes(
            cells.width as nat,
        ) + ascii("X"@);
        assert(around.0 + its + (around.1 + last) =~= rows_erased(cells, count));
        (around.0, around.1 + last)
    }
}

/// Every row of cells is erased, from its first column and over their whole width.
pub proof fn every_row_of_cells_is_erased(cells: Cells, row: int)
    requires
        0 <= row < cells.height,
    ensures
        exists|before: Seq<u8>, after: Seq<u8>| #[trigger]
            (before + (ascii("\x1b["@) + decimal_bytes((cells.y + row + 1) as nat) + ascii(";"@)
                + decimal_bytes((cells.x + 1) as nat) + ascii("H\x1b["@) + decimal_bytes(
                cells.width as nat,
            ) + ascii("X"@)) + after) == cells_erased(cells),
{
    let around = a_row_is_among_those_erased(cells, cells.height as int, row);
    let its = ascii("\x1b["@) + decimal_bytes((cells.y + row + 1) as nat) + ascii(";"@)
        + decimal_bytes((cells.x + 1) as nat) + ascii("H\x1b["@) + decimal_bytes(
        cells.width as nat,
    ) + ascii("X"@);
    let before = ascii("\x1b7\x1b[0m"@) + around.0;
    let after = around.1 + cursor_back();
    assert(before + its + after =~= cells_erased(cells));
}

/// What the variable says goes, in any terminal. Otherwise kitty graphics are taken for granted only
/// outside of tmux, where the terminal says of itself that it is one with them; any other is asked.
pub proof fn the_variable_says_how_pictures_are_shown(environment: Environment)
    ensures
        environment.graphics@ == "kitty"@ ==> environment.detected() == Detected::Known(
            TerminalGraphics { protocol: Some(Protocol::Kitty), cell_pixels: None },
        ),
        environment.graphics@ == "sixel"@ ==> environment.detected() == Detected::Known(
            TerminalGraphics { protocol: Some(Protocol::Sixel), cell_pixels: None },
        ),
        environment.graphics@ == "blocks"@ || environment.graphics@ == "none"@
            ==> environment.detected() == Detected::Known(
            TerminalGraphics { protocol: None, cell_pixels: None },
        ),
        environment.graphics@.len() == 0 && environment.tmux@.len() > 0 ==> environment.detected()
            == (Detected::Ask { kitty: false }),
        environment.graphics@.len() == 0 && environment.tmux@.len() == 0
            && environment.kitty_window_id@.len() > 0 ==> environment.detected() is Known
            && environment.detected()->Known_0.protocol == Some(Protocol::Kitty),
        environment.graphics@.len() == 0 && environment.tmux@.len() == 0 && environment.term@
            == "xterm"@ && environment.kitty_window_id@.len() == 0
            && environment.ghostty_resources_dir@.len() == 0 && environment.term_program@.len()
            == 0 ==> environment.detected() == (Detected::Ask { kitty: true }),
{
    reveal_strlit("kitty");
    reveal_strlit("sixel");
    reveal_strlit("blocks");
    reveal_strlit("none");
    reveal_strlit("xterm");
    reveal_strlit("xterm-kitty");
    reveal_strlit("xterm-ghostty");
    reveal_strlit("wezterm");
    reveal_strlit("WezTerm");
    reveal_strlit("ghostty");
    assert("kitty"@[0] != "sixel"@[0] && "kitty"@[0] != "blocks"@[0] && "kitty"@[0]
        != "none"@[0]);
    assert("sixel"@[0] != "blocks"@[0] && "sixel"@[0] != "none"@[0] && "blocks"@[0]
        != "none"@[0]);
    assert("xterm"@.len() == 5);
}

/// A terminal that answered is taken at its word: kitty graphics before sixels, and neither where it
/// has neither. Only one that did not answer is judged by its name.
pub proof fn an_answer_is_taken_at_its_word(environment: Environment, reply: Reply)
    ensures
        reply.kitty ==> environment.judged(reply).protocol == Some(Protocol::Kitty),
        !reply.kitty && reply.sixel ==> environment.judged(reply).protocol == Some(Protocol::Sixel),
        reply.answered && !reply.kitty && !reply.sixel ==> environment.judged(reply).protocol is None,
        reply.cell_pixels is Some ==> environment.judged(reply).cell_pixels == reply.cell_pixels,
        reply.answered && reply.cell_pixels is None ==> environment.judged(
            reply,
        ).cell_pixels is None,
        environment.tmux@.len() > 0 && !reply.kitty && !reply.sixel ==> environment.judged(
            reply,
        ).protocol is None,
        !reply.answered && !reply.kitty && environment.tmux@.len() == 0 && environment.term@
            == "foot"@ ==> environment.judged(reply).protocol == Some(Protocol::Sixel),
{
}

/// A cell size that the terminal reports is read back, the width first.
pub proof fn a_cell_size_is_read_back(width: u16, height: u16, rest: Seq<u8>)
    requires
        0 < width,
        0 < height,
    ensures
        cell_size_in(
            ascii("\x1b[6;"@) + (decimal_bytes(height as nat) + seq![59u8] + decimal_bytes(
                width as nat,
            ) + seq![116u8] + rest),
        ) == Some((width, height)),
{
    reveal_strlit("\x1b[6;");
    let start = ascii("\x1b[6;"@);
    let (h, w) = (decimal_bytes(height as nat), decimal_bytes(width as nat));
    let sizes = h + seq![59u8] + w;
    let said = h + seq![59u8] + w + seq![116u8] + rest;
    let report = start + said;
    assert(report.subrange(0, 4) =~= start);
    assert(crate::search::is_at(report, start, 0));
    crate::search::found_is_first(report, start, 0);
    assert(report.skip(4) =~= said);
    crate::bytes::decimal_spells_the_number(height as nat);
    crate::bytes::decimal_spells_the_number(width as nat);
    let end = sizes.len() as int;
    assert forall|j: int| 0 <= j < end implies said[j] != 116 by {
        if j < h.len() {
            assert(said[j] == h[j]);
        } else if j > h.len() {
            assert(said[j] == w[j - h.len() - 1]);
        }
    }
    crate::search::one_is_found(said, 116u8, end);
    assert(said.take(end) =~= sizes);
    crate::search::a_split_is_at_each_separator(h, 59u8, w);
    crate::search::a_split_is_at_each_separator(w, 59u8, Seq::empty());
    let parts = split(sizes, 59u8);
    assert(parts =~= seq![h, w]);
    crate::search::a_number_is_read_back(height as nat, 65535, h, 0);
    crate::search::a_number_is_read_back(width as nat, 65535, w, 0);
}

/// The answer is there once the device attributes are, whatever comes after them: sixels where 4 is
/// one of them, and what came before them says whether kitty graphics were confirmed and how large a
/// cell is.
pub proof fn an_answer_ends_with_the_attributes(
    before: Seq<u8>,
    attributes: Seq<u8>,
    after: Seq<u8>,
)
    requires
        forall|i: int| 0 <= i < before.len() ==> #[trigger] before[i] != 63,
        forall|i: int| 0 <= i < attributes.len() ==> #[trigger] attributes[i] != 99,
    ensures
        ({
            let answer = reply_in(
                before + ascii("\x1b[?"@) + attributes + seq![99u8] + after,
            );
            &&& answer is Some && answer->0.answered
            &&& answer->0.sixel <==> exists|i: int|
                0 <= i < split(attributes, 59u8).len() && #[trigger] split(attributes, 59u8)[i]
                    == seq![52u8]
            &&& answer->0.kitty <==> exists|i: int|
                0 <= i <= before.len() - 10 && #[trigger] before.subrange(i, i + 10) == ascii(
                    "\x1b_Gi=31;OK"@,
                )
            &&& answer->0.cell_pixels == cell_size_in(before)
        }),
        reply_in(before) is None,
{
    reveal_strlit("\x1b[?");
    reveal_strlit("4");
    reveal_strlit("\x1b_Gi=31;OK");
    let query = ascii("\x1b[?"@);
    let reply = before + query + attributes + seq![99u8] + after;
    let da = before.len() as int;
    assert(query =~= seq![27u8, 91, 63]);
    the_attributes_are_found(before, attributes + seq![99u8] + after);
    assert(reply =~= before + seq![27u8, 91, 63] + (attributes + seq![99u8] + after));
    let rest = reply.skip(da + 3);
    assert(rest =~= attributes + seq![99u8] + after);
    crate::search::one_is_found(rest, 99u8, attributes.len() as int);
    assert(reply.subrange(da + 3, da + 3 + attributes.len()) =~= attributes);
    assert(reply.take(da) =~= before);
    assert(ascii("4"@) =~= seq![52u8]);
    let parts = split(attributes, 59u8);
    assert(parts.contains(seq![52u8]) <==> exists|i: int|
        0 <= i < parts.len() && #[trigger] parts[i] == seq![52u8]);
    let ok = ascii("\x1b_Gi=31;OK"@);
    assert(ok.len() == 10);
    crate::search::found_is_first(before, ok, 0);
    if find(before, ok) is Some {
        let at = find(before, ok)->0;
        assert(before.subrange(at, at + 10) == ok);
    } else {
        assert forall|i: int| 0 <= i <= before.len() - 10 implies #[trigger] before.subrange(
            i,
            i + 10,
        ) != ok by {
            assert(!crate::search::is_at(before, ok, i));
        }
    }
}

proof fn the_attributes_are_found(before: Seq<u8>, rest: Seq<u8>)
    requires
        forall|i: int| 0 <= i < before.len() ==> #[trigger] before[i] != 63,
    ensures
        find(before + seq![27u8, 91, 63] + rest, seq![27u8, 91, 63]) == Some(before.len() as int),
        find(before, seq![27u8, 91, 63]) is None,
{
    let query = seq![27u8, 91, 63];
    let reply = before + query + rest;
    let da = before.len() as int;
    assert(reply.subrange(da, da + 3) =~= query);
    assert forall|i: int| 2 <= i < da + 2 implies #[trigger] reply[i] != query[2] by {
        if i < da {
            assert(reply[i] == before[i]);
        } else {
            assert(reply[i] == query[i - da]);
        }
    }
    crate::search::a_run_is_found(reply, query, da, 2);
    crate::search::a_run_is_not_found(before, query, 2);
}

/// A terminal says that it takes 24-bit colour in one of the ways there are, and in no other.
pub proof fn true_colour_is_said_in_a_few_ways(environment: Environment, name: Seq<char>)
    ensures
        environment.colorterm@ == "truecolor"@ || environment.colorterm@ == "24bit"@
            ==> environment.says_true_color(),
        environment.term@ == name + "-direct"@ ==> environment.says_true_color(),
        environment.term@ == "xterm-kitty"@ || environment.term@ == "xterm-ghostty"@
            || environment.term@ == "wezterm"@ ==> environment.says_true_color(),
        environment.colorterm@.len() == 0 && environment.term@.len() < 7
            ==> !environment.says_true_color(),
{
    reveal_strlit("truecolor");
    reveal_strlit("24bit");
    reveal_strlit("-direct");
    reveal_strlit("xterm-kitty");
    reveal_strlit("xterm-ghostty");
    reveal_strlit("wezterm");
    let whole = name + "-direct"@;
    assert(whole.skip(whole.len() - 7) =~= "-direct"@);
    assert(whole.subrange(whole.len() - 7, whole.len() as int) =~= "-direct"@);
}

/// A picture counts as the one shown exactly where it is the same picture in the same place; one
/// drawn by the cell also where it covers as many of them.
pub proof fn a_picture_is_known_by_its_place(one: Placement, other: Placement)
    ensures
        kitty_key(Some(one)) == kitty_key(Some(other)) <==> one.image.generation
            == other.image.generation && one.column == other.column && one.row == other.row,
        sixel_key(Some(one)) == sixel_key(Some(other)) <==> one.image.generation
            == other.image.generation && one.column == other.column && one.row == other.row
            && one.image.columns == other.image.columns && one.image.rows == other.image.rows,
        kitty_key(Some(one)) != kitty_key(None),
        sixel_key(Some(one)) != sixel_key(None),
        sixel_key(Some(one)) is Some ==> ({
            let cells = (sixel_key(Some(one))->0).1;
            cells.x == one.column && cells.y == one.row && cells.width == one.image.columns
                && cells.height == one.image.rows
        }),
{
}

} // verus!
