//! Which font files the window draws with.

use vstd::prelude::*;

use crate::bytes::{append_ascii, ascii};
use crate::config::joined_path;
use crate::names::{copy_name, spelled, Name};
use crate::paths::{all_small, bytes_are, extension, extension_of, to_small};
use crate::text::{chars_of, literal, lossy, lossy_text, text_of};
use crate::xkb::{trim, trimmed};

verus! {

/// The faces a window draws with.
#[derive(Clone, Copy, Debug, PartialEq, Eq, Structural)]
pub enum FontFace {
    Sans,
    Bold,
    Mono,
}

/// What a face is asked for by: an environment variable that names a file, and a pattern.
pub fn asked_by(face: FontFace) -> (names: (String, String))
    ensures
        match face {
            FontFace::Sans => names.0@ == "DUSCAPE_FONT"@ && names.1@ == "sans-serif"@,
            FontFace::Bold => names.0@ == "DUSCAPE_FONT_BOLD"@ && names.1@ == "sans-serif:bold"@,
            FontFace::Mono => names.0@ == "DUSCAPE_FONT_MONO"@ && names.1@ == "monospace"@,
        },
{
    match face {
        FontFace::Sans => (literal("DUSCAPE_FONT"), literal("sans-serif")),
        FontFace::Bold => (literal("DUSCAPE_FONT_BOLD"), literal("sans-serif:bold")),
        FontFace::Mono => (literal("DUSCAPE_FONT_MONO"), literal("monospace")),
    }
}

/// The files that are usually there, the best first, below a folder of fonts.
pub open spec fn well_known(face: FontFace) -> Seq<Seq<u8>> {
    match face {
        FontFace::Sans => seq![
            ascii("dejavu/DejaVuSans.ttf"@),
            ascii("liberation/LiberationSans-Regular.ttf"@),
            ascii("liberation2/LiberationSans-Regular.ttf"@),
            ascii("noto/NotoSans-Regular.ttf"@),
            ascii("freefont/FreeSans.ttf"@),
            ascii("cantarell/Cantarell-Regular.otf"@),
        ],
        FontFace::Bold => seq![
            ascii("dejavu/DejaVuSans-Bold.ttf"@),
            ascii("liberation/LiberationSans-Bold.ttf"@),
            ascii("liberation2/LiberationSans-Bold.ttf"@),
            ascii("noto/NotoSans-Bold.ttf"@),
            ascii("freefont/FreeSansBold.ttf"@),
            ascii("cantarell/Cantarell-Bold.otf"@),
        ],
        FontFace::Mono => seq![
            ascii("dejavu/DejaVuSansMono.ttf"@),
            ascii("liberation/LiberationMono-Regular.ttf"@),
            ascii("liberation2/LiberationMono-Regular.ttf"@),
            ascii("noto/NotoSansMono-Regular.ttf"@),
            ascii("freefont/FreeMono.ttf"@),
        ],
    }
}

/// The folders fonts are installed in, then those of the user.
pub open spec fn folders(home: Option<Seq<u8>>) -> Seq<Seq<u8>> {
    let all = seq![
        ascii("/usr/share/fonts/truetype"@),
        ascii("/usr/share/fonts/opentype"@),
        ascii("/usr/share/fonts"@),
        ascii("/usr/local/share/fonts"@),
        ascii("/usr/X11R6/lib/X11/fonts/TTF"@),
    ];
    match home {
        Some(home) => all.push(joined_path(home, ascii(".local/share/fonts"@))).push(
            joined_path(home, ascii(".fonts"@)),
        ),
        None => all,
    }
}

/// Every file in every folder: the first folder's files first.
pub open spec fn all_places(folders: Seq<Seq<u8>>, files: Seq<Seq<u8>>, count: int) -> Seq<Seq<u8>>
    decreases count,
{
    if count <= 0 || files.len() == 0 {
        Seq::empty()
    } else {
        let at = count - 1;
        all_places(folders, files, at).push(
            joined_path(folders[at / files.len() as int], files[at % files.len() as int]),
        )
    }
}

fn ascii_name(text: &str) -> (name: Name)
    ensures
        name@ == ascii(text@),
{
    let mut name: Name = Vec::new();
    append_ascii(&mut name, text);
    assert(name@ =~= ascii(text@));
    name
}

fn push_ascii(names: &mut Vec<Name>, text: &str)
    ensures
        spelled(final(names)@) == spelled(old(names)@).push(ascii(text@)),
{
    let ghost before = spelled(names@);
    names.push(ascii_name(text));
    assert(spelled(names@) =~= before.push(ascii(text@)));
}

/// A path with a name below it.
pub fn join(folder: &Name, name: &Name) -> (path: Name)
    ensures
        path@ == joined_path(folder@, name@),
{
    let mut path = copy_name(folder);
    if path.len() > 0 && path[path.len() - 1] != 47 {
        path.push(47);
    }
    crate::bytes::append_bytes(&mut path, name.as_slice());
    assert(path@ =~= joined_path(folder@, name@));
    path
}

fn files_of(face: FontFace) -> (files: Vec<Name>)
    ensures
        spelled(files@) == well_known(face),
{
    let mut files: Vec<Name> = Vec::new();
    assert(spelled(files@) =~= Seq::empty());
    match face {
        FontFace::Sans => {
            push_ascii(&mut files, "dejavu/DejaVuSans.ttf");
            push_ascii(&mut files, "liberation/LiberationSans-Regular.ttf");
            push_ascii(&mut files, "liberation2/LiberationSans-Regular.ttf");
            push_ascii(&mut files, "noto/NotoSans-Regular.ttf");
            push_ascii(&mut files, "freefont/FreeSans.ttf");
            push_ascii(&mut files, "cantarell/Cantarell-Regular.otf");
        },
        FontFace::Bold => {
            push_ascii(&mut files, "dejavu/DejaVuSans-Bold.ttf");
            push_ascii(&mut files, "liberation/LiberationSans-Bold.ttf");
            push_ascii(&mut files, "liberation2/LiberationSans-Bold.ttf");
            push_ascii(&mut files, "noto/NotoSans-Bold.ttf");
            push_ascii(&mut files, "freefont/FreeSansBold.ttf");
            push_ascii(&mut files, "cantarell/Cantarell-Bold.otf");
        },
        FontFace::Mono => {
            push_ascii(&mut files, "dejavu/DejaVuSansMono.ttf");
            push_ascii(&mut files, "liberation/LiberationMono-Regular.ttf");
            push_ascii(&mut files, "liberation2/LiberationMono-Regular.ttf");
            push_ascii(&mut files, "noto/NotoSansMono-Regular.ttf");
            push_ascii(&mut files, "freefont/FreeMono.ttf");
        },
    }
    assert(spelled(files@) =~= well_known(face));
    files
}

fn folders_of(home: &Option<Name>) -> (places: Vec<Name>)
    ensures
        spelled(places@) == folders(crate::names::name_view(*home)),
{
    let mut places: Vec<Name> = Vec::new();
    assert(spelled(places@) =~= Seq::empty());
    push_ascii(&mut places, "/usr/share/fonts/truetype");
    push_ascii(&mut places, "/usr/share/fonts/opentype");
    push_ascii(&mut places, "/usr/share/fonts");
    push_ascii(&mut places, "/usr/local/share/fonts");
    push_ascii(&mut places, "/usr/X11R6/lib/X11/fonts/TTF");
    if let Some(home) = home {
        let ghost so_far = spelled(places@);
        places.push(join(home, &ascii_name(".local/share/fonts")));
        assert(spelled(places@) =~= so_far.push(
            joined_path(home@, ascii(".local/share/fonts"@)),
        ));
        let ghost so_far = spelled(places@);
        places.push(join(home, &ascii_name(".fonts")));
        assert(spelled(places@) =~= so_far.push(joined_path(home@, ascii(".fonts"@))));
    }
    assert(spelled(places@) =~= folders(crate::names::name_view(*home)));
    places
}

/// Where a face's file may be, for when there is no fontconfig to ask, the best place first.
pub fn places(face: FontFace, home: &Option<Name>) -> (all: Vec<Name>)
    ensures
        ({
            let (folders, files) = (folders(crate::names::name_view(*home)), well_known(face));
            spelled(all@) == all_places(
                folders,
                files,
                (folders.len() * files.len()) as int,
            )
        }),
{
    let folders = folders_of(home);
    let files = files_of(face);
    let ghost above = spelled(folders@);
    let ghost below = spelled(files@);
    let mut all: Vec<Name> = Vec::new();
    let mut at: usize = 0;
    assert(above.len() <= 7 && 1 <= below.len() <= 6);
    assert(above.len() * below.len() <= 42) by (nonlinear_arith)
        requires
            above.len() <= 7,
            below.len() <= 6,
    ;
    let count: usize = folders.len() * files.len();
    assert(spelled(all@) =~= Seq::empty());
    while at < count
        invariant
            at <= count,
            count == folders.len() * files.len(),
            files.len() > 0,
            above == spelled(folders@),
            below == spelled(files@),
            spelled(all@) == all_places(above, below, at as int),
        decreases count - at,
    {
        let (i, j): (usize, usize) = (at / files.len(), at % files.len());
        assert(i < folders.len()) by (nonlinear_arith)
            requires
                at < folders.len() * files.len(),
                files.len() > 0,
                i == at / files.len(),
        ;
        assert(above[i as int] == folders@[i as int]@ && below[j as int] == files@[j as int]@);
        let ghost so_far = spelled(all@);
        let path = join(&folders[i], &files[j]);
        all.push(path);
        assert(spelled(all@) =~= so_far.push(path@));
        at += 1;
    }
    all
}

/// Where a face's file is.
#[derive(Clone, Copy, Debug, PartialEq, Eq, Structural)]
pub enum Found {
    /// Where the environment says.
    Named,
    /// Where fontconfig says.
    Matched,
    /// At one of the usual places.
    Place(usize),
    Nowhere,
}

/// Where a face's file is: where the environment says, if that is a file; where fontconfig says;
/// or the first of the usual places at which there is one. `are_files` tells that of each place.
pub fn find_font(named_is_file: bool, matched: bool, are_files: &Vec<bool>) -> (found: Found)
    ensures
        if named_is_file {
            found is Named
        } else if matched {
            found is Matched
        } else {
            match found {
                Found::Place(at) => at < are_files.len() && are_files@[at as int] && forall|i: int|
                    0 <= i < at ==> !(#[trigger] are_files@[i]),
                Found::Nowhere => forall|i: int|
                    0 <= i < are_files.len() ==> !(#[trigger] are_files@[i]),
                _ => false,
            }
        },
{
    if named_is_file {
        return Found::Named;
    }
    if matched {
        return Found::Matched;
    }
    let mut i: usize = 0;
    while i < are_files.len()
        invariant
            i <= are_files.len(),
            !named_is_file && !matched,
            forall|k: int| 0 <= k < i ==> !(#[trigger] are_files@[k]),
        decreases are_files.len() - i,
    {
        if are_files[i] {
            return Found::Place(i);
        }
        i += 1;
    }
    Found::Nowhere
}

/// Whether a file is of a kind that can be read: TrueType or OpenType.
pub open spec fn is_readable(path: Seq<u8>) -> bool {
    match extension_of(path) {
        Some(extension) => {
            ||| all_small(extension) == ascii("ttf"@)
            ||| all_small(extension) == ascii("otf"@)
            ||| all_small(extension) == ascii("ttc"@)
        },
        None => false,
    }
}

/// Fontconfig's answer as a path, when it is a file that can be read (TrueType or OpenType; not
/// a bitmap or Type 1 font).
pub fn fc_match(output: &Vec<u8>) -> (path: Option<String>)
    ensures
        ({
            let answer = trim(lossy_text(output@));
            match path {
                Some(path) => path@ == answer && is_readable(vstd::utf8::encode_utf8(answer)),
                None => !is_readable(vstd::utf8::encode_utf8(answer)),
            }
        }),
{
    let text = lossy(output);
    let chars = chars_of(text.as_str());
    let path = text_of(trimmed(chars.as_slice()));
    let readable = match extension(path.as_str().as_bytes()) {
        Some(extension) => {
            let small = to_small(extension);
            bytes_are(small.as_slice(), "ttf") || bytes_are(small.as_slice(), "otf") || bytes_are(
                small.as_slice(),
                "ttc",
            )
        },
        None => false,
    };
    if readable {
        Some(path)
    } else {
        None
    }
}

/// What is said when there is no font.
pub fn no_font() -> (why: String)
    ensures
        why@
            == "no font found: install fontconfig or DejaVu, or set DUSCAPE_FONT=/path/to/font.ttf"@,
{
    literal("no font found: install fontconfig or DejaVu, or set DUSCAPE_FONT=/path/to/font.ttf")
}

/// Every well-known font is looked for in every folder there is, the folders in turn.
pub proof fn every_font_is_looked_for_everywhere(
    folders: Seq<Seq<u8>>,
    files: Seq<Seq<u8>>,
    count: int,
    folder: int,
    file: int,
)
    requires
        0 <= folder < folders.len(),
        0 <= file < files.len(),
        folder * files.len() + file < count <= folders.len() * files.len(),
    ensures
        all_places(folders, files, count).len() == count,
        all_places(folders, files, count)[folder * files.len() + file] == joined_path(
            folders[folder],
            files[file],
        ),
    decreases count,
{
    let n = files.len() as int;
    assert(folder * n >= 0) by (nonlinear_arith)
        requires
            folder >= 0,
            n >= 0,
    ;
    let at = folder * n + file;
    places_are_counted(folders, files, count - 1);
    if at == count - 1 {
        vstd::arithmetic::div_mod::lemma_fundamental_div_mod_converse(at, n, folder, file);
    } else {
        every_font_is_looked_for_everywhere(folders, files, count - 1, folder, file);
    }
}

proof fn places_are_counted(folders: Seq<Seq<u8>>, files: Seq<Seq<u8>>, count: int)
    requires
        0 <= count,
        files.len() > 0,
    ensures
        all_places(folders, files, count).len() == count,
    decreases count,
{
    if count > 0 {
        places_are_counted(folders, files, count - 1);
    }
}

} // verus!
