//! Which viewer to be: the one in the terminal, or the window.
//!
//! In order: `--tui` or `--gui` says; a benchmark, help and the version are the terminal's; a
//! program named for the window is the window; then how it was started. A terminal on stdin or
//! stdout means the terminal viewer, and neither means a launcher started it: the window, where
//! there is a display to put it on. A console of the program's own means the window too.

use vstd::prelude::*;
use vstd::utf8::valid_utf8;

use crate::bytes::{ascii, plain};
use crate::names::{copy_name, spelled, Name};
use crate::paths::{
    all_small, bytes_are, bytes_end, ends_with_bytes, file_stem, file_stem_of, is_utf8,
    starts_with_bytes, to_small,
};

verus! {

#[derive(Clone, Copy, Debug, PartialEq, Eq, Structural)]
pub enum Front {
    Terminal,
    Window,
}

/// How the program was started.
#[derive(Clone, Copy, Debug, PartialEq, Eq, Structural)]
pub struct Started {
    /// A terminal on stdin, or on stdout; or a console shared with whatever started the program.
    pub terminal: bool,
    /// Somewhere to put a window.
    pub display: bool,
    /// The console is the program's own.
    pub own_console: bool,
}

impl Default for Started {
    fn default() -> (started: Self)
        ensures
            started == (Started { terminal: false, display: false, own_console: false }),
    {
        Started { terminal: false, display: false, own_console: false }
    }
}

/// What a flag that says which viewer says.
pub open spec fn flag_says(flag: Seq<u8>) -> Option<Front> {
    if flag == ascii("--tui"@) {
        Some(Front::Terminal)
    } else if flag == ascii("--gui"@) {
        Some(Front::Window)
    } else {
        None
    }
}

/// Whether a flag asks for what only the terminal viewer does.
pub open spec fn is_for_the_terminal(flag: Seq<u8>) -> bool {
    ||| flag == ascii("--benchmark"@)
    ||| flag == ascii("-h"@)
    ||| flag == ascii("--help"@)
    ||| flag == ascii("-V"@)
    ||| flag == ascii("--version"@)
}

/// What the first flag that says which viewer says, from a place on and up to `--`: after that, a
/// folder may have a flag's name.
pub open spec fn flags_say(args: Seq<Seq<u8>>, from: int) -> Option<Front>
    decreases args.len() - from,
{
    if from < 0 || from >= args.len() || args[from] == ascii("--"@) {
        None
    } else if flag_says(args[from]) is Some {
        flag_says(args[from])
    } else {
        flags_say(args, from + 1)
    }
}

/// Whether a flag from a place on, and up to `--`, asks for what only the terminal viewer does.
pub open spec fn asks_for_the_terminal(args: Seq<Seq<u8>>, from: int) -> bool
    decreases args.len() - from,
{
    if from < 0 || from >= args.len() || args[from] == ascii("--"@) {
        false
    } else {
        is_for_the_terminal(args[from]) || asks_for_the_terminal(args, from + 1)
    }
}

/// What the flags choose: what one of them says, and else the terminal where one asks for what
/// only that does.
pub open spec fn flags_choose(args: Seq<Seq<u8>>) -> Option<Front> {
    if flags_say(args, 1) is Some {
        flags_say(args, 1)
    } else if asks_for_the_terminal(args, 1) {
        Some(Front::Terminal)
    } else {
        None
    }
}

/// Whether a program is named for the window, by the name without its extension.
pub open spec fn is_named_for_window(program: Seq<u8>) -> bool {
    match file_stem_of(program) {
        Some(stem) => valid_utf8(stem) && {
            ||| bytes_end(all_small(stem), ascii("-gui"@))
            ||| bytes_end(all_small(stem), ascii("-linux"@))
            ||| bytes_end(all_small(stem), ascii("-windows"@))
            ||| bytes_end(all_small(stem), ascii("-mac"@))
        },
        None => false,
    }
}

/// Which viewer, for the command line with the program's name first.
pub open spec fn chosen(args: Seq<Seq<u8>>, started: Started, window_built: bool) -> Front {
    if !window_built {
        Front::Terminal
    } else {
        match flags_choose(args) {
            Some(front) => front,
            None => if args.len() > 0 && is_named_for_window(args[0]) {
                Front::Window
            } else if started.own_console || (!started.terminal && started.display) {
                Front::Window
            } else {
                Front::Terminal
            },
        }
    }
}

fn says(flag: &Name) -> (front: Option<Front>)
    ensures
        front == flag_says(flag@),
{
    let flag = flag.as_slice();
    if bytes_are(flag, "--tui") {
        Some(Front::Terminal)
    } else if bytes_are(flag, "--gui") {
        Some(Front::Window)
    } else {
        None
    }
}

fn for_the_terminal(flag: &Name) -> (is: bool)
    ensures
        is == is_for_the_terminal(flag@),
{
    let flag = flag.as_slice();
    bytes_are(flag, "--benchmark") || bytes_are(flag, "-h") || bytes_are(flag, "--help")
        || bytes_are(flag, "-V") || bytes_are(flag, "--version")
}

/// What the flags choose, if they do.
fn on_flags(args: &Vec<Name>) -> (front: Option<Front>)
    ensures
        front == flags_choose(spelled(args@)),
{
    let ghost given = spelled(args@);
    let mut asked = false;
    let mut looking = true;
    let mut i: usize = 1;
    while looking && i < args.len()
        invariant
            1 <= i,
            given == spelled(args@),
            looking ==> flags_say(given, 1) == flags_say(given, i as int),
            looking ==> asks_for_the_terminal(given, 1) == (asked || asks_for_the_terminal(
                given,
                i as int,
            )),
            !looking ==> flags_say(given, 1) is None && asks_for_the_terminal(given, 1) == asked,
        decreases args.len() - i, if looking {
            1int
        } else {
            0int
        },
    {
        assert(given[i as int] == args@[i as int]@);
        if bytes_are(args[i].as_slice(), "--") {
            looking = false;
        } else if let Some(front) = says(&args[i]) {
            return Some(front);
        } else {
            asked = asked || for_the_terminal(&args[i]);
            i += 1;
        }
    }
    if asked {
        Some(Front::Terminal)
    } else {
        None
    }
}

/// Whether a program is named for the window: a link by one of those names, or a copy, is it.
pub fn named_for_the_window(program: &Name) -> (named: bool)
    ensures
        named == is_named_for_window(program@),
{
    match file_stem(program.as_slice()) {
        Some(stem) => {
            if !is_utf8(stem) {
                return false;
            }
            let small = to_small(stem);
            let small = small.as_slice();
            ends_with_bytes(small, plain("-gui").as_slice()) || ends_with_bytes(
                small,
                plain("-linux").as_slice(),
            ) || ends_with_bytes(small, plain("-windows").as_slice()) || ends_with_bytes(
                small,
                plain("-mac").as_slice(),
            )
        },
        None => false,
    }
}

/// Which viewer, for `args` (with the program's name first) started as `started` says.
pub fn choose_front(args: &Vec<Name>, started: Started, window_built: bool) -> (front: Front)
    ensures
        front == chosen(spelled(args@), started, window_built),
{
    if !window_built {
        return Front::Terminal;
    }
    let ghost given = spelled(args@);
    if let Some(front) = on_flags(args) {
        return front;
    }
    if args.len() > 0 {
        assert(given[0] == args@[0]@);
        if named_for_the_window(&args[0]) {
            return Front::Window;
        }
    }
    if started.own_console || (!started.terminal && started.display) {
        Front::Window
    } else {
        Front::Terminal
    }
}

/// Whether an argument is the process number that a launcher once added.
pub open spec fn is_serial_number(arg: Seq<u8>) -> bool {
    valid_utf8(arg) && ascii("-psn_"@).is_prefix_of(arg)
}

/// `args` without the process serial number that a launcher once added when it opened an app: no
/// flag of this program's, and a mistake to the command line's parser.
pub fn without_launch_services(args: &Vec<Name>) -> (kept: Vec<Name>)
    ensures
        spelled(kept@) == spelled(args@).filter(|arg: Seq<u8>| !is_serial_number(arg)),
{
    let ghost given = spelled(args@);
    let ghost keep = |arg: Seq<u8>| !is_serial_number(arg);
    let start = plain("-psn_");
    let mut kept: Vec<Name> = Vec::new();
    let mut i: usize = 0;
    assert(given.take(0).filter(keep) =~= Seq::empty()) by {
        reveal(Seq::filter);
    }
    assert(spelled(kept@) =~= Seq::empty());
    while i < args.len()
        invariant
            i <= args.len(),
            given == spelled(args@),
            start@ == ascii("-psn_"@),
            keep == (|arg: Seq<u8>| !is_serial_number(arg)),
            spelled(kept@) == given.take(i as int).filter(keep),
        decreases args.len() - i,
    {
        let ghost so_far = spelled(kept@);
        proof {
            reveal(Seq::filter);
            assert(given.take(i + 1).drop_last() =~= given.take(i as int));
            assert(given.take(i + 1).last() == args@[i as int]@);
        }
        let arg = args[i].as_slice();
        if !(is_utf8(arg) && starts_with_bytes(arg, start.as_slice())) {
            kept.push(copy_name(&args[i]));
            assert(spelled(kept@) =~= so_far.push(args@[i as int]@));
        }
        i += 1;
    }
    assert(given.take(given.len() as int) =~= given);
    kept
}

/// A flag that says which viewer settles it, wherever it stands before a `--` and whatever other
/// flags there are, and however the program was started or named.
pub proof fn a_flag_settles_it(args: Seq<Seq<u8>>, started: Started, at: int)
    requires
        1 <= at < args.len(),
        flag_says(args[at]) is Some,
        forall|i: int|
            1 <= i < at ==> #[trigger] args[i] != ascii("--"@) && flag_says(args[i]) is None,
    ensures
        chosen(args, started, true) == flag_says(args[at])->0,
{
    reveal_strlit("--tui");
    reveal_strlit("--gui");
    reveal_strlit("--");
    assert(args[at].len() != ascii("--"@).len());
    says_from(args, 1, at);
}

proof fn says_from(args: Seq<Seq<u8>>, from: int, at: int)
    requires
        1 <= from <= at < args.len(),
        flag_says(args[at]) is Some,
        args[at] != ascii("--"@),
        forall|i: int|
            from <= i < at ==> #[trigger] args[i] != ascii("--"@) && flag_says(args[i]) is None,
    ensures
        flags_say(args, from) == flag_says(args[at]),
    decreases at - from,
{
    if from < at {
        assert(args[from] != ascii("--"@));
        says_from(args, from + 1, at);
    }
}

/// Without a window built the terminal viewer is all there is. With one, and no flag that says
/// otherwise, a name for the window opens it, and so does a start from a desktop or in a console of
/// the program's own; in a terminal it is the terminal viewer.
pub proof fn without_a_flag_it_goes_by_how_it_was_started(args: Seq<Seq<u8>>, started: Started)
    requires
        forall|i: int|
            1 <= i < args.len() ==> #[trigger] args[i] != ascii("--tui"@) && args[i] != ascii(
                "--gui"@,
            ) && args[i] != ascii("--benchmark"@) && args[i] != ascii("-h"@) && args[i] != ascii(
                "--help"@,
            ) && args[i] != ascii("-V"@) && args[i] != ascii("--version"@),
        args.len() > 0 ==> !is_named_for_window(args[0]),
    ensures
        chosen(args, started, false) == Front::Terminal,
        started.terminal && !started.own_console ==> chosen(args, started, true)
            == Front::Terminal,
        !started.terminal && started.display ==> chosen(args, started, true) == Front::Window,
        started.own_console ==> chosen(args, started, true) == Front::Window,
        !started.terminal && !started.display && !started.own_console ==> chosen(
            args,
            started,
            true,
        ) == Front::Terminal,
{
    no_flag_says_anything(args, 1);
}

proof fn no_flag_says_anything(args: Seq<Seq<u8>>, from: int)
    requires
        1 <= from,
        forall|i: int|
            1 <= i < args.len() ==> #[trigger] args[i] != ascii("--tui"@) && args[i] != ascii(
                "--gui"@,
            ) && args[i] != ascii("--benchmark"@) && args[i] != ascii("-h"@) && args[i] != ascii(
                "--help"@,
            ) && args[i] != ascii("-V"@) && args[i] != ascii("--version"@),
    ensures
        flags_say(args, from) is None,
        !asks_for_the_terminal(args, from),
    decreases args.len() - from,
{
    if from < args.len() {
        assert(args[from] != ascii("--tui"@));
        no_flag_says_anything(args, from + 1);
    }
}

/// A flag for a viewer opens that viewer, wherever before `--` it stands and however the program was
/// started; where there is none, a flag that only the terminal answers is answered there.
pub proof fn a_viewer_flag_goes_before_the_others(
    args: Seq<Seq<u8>>,
    started: Started,
    at: int,
    window: bool,
)
    requires
        1 <= at < args.len(),
        forall|i: int|
            1 <= i < at ==> #[trigger] args[i] != ascii("--"@) && args[i] != ascii("--tui"@)
                && args[i] != ascii("--gui"@),
        args[at] == if window {
            ascii("--gui"@)
        } else {
            ascii("--tui"@)
        },
    ensures
        chosen(args, started, true) == if window {
            Front::Window
        } else {
            Front::Terminal
        },
{
    reveal_strlit("--gui");
    reveal_strlit("--tui");
    assert(ascii("--gui"@)[2] != ascii("--tui"@)[2]);
    a_flag_settles_it(args, started, at);
}

/// A flag says which viewer exactly where one before any `--` does, and what the first of them says.
pub proof fn the_first_flag_says(args: Seq<Seq<u8>>, from: int)
    requires
        0 <= from,
    ensures
        match flags_say(args, from) {
            Some(front) => exists|at: int|
                from <= at < args.len() && #[trigger] flag_says(args[at]) == Some(front) && forall|
                    i: int,
                |
                    from <= i < at ==> #[trigger] args[i] != ascii("--"@) && flag_says(
                        args[i],
                    ) is None,
            None => forall|at: int|
                from <= at < args.len() && #[trigger] flag_says(args[at]) is Some ==> exists|
                    i: int,
                |
                    from <= i <= at && #[trigger] args[i] == ascii("--"@),
        },
    decreases args.len() - from,
{
    if from < args.len() {
        if args[from] == ascii("--"@) {
            assert forall|at: int|
                from <= at < args.len() && #[trigger] flag_says(args[at]) is Some implies exists|
                i: int,
            | from <= i <= at && #[trigger] args[i] == ascii("--"@) by {
                assert(args[from] == ascii("--"@));
            }
        } else if flag_says(args[from]) is Some {
            assert(flag_says(args[from]) == Some(flags_say(args, from)->0));
        } else {
            the_first_flag_says(args, from + 1);
            if let Some(front) = flags_say(args, from + 1) {
                let at = choose|at: int|
                    from + 1 <= at < args.len() && #[trigger] flag_says(args[at]) == Some(front)
                        && forall|i: int|
                        from + 1 <= i < at ==> #[trigger] args[i] != ascii("--"@) && flag_says(
                            args[i],
                        ) is None;
                assert(flag_says(args[at]) == Some(front));
            } else {
                assert forall|at: int|
                    from <= at < args.len() && #[trigger] flag_says(
                        args[at],
                    ) is Some implies exists|i: int|
                    from <= i <= at && #[trigger] args[i] == ascii("--"@) by {
                    assert(at > from);
                }
            }
        }
    }
}

/// What only the terminal viewer does is asked for exactly where one of its flags stands before any
/// `--`.
pub proof fn the_terminals_flags_ask_for_it(args: Seq<Seq<u8>>, from: int)
    requires
        0 <= from,
    ensures
        asks_for_the_terminal(args, from) <==> exists|at: int|
            from <= at < args.len() && (#[trigger] args[at] == ascii("--benchmark"@) || args[at]
                == ascii("-h"@) || args[at] == ascii("--help"@) || args[at] == ascii("-V"@)
                || args[at] == ascii("--version"@)) && forall|i: int|
                from <= i <= at ==> #[trigger] args[i] != ascii("--"@),
    decreases args.len() - from,
{
    if from < args.len() && args[from] != ascii("--"@) {
        the_terminals_flags_ask_for_it(args, from + 1);
        if is_for_the_terminal(args[from]) {
            assert(args[from] != ascii("--"@));
        } else if asks_for_the_terminal(args, from + 1) {
            let at = choose|at: int|
                from + 1 <= at < args.len() && (#[trigger] args[at] == ascii("--benchmark"@)
                    || args[at] == ascii("-h"@) || args[at] == ascii("--help"@) || args[at]
                    == ascii("-V"@) || args[at] == ascii("--version"@)) && forall|i: int|
                    from + 1 <= i <= at ==> #[trigger] args[i] != ascii("--"@);
            assert forall|i: int| from <= i <= at implies #[trigger] args[i] != ascii("--"@) by {}
            assert(args[at] == args[at]);
        }
    } else if from < args.len() {
        assert(args[from] == ascii("--"@));
    }
}

/// The number that a launcher adds starts as such numbers do, and a flag of the viewer's is none.
pub proof fn a_launchers_number_starts_as_one(arg: Seq<u8>)
    ensures
        is_serial_number(arg) ==> arg.len() >= 5 && arg[0] == 45 && arg[1] == 112 && arg[2] == 115
            && arg[3] == 110 && arg[4] == 95,
        valid_utf8(arg) && arg.len() >= 5 && arg[0] == 45 && arg[1] == 112 && arg[2] == 115
            && arg[3] == 110 && arg[4] == 95 ==> is_serial_number(arg),
{
    reveal_strlit("-psn_");
    let start = ascii("-psn_"@);
    assert(start.len() == 5 && start[0] == 45 && start[1] == 112 && start[2] == 115 && start[3]
        == 110 && start[4] == 95);
    if is_serial_number(arg) {
        assert(arg.take(5) =~= start);
        assert(arg.take(5)[0] == arg[0] && arg.take(5)[1] == arg[1] && arg.take(5)[2] == arg[2]
            && arg.take(5)[3] == arg[3] && arg.take(5)[4] == arg[4]);
    } else if arg.len() >= 5 {
        assert(arg[0] == 45 && arg[1] == 112 && arg[2] == 115 && arg[3] == 110 && arg[4] == 95
            ==> arg.take(5) =~= start);
    }
}

/// A program is named for the window where its name, less the extension, ends as one of the
/// windows' does, in capitals or not; one with no name is not.
pub proof fn a_program_is_named_for_the_window_by_its_end(program: Seq<u8>, base: Seq<u8>)
    ensures
        file_stem_of(program) is None ==> !is_named_for_window(program),
        file_stem_of(program) is Some && file_stem_of(program)->0.len() < 4
            ==> !is_named_for_window(program),
        file_stem_of(program) is Some && valid_utf8(file_stem_of(program)->0) && (all_small(
            file_stem_of(program)->0,
        ) == base + ascii("-gui"@) || all_small(file_stem_of(program)->0) == base + ascii("-linux"@)
            || all_small(file_stem_of(program)->0) == base + ascii("-windows"@) || all_small(
            file_stem_of(program)->0,
        ) == base + ascii("-mac"@)) ==> is_named_for_window(program),
{
    reveal_strlit("-gui");
    reveal_strlit("-linux");
    reveal_strlit("-windows");
    reveal_strlit("-mac");
    ends_there(base, ascii("-gui"@));
    ends_there(base, ascii("-linux"@));
    ends_there(base, ascii("-windows"@));
    ends_there(base, ascii("-mac"@));
}

proof fn ends_there(base: Seq<u8>, end: Seq<u8>)
    ensures
        bytes_end(base + end, end),
{
    let whole = base + end;
    assert(whole.skip(whole.len() - end.len()) =~= end);
}

} // verus!
