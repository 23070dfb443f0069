//! The command line: the mode to run in and the root folder.

use vstd::prelude::*;

use crate::request::str_eq;

verus! {

/// What the program is asked to do.
#[derive(Debug, Clone, Copy)]
pub enum Mode {
    /// Show help.
    Help,
    /// Start the server in the background.
    Start,
    /// Stop a running server.
    Stop,
    /// Show the status of a running server.
    Status,
    /// Run the server.
    Run,
}

/// What the command line asks: the mode, and a root folder given by `-r`.
#[derive(Debug)]
pub struct Arg {
    pub mode: Mode,
    pub root: Option<String>,
}

/// What the command line asks, as values.
pub struct ArgView {
    pub mode: Mode,
    pub root: Option<Seq<char>>,
}

/// Reads the words from position `i` on: `start`, `stop`, `status` and
/// `run` set the mode (the last one wins), `-r` takes the next word as the
/// root folder and ends the reading when there is none; other words are
/// passed over.
pub open spec fn args_from(args: Seq<String>, i: int, st: ArgView) -> ArgView
    decreases args.len() - i,
{
    if i < 0 || i >= args.len() {
        st
    } else {
        let a = args[i]@;
        if a == "start"@ {
            args_from(args, i + 1, ArgView { mode: Mode::Start, ..st })
        } else if a == "stop"@ {
            args_from(args, i + 1, ArgView { mode: Mode::Stop, ..st })
        } else if a == "status"@ {
            args_from(args, i + 1, ArgView { mode: Mode::Status, ..st })
        } else if a == "run"@ {
            args_from(args, i + 1, ArgView { mode: Mode::Run, ..st })
        } else if a == "-r"@ {
            if i + 1 < args.len() {
                args_from(args, i + 2, ArgView { root: Some(args[i + 1]@), ..st })
            } else {
                st
            }
        } else {
            args_from(args, i + 1, st)
        }
    }
}

/// What a command line (all its words, the program's own name first) asks.
pub open spec fn args_view(args: Seq<String>) -> ArgView {
    args_from(args, 0, ArgView { mode: Mode::Help, root: None })
}

impl Arg {
    pub open spec fn view(&self) -> ArgView {
        ArgView {
            mode: self.mode,
            root: match self.root {
                Some(r) => Some(r@),
                None => None,
            },
        }
    }

    /// Reads a command line (see `args_from`).
    pub fn parse(args: &Vec<String>) -> (res: Arg)
        ensures
            res.view() == args_view(args@),
    {
        let mut res = Arg { mode: Mode::Help, root: None };
        let mut i: usize = 0;
        while i < args.len()
            invariant
                i <= args@.len(),
                args_from(args@, i as int, res.view()) == args_view(args@),
            decreases args@.len() - i,
        {
            let a = args[i].as_str();
            if str_eq(a, "start") {
                res.mode = Mode::Start;
            } else if str_eq(a, "stop") {
                res.mode = Mode::Stop;
            } else if str_eq(a, "status") {
                res.mode = Mode::Status;
            } else if str_eq(a, "run") {
                res.mode = Mode::Run;
            } else if str_eq(a, "-r") {
                if i + 1 < args.len() {
                    res.root = Some(args[i + 1].clone());
                    i = i + 2;
                    continue;
                } else {
                    return res;
                }
            }
            i = i + 1;
        }
        res
    }
}

/// What the server is asked to do (the first word after the program's name).
#[derive(Debug, Clone, Copy)]
pub enum RunMode {
    Help,
    Start,
    Stop,
    Status,
    Go,
}

/// The startup options: the mode; for a mode other than help, a root
/// folder (`-r`), a language (`-l`, two bytes), and the languages refused
/// for not having two bytes.
#[derive(Debug)]
pub struct InitArgs {
    pub mode: RunMode,
    pub path: Option<String>,
    pub lang: Option<String>,
    pub refused: Vec<String>,
}

/// The startup options as values.
pub struct InitView {
    pub mode: RunMode,
    pub path: Option<Seq<char>>,
    pub lang: Option<Seq<char>>,
    pub refused: Seq<Seq<char>>,
}

/// The mode a word names.
pub open spec fn run_mode(w: Seq<char>) -> RunMode {
    if w == "start"@ {
        RunMode::Start
    } else if w == "stop"@ {
        RunMode::Stop
    } else if w == "status"@ {
        RunMode::Status
    } else if w == "go"@ {
        RunMode::Go
    } else {
        RunMode::Help
    }
}

/// Reads the options from position `i` on: `-r` takes the next word as the
/// root folder, `-l` the next word as the language when it has two bytes
/// (else it is refused); either ends the reading when no word follows;
/// other words are passed over.
pub open spec fn options_from(args: Seq<String>, i: int, st: InitView) -> InitView
    decreases args.len() - i,
{
    if i < 0 || i >= args.len() {
        st
    } else if args[i]@ == "-r"@ {
        if i + 1 < args.len() {
            options_from(args, i + 2, InitView { path: Some(args[i + 1]@), ..st })
        } else {
            st
        }
    } else if args[i]@ == "-l"@ {
        if i + 1 < args.len() {
            let v = args[i + 1]@;
            if vstd::utf8::encode_utf8(v).len() as usize != 2 {
                options_from(args, i + 2, InitView { refused: st.refused.push(v), ..st })
            } else {
                options_from(args, i + 2, InitView { lang: Some(v), ..st })
            }
        } else {
            st
        }
    } else {
        options_from(args, i + 1, st)
    }
}

/// The startup options of a command line (the program's name first).
pub open spec fn init_view(args: Seq<String>) -> InitView {
    let empty = InitView { mode: RunMode::Help, path: None, lang: None, refused: Seq::empty() };
    if args.len() < 2 {
        empty
    } else {
        let mode = run_mode(args[1]@);
        if mode is Help {
            empty
        } else {
            options_from(args, 2, InitView { mode, ..empty })
        }
    }
}

impl InitArgs {
    pub open spec fn view(&self) -> InitView {
        InitView {
            mode: self.mode,
            path: match self.path {
                Some(p) => Some(p@),
                None => None,
            },
            lang: match self.lang {
                Some(l) => Some(l@),
                None => None,
            },
            refused: self.refused@.map_values(|s: String| s@),
        }
    }

    /// Reads the startup options of a command line (see `init_view`).
    pub fn parse(args: &Vec<String>) -> (res: InitArgs)
        ensures
            res.view() == init_view(args@),
    {
        let mut res = InitArgs { mode: RunMode::Help, path: None, lang: None, refused: Vec::new() };
        assert(res.view().refused =~= Seq::<Seq<char>>::empty());
        if args.len() < 2 {
            return res;
        }
        let w = args[1].as_str();
        let mode = if str_eq(w, "start") {
            RunMode::Start
        } else if str_eq(w, "stop") {
            RunMode::Stop
        } else if str_eq(w, "status") {
            RunMode::Status
        } else if str_eq(w, "go") {
            RunMode::Go
        } else {
            return res;
        };
        res.mode = mode;
        let mut i: usize = 2;
        while i < args.len()
            invariant
                2 <= i,
                options_from(args@, i as int, res.view()) == init_view(args@),
            decreases args@.len() - i,
        {
            let a = args[i].as_str();
            if str_eq(a, "-r") {
                if i + 1 < args.len() {
                    res.path = Some(args[i + 1].clone());
                    i = i + 2;
                    continue;
                } else {
                    return res;
                }
            } else if str_eq(a, "-l") {
                if i + 1 < args.len() {
                    let v = args[i + 1].clone();
                    if v.as_str().len() != 2 {
                        let ghost before = res.refused@;
                        res.refused.push(v);
                        assert(res.refused@.map_values(|s: String| s@) =~= before.map_values(|s: String| s@).push(
                            args@[i + 1]@,
                        ));
                    } else {
                        res.lang = Some(v);
                    }
                    i = i + 2;
                    continue;
                } else {
                    return res;
                }
            }
            i = i + 1;
        }
        res
    }
}

} // verus!
