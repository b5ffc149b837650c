//! Command resolution: built-in verbs, installed external commands, the
//! order in which they are looked up, and suggestions for unknown verbs.
use vstd::prelude::*;
use crate::distance::{edit_distance, lev_distance};
use crate::penv::{join, join_spec};
use crate::text::{lemma_seq_lt_total, lemma_seq_lt_transitive, seq_lt, str_eq, str_lt};

verus! {

/// The start of the file name of every external command.
pub const COMMAND_PREFIX: &'static str = "stick-";

/// The system-wide directory of external commands, searched first.
pub const MODULE_DIR: &'static str = "/usr/lib/stick-modules";

/// The largest edit distance at which a known verb is still suggested.
pub const MAX_SUGGESTION_DISTANCE: usize = 3;

/// The verbs handled in-process.
#[derive(Debug, Clone, Copy, PartialEq, Eq)]
pub enum Builtin {
    Search,
}

pub open spec fn builtin_name_spec(b: Builtin) -> Seq<char> {
    match b {
        Builtin::Search => "search"@,
    }
}

/// The name of every built-in verb.
pub open spec fn builtin_names() -> Seq<Seq<char>> {
    seq!["search"@]
}

/// The verb that names `b`.
pub fn builtin_name(b: Builtin) -> (r: &'static str)
    ensures
        r@ == builtin_name_spec(b),
{
    match b {
        Builtin::Search => "search",
    }
}

/// The built-in handler for `verb`, matched exactly.
pub fn find_builtin(verb: &str) -> (r: Option<Builtin>)
    ensures
        r matches Some(b) ==> builtin_name_spec(b) == verb@,
        r is Some <==> builtin_names().contains(verb@),
{
    if str_eq(verb, "search") {
        assert(builtin_names()[0] == verb@);
        Some(Builtin::Search)
    } else {
        assert(builtin_names()[0] == "search"@);
        None
    }
}

/// The verb that the file name `f` installs, if it has the form
/// prefix, verb, `suffix`.
pub open spec fn command_name_spec(f: Seq<char>, suffix: Seq<char>) -> Option<Seq<char>> {
    let p = COMMAND_PREFIX@;
    if f.len() >= p.len() + suffix.len() && f.take(p.len() as int) == p && f.skip(
        f.len() - suffix.len(),
    ) == suffix {
        Some(f.subrange(p.len() as int, f.len() - suffix.len()))
    } else {
        None
    }
}

/// Extracts the verb from the name of an external command's file.
pub fn command_name(file_name: &str, suffix: &str) -> (r: Option<String>)
    ensures
        r.deep_view() == command_name_spec(file_name@, suffix@),
{
    let n = file_name.unicode_len();
    let pl = COMMAND_PREFIX.unicode_len();
    let sl = suffix.unicode_len();
    if n < sl || n - sl < pl {
        return None;
    }
    let end = n - sl;
    let head = file_name.substring_char(0, pl);
    let tail = file_name.substring_char(end, n);
    if !str_eq(head, COMMAND_PREFIX) || !str_eq(tail, suffix) {
        return None;
    }
    assert(file_name@.skip(end as int) =~= file_name@.subrange(end as int, n as int));
    Some(file_name.substring_char(pl, end).to_owned())
}

pub open spec fn names(v: Seq<String>) -> Seq<Seq<char>> {
    v.map_values(|s: String| s@)
}

/// Each name comes strictly before every later one.
pub open spec fn sorted_strict(s: Seq<Seq<char>>) -> bool {
    forall|i: int, j: int| 0 <= i < j < s.len() ==> seq_lt(#[trigger] s[i], #[trigger] s[j])
}

/// Adds `x` to the sorted set of names `v`.
fn insert_sorted(v: &mut Vec<String>, x: String)
    requires
        sorted_strict(names(old(v)@)),
    ensures
        sorted_strict(names(final(v)@)),
        forall|s: Seq<char>| #[trigger]
            names(final(v)@).contains(s) <==> names(old(v)@).contains(s) || s == x@,
{
    let ghost old_names = names(v@);
    let mut i: usize = 0;
    while i < v.len() && str_lt(v[i].as_str(), x.as_str())
        invariant
            old_names == names(v@),
            i <= v.len(),
            forall|k: int| 0 <= k < i ==> seq_lt(#[trigger] old_names[k], x@),
        decreases v.len() - i,
    {
        i = i + 1;
    }
    if i < v.len() && str_eq(v[i].as_str(), x.as_str()) {
        assert(names(v@)[i as int] == v@[i as int]@);
        assert(names(v@).contains(x@));
        return;
    }
    proof {
        if i < v.len() {
            lemma_seq_lt_total(old_names[i as int], x@);
            assert forall|k: int| i <= k < old_names.len() implies seq_lt(
                x@,
                #[trigger] old_names[k],
            ) by {
                if k > i {
                    lemma_seq_lt_transitive(x@, old_names[i as int], old_names[k]);
                }
            }
        }
    }
    let ghost xv = x@;
    v.insert(i, x);
    let ghost nn = names(v@);
    assert(nn =~= old_names.insert(i as int, xv));
    assert forall|a: int, b: int| 0 <= a < b < nn.len() implies seq_lt(
        #[trigger] nn[a],
        #[trigger] nn[b],
    ) by {
        if b < i {
        } else if b == i {
        } else if a < i {
            lemma_seq_lt_transitive(nn[a], xv, nn[b]);
        } else if a == i {
        } else {
        }
    }
    assert forall|s: Seq<char>| #[trigger] nn.contains(s) <==> old_names.contains(s) || s == xv by {
        if nn.contains(s) {
            let k = choose|k: int| 0 <= k < nn.len() && nn[k] == s;
            if k < i {
                assert(old_names[k] == s);
            } else if k > i {
                assert(old_names[k - 1] == s);
            }
        }
        if old_names.contains(s) {
            let k = choose|k: int| 0 <= k < old_names.len() && old_names[k] == s;
            if k < i {
                assert(nn[k] == s);
            } else {
                assert(nn[k + 1] == s);
            }
        }
        if s == xv {
            assert(nn[i as int] == s);
        }
    }
}

/// A verb is installed where some executable file name carries it, or where
/// it is built in.
pub open spec fn is_known_command(
    executables: Seq<Seq<char>>,
    suffix: Seq<char>,
    s: Seq<char>,
) -> bool {
    ||| builtin_names().contains(s)
    ||| exists|i: int|
        0 <= i < executables.len() && command_name_spec(executables[i], suffix) == Some(s)
}

/// Every runnable verb, sorted and without repeats: the verbs carried by the
/// names of executable files found in the search directories, and the
/// built-in verbs.
pub fn list_commands(executables: &Vec<String>, suffix: &str) -> (r: Vec<String>)
    ensures
        sorted_strict(names(r@)),
        forall|s: Seq<char>| #[trigger]
            names(r@).contains(s) <==> is_known_command(executables.deep_view(), suffix@, s),
{
    let ghost ev = executables.deep_view();
    let mut commands: Vec<String> = Vec::new();
    let mut i: usize = 0;
    while i < executables.len()
        invariant
            ev == executables.deep_view(),
            i <= executables.len(),
            sorted_strict(names(commands@)),
            forall|s: Seq<char>| #[trigger]
                names(commands@).contains(s) <==> exists|k: int|
                    0 <= k < i && command_name_spec(ev[k], suffix@) == Some(s),
        decreases executables.len() - i,
    {
        assert(ev[i as int] == executables@[i as int]@);
        match command_name(executables[i].as_str(), suffix) {
            Some(name) => {
                let ghost nv = name@;
                insert_sorted(&mut commands, name);
                assert forall|s: Seq<char>| #[trigger] names(commands@).contains(s) <==> exists|
                    k: int,
                |
                    0 <= k < i + 1 && command_name_spec(ev[k], suffix@) == Some(s) by {
                    if s == nv {
                        assert(command_name_spec(ev[i as int], suffix@) == Some(s));
                    }
                }
            },
            None => {
                assert forall|s: Seq<char>| #[trigger] names(commands@).contains(s) <==> exists|
                    k: int,
                |
                    0 <= k < i + 1 && command_name_spec(ev[k], suffix@) == Some(s) by {
                    if exists|k: int| 0 <= k < i + 1 && command_name_spec(ev[k], suffix@) == Some(s) {
                        let k = choose|k: int| 0 <= k < i + 1 && command_name_spec(ev[k], suffix@) == Some(s);
                        assert(k < i);
                    }
                }
            },
        }
        i = i + 1;
    }
    let ghost before = names(commands@);
    insert_sorted(&mut commands, builtin_name(Builtin::Search).to_owned());
    assert forall|s: Seq<char>| #[trigger]
        names(commands@).contains(s) <==> is_known_command(ev, suffix@, s) by {
        if s == "search"@ {
            assert(builtin_names()[0] == s);
        }
        if builtin_names().contains(s) {
            assert(s == builtin_names()[0]);
        }
    }
    commands
}


/// The edit distance from the `i`-th known verb to `cmd`.
pub open spec fn dist_at(commands: Seq<String>, cmd: Seq<char>, i: int) -> nat {
    edit_distance(commands[i]@, cmd)
}

/// `i` is the index to suggest: close enough, no farther than any other
/// verb, and strictly closer than every verb before it.
pub open spec fn is_closest(commands: Seq<String>, cmd: Seq<char>, i: int) -> bool {
    &&& 0 <= i < commands.len()
    &&& dist_at(commands, cmd, i) <= MAX_SUGGESTION_DISTANCE
    &&& forall|j: int| 0 <= j < commands.len() ==> dist_at(commands, cmd, j) >= dist_at(commands, cmd, i)
    &&& forall|j: int| 0 <= j < i ==> dist_at(commands, cmd, j) > dist_at(commands, cmd, i)
}

/// The known verb to suggest for the unknown `cmd`: the first of those at the
/// least edit distance, where that distance is at most
/// [`MAX_SUGGESTION_DISTANCE`]; nothing where every verb is farther.
pub fn find_closest(cmd: &str, commands: &Vec<String>) -> (r: Option<String>)
    ensures
        r is None <==> forall|j: int|
            0 <= j < commands.len() ==> dist_at(commands@, cmd@, j) > MAX_SUGGESTION_DISTANCE,
        r matches Some(s) ==> exists|i: int| is_closest(commands@, cmd@, i) && s@ == commands@[i]@,
{
    let mut best: Option<usize> = None;
    let mut best_d: usize = 0;
    let mut i: usize = 0;
    while i < commands.len()
        invariant
            i <= commands.len(),
            best is None ==> forall|j: int|
                0 <= j < i ==> dist_at(commands@, cmd@, j) > MAX_SUGGESTION_DISTANCE,
            best matches Some(b) ==> {
                &&& b < i
                &&& best_d == dist_at(commands@, cmd@, b as int)
                &&& best_d <= MAX_SUGGESTION_DISTANCE
                &&& forall|j: int| 0 <= j < i ==> dist_at(commands@, cmd@, j) >= best_d
                &&& forall|j: int| 0 <= j < b ==> dist_at(commands@, cmd@, j) > best_d
            },
        decreases commands.len() - i,
    {
        let d = lev_distance(commands[i].as_str(), cmd);
        if d <= MAX_SUGGESTION_DISTANCE {
            match best {
                None => {
                    best = Some(i);
                    best_d = d;
                },
                Some(_) => {
                    if d < best_d {
                        best = Some(i);
                        best_d = d;
                    }
                },
            }
        }
        i = i + 1;
    }
    match best {
        None => None,
        Some(b) => {
            assert(is_closest(commands@, cmd@, b as int));
            Some(commands[b].clone())
        },
    }
}

/// Over a sorted set of verbs, the suggested one is the least, in
/// lexicographic order, of those at the least edit distance, and no verb is
/// closer.
pub proof fn lemma_closest_is_least_of_nearest(commands: Seq<String>, cmd: Seq<char>, i: int)
    requires
        sorted_strict(names(commands)),
        is_closest(commands, cmd, i),
    ensures
        forall|j: int|
            0 <= j < commands.len() && dist_at(commands, cmd, j) == dist_at(commands, cmd, i) ==> j
                == i || seq_lt(commands[i]@, commands[j]@),
        forall|j: int| 0 <= j < commands.len() ==> dist_at(commands, cmd, i) <= dist_at(commands, cmd, j),
{
    assert forall|j: int|
        0 <= j < commands.len() && dist_at(commands, cmd, j) == dist_at(commands, cmd, i) implies j
        == i || seq_lt(commands[i]@, commands[j]@) by {
        if j > i {
            assert(names(commands)[i] == commands[i]@);
            assert(names(commands)[j] == commands[j]@);
        }
    }
}

/// Where two directories hold the command, the earlier one in the search
/// order is run: the first index whose directory holds it.
pub fn first_executable(found: &Vec<bool>) -> (r: Option<usize>)
    ensures
        r matches Some(i) ==> i < found.len() && found[i as int] && forall|j: int|
            0 <= j < i ==> !found[j],
        r is None ==> forall|j: int| 0 <= j < found.len() ==> !found[j],
{
    let mut i: usize = 0;
    while i < found.len()
        invariant
            i <= found.len(),
            forall|j: int| 0 <= j < i ==> !found[j],
        decreases found.len() - i,
    {
        if found[i] {
            return Some(i);
        }
        i = i + 1;
    }
    None
}

/// The file name of the external command for `verb`: prefix, verb, then the
/// platform's executable suffix.
pub fn command_exe(verb: &str, suffix: &str) -> (r: String)
    ensures
        r@ == COMMAND_PREFIX@ + verb@ + suffix@,
{
    let mut r = COMMAND_PREFIX.to_owned();
    r.append(verb);
    r.append(suffix);
    r
}

/// The message for an unknown verb, with the suggestion where there is one.
pub open spec fn not_found_spec(cmd: Seq<char>, closest: Option<Seq<char>>) -> Seq<char> {
    match closest {
        Some(c) => "no such subcommand: `"@ + cmd + "`\n\n\tDid you mean `"@ + c + "`?\n"@,
        None => "no such subcommand: `"@ + cmd + "`"@,
    }
}

/// Builds the message reported for the unknown verb `cmd`.
pub fn not_found_message(cmd: &str, closest: Option<String>) -> (r: String)
    ensures
        r@ == not_found_spec(cmd@, closest.deep_view()),
{
    let mut r = "no such subcommand: `".to_owned();
    r.append(cmd);
    match closest {
        Some(c) => {
            r.append("`\n\n\tDid you mean `");
            r.append(c.as_str());
            r.append("`?\n");
        },
        None => {
            r.append("`");
        },
    }
    r
}

/// How a verb is carried out.
pub enum Resolution {
    /// In-process, by a built-in handler.
    Builtin(Builtin),
    /// By the executable in the search directory of this index.
    External(usize),
    /// Not at all: the verb is unknown.
    NotFound,
}

/// Resolves `verb`: a built-in of that exact name first; then the external
/// command in the first search directory that holds it, `found[i]` telling
/// whether the `i`-th does; else nothing.
pub fn resolve(verb: &str, found: &Vec<bool>) -> (r: Resolution)
    ensures
        builtin_names().contains(verb@) ==> (r matches Resolution::Builtin(b)
            && builtin_name_spec(b) == verb@),
        !builtin_names().contains(verb@) ==> match r {
            Resolution::Builtin(_) => false,
            Resolution::External(i) => i < found.len() && found[i as int] && forall|j: int|
                0 <= j < i ==> !found[j],
            Resolution::NotFound => forall|j: int| 0 <= j < found.len() ==> !found[j],
        },
{
    match find_builtin(verb) {
        Some(b) => Resolution::Builtin(b),
        None => match first_executable(found) {
            Some(i) => Resolution::External(i),
            None => Resolution::NotFound,
        },
    }
}

/// The directory of user-installed commands under the home directory `home`.
pub open spec fn user_module_dir(home: Seq<char>) -> Seq<char> {
    join_spec(join_spec(home, ".stick"@), "modules"@)
}

/// The directories searched for external commands, in order of precedence:
/// [`MODULE_DIR`], the user's module directory where a home directory is
/// known, then each directory of the executable search path.
pub fn search_directories(home: Option<&str>, path_dirs: &Vec<String>) -> (r: Vec<String>)
    ensures
        r.deep_view() == seq![MODULE_DIR@] + match home {
            Some(h) => seq![user_module_dir(h@)],
            None => Seq::empty(),
        } + path_dirs.deep_view(),
{
    let mut dirs: Vec<String> = Vec::new();
    dirs.push(MODULE_DIR.to_owned());
    match home {
        Some(h) => {
            let base = join(h, ".stick");
            dirs.push(join(base.as_str(), "modules"));
        },
        None => {},
    }
    let ghost head = dirs.deep_view();
    let mut i: usize = 0;
    while i < path_dirs.len()
        invariant
            i <= path_dirs.len(),
            dirs.deep_view() == head + path_dirs.deep_view().take(i as int),
        decreases path_dirs.len() - i,
    {
        let ghost prev = dirs.deep_view();
        dirs.push(path_dirs[i].clone());
        assert(dirs.deep_view() =~= prev.push(path_dirs@[i as int]@));
        assert(path_dirs.deep_view().take(i + 1) =~= path_dirs.deep_view().take(i as int).push(
            path_dirs@[i as int]@,
        ));
        i = i + 1;
    }
    assert(path_dirs.deep_view().take(i as int) =~= path_dirs.deep_view());
    assert(dirs.deep_view() =~= seq![MODULE_DIR@] + match home {
        Some(h) => seq![user_module_dir(h@)],
        None => Seq::empty(),
    } + path_dirs.deep_view());
    dirs
}


/// The decoded top-level options and arguments.
pub struct Flags {
    pub flag_list: bool,
    pub flag_version: bool,
    pub flag_verbose: u32,
    pub flag_quiet: Option<bool>,
    pub arg_command: String,
    pub arg_args: Vec<String>,
}

/// What the top level does with its decoded arguments.
pub enum MainAction {
    /// Print the version and succeed.
    PrintVersion,
    /// Print every installed command and succeed.
    ListCommands,
    /// Print the top-level usage message.
    ShowHelp,
    /// Dispatch the verb that leads these arguments.
    Run(Vec<String>),
    /// Dispatch the command line as it was given, so that tokens such as a
    /// bare `--` reach the command untouched.
    RunAsInvoked,
}

/// Asking for help on a verb: its first argument, if any, is a help flag.
pub open spec fn is_help_flag(s: Seq<char>) -> bool {
    s == "-h"@ || s == "--help"@
}

/// Decides what the top level does: the version and the listing flags come
/// first; no verb, or `help` alone or with a help flag, shows the usage;
/// `help <verb>` runs the verb with a help flag; any other verb runs as given.
pub fn plan_main(flags: &Flags) -> (r: MainAction)
    ensures
        flags.flag_version ==> r is PrintVersion,
        !flags.flag_version && flags.flag_list ==> r is ListCommands,
        !flags.flag_version && !flags.flag_list ==> {
            let cmd = flags.arg_command@;
            let args = flags.arg_args.deep_view();
            if (cmd == ""@ || cmd == "help"@) && args.len() == 0 {
                r is ShowHelp
            } else if cmd == "help"@ && is_help_flag(args[0]) {
                r is ShowHelp
            } else if cmd == "help"@ {
                r matches MainAction::Run(v) && v.deep_view() == seq![args[0], "-h"@]
            } else {
                r is RunAsInvoked
            }
        },
{
    if flags.flag_version {
        return MainAction::PrintVersion;
    }
    if flags.flag_list {
        return MainAction::ListCommands;
    }
    let cmd = flags.arg_command.as_str();
    let is_help = str_eq(cmd, "help");
    if (str_eq(cmd, "") || is_help) && flags.arg_args.len() == 0 {
        return MainAction::ShowHelp;
    }
    if !is_help {
        return MainAction::RunAsInvoked;
    }
    assert(flags.arg_args.deep_view()[0] == flags.arg_args@[0]@);
    let first = flags.arg_args[0].as_str();
    if str_eq(first, "-h") || str_eq(first, "--help") {
        return MainAction::ShowHelp;
    }
    let mut v: Vec<String> = Vec::new();
    v.push(first.to_owned());
    v.push("-h".to_owned());
    assert(v.deep_view() =~= seq![flags.arg_args.deep_view()[0], "-h"@]);
    MainAction::Run(v)
}

} // verus!
