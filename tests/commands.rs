use stick::commands::{
    builtin_name, command_exe, command_name, find_builtin, find_closest, first_executable,
    list_commands, not_found_message, plan_main, resolve, search_directories, Builtin, Flags,
    MainAction, Resolution,
};

fn strings(v: &[&str]) -> Vec<String> {
    v.iter().map(|s| s.to_string()).collect()
}

#[test]
fn suggestion_close_verb() {
    let cmds = strings(&["info", "list", "move", "new", "search"]);
    assert_eq!(find_closest("serch", &cmds), Some("search".to_owned()));
    assert_eq!(find_closest("mve", &cmds), Some("move".to_owned()));
}

#[test]
fn suggestion_none_when_far() {
    let cmds = strings(&["info", "list", "move", "new", "search"]);
    assert_eq!(find_closest("completely-different", &cmds), None);
    assert_eq!(find_closest("anything", &Vec::new()), None);
}

#[test]
fn suggestion_threshold() {
    let cmds = strings(&["abcd"]);
    assert_eq!(find_closest("wxyz", &cmds), None);
    assert_eq!(find_closest("axyz", &cmds), Some("abcd".to_owned()));
}

#[test]
fn suggestion_ties_pick_first_sorted() {
    let cmds = strings(&["ab", "ac"]);
    assert_eq!(find_closest("aa", &cmds), Some("ab".to_owned()));
    let cmds = strings(&["abc", "xbc", "xyc"]);
    assert_eq!(find_closest("xbz", &cmds), Some("xbc".to_owned()));
}

#[test]
fn command_names_from_files() {
    assert_eq!(command_name("stick-foo", ""), Some("foo".to_owned()));
    assert_eq!(command_name("stick-foo.exe", ".exe"), Some("foo".to_owned()));
    assert_eq!(command_name("stick-foo", ".exe"), None);
    assert_eq!(command_name("other-foo", ""), None);
    assert_eq!(command_name("stick", ""), None);
    assert_eq!(command_name("stick-", ""), Some("".to_owned()));
}

#[test]
fn listing_is_sorted_union_without_repeats() {
    let files = strings(&["stick-new", "ls", "stick-move", "stick-new", "stick-search", "stick-Info"]);
    assert_eq!(
        list_commands(&files, ""),
        strings(&["Info", "move", "new", "search"])
    );
    assert_eq!(list_commands(&Vec::new(), ""), strings(&["search"]));
    let files = strings(&["stick-zed.exe", "stick-abc", "stick-abc.exe"]);
    assert_eq!(list_commands(&files, ".exe"), strings(&["abc", "search", "zed"]));
}

#[test]
fn builtins() {
    assert_eq!(find_builtin("search"), Some(Builtin::Search));
    assert_eq!(find_builtin("Search"), None);
    assert_eq!(find_builtin("list"), None);
    assert_eq!(builtin_name(Builtin::Search), "search");
}

#[test]
fn precedence_first_directory_wins() {
    assert_eq!(first_executable(&vec![true, false, true]), Some(0));
    assert_eq!(first_executable(&vec![false, false, true, true]), Some(2));
    assert_eq!(first_executable(&vec![false, false]), None);
    assert!(matches!(resolve("list", &vec![true, false, true]), Resolution::External(0)));
    assert!(matches!(resolve("search", &vec![true]), Resolution::Builtin(Builtin::Search)));
    assert!(matches!(resolve("list", &vec![false, false]), Resolution::NotFound));
}

#[test]
fn executable_file_name() {
    assert_eq!(command_exe("list", ""), "stick-list");
    assert_eq!(command_exe("list", ".exe"), "stick-list.exe");
}

#[test]
fn unknown_verb_messages() {
    assert_eq!(
        not_found_message("serch", Some("search".to_owned())),
        "no such subcommand: `serch`\n\n\tDid you mean `search`?\n"
    );
    assert_eq!(not_found_message("zzz", None), "no such subcommand: `zzz`");
}

#[test]
fn directories_in_order() {
    let path = strings(&["/usr/bin", "/bin"]);
    assert_eq!(
        search_directories(Some("/home/u"), &path),
        strings(&["/usr/lib/stick-modules", "/home/u/.stick/modules", "/usr/bin", "/bin"])
    );
    assert_eq!(
        search_directories(None, &path),
        strings(&["/usr/lib/stick-modules", "/usr/bin", "/bin"])
    );
}

fn flags(command: &str, args: &[&str]) -> Flags {
    Flags {
        flag_list: false,
        flag_version: false,
        flag_verbose: 0,
        flag_quiet: None,
        arg_command: command.to_owned(),
        arg_args: strings(args),
    }
}

#[test]
fn main_plans() {
    let mut f = flags("search", &["x"]);
    f.flag_version = true;
    f.flag_list = true;
    assert!(matches!(plan_main(&f), MainAction::PrintVersion));
    f.flag_version = false;
    assert!(matches!(plan_main(&f), MainAction::ListCommands));
    assert!(matches!(plan_main(&flags("", &[])), MainAction::ShowHelp));
    assert!(matches!(plan_main(&flags("help", &[])), MainAction::ShowHelp));
    assert!(matches!(plan_main(&flags("help", &["--help"])), MainAction::ShowHelp));
    assert!(matches!(plan_main(&flags("help", &["-h"])), MainAction::ShowHelp));
    match plan_main(&flags("help", &["search", "more"])) {
        MainAction::Run(v) => assert_eq!(v, strings(&["search", "-h"])),
        _ => panic!("expected a run"),
    }
    assert!(matches!(plan_main(&flags("search", &["--", "x"])), MainAction::RunAsInvoked));
}
