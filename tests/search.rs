use stick::penv::{Environment, Probe};
use stick::search::{
    first_matching_line, match_ticket, report, search_tickets, ticket_dir, Flags, Ticket,
    TicketMatch,
};
use stick::ticket::TitleParser;

fn ticket(stem: &str, lines: &[&str]) -> Ticket {
    Ticket {
        stem: Some(stem.to_owned()),
        lines: lines.iter().map(|s| s.to_string()).collect(),
    }
}

#[test]
fn first_line_holding_pattern() {
    let lines = vec!["alpha\n".to_owned(), "beta\n".to_owned(), "beta again\n".to_owned()];
    assert_eq!(first_matching_line(&lines, "beta"), Some(1));
    assert_eq!(first_matching_line(&lines, "gamma"), None);
}

#[test]
fn one_match_per_ticket() {
    let parser = TitleParser::new();
    let t = ticket("id-3", &["ID-3 Crash\n", "it crashes\n", "crashes again\n"]);
    match match_ticket(&parser, &t, "crashes") {
        Some(TicketMatch::InContents(name, line)) => {
            assert_eq!(name, "id-3");
            assert_eq!(line, "it crashes\n");
        }
        _ => panic!("expected a contents match"),
    }
    match match_ticket(&parser, &t, "Crash") {
        Some(TicketMatch::InTitle(name, title)) => {
            assert_eq!(name, "id-3");
            assert_eq!(title.descr, "Crash");
            assert_eq!(title.id, Some("ID-3".to_owned()));
        }
        _ => panic!("expected a title match"),
    }
    let nameless = Ticket { stem: None, lines: vec!["Crash".to_owned()] };
    assert!(match_ticket(&parser, &nameless, "Crash").is_none());
}

#[test]
fn search_and_report() {
    let parser = TitleParser::new();
    let tickets = vec![
        ticket("id-1", &["ID-1 Disk full\n", "disk again\n"]),
        ticket("id-2", &["Unrelated\n", "the disk broke\n", "disk\n"]),
        ticket("id-3", &["ID-3 Nothing\n"]),
    ];
    let found = search_tickets(&parser, &tickets, "isk");
    assert_eq!(found.titles.len(), 1);
    assert_eq!(found.contents.len(), 1);
    assert_eq!(
        report(&found),
        vec![
            "Matches in title:".to_owned(),
            "  id-1: Disk full".to_owned(),
            "".to_owned(),
            "Matches in contents:".to_owned(),
            "  id-2: the disk broke\n".to_owned(),
        ]
    );
    let none = search_tickets(&parser, &tickets, "zebra");
    assert!(report(&none).is_empty());
    let only_contents = search_tickets(&parser, &tickets, "broke");
    assert_eq!(
        report(&only_contents),
        vec!["Matches in contents:".to_owned(), "  id-2: the disk broke\n".to_owned()]
    );
}

#[test]
fn directory_to_search() {
    let env = Environment::from_path("/p", &vec![Probe { is_dir: true, has_marker: true }]).unwrap();
    let f = Flags { arg_state: None, arg_pattern: "x".to_owned() };
    assert_eq!(ticket_dir(&env, &f), "/p/issues");
    let f = Flags { arg_state: Some("done".to_owned()), arg_pattern: "x".to_owned() };
    assert_eq!(ticket_dir(&env, &f), "/p/state/done");
}
