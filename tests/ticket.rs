use stick::ticket::{title_from_captures, Title, TitleParser};

fn title(descr: &str, id: Option<&str>) -> Title {
    Title {
        descr: descr.to_owned(),
        id: id.map(|s| s.to_owned()),
    }
}

#[test]
fn parse_ok() {
    let parser = TitleParser::new();
    assert_eq!(parser.parse("id-151", "ID-151 My title"),
               Title {
                   descr: "My title".to_owned(),
                   id: Some("ID-151".to_owned()),
               });
    assert_eq!(parser.parse("id-151", "id-151 - My title"),
               Title {
                   descr: "My title".to_owned(),
                   id: Some("id-151".to_owned()),
               });
}

#[test]
fn parse_fail() {
    let parser = TitleParser::new();
    assert_eq!(parser.parse("id-151", "ID-140 My title"),
               Title {
                   descr: "ID-140 My title".to_owned(),
                   id: None,
               });
}

#[test]
fn parse_other_separators() {
    let parser = TitleParser::new();
    assert_eq!(parser.parse("t-1", "T-1: Broken build"), title("Broken build", Some("T-1")));
    assert_eq!(parser.parse("t-1", "t-1 _ Broken build"), title("Broken build", Some("t-1")));
}

#[test]
fn parse_stops_description_at_newline() {
    let parser = TitleParser::new();
    assert_eq!(parser.parse("id-7", "id-7 Fix it\n"), title("Fix it", Some("id-7")));
}

#[test]
fn reparsed_description_is_bare() {
    let parser = TitleParser::new();
    let first = parser.parse("id-151", "ID-151 My title");
    let again = parser.parse("id-151", &first.descr);
    assert_eq!(again, title("My title", None));
}

#[test]
fn parse_empty_line() {
    let parser = TitleParser::new();
    assert_eq!(parser.parse("id-1", ""), title("", None));
}

#[test]
fn captures_decide_title() {
    let groups = Some(vec![
        Some("ID-9 Thing".to_owned()),
        Some("ID-9".to_owned()),
        Some("Thing".to_owned()),
    ]);
    assert_eq!(title_from_captures("id-9", "ID-9 Thing", groups.clone()), title("Thing", Some("ID-9")));
    assert_eq!(title_from_captures("id-8", "ID-9 Thing", groups), title("ID-9 Thing", None));
    assert_eq!(title_from_captures("id-9", "ID-9 Thing", None), title("ID-9 Thing", None));
    let missing = Some(vec![Some("x".to_owned()), None, Some("x".to_owned())]);
    assert_eq!(title_from_captures("", "x", missing), title("x", None));
}
