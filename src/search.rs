//! The built-in `search` command: finds tickets whose text holds a pattern.
use vstd::prelude::*;
use crate::penv::{join_spec, Environment, ISSUES_DIR, STATES_DIR};
use crate::text::{contains, contains_spec};
use crate::ticket::{regex_groups, title_spec, Title, TitleParser};

verus! {

/// Options of the `search` command.
pub struct Flags {
    pub arg_state: Option<String>,
    pub arg_pattern: String,
}

/// The directory to search: that of the chosen state, or the directory of
/// open tickets where no state is given.
pub fn ticket_dir(env: &Environment, flags: &Flags) -> (r: String)
    ensures
        r@ == match flags.arg_state {
            Some(s) => join_spec(join_spec(env.root_view(), STATES_DIR@), s@),
            None => join_spec(env.root_view(), ISSUES_DIR@),
        },
{
    match &flags.arg_state {
        Some(s) => env.state_dir(s.as_str()),
        None => env.issues_dir(),
    }
}

/// A ticket file as read from disk: the stem of its file name, where that
/// stem is valid text, and its lines, each with its line terminator.
pub struct Ticket {
    pub stem: Option<String>,
    pub lines: Vec<String>,
}

/// The one match recorded for a ticket.
pub enum TicketMatch {
    /// The pattern occurs in the first line: the ticket's stem and its title.
    InTitle(String, Title),
    /// The pattern first occurs in a later line: the ticket's stem and that line.
    InContents(String, String),
}

pub ghost enum MatchView {
    InTitle(Seq<char>, (Seq<char>, Option<Seq<char>>)),
    InContents(Seq<char>, Seq<char>),
}

impl TicketMatch {
    pub open spec fn view(&self) -> MatchView {
        match self {
            TicketMatch::InTitle(n, t) => MatchView::InTitle(n@, t.view_pair()),
            TicketMatch::InContents(n, l) => MatchView::InContents(n@, l@),
        }
    }
}

pub open spec fn match_view(m: Option<TicketMatch>) -> Option<MatchView> {
    match m {
        Some(m) => Some(m.view()),
        None => None,
    }
}

/// The index of the first of `lines` that holds `pattern`, if any.
pub open spec fn first_hit(lines: Seq<Seq<char>>, pattern: Seq<char>) -> Option<int>
    decreases lines.len(),
{
    if lines.len() == 0 {
        None
    } else if contains_spec(lines[0], pattern) {
        Some(0)
    } else {
        match first_hit(lines.drop_first(), pattern) {
            Some(i) => Some(i + 1),
            None => None,
        }
    }
}

/// The match that a ticket contributes: none without a stem or without a
/// line that holds the pattern; otherwise a title match where the first such
/// line is the first line, and a contents match with that line where not.
pub open spec fn ticket_match_spec(re: Seq<char>, t: Ticket, pattern: Seq<char>) -> Option<
    MatchView,
> {
    let lines = t.lines.deep_view();
    match (t.stem, first_hit(lines, pattern)) {
        (Some(stem), Some(i)) => if i == 0 {
            Some(
                MatchView::InTitle(stem@, title_spec(stem@, lines[0], regex_groups(re, lines[0]))),
            )
        } else {
            Some(MatchView::InContents(stem@, lines[i]))
        },
        _ => None,
    }
}

proof fn lemma_first_hit(lines: Seq<Seq<char>>, pattern: Seq<char>, i: int)
    requires
        0 <= i <= lines.len(),
        forall|k: int| 0 <= k < i ==> !contains_spec(#[trigger] lines[k], pattern),
    ensures
        i < lines.len() && contains_spec(lines[i], pattern) ==> first_hit(lines, pattern) == Some(
            i,
        ),
        i == lines.len() ==> first_hit(lines, pattern) is None,
    decreases i,
{
    if i > 0 {
        let rest = lines.drop_first();
        assert forall|k: int| 0 <= k < i - 1 implies !contains_spec(#[trigger] rest[k], pattern) by {
            assert(rest[k] == lines[k + 1]);
        }
        lemma_first_hit(rest, pattern, i - 1);
    }
}

/// Finds the first line of `lines` that holds `pattern`.
pub fn first_matching_line(lines: &Vec<String>, pattern: &str) -> (r: Option<usize>)
    ensures
        r matches Some(i) ==> i < lines.len() && first_hit(lines.deep_view(), pattern@) == Some(
            i as int,
        ),
        r is None ==> first_hit(lines.deep_view(), pattern@) is None,
{
    let ghost ls = lines.deep_view();
    let mut i: usize = 0;
    while i < lines.len()
        invariant
            ls == lines.deep_view(),
            ls.len() == lines.len(),
            i <= lines.len(),
            forall|k: int| 0 <= k < i ==> !contains_spec(#[trigger] ls[k], pattern@),
        decreases lines.len() - i,
    {
        assert(ls[i as int] == lines[i as int]@);
        if contains(lines[i].as_str(), pattern) {
            proof {
                lemma_first_hit(ls, pattern@, i as int);
            }
            return Some(i);
        }
        i = i + 1;
    }
    proof {
        lemma_first_hit(ls, pattern@, i as int);
    }
    None
}

/// The match that `ticket` contributes to a search for `pattern`: at most
/// one, from the earliest line that holds it.
pub fn match_ticket(parser: &TitleParser, ticket: &Ticket, pattern: &str) -> (r: Option<
    TicketMatch,
>)
    ensures
        match_view(r) == ticket_match_spec(parser.pattern(), *ticket, pattern@),
{
    let stem = match &ticket.stem {
        Some(s) => s,
        None => {
            return None;
        },
    };
    match first_matching_line(&ticket.lines, pattern) {
        None => None,
        Some(i) => {
            assert(ticket.lines.deep_view()[i as int] == ticket.lines@[i as int]@);
            if i == 0 {
                let title = parser.parse(stem.as_str(), ticket.lines[0].as_str());
                Some(TicketMatch::InTitle(stem.clone(), title))
            } else {
                Some(TicketMatch::InContents(stem.clone(), ticket.lines[i].clone()))
            }
        },
    }
}


/// What a search found, in the order of the tickets searched.
pub struct SearchMatches {
    pub titles: Vec<(String, Title)>,
    pub contents: Vec<(String, String)>,
}

pub open spec fn titles_view(v: Seq<(String, Title)>) -> Seq<(Seq<char>, (Seq<char>, Option<Seq<char>>))> {
    v.map_values(|p: (String, Title)| (p.0@, p.1.view_pair()))
}

pub open spec fn contents_view(v: Seq<(String, String)>) -> Seq<(Seq<char>, Seq<char>)> {
    v.map_values(|p: (String, String)| (p.0@, p.1@))
}

/// The title matches of `tickets`, one per ticket whose first hit is its first line.
pub open spec fn title_matches(re: Seq<char>, tickets: Seq<Ticket>, pattern: Seq<char>) -> Seq<
    (Seq<char>, (Seq<char>, Option<Seq<char>>)),
>
    decreases tickets.len(),
{
    if tickets.len() == 0 {
        Seq::empty()
    } else {
        let prev = title_matches(re, tickets.drop_last(), pattern);
        match ticket_match_spec(re, tickets.last(), pattern) {
            Some(MatchView::InTitle(n, t)) => prev.push((n, t)),
            _ => prev,
        }
    }
}

/// The contents matches of `tickets`, one per ticket whose first hit is a later line.
pub open spec fn contents_matches(re: Seq<char>, tickets: Seq<Ticket>, pattern: Seq<char>) -> Seq<
    (Seq<char>, Seq<char>),
>
    decreases tickets.len(),
{
    if tickets.len() == 0 {
        Seq::empty()
    } else {
        let prev = contents_matches(re, tickets.drop_last(), pattern);
        match ticket_match_spec(re, tickets.last(), pattern) {
            Some(MatchView::InContents(n, l)) => prev.push((n, l)),
            _ => prev,
        }
    }
}

/// Searches every ticket for `pattern`, keeping at most one match per ticket.
pub fn search_tickets(parser: &TitleParser, tickets: &Vec<Ticket>, pattern: &str) -> (r:
    SearchMatches)
    ensures
        titles_view(r.titles@) == title_matches(parser.pattern(), tickets@, pattern@),
        contents_view(r.contents@) == contents_matches(parser.pattern(), tickets@, pattern@),
{
    let mut titles: Vec<(String, Title)> = Vec::new();
    let mut contents: Vec<(String, String)> = Vec::new();
    let mut i: usize = 0;
    while i < tickets.len()
        invariant
            i <= tickets.len(),
            titles_view(titles@) == title_matches(
                parser.pattern(),
                tickets@.take(i as int),
                pattern@,
            ),
            contents_view(contents@) == contents_matches(
                parser.pattern(),
                tickets@.take(i as int),
                pattern@,
            ),
        decreases tickets.len() - i,
    {
        let ghost before = tickets@.take(i as int);
        assert(tickets@.take(i + 1).drop_last() =~= before);
        assert(tickets@.take(i + 1).last() == tickets@[i as int]);
        match match_ticket(parser, &tickets[i], pattern) {
            Some(TicketMatch::InTitle(n, t)) => {
                titles.push((n, t));
                assert(titles_view(titles@) =~= titles_view(titles@.drop_last()).push(
                    titles_view(titles@).last(),
                ));
            },
            Some(TicketMatch::InContents(n, l)) => {
                contents.push((n, l));
                assert(contents_view(contents@) =~= contents_view(contents@.drop_last()).push(
                    contents_view(contents@).last(),
                ));
            },
            None => {},
        }
        i = i + 1;
    }
    assert(tickets@.take(i as int) =~= tickets@);
    SearchMatches { titles, contents }
}

/// A ticket contributes exactly one match, from the earliest of its lines
/// that holds the pattern, however many later lines hold it too.
pub proof fn lemma_one_match_per_ticket(re: Seq<char>, t: Ticket, pattern: Seq<char>, i: int)
    requires
        t.stem is Some,
        0 <= i < t.lines.len(),
        contains_spec(t.lines.deep_view()[i], pattern),
        forall|k: int| 0 <= k < i ==> !contains_spec(#[trigger] t.lines.deep_view()[k], pattern),
    ensures
        title_matches(re, seq![t], pattern).len() + contents_matches(re, seq![t], pattern).len()
            == 1,
        i == 0 ==> title_matches(re, seq![t], pattern) == seq![
            (
                t.stem->0@,
                title_spec(
                    t.stem->0@,
                    t.lines.deep_view()[0],
                    regex_groups(re, t.lines.deep_view()[0]),
                ),
            ),
        ],
        i > 0 ==> contents_matches(re, seq![t], pattern) == seq![
            (t.stem->0@, t.lines.deep_view()[i]),
        ],
{
    lemma_first_hit(t.lines.deep_view(), pattern, i);
    let one = seq![t];
    assert(one.drop_last() =~= Seq::<Ticket>::empty());
    assert(one.last() == t);
    assert(title_matches(re, one.drop_last(), pattern).len() == 0);
    assert(contents_matches(re, one.drop_last(), pattern).len() == 0);
    let lines = t.lines.deep_view();
    if i == 0 {
        assert(title_matches(re, one, pattern) =~= seq![
            (t.stem->0@, title_spec(t.stem->0@, lines[0], regex_groups(re, lines[0]))),
        ]);
        assert(contents_matches(re, one, pattern).len() == 0);
    } else {
        assert(contents_matches(re, one, pattern) =~= seq![(t.stem->0@, lines[i])]);
        assert(title_matches(re, one, pattern).len() == 0);
    }
}

/// One reported match: indented, the ticket's stem, a colon, then the text.
pub open spec fn match_line(name: Seq<char>, text: Seq<char>) -> Seq<char> {
    "  "@ + name + ": "@ + text
}

pub open spec fn title_lines(titles: Seq<(Seq<char>, (Seq<char>, Option<Seq<char>>))>) -> Seq<
    Seq<char>,
> {
    titles.map_values(|p: (Seq<char>, (Seq<char>, Option<Seq<char>>))| match_line(p.0, p.1.0))
}

pub open spec fn content_lines(contents: Seq<(Seq<char>, Seq<char>)>) -> Seq<Seq<char>> {
    contents.map_values(|p: (Seq<char>, Seq<char>)| match_line(p.0, p.1))
}

/// The report of a search: a section of title matches where there are any,
/// then, after a blank line where both sections are present, a section of
/// contents matches where there are any.
pub open spec fn report_spec(
    titles: Seq<(Seq<char>, (Seq<char>, Option<Seq<char>>))>,
    contents: Seq<(Seq<char>, Seq<char>)>,
) -> Seq<Seq<char>> {
    let t = if titles.len() > 0 {
        seq!["Matches in title:"@] + title_lines(titles)
    } else {
        Seq::empty()
    };
    let c = if contents.len() > 0 {
        (if titles.len() > 0 {
            seq![""@]
        } else {
            Seq::empty()
        }) + seq!["Matches in contents:"@] + content_lines(contents)
    } else {
        Seq::empty()
    };
    t + c
}

fn format_match(name: &str, text: &str) -> (r: String)
    ensures
        r@ == match_line(name@, text@),
{
    let mut s = "  ".to_owned();
    s.append(name);
    s.append(": ");
    s.append(text);
    s
}

pub open spec fn lines_view(v: Seq<String>) -> Seq<Seq<char>> {
    v.map_values(|s: String| s@)
}

/// The lines that report `m`.
pub fn report(m: &SearchMatches) -> (r: Vec<String>)
    ensures
        lines_view(r@) == report_spec(titles_view(m.titles@), contents_view(m.contents@)),
{
    let ghost tv = titles_view(m.titles@);
    let ghost cv = contents_view(m.contents@);
    let mut out: Vec<String> = Vec::new();
    if m.titles.len() > 0 {
        out.push("Matches in title:".to_owned());
        let mut i: usize = 0;
        while i < m.titles.len()
            invariant
                tv == titles_view(m.titles@),
                i <= m.titles.len(),
                lines_view(out@) == seq!["Matches in title:"@] + title_lines(tv.take(i as int)),
            decreases m.titles.len() - i,
        {
            let line = format_match(m.titles[i].0.as_str(), m.titles[i].1.descr.as_str());
            assert(tv[i as int].0 == m.titles@[i as int].0@);
            assert(tv[i as int].1.0 == m.titles@[i as int].1.descr@);
            let ghost prev = out@;
            out.push(line);
            assert(out@.drop_last() =~= prev);
            assert(tv.take(i + 1) =~= tv.take(i as int).push(tv[i as int]));
            assert(lines_view(out@) =~= lines_view(out@.drop_last()).push(line@));
            assert(title_lines(tv.take(i + 1)) =~= title_lines(tv.take(i as int)).push(line@));
            assert(lines_view(out@) =~= seq!["Matches in title:"@] + title_lines(tv.take(i + 1)));
            i = i + 1;
        }
        assert(tv.take(i as int) =~= tv);
    }
    let ghost after_titles = lines_view(out@);
    if m.contents.len() > 0 {
        if m.titles.len() > 0 {
            out.push("".to_owned());
        }
        out.push("Matches in contents:".to_owned());
        let ghost head = lines_view(out@);
        let mut i: usize = 0;
        while i < m.contents.len()
            invariant
                cv == contents_view(m.contents@),
                i <= m.contents.len(),
                lines_view(out@) == head + content_lines(cv.take(i as int)),
            decreases m.contents.len() - i,
        {
            let line = format_match(m.contents[i].0.as_str(), m.contents[i].1.as_str());
            assert(cv[i as int].0 == m.contents@[i as int].0@);
            assert(cv[i as int].1 == m.contents@[i as int].1@);
            let ghost prev = out@;
            out.push(line);
            assert(out@.drop_last() =~= prev);
            assert(cv.take(i + 1) =~= cv.take(i as int).push(cv[i as int]));
            assert(lines_view(out@) =~= lines_view(out@.drop_last()).push(line@));
            assert(content_lines(cv.take(i + 1)) =~= content_lines(cv.take(i as int)).push(line@));
            assert(lines_view(out@) =~= head + content_lines(cv.take(i + 1)));
            i = i + 1;
        }
        assert(cv.take(i as int) =~= cv);
    }
    assert(lines_view(out@) =~= report_spec(tv, cv));
    out
}

} // verus!
