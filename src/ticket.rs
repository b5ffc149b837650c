//! Splitting a ticket's first line into its id and its description.
use vstd::prelude::*;
use crate::text::{eq_ignore_ascii_case, eq_ignore_ascii_case_spec};

verus! {

/// Leading token of digits, letters and hyphens, an optional separator with
/// the blanks around it, then the rest of the line.
pub const TITLE_PATTERN: &'static str = r"^([\dA-Za-z-]*)\s*[-:_]?\s*(.*)";

/// The capture groups (group 0 being the whole match) of the first match of
/// the regular expression `pattern` in `line`; `None` where nothing matches.
pub uninterp spec fn regex_groups(pattern: Seq<char>, line: Seq<char>) -> Option<
    Seq<Option<Seq<char>>>,
>;

/// Relies on regex::Regex::new, which compiles `pattern`, and on
/// Regex::captures, which yields the groups of the leftmost-first match.
#[verifier::external_body]
fn captures(pattern: &str, line: &str) -> (r: Option<Vec<Option<String>>>)
    ensures
        r.deep_view() == regex_groups(pattern@, line@),
{
    let re = regex::Regex::new(pattern).ok()?;
    let caps = re.captures(line)?;
    Some(caps.iter().map(|m| m.map(|m| m.as_str().to_string())).collect())
}

/// A ticket title: its description and, where the line was labelled with
/// the ticket's own id, that id.
#[derive(Debug, PartialEq, Eq)]
pub struct Title {
    pub descr: String,
    pub id: Option<String>,
}

/// The id group and the description group of a match, where both took part.
pub open spec fn split_groups(groups: Option<Seq<Option<Seq<char>>>>) -> Option<
    (Seq<char>, Seq<char>),
> {
    match groups {
        Some(g) => if g.len() >= 3 && g[1] is Some && g[2] is Some {
            Some((g[1]->0, g[2]->0))
        } else {
            None
        },
        None => None,
    }
}

/// The title that a line yields for the ticket `fname`, given what the title
/// pattern captured in it: the leading token becomes the id only where it
/// names this ticket, up to ASCII case; otherwise the whole line is the
/// description.
pub open spec fn title_spec(
    fname: Seq<char>,
    line: Seq<char>,
    groups: Option<Seq<Option<Seq<char>>>>,
) -> (Seq<char>, Option<Seq<char>>) {
    match split_groups(groups) {
        Some((id, rest)) => if eq_ignore_ascii_case_spec(id, fname) {
            (rest, Some(id))
        } else {
            (line, None)
        },
        None => (line, None),
    }
}

impl Title {
    pub open spec fn view_pair(&self) -> (Seq<char>, Option<Seq<char>>) {
        (self.descr@, self.id.deep_view())
    }
}

/// Builds the title of `line` for the ticket `fname` from the groups that
/// the title pattern captured in it.
pub fn title_from_captures(fname: &str, line: &str, groups: Option<Vec<Option<String>>>) -> (r:
    Title)
    ensures
        r.view_pair() == title_spec(fname@, line@, groups.deep_view()),
{
    let whole = Title { descr: line.to_owned(), id: None };
    match groups {
        None => whole,
        Some(g) => {
            if g.len() < 3 {
                return whole;
            }
            let id = match &g[1] {
                Some(s) => s,
                None => {
                    return whole;
                },
            };
            let rest = match &g[2] {
                Some(s) => s,
                None => {
                    return whole;
                },
            };
            assert(g@[1].deep_view() == g.deep_view()[1]);
            assert(g@[2].deep_view() == g.deep_view()[2]);
            if eq_ignore_ascii_case(id.as_str(), fname) {
                Title { descr: rest.clone(), id: Some(id.clone()) }
            } else {
                whole
            }
        },
    }
}

/// A title whose description does not itself start with this ticket's id
/// reads back unchanged: parsing that description as a line of its own gives
/// the description whole, with no id.
pub proof fn lemma_description_reparses_bare(re: Seq<char>, fname: Seq<char>, line: Seq<char>)
    requires
        ({
            let d = title_spec(fname, line, regex_groups(re, line)).0;
            match split_groups(regex_groups(re, d)) {
                Some((id, _)) => !eq_ignore_ascii_case_spec(id, fname),
                None => true,
            }
        }),
    ensures
        ({
            let d = title_spec(fname, line, regex_groups(re, line)).0;
            title_spec(fname, d, regex_groups(re, d)) == (d, None::<Seq<char>>)
        }),
{
}

/// Parses ticket titles against [`TITLE_PATTERN`].
pub struct TitleParser {
    pattern: String,
}

impl TitleParser {
    /// The regular expression this parser applies.
    pub closed spec fn pattern(&self) -> Seq<char> {
        self.pattern@
    }

    pub fn new() -> (r: Self)
        ensures
            r.pattern() == TITLE_PATTERN@,
    {
        TitleParser { pattern: TITLE_PATTERN.to_owned() }
    }

    /// The title of `line`, the first line of the ticket `fname`.
    pub fn parse(&self, fname: &str, line: &str) -> (r: Title)
        ensures
            r.view_pair() == title_spec(fname@, line@, regex_groups(self.pattern(), line@)),
    {
        let groups = captures(self.pattern.as_str(), line);
        title_from_captures(fname, line, groups)
    }
}

} // verus!
