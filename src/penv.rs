//! The project environment: its root directory and the paths under it.
use vstd::prelude::*;

verus! {

/// The file whose presence marks a directory as a project root.
pub const PRJ_FILE: &'static str = ".stick.cfg";

/// The directory, under the root, that holds the open tickets.
pub const ISSUES_DIR: &'static str = "issues";

/// The directory, under the root, that holds one directory per state.
pub const STATES_DIR: &'static str = "state";

/// `seg` appended to `base` as a path: an absolute `seg` replaces `base`, and
/// one separator stands between the two.
pub open spec fn join_spec(base: Seq<char>, seg: Seq<char>) -> Seq<char> {
    if seg.len() > 0 && seg[0] == '/' {
        seg
    } else if base.len() == 0 {
        seg
    } else if base.last() == '/' {
        base + seg
    } else {
        base + seq!['/'] + seg
    }
}

/// Appends the path `seg` to the path `base`.
pub fn join(base: &str, seg: &str) -> (r: String)
    ensures
        r@ == join_spec(base@, seg@),
{
    let bl = base.unicode_len();
    if seg.unicode_len() > 0 && seg.get_char(0) == '/' {
        return seg.to_owned();
    }
    if bl == 0 {
        return seg.to_owned();
    }
    let mut r = base.to_owned();
    if base.get_char(bl - 1) != '/' {
        r.append("/");
        proof {
            reveal_strlit("/");
        }
    }
    r.append(seg);
    r
}

/// The index of the last separator in `p`, or -1 where there is none.
pub open spec fn last_sep(p: Seq<char>) -> int
    decreases p.len(),
{
    if p.len() == 0 {
        -1
    } else if p.last() == '/' {
        p.len() - 1
    } else {
        last_sep(p.drop_last())
    }
}

proof fn lemma_last_sep(p: Seq<char>)
    ensures
        -1 <= last_sep(p) < p.len(),
        last_sep(p) >= 0 ==> p[last_sep(p)] == '/',
        forall|k: int| last_sep(p) < k < p.len() ==> p[k] != '/',
    decreases p.len(),
{
    if p.len() > 0 && p.last() != '/' {
        lemma_last_sep(p.drop_last());
        assert forall|k: int| last_sep(p) < k < p.len() implies p[k] != '/' by {
            if k < p.len() - 1 {
                assert(p.drop_last()[k] == p[k]);
            }
        }
    }
}

/// The directory that holds `p`: `p` up to its last separator, the root for
/// a path directly under it, and nothing for the root or a bare name.
pub open spec fn parent(p: Seq<char>) -> Option<Seq<char>> {
    let k = last_sep(p);
    if k < 0 {
        None
    } else if k == 0 {
        if p.len() > 1 {
            Some(seq!['/'])
        } else {
            None
        }
    } else {
        Some(p.take(k))
    }
}

/// A parent is always shorter than its child, so walking upward ends.
pub proof fn lemma_parent_shorter(p: Seq<char>)
    ensures
        parent(p) matches Some(q) ==> q.len() < p.len(),
{
    lemma_last_sep(p);
}

/// `p` followed by each of its ancestors, nearest first, up to the root.
pub open spec fn ancestors(p: Seq<char>) -> Seq<Seq<char>>
    decreases p.len(),
{
    match parent(p) {
        Some(q) => if q.len() < p.len() {
            seq![p] + ancestors(q)
        } else {
            seq![p]
        },
        None => seq![p],
    }
}

/// The directory that holds `p`, if any.
pub fn parent_of(p: &str) -> (r: Option<String>)
    ensures
        r.deep_view() == parent(p@),
{
    let n = p.unicode_len();
    let mut i: usize = n;
    while i > 0 && p.get_char(i - 1) != '/'
        invariant
            n == p@.len(),
            i <= n,
            forall|k: int| i <= k < n ==> p@[k] != '/',
        decreases i,
    {
        i = i - 1;
    }
    proof {
        lemma_last_sep(p@);
        assert(i > 0 ==> p@[i - 1] == '/');
    }
    if i == 0 {
        return None;
    }
    let k = i - 1;
    assert(last_sep(p@) == k) by {
        lemma_last_sep(p@);
    }
    if k == 0 {
        if n > 1 {
            let r = "/".to_owned();
            proof {
                reveal_strlit("/");
                assert(r@ =~= seq!['/']);
            }
            Some(r)
        } else {
            None
        }
    } else {
        Some(p.substring_char(0, k).to_owned())
    }
}

/// `path` followed by each of its ancestors, nearest first: the directories
/// to look at, in turn, when finding the project that holds `path`.
pub fn ancestor_dirs(path: &str) -> (r: Vec<String>)
    ensures
        r.deep_view() == ancestors(path@),
{
    let mut out: Vec<String> = Vec::new();
    let mut cur = path.to_owned();
    loop
        invariant
            out.deep_view() + ancestors(cur@) == ancestors(path@),
        decreases cur@.len(),
    {
        proof {
            lemma_parent_shorter(cur@);
        }
        let ghost prev = out.deep_view();
        let next = parent_of(cur.as_str());
        out.push(cur);
        let ghost c = out@.last()@;
        assert(out.deep_view() =~= prev.push(c));
        match next {
            None => {
                assert(ancestors(c) == seq![c]);
                assert(out.deep_view() =~= ancestors(path@));
                return out;
            },
            Some(q) => {
                assert(ancestors(c) == seq![c] + ancestors(q@));
                assert(out.deep_view() + ancestors(q@) =~= ancestors(path@));
                cur = q;
            },
        }
    }
}

/// What a look at one directory found: whether it is a directory, and
/// whether the marker file stands in it as a regular file.
pub struct Probe {
    pub is_dir: bool,
    pub has_marker: bool,
}

/// Where the walk upward ends, given what was found at each directory in
/// turn: the first directory that holds the marker, or nothing where the
/// walk meets a path that is no directory, or runs out of directories first.
pub open spec fn locate_spec(dirs: Seq<Seq<char>>, probes: Seq<Probe>) -> Option<Seq<char>>
    decreases dirs.len(),
{
    if dirs.len() == 0 || probes.len() == 0 {
        None
    } else if !probes[0].is_dir {
        None
    } else if probes[0].has_marker {
        Some(dirs[0])
    } else {
        locate_spec(dirs.drop_first(), probes.drop_first())
    }
}

/// The walk ends at the nearest directory that holds the marker, where every
/// directory before it is a directory without one; and it finds nothing
/// where no directory up to the root holds the marker.
pub proof fn lemma_locate_nearest(dirs: Seq<Seq<char>>, probes: Seq<Probe>, k: int)
    requires
        0 <= k <= dirs.len(),
        k <= probes.len(),
        forall|i: int| 0 <= i < k ==> probes[i].is_dir && !probes[i].has_marker,
    ensures
        k < dirs.len() && k < probes.len() && probes[k].is_dir && probes[k].has_marker
            ==> locate_spec(dirs, probes) == Some(dirs[k]),
        k == dirs.len() ==> locate_spec(dirs, probes) is None,
    decreases k,
{
    if k > 0 {
        let (d, p) = (dirs.drop_first(), probes.drop_first());
        assert forall|i: int| 0 <= i < k - 1 implies p[i].is_dir && !p[i].has_marker by {
            assert(p[i] == probes[i + 1]);
        }
        lemma_locate_nearest(d, p, k - 1);
        if k < dirs.len() {
            assert(d[k - 1] == dirs[k]);
        }
    }
}

/// A project, found by its root directory.
pub struct Environment {
    root: String,
}

impl Environment {
    /// The root directory of the project.
    pub closed spec fn root_view(&self) -> Seq<char> {
        self.root@
    }

    /// Finds the project that holds `path`: `probes[i]` is what was found at
    /// the `i`-th path of `path` and its ancestors, nearest first.
    pub fn from_path(path: &str, probes: &Vec<Probe>) -> (r: Option<Self>)
        ensures
            r matches Some(e) ==> locate_spec(ancestors(path@), probes@) == Some(e.root_view()),
            r is None ==> locate_spec(ancestors(path@), probes@) is None,
    {
        let mut cur = path.to_owned();
        let mut i: usize = 0;
        assert(probes@.skip(0) =~= probes@);
        loop
            invariant
                i <= probes.len(),
                locate_spec(ancestors(path@), probes@) == locate_spec(
                    ancestors(cur@),
                    probes@.skip(i as int),
                ),
            decreases cur@.len(),
        {
            if i >= probes.len() {
                assert(probes@.skip(i as int).len() == 0);
                return None;
            }
            let probe = &probes[i];
            let ghost rest = probes@.skip(i as int);
            assert(rest[0] == probes@[i as int]);
            proof {
                lemma_parent_shorter(cur@);
            }
            if !probe.is_dir {
                return None;
            }
            if probe.has_marker {
                return Some(Environment { root: cur });
            }
            match parent_of(cur.as_str()) {
                None => {
                    assert(ancestors(cur@) == seq![cur@]);
                    assert(ancestors(cur@).drop_first().len() == 0);
                    assert(locate_spec(ancestors(cur@).drop_first(), rest.drop_first()) is None);
                    return None;
                },
                Some(q) => {
                    assert(ancestors(cur@).drop_first() =~= ancestors(q@));
                    assert(rest.drop_first() =~= probes@.skip(i + 1));
                    cur = q;
                    i = i + 1;
                },
            }
        }
    }

    pub fn root(&self) -> (r: &str)
        ensures
            r@ == self.root_view(),
    {
        self.root.as_str()
    }

    /// The directory of open tickets: the root joined with [`ISSUES_DIR`].
    pub fn issues_dir(&self) -> (r: String)
        ensures
            r@ == join_spec(self.root_view(), ISSUES_DIR@),
    {
        join(self.root.as_str(), ISSUES_DIR)
    }

    /// The directory of the state `name`: the root joined with
    /// [`STATES_DIR`], then with `name`.
    pub fn state_dir(&self, name: &str) -> (r: String)
        ensures
            r@ == join_spec(join_spec(self.root_view(), STATES_DIR@), name@),
    {
        let states = join(self.root.as_str(), STATES_DIR);
        join(states.as_str(), name)
    }
}

} // verus!
