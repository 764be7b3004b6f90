use vstd::prelude::*;
use vstd::string::{StrSliceExecFns, StringExecFns};

verus! {

/// A path is absolute when it starts at the root `/`.
pub open spec fn is_absolute_spec(p: Seq<char>) -> bool {
    p.len() > 0 && p[0] == '/'
}

/// `path` taken relative to `base`: an absolute `path` stands for itself;
/// otherwise it is appended, with a `/` between where `base` does not end in one.
pub open spec fn join_path(base: Seq<char>, path: Seq<char>) -> Seq<char> {
    if is_absolute_spec(path) {
        path
    } else if base.len() == 0 || base.last() == '/' {
        base + path
    } else {
        base + seq!['/'] + path
    }
}

/// Whether `path` is absolute.
pub fn is_absolute(path: &str) -> (r: bool)
    ensures
        r == is_absolute_spec(path@),
{
    path.unicode_len() > 0 && path.get_char(0) == '/'
}

/// The locale root that `locale_path` names, relative to the workspace root.
pub fn find_locale(workspace_root: &str, locale_path: &str) -> (r: String)
    ensures
        r@ == join_path(workspace_root@, locale_path@),
{
    if is_absolute(locale_path) {
        return String::from_str(locale_path);
    }
    let n = workspace_root.unicode_len();
    let mut r = String::from_str(workspace_root);
    if n > 0 && workspace_root.get_char(n - 1) != '/' {
        r.append("/");
        proof {
            reveal_strlit("/");
        }
    }
    r.append(locale_path);
    r
}

/// Index of the last `c` in `s`, or -1 when there is none.
pub open spec fn last_index_of(s: Seq<char>, c: char) -> int
    decreases s.len(),
{
    if s.len() == 0 {
        -1
    } else if s.last() == c {
        s.len() - 1
    } else {
        last_index_of(s.drop_last(), c)
    }
}

/// `p` without trailing `/`, where more than the root is left.
pub open spec fn trim_trailing(p: Seq<char>) -> Seq<char>
    decreases p.len(),
{
    if p.len() > 1 && p.last() == '/' {
        trim_trailing(p.drop_last())
    } else {
        p
    }
}

/// The directory that holds `p`: none for the root or the empty path, the
/// empty path for a single relative name.
pub open spec fn parent_spec(p: Seq<char>) -> Option<Seq<char>> {
    let t = trim_trailing(p);
    if t.len() == 0 || t == seq!['/'] {
        None
    } else if last_index_of(t, '/') < 0 {
        Some(Seq::empty())
    } else if last_index_of(t, '/') == 0 {
        Some(seq!['/'])
    } else {
        Some(trim_trailing(t.subrange(0, last_index_of(t, '/'))))
    }
}

proof fn lemma_last_index_bounds(s: Seq<char>, c: char)
    ensures
        -1 <= last_index_of(s, c) < s.len(),
    decreases s.len(),
{
    if s.len() > 0 && s.last() != c {
        lemma_last_index_bounds(s.drop_last(), c);
    }
}

fn last_slash(s: &str) -> (r: Option<usize>)
    ensures
        match r {
            Some(i) => i as int == last_index_of(s@, '/') && i < s@.len(),
            None => last_index_of(s@, '/') == -1,
        },
{
    let n = s.unicode_len();
    let mut i: usize = n;
    assert(s@.subrange(0, n as int) =~= s@);
    proof {
        lemma_last_index_bounds(s@, '/');
    }
    while i > 0
        invariant
            i <= n == s@.len(),
            last_index_of(s@, '/') == last_index_of(s@.subrange(0, i as int), '/'),
        decreases i,
    {
        assert(s@.subrange(0, i as int).drop_last() =~= s@.subrange(0, i - 1));
        if s.get_char(i - 1) == '/' {
            return Some(i - 1);
        }
        i = i - 1;
    }
    None
}

fn trim_trailing_slashes(p: &str) -> (r: &str)
    ensures
        r@ == trim_trailing(p@),
{
    let mut n = p.unicode_len();
    assert(p@.subrange(0, n as int) =~= p@);
    while n > 1 && p.get_char(n - 1) == '/'
        invariant
            n <= p@.len(),
            trim_trailing(p@) == trim_trailing(p@.subrange(0, n as int)),
        decreases n,
    {
        assert(p@.subrange(0, n as int).drop_last() =~= p@.subrange(0, n - 1));
        n = n - 1;
    }
    p.substring_char(0, n)
}

/// The directory that holds `path`, if there is one.
pub fn parent_dir(path: &str) -> (r: Option<String>)
    ensures
        match r {
            Some(x) => parent_spec(path@) == Some(x@),
            None => parent_spec(path@) is None,
        },
{
    let t = trim_trailing_slashes(path);
    let n = t.unicode_len();
    if n == 0 || (n == 1 && t.get_char(0) == '/') {
        proof {
            if n == 1 {
                assert(t@ =~= seq!['/']);
            }
        }
        return None;
    }
    proof {
        if t@ == seq!['/'] {
            assert(t@[0] == '/');
        }
    }
    match last_slash(t) {
        None => Some(String::new()),
        Some(0) => {
            proof {
                reveal_strlit("/");
                assert("/"@ =~= seq!['/']);
            }
            Some(String::from_str("/"))
        },
        Some(d) => Some(String::from_str(trim_trailing_slashes(t.substring_char(0, d)))),
    }
}

/// What probing a candidate path found.
#[derive(PartialEq, Eq, Structural, Clone, Copy, Debug)]
pub enum Probe {
    /// It is a directory.
    Directory,
    /// It exists and is not a directory.
    NotDirectory,
    /// Nothing is there.
    Missing,
    /// The probe itself failed.
    Failed,
}

/// What a search for a directory does after a probe.
pub enum FindStep {
    /// The candidate is the directory sought.
    Found(String),
    /// Probe the target under this directory next.
    TryParent(String),
    /// No ancestor is left: the target does not exist.
    NotFound,
    /// Give up with the probe's failure.
    Failed,
}

/// One step of searching `directory` and its ancestors for the directory
/// `target`: `probe` is what probing `target` under `directory` found.
pub fn find_step(directory: &str, target: &str, probe: Probe) -> (r: FindStep)
    ensures
        probe == Probe::Directory ==> (r matches FindStep::Found(p) && p@ == join_path(
            directory@,
            target@,
        )),
        probe == Probe::Failed ==> r is Failed,
        (probe == Probe::NotDirectory || probe == Probe::Missing) ==> match parent_spec(
            directory@,
        ) {
            Some(q) => (r matches FindStep::TryParent(x) && x@ == q),
            None => r is NotFound,
        },
{
    match probe {
        Probe::Directory => FindStep::Found(find_locale(directory, target)),
        Probe::Failed => FindStep::Failed,
        Probe::NotDirectory | Probe::Missing => match parent_dir(directory) {
            Some(q) => FindStep::TryParent(q),
            None => FindStep::NotFound,
        },
    }
}

/// The key under which project metadata names the workspace root.
pub const WORKSPACE_ROOT_KEY: &'static str = "\"workspace_root\":";

/// `pat` occurs in `s` starting at `i`.
pub open spec fn occurs_at(s: Seq<char>, pat: Seq<char>, i: int) -> bool {
    0 <= i && i + pat.len() <= s.len() && s.subrange(i, i + pat.len()) == pat
}

/// The first place at or after `i` where `pat` occurs in `s`.
pub open spec fn find_from(s: Seq<char>, pat: Seq<char>, i: int) -> Option<int>
    decreases s.len() + 1 - i,
{
    if i < 0 || i + pat.len() > s.len() {
        None
    } else if occurs_at(s, pat, i) {
        Some(i)
    } else {
        find_from(s, pat, i + 1)
    }
}

/// `s` with each pair of backslashes, read from the left, made one.
pub open spec fn unescape_spec(s: Seq<char>) -> Seq<char>
    decreases s.len(),
{
    if s.len() == 0 {
        s
    } else if s.len() >= 2 && s[0] == '\\' && s[1] == '\\' {
        seq!['\\'] + unescape_spec(s.subrange(2, s.len() as int))
    } else {
        seq![s[0]] + unescape_spec(s.drop_first())
    }
}

/// The workspace root that project metadata names: the text that follows the
/// key and one more character, up to the next `"`, unescaped.
pub open spec fn workspace_root_spec(json: Seq<char>) -> Option<Seq<char>> {
    match find_from(json, WORKSPACE_ROOT_KEY@, 0) {
        Some(p) => {
            let begin = p + WORKSPACE_ROOT_KEY@.len() + 1;
            if begin > json.len() {
                None
            } else {
                match find_from(json, seq!['"'], begin) {
                    Some(end) => Some(unescape_spec(json.subrange(begin, end))),
                    None => None,
                }
            }
        },
        None => None,
    }
}

fn find_text(s: &str, pat: &str, start: usize) -> (r: Option<usize>)
    requires
        start <= s@.len(),
    ensures
        match r {
            Some(i) => find_from(s@, pat@, start as int) == Some(i as int) && start <= i && i
                + pat@.len() <= s@.len(),
            None => find_from(s@, pat@, start as int) is None,
        },
{
    let n = s.unicode_len();
    let k = pat.unicode_len();
    let wanted = String::from_str(pat);
    let mut i: usize = start;
    while k <= n - i
        invariant
            start <= i <= n,
            n == s@.len(),
            k == pat@.len(),
            wanted@ == pat@,
            find_from(s@, pat@, start as int) == find_from(s@, pat@, i as int),
        decreases n - i + 1,
    {
        if String::from_str(s.substring_char(i, i + k)) == wanted {
            return Some(i);
        }
        if i == n {
            assert(s@.subrange(i as int, i + k) =~= pat@);
            return None;
        }
        i = i + 1;
    }
    None
}

/// `s` with each pair of backslashes, read from the left, made one.
pub fn unescape(s: &str) -> (r: String)
    ensures
        r@ == unescape_spec(s@),
{
    let n = s.unicode_len();
    let mut r = String::new();
    let mut i: usize = 0;
    assert(s@.subrange(0, n as int) =~= s@);
    while i < n
        invariant
            i <= n == s@.len(),
            unescape_spec(s@) == r@ + unescape_spec(s@.subrange(i as int, n as int)),
        decreases n - i,
    {
        let ghost rest = s@.subrange(i as int, n as int);
        if i + 1 < n && s.get_char(i) == '\\' && s.get_char(i + 1) == '\\' {
            r.append(s.substring_char(i, i + 1));
            assert(rest.subrange(2, rest.len() as int) =~= s@.subrange(i + 2, n as int));
            assert(s@.subrange(i as int, i + 1) =~= seq!['\\']);
            assert(unescape_spec(s@) =~= r@ + unescape_spec(s@.subrange(i + 2, n as int)));
            i = i + 2;
        } else {
            r.append(s.substring_char(i, i + 1));
            assert(rest.drop_first() =~= s@.subrange(i + 1, n as int));
            assert(s@.subrange(i as int, i + 1) =~= seq![rest[0]]);
            assert(unescape_spec(s@) =~= r@ + unescape_spec(s@.subrange(i + 1, n as int)));
            i = i + 1;
        }
    }
    assert(s@.subrange(n as int, n as int) =~= Seq::<char>::empty());
    assert(r@ + Seq::<char>::empty() =~= r@);
    r
}

/// The workspace root named in project metadata, if the metadata names one.
pub fn workspace_root_of(metadata: &str) -> (r: Option<String>)
    ensures
        match r {
            Some(x) => workspace_root_spec(metadata@) == Some(x@),
            None => workspace_root_spec(metadata@) is None,
        },
{
    let n = metadata.unicode_len();
    match find_text(metadata, WORKSPACE_ROOT_KEY, 0) {
        Some(p) => {
            let k = WORKSPACE_ROOT_KEY.unicode_len();
            if n - p - k < 1 {
                return None;
            }
            let begin = p + k + 1;
            proof {
                reveal_strlit("\"");
                assert("\""@ =~= seq!['"']);
            }
            match find_text(metadata, "\"", begin) {
                Some(end) => Some(unescape(metadata.substring_char(begin, end))),
                None => None,
            }
        },
        None => None,
    }
}

} // verus!
