use vstd::prelude::*;
use vstd::string::{StrSliceExecFns, StringExecFns};

verus! {

/// Index of the last `.` in `s`, or -1 when there is none.
pub open spec fn last_dot(s: Seq<char>) -> int
    decreases s.len(),
{
    if s.len() == 0 {
        -1
    } else if s.last() == '.' {
        s.len() - 1
    } else {
        last_dot(s.drop_last())
    }
}

/// A file name without its extension. A name whose only dot leads it
/// (`.hidden`) has no extension.
pub open spec fn stem_of(name: Seq<char>) -> Seq<char> {
    if last_dot(name) <= 0 {
        name
    } else {
        name.subrange(0, last_dot(name))
    }
}

/// What follows the last dot of a file name, if it has an extension.
pub open spec fn extension_of(name: Seq<char>) -> Option<Seq<char>> {
    if last_dot(name) <= 0 {
        None
    } else {
        Some(name.subrange(last_dot(name) + 1, name.len() as int))
    }
}

/// The field-name segment a file contributes: its stem, or nothing when the
/// stem starts with the ignore marker `.`.
pub open spec fn file_field(name: Seq<char>) -> Seq<char> {
    if stem_of(name).len() > 0 && stem_of(name)[0] == '.' {
        Seq::empty()
    } else {
        stem_of(name)
    }
}

/// The document formats a locale file can be written in.
#[derive(PartialEq, Eq, Structural, Clone, Copy, Debug)]
pub enum Format {
    Toml,
    Json,
    Yaml,
}

pub open spec fn format_spec(ext: Option<Seq<char>>) -> Option<Format> {
    match ext {
        Some(x) => if x == "toml"@ {
            Some(Format::Toml)
        } else if x == "json"@ {
            Some(Format::Json)
        } else if x == "yml"@ || x == "yaml"@ {
            Some(Format::Yaml)
        } else {
            None
        },
        None => None,
    }
}

proof fn lemma_last_dot_bounds(s: Seq<char>)
    ensures
        -1 <= last_dot(s) < s.len(),
        last_dot(s) >= 0 ==> s[last_dot(s)] == '.',
    decreases s.len(),
{
    if s.len() > 0 && s.last() != '.' {
        lemma_last_dot_bounds(s.drop_last());
    }
}

fn find_last_dot(name: &str) -> (r: Option<usize>)
    ensures
        match r {
            Some(i) => i as int == last_dot(name@) && i < name@.len(),
            None => last_dot(name@) == -1,
        },
{
    let n = name.unicode_len();
    let mut i: usize = n;
    assert(name@.subrange(0, n as int) =~= name@);
    proof {
        lemma_last_dot_bounds(name@);
    }
    while i > 0
        invariant
            i <= n == name@.len(),
            last_dot(name@) == last_dot(name@.subrange(0, i as int)),
        decreases i,
    {
        let ghost s = name@.subrange(0, i as int);
        assert(s.drop_last() =~= name@.subrange(0, i - 1));
        if name.get_char(i - 1) == '.' {
            return Some(i - 1);
        }
        i = i - 1;
    }
    assert(name@.subrange(0, 0) =~= Seq::<char>::empty());
    None
}

/// The file name without its extension.
pub fn file_stem(name: &str) -> (r: String)
    ensures
        r@ == stem_of(name@),
{
    proof {
        assert(name@.subrange(0, name@.len() as int) =~= name@);
    }
    match find_last_dot(name) {
        Some(d) => if d == 0 {
            String::from_str(name)
        } else {
            String::from_str(name.substring_char(0, d))
        },
        None => String::from_str(name),
    }
}

/// The extension of the file name, if it has one.
pub fn file_extension(name: &str) -> (r: Option<String>)
    ensures
        match r {
            Some(x) => extension_of(name@) == Some(x@),
            None => extension_of(name@) is None,
        },
{
    let n = name.unicode_len();
    match find_last_dot(name) {
        Some(d) => if d == 0 {
            None
        } else {
            Some(String::from_str(name.substring_char(d + 1, n)))
        },
        None => None,
    }
}

/// The format that a file's extension names: `toml`, `json`, `yml` or `yaml`.
pub fn format_of(name: &str) -> (r: Option<Format>)
    ensures
        r == format_spec(extension_of(name@)),
{
    proof {
        reveal_strlit("toml");
        reveal_strlit("json");
        reveal_strlit("yml");
        reveal_strlit("yaml");
    }
    match file_extension(name) {
        Some(x) => if x == String::from_str("toml") {
            Some(Format::Toml)
        } else if x == String::from_str("json") {
            Some(Format::Json)
        } else if x == String::from_str("yml") || x == String::from_str("yaml") {
            Some(Format::Yaml)
        } else {
            None
        },
        None => None,
    }
}

/// The field-name segment a file named `name` contributes.
pub fn field_of_file(name: &str) -> (r: String)
    ensures
        r@ == file_field(name@),
{
    let stem = file_stem(name);
    if stem.as_str().unicode_len() > 0 && stem.as_str().get_char(0) == '.' {
        String::new()
    } else {
        stem
    }
}

} // verus!
