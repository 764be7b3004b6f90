use vstd::prelude::*;
use vstd::string::StringExecFns;

use crate::catalog::{last_wins, Catalog, FlatCatalog};
use crate::names::{field_of_file, file_field};
use crate::tree::{flat_list, flatten, join_field, join_key, ValueTree};

verus! {

/// One entry of a locale directory, as read from disk.
pub enum LocaleEntry {
    /// A file, by its file name; `content` is its parsed document, or `None`
    /// where its format is not one that locales are written in.
    File { name: String, content: Option<ValueTree> },
    /// A directory, by its name, with its entries.
    Dir { name: String, children: Vec<LocaleEntry> },
    /// Anything that is neither a file nor a directory.
    Other { name: String },
}

/// Why a locale tree could not be loaded.
pub enum LoadError {
    /// The named entry is neither a file nor a directory.
    NotFileNorDir(String),
}

/// The name an entry contributes: the language code at the top level, a
/// field-name segment below it.
pub open spec fn entry_name(e: LocaleEntry) -> Seq<char> {
    match e {
        LocaleEntry::File { name, .. } => file_field(name@),
        LocaleEntry::Dir { name, .. } => name@,
        LocaleEntry::Other { name } => name@,
    }
}

pub open spec fn child_count(e: LocaleEntry) -> int {
    match e {
        LocaleEntry::Dir { children, .. } => children.len() as int,
        _ => 0,
    }
}

/// Each pair's key put under `prefix`.
pub open spec fn prefixed(prefix: Seq<char>, s: Seq<(Seq<char>, Seq<char>)>) -> Seq<
    (Seq<char>, Seq<char>),
> {
    s.map_values(|p: (Seq<char>, Seq<char>)| (join_key(prefix, p.0), p.1))
}

/// The (key, message) pairs of an entry, in order, or the name of the first
/// thing in it that is neither a file nor a directory; for a directory, those
/// of its first `n` entries.
pub open spec fn entry_pairs_upto(e: LocaleEntry, n: int) -> Result<Seq<(Seq<char>, Seq<char>)>, Seq<char>>
    decreases e, n,
{
    match e {
        LocaleEntry::File { content, .. } => match content {
            Some(t) => Ok(flat_list(Seq::empty(), t)),
            None => Ok(Seq::empty()),
        },
        LocaleEntry::Other { name } => Err(name@),
        LocaleEntry::Dir { children, .. } => {
            if n <= 0 || n > children.len() {
                Ok(Seq::empty())
            } else {
                match entry_pairs_upto(e, n - 1) {
                    Ok(a) => match entry_pairs_upto(
                        children[n - 1],
                        child_count(children[n - 1]),
                    ) {
                        Ok(b) => Ok(a + prefixed(entry_name(children[n - 1]), b)),
                        Err(x) => Err(x),
                    },
                    Err(x) => Err(x),
                }
            }
        },
    }
}

pub open spec fn entry_pairs(e: LocaleEntry) -> Result<Seq<(Seq<char>, Seq<char>)>, Seq<char>> {
    entry_pairs_upto(e, child_count(e))
}

/// The languages of the first `n` top-level entries, in order, or the name of
/// the first thing in them that is neither a file nor a directory.
pub open spec fn languages_upto(entries: Seq<LocaleEntry>, n: int) -> Result<
    Seq<(Seq<char>, Map<Seq<char>, Seq<char>>)>,
    Seq<char>,
>
    decreases n,
{
    if n <= 0 || n > entries.len() {
        Ok(Seq::empty())
    } else {
        match languages_upto(entries, n - 1) {
            Ok(a) => match entry_pairs(entries[n - 1]) {
                Ok(b) => Ok(a.push((entry_name(entries[n - 1]), last_wins(b)))),
                Err(x) => Err(x),
            },
            Err(x) => Err(x),
        }
    }
}

/// The catalog of a locale root, or the name of the first thing in it that
/// is neither a file nor a directory.
pub open spec fn catalog_spec(entries: Seq<LocaleEntry>) -> Result<
    Map<Seq<char>, Map<Seq<char>, Seq<char>>>,
    Seq<char>,
> {
    match languages_upto(entries, entries.len() as int) {
        Ok(s) => Ok(last_wins(s)),
        Err(x) => Err(x),
    }
}

proof fn lemma_entry_failure_stays(e: LocaleEntry, k: int, m: int)
    requires
        0 <= k <= m <= child_count(e),
        entry_pairs_upto(e, k) is Err,
    ensures
        entry_pairs_upto(e, m) == entry_pairs_upto(e, k),
    decreases m,
{
    if m > k {
        lemma_entry_failure_stays(e, k, m - 1);
    }
}

proof fn lemma_languages_failure_stays(entries: Seq<LocaleEntry>, k: int, m: int)
    requires
        0 <= k <= m <= entries.len(),
        languages_upto(entries, k) is Err,
    ensures
        languages_upto(entries, m) == languages_upto(entries, k),
    decreases m,
{
    if m > k {
        lemma_languages_failure_stays(entries, k, m - 1);
    }
}

/// Adds the pairs of `sub`, each key put under `prefix`, to `out`.
fn merge_under(prefix: &str, sub: &FlatCatalog, out: &mut FlatCatalog)
    ensures
        final(out).pairs_spec() == old(out).pairs_spec() + prefixed(prefix@, sub.pairs_spec()),
{
    let ghost start = out.pairs_spec();
    let mut j: usize = 0;
    while j < sub.pair_count()
        invariant
            j <= sub.pairs_spec().len(),
            out.pairs_spec() == start + prefixed(prefix@, sub.pairs_spec().take(j as int)),
        decreases sub.pairs_spec().len() - j,
    {
        let (k, v) = sub.pair(j);
        out.insert(join_field(prefix, k.as_str()), v.clone());
        assert(sub.pairs_spec().take(j + 1) =~= sub.pairs_spec().take(j as int).push(
            sub.pairs_spec()[j as int],
        ));
        assert(out.pairs_spec() =~= start + prefixed(prefix@, sub.pairs_spec().take(j + 1)));
        j = j + 1;
    }
    assert(sub.pairs_spec().take(j as int) =~= sub.pairs_spec());
}

/// Loads one entry: its name and its messages, a directory's entries merged
/// with their keys put under the entry's own name.
pub fn load_one_locale(e: &LocaleEntry) -> (r: Result<(String, FlatCatalog), LoadError>)
    ensures
        match entry_pairs(*e) {
            Ok(p) => r matches Ok(ok) && ok.0@ == entry_name(*e) && ok.1.pairs_spec() == p
                && ok.1@ == last_wins(p),
            Err(x) => r matches Err(LoadError::NotFileNorDir(n)) && n@ == x,
        },
    decreases e,
{
    match e {
        LocaleEntry::File { name, content } => {
            let field = field_of_file(name.as_str());
            let messages = match content {
                Some(t) => flatten("", t),
                None => FlatCatalog::new(),
            };
            proof {
                reveal_strlit("");
                assert(""@ =~= Seq::<char>::empty());
            }
            Ok((field, messages))
        },
        LocaleEntry::Other { name } => Err(LoadError::NotFileNorDir(name.clone())),
        LocaleEntry::Dir { name, children } => {
            let mut map = FlatCatalog::new();
            let mut i: usize = 0;
            assert(map.pairs_spec() =~= Seq::<(Seq<char>, Seq<char>)>::empty());
            while i < children.len()
                invariant
                    i <= children.len(),
                    *e == (LocaleEntry::Dir { name: *name, children: *children }),
                    entry_pairs_upto(*e, i as int) == Ok::<_, Seq<char>>(map.pairs_spec()),
                decreases children.len() - i,
            {
                match load_one_locale(&children[i]) {
                    Ok((sub, lsm)) => {
                        merge_under(sub.as_str(), &lsm, &mut map);
                    },
                    Err(err) => {
                        proof {
                            lemma_entry_failure_stays(*e, i + 1, children.len() as int);
                        }
                        return Err(err);
                    },
                }
                i = i + 1;
            }
            Ok((name.clone(), map))
        },
    }
}

/// Loads a locale root: one language for each top-level entry, named by it.
pub fn load_locale(entries: &Vec<LocaleEntry>) -> (r: Result<Catalog, LoadError>)
    ensures
        match catalog_spec(entries@) {
            Ok(c) => r matches Ok(cat) && cat@ == c,
            Err(x) => r matches Err(LoadError::NotFileNorDir(n)) && n@ == x,
        },
{
    let mut catalog = Catalog::new();
    let mut i: usize = 0;
    assert(catalog.languages_spec() =~= Seq::<(Seq<char>, Map<Seq<char>, Seq<char>>)>::empty());
    while i < entries.len()
        invariant
            i <= entries.len(),
            languages_upto(entries@, i as int) == Ok::<_, Seq<char>>(catalog.languages_spec()),
        decreases entries.len() - i,
    {
        match load_one_locale(&entries[i]) {
            Ok((code, lsm)) => {
                catalog.insert(code, lsm);
            },
            Err(err) => {
                proof {
                    lemma_languages_failure_stays(entries@, i + 1, entries.len() as int);
                }
                return Err(err);
            },
        }
        i = i + 1;
    }
    Ok(catalog)
}

} // verus!
