use vstd::prelude::*;
use vstd::string::{StrSliceExecFns, StringExecFns};

use crate::catalog::{last_wins, lemma_last_wins_has, lemma_last_wins_key, FlatCatalog};

verus! {

/// A parsed locale document: tables of named entries whose leaves are text.
pub enum ValueTree {
    Table(Vec<(String, ValueTree)>),
    Text(String),
}

/// `name` under `prefix`: joined with a dot, unless the prefix is empty.
pub open spec fn join_key(prefix: Seq<char>, name: Seq<char>) -> Seq<char> {
    if prefix.len() == 0 {
        name
    } else {
        prefix + seq!['.'] + name
    }
}

pub open spec fn entry_count(t: ValueTree) -> int {
    match t {
        ValueTree::Table(es) => es.len() as int,
        ValueTree::Text(_) => 0,
    }
}

/// The (key, message) pairs that flattening `t` under `prefix` yields, in order;
/// for a table, those of its first `n` entries.
pub open spec fn flat_upto(prefix: Seq<char>, t: ValueTree, n: int) -> Seq<(Seq<char>, Seq<char>)>
    decreases t, n,
{
    match t {
        ValueTree::Text(s) => seq![(prefix, s@)],
        ValueTree::Table(es) => {
            if n <= 0 || n > es.len() {
                seq![]
            } else {
                flat_upto(prefix, t, n - 1) + flat_upto(
                    join_key(prefix, es[n - 1].0@),
                    es[n - 1].1,
                    entry_count(es[n - 1].1),
                )
            }
        },
    }
}

pub open spec fn flat_list(prefix: Seq<char>, t: ValueTree) -> Seq<(Seq<char>, Seq<char>)> {
    flat_upto(prefix, t, entry_count(t))
}

/// The messages of `t` under `prefix`, later pairs overriding earlier ones.
pub open spec fn flat_view(prefix: Seq<char>, t: ValueTree) -> Map<Seq<char>, Seq<char>> {
    last_wins(flat_list(prefix, t))
}

/// `t` holds the text `v` at the end of the path `segs` of entry names.
pub open spec fn nested_at(t: ValueTree, segs: Seq<Seq<char>>, v: Seq<char>) -> bool
    decreases t,
{
    match t {
        ValueTree::Text(s) => segs.len() == 0 && s@ == v,
        ValueTree::Table(es) => segs.len() > 0 && exists|i: int|
            0 <= i < es.len() && es[i].0@ == segs[0] && nested_at(es[i].1, segs.drop_first(), v),
    }
}

/// The dotted key of the path `segs` under `prefix`.
pub open spec fn dotted(prefix: Seq<char>, segs: Seq<Seq<char>>) -> Seq<char>
    decreases segs.len(),
{
    if segs.len() == 0 {
        prefix
    } else {
        dotted(join_key(prefix, segs[0]), segs.drop_first())
    }
}

proof fn lemma_flat_sound(prefix: Seq<char>, t: ValueTree, n: int, j: int)
    requires
        0 <= n <= entry_count(t),
        0 <= j < flat_upto(prefix, t, n).len(),
    ensures
        exists|segs: Seq<Seq<char>>|
            nested_at(t, segs, flat_upto(prefix, t, n)[j].1) && flat_upto(prefix, t, n)[j].0
                == dotted(prefix, segs),
    decreases t, n,
{
    match t {
        ValueTree::Text(s) => {
            assert(nested_at(t, Seq::empty(), s@));
            assert(dotted(prefix, Seq::<Seq<char>>::empty()) == prefix);
        },
        ValueTree::Table(es) => {
            let a = flat_upto(prefix, t, n - 1);
            let name = es[n - 1].0@;
            let child = es[n - 1].1;
            let b = flat_list(join_key(prefix, name), child);
            assert(flat_upto(prefix, t, n) == a + b);
            if j < a.len() {
                lemma_flat_sound(prefix, t, n - 1, j);
                let segs = choose|segs: Seq<Seq<char>>|
                    nested_at(t, segs, a[j].1) && a[j].0 == dotted(prefix, segs);
                assert((a + b)[j] == a[j]);
            } else {
                let jj = j - a.len();
                lemma_flat_sound(join_key(prefix, name), child, entry_count(child), jj);
                let rest = choose|segs: Seq<Seq<char>>|
                    nested_at(child, segs, b[jj].1) && b[jj].0 == dotted(join_key(prefix, name), segs);
                let segs = seq![name] + rest;
                assert(segs.drop_first() =~= rest);
                assert(segs[0] == name);
                assert((a + b)[j] == b[jj]);
                assert(nested_at(t, segs, b[jj].1));
                assert(dotted(prefix, segs) == dotted(join_key(prefix, name), rest));
            }
        },
    }
}

proof fn lemma_flat_upto_includes(prefix: Seq<char>, t: ValueTree, i: int, n: int, x: (Seq<char>, Seq<char>))
    requires
        t is Table,
        0 <= i < n <= entry_count(t),
        flat_list(join_key(prefix, t->Table_0[i].0@), t->Table_0[i].1).contains(x),
    ensures
        flat_upto(prefix, t, n).contains(x),
    decreases n,
{
    let es = t->Table_0;
    let a = flat_upto(prefix, t, n - 1);
    let b = flat_list(join_key(prefix, es[n - 1].0@), es[n - 1].1);
    assert(flat_upto(prefix, t, n) == a + b);
    if i < n - 1 {
        lemma_flat_upto_includes(prefix, t, i, n - 1, x);
        let k = choose|k: int| 0 <= k < a.len() && a[k] == x;
        assert((a + b)[k] == x);
    } else {
        let k = choose|k: int| 0 <= k < b.len() && b[k] == x;
        assert((a + b)[a.len() + k] == x);
    }
}

proof fn lemma_flat_complete(prefix: Seq<char>, t: ValueTree, segs: Seq<Seq<char>>, v: Seq<char>)
    requires
        nested_at(t, segs, v),
    ensures
        flat_list(prefix, t).contains((dotted(prefix, segs), v)),
    decreases t,
{
    match t {
        ValueTree::Text(s) => {
            assert(flat_list(prefix, t)[0] == (prefix, v));
        },
        ValueTree::Table(es) => {
            let i = choose|i: int|
                0 <= i < es.len() && es[i].0@ == segs[0] && nested_at(es[i].1, segs.drop_first(), v);
            lemma_flat_complete(join_key(prefix, segs[0]), es[i].1, segs.drop_first(), v);
            lemma_flat_upto_includes(prefix, t, i, es.len() as int, (dotted(prefix, segs), v));
        },
    }
}

/// Flattening and re-nesting agree: each key of a flattened document is the
/// dotted path of an entry that holds its message, and the dotted path of
/// each text entry is a key.
pub proof fn lemma_flatten_round_trip(t: ValueTree, k: Seq<char>, segs: Seq<Seq<char>>, v: Seq<char>)
    ensures
        flat_view(Seq::empty(), t).contains_key(k) ==> exists|path: Seq<Seq<char>>|
            nested_at(t, path, flat_view(Seq::empty(), t)[k]) && k == dotted(Seq::empty(), path),
        nested_at(t, segs, v) ==> flat_view(Seq::empty(), t).contains_key(dotted(Seq::empty(), segs)),
{
    let list = flat_list(Seq::empty(), t);
    if flat_view(Seq::empty(), t).contains_key(k) {
        lemma_last_wins_key(list, k);
        let j = choose|j: int|
            0 <= j < list.len() && list[j].0 == k && list[j].1 == last_wins(list)[k];
        lemma_flat_sound(Seq::empty(), t, entry_count(t), j);
    }
    if nested_at(t, segs, v) {
        lemma_flat_complete(Seq::empty(), t, segs, v);
        let j = choose|j: int| 0 <= j < list.len() && list[j] == (dotted(Seq::empty(), segs), v);
        lemma_last_wins_has(list, j);
    }
}

/// `name` under `prefix`: `prefix.name`, or `name` alone when the prefix is empty.
pub fn join_field(prefix: &str, name: &str) -> (r: String)
    ensures
        r@ == join_key(prefix@, name@),
{
    if prefix.is_empty() {
        String::from_str(name)
    } else {
        let mut s = String::from_str(prefix);
        s.append(".");
        proof {
            reveal_strlit(".");
        }
        s.append(name);
        s
    }
}

/// Adds the messages of `t`, keyed under `prefix`, to `out`.
pub fn flatten_into(prefix: &str, t: &ValueTree, out: &mut FlatCatalog)
    ensures
        final(out).pairs_spec() == old(out).pairs_spec() + flat_list(prefix@, *t),
    decreases t,
{
    match t {
        ValueTree::Text(s) => {
            out.insert(String::from_str(prefix), s.clone());
            assert(flat_list(prefix@, *t) =~= seq![(prefix@, s@)]);
        },
        ValueTree::Table(es) => {
            let ghost start = out.pairs_spec();
            let mut i: usize = 0;
            assert(flat_upto(prefix@, *t, 0) =~= Seq::<(Seq<char>, Seq<char>)>::empty());
            assert(out.pairs_spec() =~= start + flat_upto(prefix@, *t, 0));
            while i < es.len()
                invariant
                    i <= es.len(),
                    *t == ValueTree::Table(*es),
                    out.pairs_spec() == start + flat_upto(prefix@, *t, i as int),
                decreases es.len() - i,
            {
                let key = join_field(prefix, es[i].0.as_str());
                flatten_into(key.as_str(), &es[i].1, out);
                assert(flat_upto(prefix@, *t, i + 1) == flat_upto(prefix@, *t, i as int)
                    + flat_list(key@, es@[i as int].1));
                assert(out.pairs_spec() =~= start + flat_upto(prefix@, *t, i + 1));
                i = i + 1;
            }
        },
    }
}

/// The messages of `val`, keyed by their dotted paths under `name`.
pub fn flatten(name: &str, val: &ValueTree) -> (r: FlatCatalog)
    ensures
        r.pairs_spec() == flat_list(name@, *val),
        r@ == flat_view(name@, *val),
{
    let mut r = FlatCatalog::new();
    flatten_into(name, val, &mut r);
    assert(r.pairs_spec() =~= flat_list(name@, *val));
    r
}

} // verus!
