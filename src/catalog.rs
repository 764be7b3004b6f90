use vstd::prelude::*;

verus! {

/// The map that a list of (key, value) pairs describes when each pair overrides
/// any earlier pair with the same key.
pub open spec fn last_wins<V>(s: Seq<(Seq<char>, V)>) -> Map<Seq<char>, V>
    decreases s.len(),
{
    if s.len() == 0 {
        Map::empty()
    } else {
        last_wins(s.drop_last()).insert(s.last().0, s.last().1)
    }
}

pub open spec fn pairs_view(s: Seq<(String, String)>) -> Seq<(Seq<char>, Seq<char>)> {
    s.map_values(|e: (String, String)| (e.0@, e.1@))
}

/// A key that occurs in the list is in the map, with the value of its last occurrence.
pub proof fn lemma_last_wins_at<V>(s: Seq<(Seq<char>, V)>, i: int)
    requires
        0 <= i < s.len(),
        forall|j: int| i < j < s.len() ==> s[j].0 != s[i].0,
    ensures
        last_wins(s).contains_key(s[i].0),
        last_wins(s)[s[i].0] == s[i].1,
    decreases s.len(),
{
    if i < s.len() - 1 {
        lemma_last_wins_at(s.drop_last(), i);
    }
}

/// A key that occurs nowhere in the list is not in the map.
pub proof fn lemma_last_wins_absent<V>(s: Seq<(Seq<char>, V)>, k: Seq<char>)
    requires
        forall|j: int| 0 <= j < s.len() ==> s[j].0 != k,
    ensures
        !last_wins(s).contains_key(k),
    decreases s.len(),
{
    if s.len() > 0 {
        lemma_last_wins_absent(s.drop_last(), k);
    }
}

/// Every key of the map occurs in the list, at some pair that holds its value.
pub proof fn lemma_last_wins_key<V>(s: Seq<(Seq<char>, V)>, k: Seq<char>)
    requires
        last_wins(s).contains_key(k),
    ensures
        exists|j: int| 0 <= j < s.len() && s[j].0 == k && s[j].1 == last_wins(s)[k],
    decreases s.len(),
{
    if s.len() > 0 && s.last().0 != k {
        lemma_last_wins_key(s.drop_last(), k);
        let j = choose|j: int|
            0 <= j < s.len() - 1 && s.drop_last()[j].0 == k && s.drop_last()[j].1 == last_wins(
                s.drop_last(),
            )[k];
        assert(s[j].0 == k);
    } else if s.len() > 0 {
        assert(s[s.len() - 1].0 == k);
    }
}

/// A key that occurs in the list is in the map.
pub proof fn lemma_last_wins_has<V>(s: Seq<(Seq<char>, V)>, i: int)
    requires
        0 <= i < s.len(),
    ensures
        last_wins(s).contains_key(s[i].0),
    decreases s.len(),
{
    if i < s.len() - 1 {
        lemma_last_wins_has(s.drop_last(), i);
    }
}

/// The messages of one language, by dotted field path.
///
/// Pairs are kept in the order they were added; a later pair overrides an
/// earlier one with the same key.
pub struct FlatCatalog {
    pairs: Vec<(String, String)>,
}

impl View for FlatCatalog {
    type V = Map<Seq<char>, Seq<char>>;

    open spec fn view(&self) -> Map<Seq<char>, Seq<char>> {
        last_wins(self.pairs_spec())
    }
}

impl FlatCatalog {
    /// The pairs in the order they were added.
    pub closed spec fn pairs_spec(&self) -> Seq<(Seq<char>, Seq<char>)> {
        pairs_view(self.pairs@)
    }

    pub fn new() -> (r: FlatCatalog)
        ensures
            r.pairs_spec() == Seq::<(Seq<char>, Seq<char>)>::empty(),
            r@ == Map::<Seq<char>, Seq<char>>::empty(),
    {
        let r = FlatCatalog { pairs: Vec::new() };
        assert(r.pairs_spec() =~= Seq::<(Seq<char>, Seq<char>)>::empty());
        r
    }

    /// Sets the message of `key`, replacing any earlier one.
    pub fn insert(&mut self, key: String, value: String)
        ensures
            final(self).pairs_spec() == old(self).pairs_spec().push((key@, value@)),
            final(self)@ == old(self)@.insert(key@, value@),
    {
        let ghost k = key@;
        let ghost v = value@;
        self.pairs.push((key, value));
        assert(self.pairs_spec() =~= old(self).pairs_spec().push((k, v)));
        assert(self.pairs_spec().drop_last() =~= old(self).pairs_spec());
    }

    /// The message stored under `key`.
    pub fn get(&self, key: &str) -> (r: Option<&String>)
        ensures
            match r {
                Some(v) => self@.contains_key(key@) && self@[key@] == v@,
                None => !self@.contains_key(key@),
            },
    {
        let wanted = String::from_str(key);
        let mut i: usize = self.pairs.len();
        while i > 0
            invariant
                wanted@ == key@,
                self.pairs_spec().len() == self.pairs@.len(),
                forall|j: int|
                    0 <= j < self.pairs@.len() ==> #[trigger] self.pairs_spec()[j] == (
                        self.pairs@[j].0@,
                        self.pairs@[j].1@,
                    ),
                i <= self.pairs.len(),
                forall|j: int| i <= j < self.pairs.len() ==> self.pairs@[j].0@ != key@,
            decreases i,
        {
            i = i - 1;
            if self.pairs[i].0 == wanted {
                proof {
                    lemma_last_wins_at(self.pairs_spec(), i as int);
                }
                return Some(&self.pairs[i].1);
            }
        }
        proof {
            lemma_last_wins_absent(self.pairs_spec(), key@);
        }
        None
    }

    pub fn contains_key(&self, key: &str) -> (r: bool)
        ensures
            r == self@.contains_key(key@),
    {
        self.get(key).is_some()
    }

    /// Number of pairs added, overridden ones included.
    pub fn pair_count(&self) -> (r: usize)
        ensures
            r == self.pairs_spec().len(),
    {
        self.pairs.len()
    }

    /// The `i`-th pair added.
    pub fn pair(&self, i: usize) -> (r: (&String, &String))
        requires
            i < self.pairs_spec().len(),
        ensures
            (r.0@, r.1@) == self.pairs_spec()[i as int],
    {
        (&self.pairs[i].0, &self.pairs[i].1)
    }
}

pub open spec fn languages_view(s: Seq<(String, FlatCatalog)>) -> Seq<
    (Seq<char>, Map<Seq<char>, Seq<char>>),
> {
    s.map_values(|e: (String, FlatCatalog)| (e.0@, e.1@))
}

/// Every language of the catalog has a message for `field`.
pub open spec fn field_everywhere(c: Map<Seq<char>, Map<Seq<char>, Seq<char>>>, field: Seq<char>) -> bool {
    forall|code: Seq<char>| #[trigger] c.contains_key(code) ==> c[code].contains_key(field)
}

/// The message for `field` in language `code`, if both are present.
pub open spec fn message_spec(
    c: Map<Seq<char>, Map<Seq<char>, Seq<char>>>,
    code: Seq<char>,
    field: Seq<char>,
) -> Option<Seq<char>> {
    if c.contains_key(code) && c[code].contains_key(field) {
        Some(c[code][field])
    } else {
        None
    }
}

/// What a loose lookup shows: the message, or the field itself.
pub open spec fn loose_spec(
    c: Map<Seq<char>, Map<Seq<char>, Seq<char>>>,
    code: Seq<char>,
    field: Seq<char>,
) -> Seq<char> {
    match message_spec(c, code, field) {
        Some(m) => m,
        None => field,
    }
}

/// Every language's messages, by language code.
///
/// Languages are kept in the order they were added; a later one overrides an
/// earlier one with the same code.
pub struct Catalog {
    languages: Vec<(String, FlatCatalog)>,
}

impl View for Catalog {
    type V = Map<Seq<char>, Map<Seq<char>, Seq<char>>>;

    open spec fn view(&self) -> Map<Seq<char>, Map<Seq<char>, Seq<char>>> {
        last_wins(self.languages_spec())
    }
}

impl Catalog {
    pub closed spec fn languages_spec(&self) -> Seq<(Seq<char>, Map<Seq<char>, Seq<char>>)> {
        languages_view(self.languages@)
    }

    /// A catalog without languages, where every lookup falls back to its field.
    pub fn new() -> (r: Catalog)
        ensures
            r.languages_spec() == Seq::<(Seq<char>, Map<Seq<char>, Seq<char>>)>::empty(),
            r@ == Map::<Seq<char>, Map<Seq<char>, Seq<char>>>::empty(),
    {
        let r = Catalog { languages: Vec::new() };
        assert(r.languages_spec() =~= Seq::<(Seq<char>, Map<Seq<char>, Seq<char>>)>::empty());
        r
    }

    /// Sets the messages of language `code`, replacing any earlier ones.
    pub fn insert(&mut self, code: String, messages: FlatCatalog)
        ensures
            final(self).languages_spec() == old(self).languages_spec().push((code@, messages@)),
            final(self)@ == old(self)@.insert(code@, messages@),
    {
        let ghost k = code@;
        let ghost v = messages@;
        self.languages.push((code, messages));
        assert(self.languages_spec() =~= old(self).languages_spec().push((k, v)));
        assert(self.languages_spec().drop_last() =~= old(self).languages_spec());
    }

    /// The messages of language `code`.
    pub fn get(&self, code: &str) -> (r: Option<&FlatCatalog>)
        ensures
            match r {
                Some(f) => self@.contains_key(code@) && self@[code@] == f@,
                None => !self@.contains_key(code@),
            },
    {
        let wanted = String::from_str(code);
        let mut i: usize = self.languages.len();
        while i > 0
            invariant
                wanted@ == code@,
                i <= self.languages@.len(),
                self.languages_spec().len() == self.languages@.len(),
                forall|j: int|
                    0 <= j < self.languages@.len() ==> #[trigger] self.languages_spec()[j] == (
                        self.languages@[j].0@,
                        self.languages@[j].1@,
                    ),
                forall|j: int| i <= j < self.languages@.len() ==> self.languages@[j].0@ != code@,
            decreases i,
        {
            i = i - 1;
            if self.languages[i].0 == wanted {
                proof {
                    lemma_last_wins_at(self.languages_spec(), i as int);
                }
                return Some(&self.languages[i].1);
            }
        }
        proof {
            lemma_last_wins_absent(self.languages_spec(), code@);
        }
        None
    }

    /// Whether language `code` is present.
    pub fn check_language(&self, code: &str) -> (r: bool)
        ensures
            r == self@.contains_key(code@),
    {
        self.get(code).is_some()
    }

    /// Whether every language has a message for `field`.
    pub fn check_field(&self, field: &str) -> (r: bool)
        ensures
            r == field_everywhere(self@, field@),
    {
        let mut i: usize = 0;
        while i < self.languages.len()
            invariant
                i <= self.languages@.len(),
                self.languages_spec().len() == self.languages@.len(),
                forall|j: int|
                    0 <= j < self.languages@.len() ==> #[trigger] self.languages_spec()[j] == (
                        self.languages@[j].0@,
                        self.languages@[j].1@,
                    ),
                forall|j: int|
                    0 <= j < i ==> self@.contains_key(#[trigger] self.languages_spec()[j].0)
                        && self@[self.languages_spec()[j].0].contains_key(field@),
            decreases self.languages@.len() - i,
        {
            match self.get(self.languages[i].0.as_str()) {
                Some(f) => {
                    if !f.contains_key(field) {
                        return false;
                    }
                },
                None => {
                    proof {
                        lemma_last_wins_has(self.languages_spec(), i as int);
                    }
                    return false;
                },
            }
            i = i + 1;
        }
        proof {
            assert forall|code: Seq<char>| #[trigger]
                self@.contains_key(code) implies self@[code].contains_key(field@) by {
                lemma_last_wins_key(self.languages_spec(), code);
            }
        }
        true
    }

    /// The message for `field` in language `code`, if both are present.
    pub fn match_message(&self, code: &str, field: &str) -> (r: Option<String>)
        ensures
            match r {
                Some(m) => message_spec(self@, code@, field@) == Some(m@),
                None => message_spec(self@, code@, field@) is None,
            },
    {
        match self.get(code) {
            Some(f) => match f.get(field) {
                Some(m) => Some(m.clone()),
                None => None,
            },
            None => None,
        }
    }

    /// The message for `field` in language `code`; the field itself where the
    /// language or the field is missing.
    pub fn lookup_loose(&self, code: &str, field: &str) -> (r: String)
        ensures
            r@ == loose_spec(self@, code@, field@),
            message_spec(self@, code@, field@) is None ==> r@ == field@,
    {
        match self.match_message(code, field) {
            Some(m) => m,
            None => String::from_str(field),
        }
    }

    /// The message for `field` in language `code`, where the language is known
    /// and every language has the field.
    pub fn lookup_strict(&self, code: &str, field: &str) -> (r: String)
        requires
            self@.contains_key(code@),
            field_everywhere(self@, field@),
        ensures
            r@ == self@[code@][field@],
    {
        self.lookup_loose(code, field)
    }
}

/// Where every language has a field, looking that field up succeeds in
/// every language of the catalog, with that language's message.
pub proof fn lemma_uniform_coverage(c: Catalog, field: Seq<char>)
    requires
        field_everywhere(c@, field),
    ensures
        forall|code: Seq<char>|
            #[trigger] c@.contains_key(code) ==> message_spec(c@, code, field) == Some(
                c@[code][field],
            ) && loose_spec(c@, code, field) == c@[code][field],
{
}

/// A loose lookup of a field that the language lacks, or of any field in a
/// language the catalog lacks, shows the field itself.
pub proof fn lemma_loose_fallback(c: Catalog, code: Seq<char>, field: Seq<char>)
    requires
        !c@.contains_key(code) || !c@[code].contains_key(field),
    ensures
        loose_spec(c@, code, field) == field,
{
}

} // verus!
