use vstd::prelude::*;
use vstd::string::StringExecFns;

verus! {

/// The language code in use until another is chosen.
pub const DEFAULT_LANGUAGE: &'static str = "en-us";

/// A language, by its code.
pub struct Language {
    name: String,
}

impl View for Language {
    type V = Seq<char>;

    closed spec fn view(&self) -> Seq<char> {
        self.name@
    }
}

impl Language {
    /// The language with code `code`.
    pub fn new(code: &str) -> (r: Language)
        ensures
            r@ == code@,
    {
        Language { name: String::from_str(code) }
    }

    /// Its language code.
    pub fn name(&self) -> (r: &str)
        ensures
            r@ == self@,
    {
        self.name.as_str()
    }
}

impl Default for Language {
    fn default() -> (r: Language)
        ensures
            r@ == DEFAULT_LANGUAGE@,
    {
        Language::new(DEFAULT_LANGUAGE)
    }
}

} // verus!
