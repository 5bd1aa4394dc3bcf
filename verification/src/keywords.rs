use vstd::prelude::*;

verus! {

/// The surface language a source text is written in.
#[derive(Debug, Clone, Copy, PartialEq, Eq, Structural)]
pub enum Language {
    Spanish,
    English,
}

/// Relies on `String::push`: appends one character at the end of the string.
#[verifier::external_body]
pub(crate) fn push_char(s: &mut String, c: char)
    ensures
        final(s)@ == old(s)@.push(c),
{
    s.push(c);
}

/// Whether two string slices hold the same characters.
pub fn str_eq(a: &str, b: &str) -> (r: bool)
    ensures
        r == (a@ == b@),
{
    let n = a.unicode_len();
    if n != b.unicode_len() {
        return false;
    }
    let mut i: usize = 0;
    while i < n
        invariant
            i <= n,
            n == a@.len(),
            n == b@.len(),
            forall|j: int| 0 <= j < i ==> a@[j] == b@[j],
        decreases n - i,
    {
        if a.get_char(i) != b.get_char(i) {
            return false;
        }
        i = i + 1;
    }
    proof {
        assert(a@ =~= b@);
    }
    true
}

/// Whether `sub` occurs in `s` as a contiguous run of characters.
pub open spec fn spec_contains(s: Seq<char>, sub: Seq<char>) -> bool {
    exists|i: int|
        0 <= i && i + sub.len() <= s.len() && #[trigger] s.subrange(i, i + sub.len()) == sub
}

/// Substring search: whether `sub` occurs in `s`.
pub fn contains_sub(s: &str, sub: &str) -> (r: bool)
    ensures
        r == spec_contains(s@, sub@),
{
    let n = s.unicode_len();
    let m = sub.unicode_len();
    if m > n {
        return false;
    }
    let mut i: usize = 0;
    while i <= n - m
        invariant
            m <= n,
            i <= n - m + 1,
            n == s@.len(),
            m == sub@.len(),
            forall|j: int| 0 <= j < i ==> #[trigger] s@.subrange(j, j + sub@.len()) != sub@,
        decreases n - m + 1 - i,
    {
        let mut k: usize = 0;
        while k < m && s.get_char(i + k) == sub.get_char(k)
            invariant
                k <= m,
                i + m <= n,
                n == s@.len(),
                m == sub@.len(),
                forall|l: int| 0 <= l < k ==> s@[i + l] == sub@[l],
            decreases m - k,
        {
            k = k + 1;
        }
        if k == m {
            proof {
                assert(s@.subrange(i as int, i + sub@.len()) =~= sub@);
            }
            return true;
        }
        proof {
            assert(s@.subrange(i as int, i + sub@.len())[k as int] != sub@[k as int]);
        }
        i = i + 1;
    }
    false
}

/// The keyword table of a language: each surface spelling beside the
/// canonical English concept it folds to.
pub open spec fn spec_keyword_pairs(lang: Language) -> Seq<(Seq<char>, Seq<char>)> {
    match lang {
        Language::Spanish => seq![
            ("numero"@, "number"@),
            ("imprimir"@, "print"@),
            ("si"@, "if"@),
            ("sino"@, "else"@),
            ("mientras"@, "while"@),
        ],
        Language::English => seq![
            ("number"@, "number"@),
            ("print"@, "print"@),
            ("if"@, "if"@),
            ("else"@, "else"@),
            ("while"@, "while"@),
        ],
    }
}

/// An immutable keyword mapping, built once at lexer construction and
/// owned by value; never a process-wide mutable table.
pub struct Keywords {
    lang: Language,
    keywords: Vec<(String, String)>,
}

impl View for Keywords {
    type V = (Language, Seq<(Seq<char>, Seq<char>)>);

    closed spec fn view(&self) -> (Language, Seq<(Seq<char>, Seq<char>)>) {
        (
            self.lang,
            Seq::new(self.keywords@.len(), |i: int| (self.keywords@[i].0@, self.keywords@[i].1@)),
        )
    }
}

impl Keywords {
    /// Build the table for one language.
    pub fn new(lang: Language) -> (r: Self)
        ensures
            r@ == (lang, spec_keyword_pairs(lang)),
    {
        let mut keywords: Vec<(String, String)> = Vec::new();
        match lang {
            Language::Spanish => {
                keywords.push(("numero".to_owned(), "number".to_owned()));
                keywords.push(("imprimir".to_owned(), "print".to_owned()));
                keywords.push(("si".to_owned(), "if".to_owned()));
                keywords.push(("sino".to_owned(), "else".to_owned()));
                keywords.push(("mientras".to_owned(), "while".to_owned()));
            },
            Language::English => {
                keywords.push(("number".to_owned(), "number".to_owned()));
                keywords.push(("print".to_owned(), "print".to_owned()));
                keywords.push(("if".to_owned(), "if".to_owned()));
                keywords.push(("else".to_owned(), "else".to_owned()));
                keywords.push(("while".to_owned(), "while".to_owned()));
            },
        }
        let r = Keywords { lang, keywords };
        proof {
            assert(r@.1 =~= spec_keyword_pairs(lang));
        }
        r
    }

    /// The language this table was built for.
    pub fn get_language(&self) -> (r: Language)
        ensures
            r == self@.0,
    {
        self.lang
    }

    /// Whether `word` is one of this table's surface keywords.
    pub fn is_keyword(&self, word: &str) -> (r: bool)
        ensures
            r == exists|i: int| 0 <= i < self@.1.len() && self@.1[i].0 == word@,
    {
        let n = self.keywords.len();
        let mut i: usize = 0;
        while i < n
            invariant
                i <= n,
                n == self.keywords@.len(),
                self@.1.len() == n,
                forall|j: int| 0 <= j < i ==> self@.1[j].0 != word@,
            decreases n - i,
        {
            if str_eq(self.keywords[i].0.as_str(), word) {
                proof {
                    assert(self@.1[i as int].0 == word@);
                }
                return true;
            }
            i = i + 1;
        }
        false
    }

    /// Whether `word` spells the variable-declaration keyword, in either
    /// language.
    pub fn is_number(&self, word: &str) -> (r: bool)
        ensures
            r == (word@ == "numero"@ || word@ == "number"@),
    {
        str_eq(word, "numero") || str_eq(word, "number")
    }

    /// Whether `word` spells the print keyword, in either language.
    pub fn is_print(&self, word: &str) -> (r: bool)
        ensures
            r == (word@ == "imprimir"@ || word@ == "print"@),
    {
        str_eq(word, "imprimir") || str_eq(word, "print")
    }

    /// Whether `word` spells the conditional keyword, in either language.
    pub fn is_if(&self, word: &str) -> (r: bool)
        ensures
            r == (word@ == "si"@ || word@ == "if"@),
    {
        str_eq(word, "si") || str_eq(word, "if")
    }

    /// Whether `word` spells the alternative keyword, in either language.
    pub fn is_else(&self, word: &str) -> (r: bool)
        ensures
            r == (word@ == "sino"@ || word@ == "else"@),
    {
        str_eq(word, "sino") || str_eq(word, "else")
    }

    /// Whether `word` spells the loop keyword, in either language.
    pub fn is_while(&self, word: &str) -> (r: bool)
        ensures
            r == (word@ == "mientras"@ || word@ == "while"@),
    {
        str_eq(word, "mientras") || str_eq(word, "while")
    }
}

/// Which language a source text is written in: Spanish when any of the
/// distinctive Spanish keywords occurs in the text, English otherwise.
pub open spec fn spec_detect_language(s: Seq<char>) -> Language {
    if spec_contains(s, "numero"@) || spec_contains(s, "imprimir"@) || spec_contains(
        s,
        "mientras"@,
    ) {
        Language::Spanish
    } else {
        Language::English
    }
}

/// Guess the surface language of a source text.
pub fn detect_language(source: &str) -> (r: Language)
    ensures
        r == spec_detect_language(source@),
{
    if contains_sub(source, "numero") || contains_sub(source, "imprimir") || contains_sub(
        source,
        "mientras",
    ) {
        Language::Spanish
    } else {
        Language::English
    }
}

} // verus!
