//! An ordered collection of match patterns — literal strings, globs and
//! regular expressions — tested against candidate text.

use vstd::prelude::*;
use crate::glob::{glob_match, spec_glob_match};
use crate::text::str_eq;

verus! {

#[verifier::external_type_specification]
#[verifier::external_body]
pub struct ExRegex(regex::Regex);

/// Whether `regex::Regex::new` accepts the pattern: acceptance depends on
/// the pattern text alone.
pub uninterp spec fn spec_regex_valid(pattern: Seq<char>) -> bool;

/// Whether the regular expression compiled from `pattern` matches anywhere
/// in `text`: for fixed pattern and text the answer depends on nothing
/// else.
pub uninterp spec fn spec_regex_match(pattern: Seq<char>, text: Seq<char>) -> bool;

/// A compiled regular expression kept together with the pattern text it
/// was compiled from. The fields stay private, so a value can only come
/// from `compile`, which ties the two together.
pub struct CompiledRegex {
    def: String,
    inner: regex::Regex,
}

impl CompiledRegex {
    /// The pattern this value was compiled from.
    pub closed spec fn pattern(self) -> Seq<char> {
        self.def@
    }

    /// Relies on `regex::Regex::new`: an invalid pattern is rejected, a
    /// valid one yields a matcher for exactly that pattern.
    #[verifier::external_body]
    pub fn compile(def: &str) -> (r: Option<CompiledRegex>)
        ensures
            (r is Some) == spec_regex_valid(def@),
            r matches Some(c) ==> c.pattern() == def@,
    {
        match regex::Regex::new(def) {
            Ok(inner) => Some(CompiledRegex { def: def.to_string(), inner }),
            Err(_) => None,
        }
    }

    /// Relies on `regex::Regex::is_match`: whether the pattern matches
    /// anywhere in the text.
    #[verifier::external_body]
    pub fn is_match(&self, text: &str) -> (r: bool)
        ensures
            r == spec_regex_match(self.pattern(), text@),
    {
        self.inner.is_match(text)
    }

    /// The pattern text.
    pub fn def(&self) -> (r: &String)
        ensures
            r@ == self.pattern(),
    {
        &self.def
    }
}

/// Ghost counterpart of `Pattern`.
pub enum SpecPattern {
    Literal(Seq<char>),
    Glob(Seq<char>),
    Regex(Seq<char>),
}

/// One pattern of the collection.
pub enum Pattern {
    Literal(String),
    Glob(String),
    Regex(CompiledRegex),
}

impl View for Pattern {
    type V = SpecPattern;

    open spec fn view(&self) -> SpecPattern {
        match self {
            Pattern::Literal(s) => SpecPattern::Literal(s@),
            Pattern::Glob(s) => SpecPattern::Glob(s@),
            Pattern::Regex(c) => SpecPattern::Regex(c.pattern()),
        }
    }
}

/// Whether one pattern matches the text.
pub open spec fn spec_pattern_matches(p: SpecPattern, text: Seq<char>) -> bool {
    match p {
        SpecPattern::Literal(s) => s == text,
        SpecPattern::Glob(g) => spec_glob_match(g, text),
        SpecPattern::Regex(d) => spec_regex_match(d, text),
    }
}

pub open spec fn spec_pattern_seq(s: Seq<Pattern>, i: int) -> Seq<SpecPattern>
    decreases s.len() - i,
{
    if i < 0 || i >= s.len() {
        Seq::empty()
    } else {
        seq![s[i]@] + spec_pattern_seq(s, i + 1)
    }
}

pub proof fn lemma_spec_pattern_seq(s: Seq<Pattern>, i: int)
    requires
        0 <= i <= s.len(),
    ensures
        spec_pattern_seq(s, i).len() == s.len() - i,
        forall|j: int| 0 <= j < s.len() - i ==> #[trigger] spec_pattern_seq(s, i)[j] == s[i + j]@,
    decreases s.len() - i,
{
    if i < s.len() {
        lemma_spec_pattern_seq(s, i + 1);
        assert forall|j: int| 0 <= j < s.len() - i implies #[trigger] spec_pattern_seq(s, i)[j]
            == s[i + j]@ by {
            if j > 0 {
                assert(spec_pattern_seq(s, i)[j] == spec_pattern_seq(s, i + 1)[j - 1]);
            }
        }
    }
}

/// An ordered collection of patterns; a candidate matches the collection
/// when it matches any one of them.
pub struct Patterns {
    patterns: Vec<Pattern>,
}

impl View for Patterns {
    type V = Seq<SpecPattern>;

    closed spec fn view(&self) -> Seq<SpecPattern> {
        spec_pattern_seq(self.patterns@, 0)
    }
}

impl Patterns {
    pub fn new() -> (r: Patterns)
        ensures
            r@ =~= Seq::<SpecPattern>::empty(),
    {
        Patterns { patterns: Vec::new() }
    }

    /// Adds a literal string pattern.
    pub fn expand_string(&mut self, string: String)
        ensures
            final(self)@ =~= old(self)@.push(SpecPattern::Literal(string@)),
    {
        proof {
            lemma_spec_pattern_seq(self.patterns@, 0);
        }
        self.patterns.push(Pattern::Literal(string));
        proof {
            lemma_spec_pattern_seq(self.patterns@, 0);
        }
    }

    /// Adds a glob pattern.
    pub fn expand_glob(&mut self, glob: String)
        ensures
            final(self)@ =~= old(self)@.push(SpecPattern::Glob(glob@)),
    {
        proof {
            lemma_spec_pattern_seq(self.patterns@, 0);
        }
        self.patterns.push(Pattern::Glob(glob));
        proof {
            lemma_spec_pattern_seq(self.patterns@, 0);
        }
    }

    /// Adds a compiled regular-expression pattern.
    pub fn expand_regex(&mut self, re: CompiledRegex)
        ensures
            final(self)@ =~= old(self)@.push(SpecPattern::Regex(re.pattern())),
    {
        proof {
            lemma_spec_pattern_seq(self.patterns@, 0);
        }
        self.patterns.push(Pattern::Regex(re));
        proof {
            lemma_spec_pattern_seq(self.patterns@, 0);
        }
    }

    /// Whether any pattern of the collection matches the value.
    pub fn test(&self, value: &str) -> (r: bool)
        ensures
            r == exists|i: int|
                0 <= i < self@.len() && spec_pattern_matches(#[trigger] self@[i], value@),
    {
        proof {
            lemma_spec_pattern_seq(self.patterns@, 0);
        }
        let mut i: usize = 0;
        while i < self.patterns.len()
            invariant
                i <= self.patterns@.len(),
            self@.len() == self.patterns@.len(),
                forall|j: int| 0 <= j < self@.len() ==> #[trigger] self@[j] == self.patterns@[j]@,
                forall|j: int| 0 <= j < i ==> !spec_pattern_matches(#[trigger] self@[j], value@),
            decreases self.patterns@.len() - i,
        {
            let hit = match &self.patterns[i] {
                Pattern::Literal(s) => str_eq(s.as_str(), value),
                Pattern::Glob(g) => glob_match(g.as_str(), value),
                Pattern::Regex(c) => c.is_match(value),
            };
            if hit {
                proof {
                    assert(spec_pattern_matches(self@[i as int], value@));
                }
                return true;
            }
            i = i + 1;
        }
        false
    }
}

} // verus!
