//! Sets of regular expressions that file names and paths are held against.

use vstd::prelude::*;
use crate::text::texts;

verus! {

/// `regex::RegexSet`: a compiled set of regular expressions, carried
/// through as it is.
#[verifier::external_type_specification]
#[verifier::external_body]
pub struct ExRegexSet(regex::RegexSet);

/// `regex::Error`: why a pattern did not compile, carried through as it is.
#[verifier::external_type_specification]
#[verifier::external_body]
pub struct ExRegexError(regex::Error);

/// The patterns that a compiled set holds, in the order they were given.
pub uninterp spec fn set_patterns(set: regex::RegexSet) -> Seq<Seq<char>>;

/// Whether a compiled set was made to match without regard to case.
pub uninterp spec fn set_ignores_case(set: regex::RegexSet) -> bool;

/// Whether a compiled set was built with every option but the case
/// sensitivity left as the builder has it at first.
pub uninterp spec fn set_has_plain_options(set: regex::RegexSet) -> bool;

/// Whether at least one of `patterns`, read as regular expressions with the
/// given case sensitivity and every other option as a builder has it at
/// first, matches somewhere in `text`.
pub uninterp spec fn some_pattern_matches(
    patterns: Seq<Seq<char>>,
    ignore_case: bool,
    text: Seq<char>,
) -> bool;

/// What a compiled set matches by.
pub struct Matcher {
    /// The patterns, as they were given.
    pub patterns: Seq<Seq<char>>,
    /// Whether they match without regard to case.
    pub ignore_case: bool,
}

impl Matcher {
    /// Whether one of the matcher's patterns matches somewhere in `text`.
    pub open spec fn matches(self, text: Seq<char>) -> bool {
        some_pattern_matches(self.patterns, self.ignore_case, text)
    }
}

/// `regex::RegexSetBuilder::new`, `case_insensitive` and `build`: compiles
/// `patterns` into one set.
///
/// A set that comes back holds exactly the given patterns, has the given
/// case sensitivity, and has every other option as the builder has it at
/// first, since none is set. Nothing is claimed of which patterns compile.
#[verifier::external_body]
pub(crate) fn compile_set(patterns: &Vec<String>, ignore_case: bool) -> (built: Result<
    regex::RegexSet,
    regex::Error,
>)
    ensures
        built matches Ok(set) ==> set_patterns(set) == texts(patterns@) && set_ignores_case(set)
            == ignore_case && set_has_plain_options(set),
{
    regex::RegexSetBuilder::new(patterns).case_insensitive(ignore_case).build()
}

/// `regex::RegexSet::is_match`: whether one of the set's patterns matches
/// somewhere in `text`. For a set that was built with no option set but the
/// case sensitivity, the answer depends on the patterns, the case
/// sensitivity and the text alone. Nothing is claimed of other sets.
#[verifier::external_body]
pub(crate) fn set_is_match(set: &regex::RegexSet, text: &str) -> (found: bool)
    ensures
        set_has_plain_options(*set) ==> found == some_pattern_matches(
            set_patterns(*set),
            set_ignores_case(*set),
            text@,
        ),
{
    set.is_match(text)
}

/// A compiled set of patterns. Every such set was compiled by `compile`, so
/// what it matches goes by its patterns and its case sensitivity alone.
pub struct PatternSet {
    set: regex::RegexSet,
}

impl View for PatternSet {
    type V = Matcher;

    closed spec fn view(&self) -> Matcher {
        Matcher { patterns: set_patterns(self.set), ignore_case: set_ignores_case(self.set) }
    }
}

impl PatternSet {
    /// No option but the case sensitivity was set when the set was built.
    #[verifier::type_invariant]
    closed spec fn plain(&self) -> bool {
        set_has_plain_options(self.set)
    }

    /// Compiles `patterns` into one set that matches with or without regard
    /// to case. Whether the patterns compile is for the regular expression
    /// engine to say; a set that comes back matches by exactly these patterns
    /// and this case sensitivity.
    pub fn compile(patterns: &Vec<String>, ignore_case: bool) -> (built: Result<
        PatternSet,
        regex::Error,
    >)
        ensures
            built matches Ok(compiled) ==> compiled@ == (Matcher {
                patterns: texts(patterns@),
                ignore_case,
            }),
    {
        match compile_set(patterns, ignore_case) {
            Ok(set) => Ok(PatternSet { set }),
            Err(e) => Err(e),
        }
    }

    /// Whether one of the set's patterns matches somewhere in `text`.
    pub fn is_match(&self, text: &str) -> (found: bool)
        ensures
            found == self@.matches(text@),
    {
        proof {
            use_type_invariant(self);
        }
        set_is_match(&self.set, text)
    }
}

/// What an optional compiled set matches by.
pub open spec fn matcher_view(set: Option<PatternSet>) -> Option<Matcher> {
    match set {
        Some(set) => Some(set@),
        None => None,
    }
}

} // verus!
