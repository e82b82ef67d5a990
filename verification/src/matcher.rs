//! Compiling a pattern set and finding the first satisfied pattern.
//!
//! The regular-expression engine itself is the `regex` crate; this module
//! wraps the two calls the library makes into it and proves, on top of
//! those, that the reported match index is the lowest list position of any
//! satisfied pattern.

use crate::errors::ExpectError;
use vstd::prelude::*;

verus! {

/// Whether the regular expression `pattern` is satisfied by `text`.
///
/// This names the verdict of `regex::RegexSet::matches` for one pattern of
/// the set: a function of the pattern and the text alone.
pub uninterp spec fn regex_match(pattern: Seq<char>, text: Seq<char>) -> bool;

/// Whether `regex::RegexSet::new` accepts this pattern list.
///
/// This names the success condition of compilation: a function of the
/// pattern list alone (a list is rejected exactly when some member is not
/// a valid regular expression or the compiled set would exceed the
/// engine's size limit).
pub uninterp spec fn compiles(patterns: Seq<Seq<char>>) -> bool;

/// Declares `regex::RegexSet`, the compiled alternation, as an opaque type.
#[verifier::external_type_specification]
#[verifier::external_body]
pub struct ExRegexSet(regex::RegexSet);

/// Declares `regex::Error`, what compilation returns on a bad pattern, as
/// an opaque type; it is mapped to [`ExpectError::InvalidPattern`] here.
#[verifier::external_type_specification]
#[verifier::external_body]
pub struct ExRegexError(regex::Error);

/// Some pattern of the list is satisfied by `text`.
pub open spec fn some_match(patterns: Seq<Seq<char>>, text: Seq<char>) -> bool {
    exists|i: int| 0 <= i < patterns.len() && regex_match(patterns[i], text)
}

/// `i` is the lowest list position of a pattern satisfied by `text`.
pub open spec fn is_first_match(patterns: Seq<Seq<char>>, text: Seq<char>, i: int) -> bool {
    &&& 0 <= i < patterns.len()
    &&& regex_match(patterns[i], text)
    &&& forall|j: int| 0 <= j < i ==> !regex_match(patterns[j], text)
}

/// An ordered pattern set, compiled once and then asked which of its
/// members the accumulated text satisfies.
///
/// The view of a `Matcher` is the list of patterns it was compiled from.
/// The two fields stay in correspondence because `compile` below is the
/// only constructor.
pub struct Matcher {
    set: regex::RegexSet,
    patterns: Vec<String>,
}

impl View for Matcher {
    type V = Seq<Seq<char>>;

    closed spec fn view(&self) -> Seq<Seq<char>> {
        self.patterns.deep_view()
    }
}

/// Relies on `regex::RegexSet::new`: compiles the alternation set, and
/// returns `Err` exactly when the list does not compile; an empty list
/// always compiles (to a set that matches nothing).
#[verifier::external_body]
fn compile(patterns: Vec<String>) -> (r: Result<Matcher, regex::Error>)
    ensures
        r matches Ok(m) ==> m@ == patterns.deep_view(),
        r is Ok <==> compiles(patterns.deep_view()),
        patterns@.len() == 0 ==> r is Ok,
{
    match regex::RegexSet::new(&patterns) {
        Ok(set) => Ok(Matcher { set, patterns }),
        Err(e) => Err(e),
    }
}

impl Matcher {
    /// Compiles an ordered pattern list, rejecting a malformed pattern
    /// before any read loop can run.
    pub fn new(patterns: Vec<String>) -> (r: Result<Matcher, ExpectError>)
        ensures
            r matches Ok(m) ==> m@ == patterns.deep_view() && compiles(patterns.deep_view()),
            r is Ok <==> compiles(patterns.deep_view()),
            r matches Err(e) ==> e == ExpectError::InvalidPattern,
            patterns@.len() == 0 ==> r is Ok,
    {
        match compile(patterns) {
            Ok(m) => Ok(m),
            Err(_) => Err(ExpectError::InvalidPattern),
        }
    }

    /// Relies on `regex::RegexSet::matches`: reports the index of every
    /// pattern of the set that the haystack satisfies, in ascending order.
    #[verifier::external_body]
    fn matched_indices(&self, text: &str) -> (r: Vec<usize>)
        ensures
            forall|k: int, l: int| 0 <= k < l < r@.len() ==> r@[k] < r@[l],
            forall|k: int|
                0 <= k < r@.len() ==> r@[k] < self@.len() && regex_match(
                    self@[r@[k] as int],
                    text@,
                ),
            forall|i: int|
                0 <= i < self@.len() && regex_match(self@[i], text@) ==> r@.contains(i as usize),
    {
        self.set.matches(text).into_iter().collect()
    }

    /// The lowest list position of a pattern satisfied by `text`, or
    /// `None` when no pattern of the set is satisfied.
    ///
    /// Two simultaneously satisfied patterns are disambiguated purely by
    /// their position in the compiled list.
    pub fn first_match(&self, text: &String) -> (r: Option<usize>)
        ensures
            match r {
                Some(i) => is_first_match(self@, text@, i as int),
                None => !some_match(self@, text@),
            },
    {
        let ids = self.matched_indices(text.as_str());
        if ids.len() > 0 {
            let i = ids[0];
            proof {
                assert forall|j: int| 0 <= j < i as int implies !regex_match(
                    self@[j],
                    text@,
                ) by {
                    if regex_match(self@[j], text@) {
                        assert(ids@.contains(j as usize));
                        let k = choose|k: int| 0 <= k < ids@.len() && ids@[k] == j as usize;
                        assert(k == 0 || ids@[0] < ids@[k]);
                    }
                }
            }
            Some(i)
        } else {
            proof {
                if some_match(self@, text@) {
                    let i = choose|i: int| 0 <= i < self@.len() && regex_match(self@[i], text@);
                    assert(ids@.contains(i as usize));
                }
            }
            None
        }
    }

    /// How many patterns the set was compiled from.
    pub fn len(&self) -> (n: usize)
        ensures
            n == self@.len(),
    {
        self.patterns.len()
    }
}

} // verus!
