//! Glob-style ignore patterns: an ordered set of patterns that decides which
//! discovered paths are excluded from the asset set.  The single-pattern
//! matcher is an external collaborator; the filter around it is verified.

use vstd::prelude::*;

verus! {

/// What the glob matcher decides for one pattern and one path.  The outcome
/// is a function of the two strings alone.
pub uninterp spec fn glob_matches(pattern: Seq<char>, path: Seq<char>) -> bool;

/// Relies on glob::Pattern: `new` compiles the pattern and `matches` tests
/// the path against it under the default match options.  A pattern that does
/// not compile matches nothing.  The compiled pattern cannot appear in a
/// contract, so the two calls stand together and their combined outcome is
/// named by `glob_matches`: it depends on the two strings alone.
#[verifier::external_body]
fn pattern_matches(pattern: &str, path: &str) -> (r: bool)
    ensures
        r == glob_matches(pattern@, path@),
{
    match glob::Pattern::new(pattern) {
        Ok(compiled) => compiled.matches(path),
        Err(_) => false,
    }
}

/// True when any pattern of the ordered set matches the path.
pub open spec fn spec_should_ignore(patterns: Seq<Seq<char>>, path: Seq<char>) -> bool {
    exists|i: int| 0 <= i < patterns.len() && glob_matches(patterns[i], path)
}

/// An ordered set of glob-style ignore patterns.  The default set is empty
/// and excludes nothing.
pub struct IgnoreFilter {
    pub patterns: Vec<String>,
}

impl IgnoreFilter {
    /// The patterns as character sequences, in declaration order.
    pub open spec fn spec_patterns(&self) -> Seq<Seq<char>> {
        self.patterns.deep_view()
    }

    /// A filter with no patterns.
    pub fn new() -> (r: IgnoreFilter)
        ensures
            r.spec_patterns() =~= Seq::<Seq<char>>::empty(),
    {
        IgnoreFilter { patterns: Vec::new() }
    }

    /// Appends one pattern to the end of the ordered set.
    pub fn add_pattern(&mut self, pattern: String)
        ensures
            final(self).spec_patterns() =~= old(self).spec_patterns().push(pattern@),
    {
        self.patterns.push(pattern);
    }

    /// Whether some configured pattern rejects this path.
    pub fn should_ignore(&self, path: &str) -> (r: bool)
        ensures
            r == spec_should_ignore(self.spec_patterns(), path@),
    {
        let mut i: usize = 0;
        while i < self.patterns.len()
            invariant
                i <= self.patterns.len(),
                forall|j: int| 0 <= j < i ==> !glob_matches(self.spec_patterns()[j], path@),
            decreases self.patterns.len() - i,
        {
            if pattern_matches(self.patterns[i].as_str(), path) {
                assert(self.spec_patterns()[i as int] == self.patterns@[i as int]@);
                return true;
            }
            i += 1;
        }
        false
    }
}

impl Default for IgnoreFilter {
    /// The default filter is empty: it ignores nothing.
    fn default() -> (r: IgnoreFilter)
        ensures
            r.spec_patterns() =~= Seq::<Seq<char>>::empty(),
    {
        IgnoreFilter::new()
    }
}

} // verus!
