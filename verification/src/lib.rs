//! Compile-time asset embedding, split into a verified core.
//!
//! A build step discovers the files below a configured source path, filters
//! them through glob-style ignore patterns, and binds the surviving paths to
//! their contents.  Two generation modes share one runtime contract: a static
//! table that carries the bytes themselves, and a disk-backed mode that
//! re-reads content at call time through a deduplicating cache.

use vstd::prelude::*;

pub mod cache;
pub mod config;
pub mod discover;
pub mod embed;
pub mod ignore;
pub mod text;

verus! {

/// A fatal build-time error: configuration or discovery went wrong, and no
/// artifact may be produced.
#[derive(Debug, PartialEq, Eq)]
pub enum BuildError {
    /// More than one source location was configured for a single target.
    MultipleSources,
    /// No source location was configured.
    MissingSource,
    /// The directory walker reported an error while traversing the source.
    Walk(String),
    /// A path the walker reported was gone when it was checked again.
    Vanished(String),
    /// The content of a selected file could not be obtained for embedding.
    Unreadable(String),
}

/// The ordered list of files selected for embedding: every surviving path,
/// in traversal order.
pub struct FileList {
    pub paths: Vec<String>,
}

impl View for FileList {
    type V = Seq<Seq<char>>;

    open spec fn view(&self) -> Seq<Seq<char>> {
        self.paths.deep_view()
    }
}

/// Copies a list of paths; the copy holds the same strings in the same
/// order.
pub(crate) fn clone_strings(paths: &Vec<String>) -> (r: Vec<String>)
    ensures
        r.deep_view() == paths.deep_view(),
{
    let mut out: Vec<String> = Vec::new();
    let mut i: usize = 0;
    while i < paths.len()
        invariant
            i <= paths.len(),
            out@.len() == i as int,
            forall|j: int| 0 <= j < i ==> out@[j]@ == paths@[j]@,
        decreases paths.len() - i,
    {
        let item = paths[i].clone();
        let ghost added = item;
        let ghost pre = out@;
        out.push(item);
        proof {
            assert(out@ == pre.push(added));
            assert forall|j: int| 0 <= j < i as int + 1 implies out@[j]@ == paths@[j]@ by {
                if j < i as int {
                    assert(pre.push(added)[j] == pre[j]);
                } else {
                    assert(pre.push(added)[j] == added);
                }
            }
        }
        i += 1;
    }
    proof {
        assert forall|j: int| 0 <= j < out.deep_view().len() implies out.deep_view()[j]
            == paths.deep_view()[j] by {
            assert(out.deep_view()[j] == out@[j]@);
            assert(paths.deep_view()[j] == paths@[j]@);
        }
        assert(out.deep_view() =~= paths.deep_view());
    }
    out
}

} // verus!
