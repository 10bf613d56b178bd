//! Configuration resolution: the attribute front end hands over a flat list
//! of declarations, and exactly one `source` must be among them.  A second
//! source, or none at all, is a fatal configuration error.

use vstd::prelude::*;

use crate::BuildError;
use crate::ignore::IgnoreFilter;

verus! {

/// One declaration extracted from the annotation on a target.
#[derive(Debug)]
pub enum ConfigItem {
    /// A `source` declaration: the file or directory to embed.
    Source(String),
    /// An `ignore` declaration: one glob-style pattern to exclude.
    Ignore(String),
}

/// A resolved configuration: the single source location and the ignore
/// patterns in declaration order.
pub struct PackerConfig {
    pub source: String,
    pub filter: IgnoreFilter,
}

/// How many `source` declarations the items hold.
pub open spec fn spec_source_count(items: Seq<ConfigItem>) -> int
    decreases items.len(),
{
    if items.len() == 0 {
        0
    } else {
        (if items[0] is Source {
            1int
        } else {
            0int
        }) + spec_source_count(items.drop_first())
    }
}

/// The string of the first `source` declaration.
pub open spec fn spec_first_source(items: Seq<ConfigItem>) -> Seq<char>
    recommends
        spec_source_count(items) >= 1,
    decreases items.len(),
{
    if items.len() == 0 {
        Seq::empty()
    } else {
        match items[0] {
            ConfigItem::Source(path) => path@,
            _ => spec_first_source(items.drop_first()),
        }
    }
}

/// The `ignore` declarations, in order.
pub open spec fn spec_ignore_patterns(items: Seq<ConfigItem>) -> Seq<Seq<char>>
    decreases items.len(),
{
    if items.len() == 0 {
        Seq::empty()
    } else {
        let rest = spec_ignore_patterns(items.drop_first());
        match items[0] {
            ConfigItem::Ignore(pattern) => seq![pattern@] + rest,
            _ => rest,
        }
    }
}

/// A count of declarations is never negative.
pub proof fn lemma_source_count_nonneg(items: Seq<ConfigItem>)
    ensures
        spec_source_count(items) >= 0,
    decreases items.len(),
{
    if items.len() > 0 {
        lemma_source_count_nonneg(items.drop_first());
    }
}

/// Resolves the declarations of one target.  Exactly one source must be
/// declared; every ignore pattern is kept, in order.  No source at all, or
/// more than one, fails the build.
pub fn resolve_config(items: &Vec<ConfigItem>) -> (r: Result<PackerConfig, BuildError>)
    ensures
        r is Ok <==> spec_source_count(items@) == 1,
        spec_source_count(items@) == 0 ==> r == Err::<PackerConfig, _>(BuildError::MissingSource),
        spec_source_count(items@) >= 2 ==> r == Err::<PackerConfig, _>(
            BuildError::MultipleSources,
        ),
        r matches Ok(config) ==> config.source@ == spec_first_source(items@)
            && config.filter.spec_patterns() == spec_ignore_patterns(items@),
{
    let ghost all = items@;
    let mut source: Option<String> = None;
    let mut filter = IgnoreFilter::new();
    let mut i: usize = 0;
    proof {
        assert(all.skip(0) =~= all);
    }
    while i < items.len()
        invariant
            i <= items.len(),
            all == items@,
            source is None ==> spec_source_count(all) == spec_source_count(all.skip(i as int)),
            source matches Some(s) ==> spec_source_count(all) == 1 + spec_source_count(
                all.skip(i as int),
            ) && s@ == spec_first_source(all),
            source is None ==> spec_first_source(all) == spec_first_source(all.skip(i as int)),
            spec_ignore_patterns(all) == filter.spec_patterns() + spec_ignore_patterns(
                all.skip(i as int),
            ),
        decreases items.len() - i,
    {
        let ghost rest = all.skip(i as int);
        proof {
            assert(rest[0] == all[i as int]);
            assert(rest.drop_first() =~= all.skip(i as int + 1));
            lemma_source_count_nonneg(rest.drop_first());
        }
        match &items[i] {
            ConfigItem::Source(path) => {
                if source.is_some() {
                    proof {
                        assert(spec_source_count(rest) >= 1);
                    }
                    return Err(BuildError::MultipleSources);
                }
                source = Some(path.clone());
            },
            ConfigItem::Ignore(pattern) => {
                let ghost before = filter.spec_patterns();
                filter.add_pattern(pattern.clone());
                proof {
                    assert(filter.spec_patterns() + spec_ignore_patterns(rest.drop_first())
                        =~= before + spec_ignore_patterns(rest));
                }
            },
        }
        i += 1;
    }
    proof {
        assert(all.skip(i as int) =~= Seq::<ConfigItem>::empty());
        assert(filter.spec_patterns() + spec_ignore_patterns(all.skip(i as int))
            =~= filter.spec_patterns());
    }
    match source {
        Some(path) => Ok(PackerConfig { source: path, filter }),
        None => Err(BuildError::MissingSource),
    }
}

} // verus!
