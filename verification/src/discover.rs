//! Discovery and filtering: expand the configured source into the ordered
//! list of files to embed.  The directory walker is an external collaborator
//! that yields, for every descendant, either an entry or a traversal error;
//! everything decided about those entries is verified.

use vstd::prelude::*;

use crate::BuildError;
use crate::FileList;
use crate::config::ConfigItem;
use crate::config::PackerConfig;
use crate::config::spec_first_source;
use crate::config::spec_ignore_patterns;
use crate::config::spec_source_count;
use crate::ignore::IgnoreFilter;
use crate::ignore::spec_should_ignore;

verus! {

/// One item reported by the directory walker.
pub enum WalkEntry {
    /// A regular file, and whether it still existed when it was checked
    /// again during the walk.
    File { path: String, present: bool },
    /// A directory; directories are never selected.
    Dir { path: String },
    /// A traversal error, fatal to the build.
    Failure { message: String },
}

/// Relies on walkdir::WalkDir: for a directory it yields the directory and
/// every descendant, depth first; for a single file it yields that file; for
/// a missing path it yields one error.  The file type is the one the walker
/// read, and `present` re-checks the path while the walk runs; a path that
/// is not valid unicode is reported as a failure.  What comes back depends
/// on the state of the disk, so nothing is promised of it.
#[verifier::external_body]
fn walk_source(root: &str) -> (entries: Vec<WalkEntry>) {
    walkdir::WalkDir::new(root).into_iter().map(|item| match item {
        Ok(entry) => match (entry.path().to_str(), entry.file_type().is_file()) {
            (Some(p), true) => WalkEntry::File {
                path: p.to_string(),
                present: entry.path().exists(),
            },
            (Some(p), false) => WalkEntry::Dir { path: p.to_string() },
            (None, _) => WalkEntry::Failure {
                message: format!("{:?} is not valid unicode", entry.path()),
            },
        },
        Err(error) => WalkEntry::Failure { message: format!("{}", error) },
    }).collect()
}

/// What discovery makes of the walker's report: the selected paths in
/// traversal order, or the first fatal problem.  A traversal error fails the
/// build; a file that vanished between enumeration and the re-check fails
/// the build; directories are skipped; a surviving file is selected exactly
/// when no ignore pattern rejects it.
pub open spec fn spec_discover(entries: Seq<WalkEntry>, patterns: Seq<Seq<char>>) -> Result<
    Seq<Seq<char>>,
    BuildError,
>
    decreases entries.len(),
{
    if entries.len() == 0 {
        Ok(Seq::empty())
    } else {
        match entries[0] {
            WalkEntry::Failure { message } => Err(BuildError::Walk(message)),
            WalkEntry::File { path, present } => {
                if !present {
                    Err(BuildError::Vanished(path))
                } else {
                    match spec_discover(entries.drop_first(), patterns) {
                        Ok(rest) => Ok(
                            if spec_should_ignore(patterns, path@) {
                                rest
                            } else {
                                seq![path@] + rest
                            },
                        ),
                        Err(e) => Err(e),
                    }
                }
            },
            WalkEntry::Dir { .. } => spec_discover(entries.drop_first(), patterns),
        }
    }
}

/// Applies the ignore filter to the walker's report and produces the file
/// list, or the first fatal problem, exactly as `spec_discover` says.
pub fn discover(entries: &Vec<WalkEntry>, filter: &IgnoreFilter) -> (r: Result<
    FileList,
    BuildError,
>)
    ensures
        r is Ok <==> spec_discover(entries@, filter.spec_patterns()) is Ok,
        r matches Ok(files) ==> Ok::<_, BuildError>(files@) == spec_discover(
            entries@,
            filter.spec_patterns(),
        ),
        r matches Err(e) ==> Err::<Seq<Seq<char>>, _>(e) == spec_discover(
            entries@,
            filter.spec_patterns(),
        ),
{
    let ghost all = entries@;
    let ghost patterns = filter.spec_patterns();
    let mut selected: Vec<String> = Vec::new();
    let mut i: usize = 0;
    proof {
        assert(all.skip(0) =~= all);
        assert(selected.deep_view() + spec_discover(all, patterns).unwrap() =~= spec_discover(
            all,
            patterns,
        ).unwrap());
    }
    while i < entries.len()
        invariant
            i <= entries.len(),
            all == entries@,
            patterns == filter.spec_patterns(),
            match spec_discover(all.skip(i as int), patterns) {
                Ok(rest) => spec_discover(all, patterns) == Ok::<_, BuildError>(
                    selected.deep_view() + rest,
                ),
                Err(e) => spec_discover(all, patterns) == Err::<Seq<Seq<char>>, _>(e),
            },
        decreases entries.len() - i,
    {
        let ghost rest = all.skip(i as int);
        proof {
            assert(rest[0] == all[i as int]);
            assert(rest.drop_first() =~= all.skip(i as int + 1));
        }
        match &entries[i] {
            WalkEntry::Failure { message } => {
                return Err(BuildError::Walk(message.clone()));
            },
            WalkEntry::File { path, present } => {
                if !*present {
                    return Err(BuildError::Vanished(path.clone()));
                }
                if !filter.should_ignore(path.as_str()) {
                    let ghost before = selected.deep_view();
                    selected.push(path.clone());
                    proof {
                        assert(selected.deep_view() =~= before.push(path@));
                        if spec_discover(rest.drop_first(), patterns) is Ok {
                            let tail = spec_discover(rest.drop_first(), patterns).unwrap();
                            assert(selected.deep_view() + tail =~= before + (seq![path@] + tail));
                        }
                    }
                }
            },
            WalkEntry::Dir { .. } => {},
        }
        i += 1;
    }
    proof {
        assert(all.skip(i as int) =~= Seq::<WalkEntry>::empty());
        assert(selected.deep_view() + Seq::<Seq<char>>::empty() =~= selected.deep_view());
    }
    Ok(FileList { paths: selected })
}

/// Every failure of the discovery model comes from the walker's report: a
/// traversal error or a vanished file, never a configuration error.
proof fn lemma_discover_err_kind(entries: Seq<WalkEntry>, patterns: Seq<Seq<char>>)
    ensures
        spec_discover(entries, patterns) matches Err(e) ==> (e is Walk || e is Vanished),
    decreases entries.len(),
{
    if entries.len() > 0 {
        lemma_discover_err_kind(entries.drop_first(), patterns);
    }
}

/// Walks the configured source on disk and filters the report.  What the
/// walker yields depends on the disk, but whatever it yields, no selected
/// path is one the ignore patterns reject, and any failure is a traversal
/// error or a vanished path, never a configuration error.
pub fn discover_source(config: &PackerConfig) -> (r: Result<FileList, BuildError>)
    ensures
        r matches Ok(files) ==> forall|k: int|
            0 <= k < files@.len() ==> !spec_should_ignore(
                config.filter.spec_patterns(),
                files@[k],
            ),
        r matches Err(e) ==> (e is Walk || e is Vanished),
{
    let entries = walk_source(config.source.as_str());
    let r = discover(&entries, &config.filter);
    proof {
        let patterns = config.filter.spec_patterns();
        lemma_discover_err_kind(entries@, patterns);
        if r is Ok {
            lemma_discover_selects_exactly(entries@, patterns);
            let paths = spec_discover(entries@, patterns).unwrap();
            assert(r->Ok_0@ == paths);
            assert forall|k: int| 0 <= k < paths.len() implies !spec_should_ignore(
                patterns,
                paths[k],
            ) by {
                assert(paths.contains(paths[k]));
                let i = choose|i: int|
                    0 <= i < entries@.len() && spec_kept(#[trigger] entries@[i], patterns)
                        && entries@[i]->File_path@ == paths[k];
            }
        }
    }
    r
}

/// The whole build-time pipeline up to the file list: resolves the
/// declarations, walks the single source they name, and filters the report.
/// A missing or duplicated source fails exactly as resolution says, and a
/// configuration error is reported only for such a configuration; on a
/// single-source configuration any failure is a traversal error or a
/// vanished path.  On success the configuration is returned beside the
/// list, and no selected path is one the resolved ignore patterns reject.
pub fn plan_embedding(items: &Vec<ConfigItem>) -> (r: Result<
    (PackerConfig, FileList),
    BuildError,
>)
    ensures
        spec_source_count(items@) == 0 ==> r == Err::<(PackerConfig, FileList), _>(
            BuildError::MissingSource,
        ),
        spec_source_count(items@) >= 2 ==> r == Err::<(PackerConfig, FileList), _>(
            BuildError::MultipleSources,
        ),
        r == Err::<(PackerConfig, FileList), _>(BuildError::MissingSource)
            ==> spec_source_count(items@) == 0,
        r == Err::<(PackerConfig, FileList), _>(BuildError::MultipleSources)
            ==> spec_source_count(items@) >= 2,
        r matches Ok((config, files)) ==> spec_source_count(items@) == 1 && config.source@
            == spec_first_source(items@) && config.filter.spec_patterns() == spec_ignore_patterns(
            items@,
        ) && forall|k: int|
            0 <= k < files@.len() ==> !spec_should_ignore(spec_ignore_patterns(items@), files@[k]),
{
    proof {
        crate::config::lemma_source_count_nonneg(items@);
    }
    let config = match crate::config::resolve_config(items) {
        Ok(config) => config,
        Err(e) => {
            return Err(e);
        },
    };
    match discover_source(&config) {
        Ok(files) => Ok((config, files)),
        Err(e) => Err(e),
    }
}

/// True for a walker item that discovery keeps: a file, still present, that
/// no ignore pattern rejects.
pub open spec fn spec_kept(entry: WalkEntry, patterns: Seq<Seq<char>>) -> bool {
    match entry {
        WalkEntry::File { path, present } => present && !spec_should_ignore(patterns, path@),
        _ => false,
    }
}

/// True for a walker item that makes discovery fail: a traversal error, or a
/// file that vanished before the re-check.
pub open spec fn spec_fatal(entry: WalkEntry) -> bool {
    match entry {
        WalkEntry::Failure { .. } => true,
        WalkEntry::File { present, .. } => !present,
        WalkEntry::Dir { .. } => false,
    }
}

/// Discovery selects exactly the surviving files.  It succeeds exactly when
/// the walker reported no fatal item, and then a path is selected exactly
/// when the walker reported it as a kept file: nothing outside that set
/// appears, nothing inside it is missing.
pub proof fn lemma_discover_selects_exactly(entries: Seq<WalkEntry>, patterns: Seq<Seq<char>>)
    ensures
        spec_discover(entries, patterns) is Ok <==> forall|i: int|
            0 <= i < entries.len() ==> !spec_fatal(#[trigger] entries[i]),
        spec_discover(entries, patterns) matches Ok(paths) ==> forall|p: Seq<char>|
            #[trigger] paths.contains(p) <==> exists|i: int|
                0 <= i < entries.len() && spec_kept(#[trigger] entries[i], patterns)
                    && entries[i]->File_path@ == p,
    decreases entries.len(),
{
    if entries.len() == 0 {
    } else {
        lemma_discover_selects_exactly(entries.drop_first(), patterns);
        assert forall|i: int| 0 <= i < entries.len() && !spec_fatal(entries[0]) implies (
        !spec_fatal(#[trigger] entries[i]) <==> (i == 0 || !spec_fatal(
            entries.drop_first()[i - 1],
        ))) by {
            if i > 0 {
                assert(entries.drop_first()[i - 1] == entries[i]);
            }
        }
        if spec_discover(entries, patterns) is Ok {
            let paths = spec_discover(entries, patterns).unwrap();
            let tail = spec_discover(entries.drop_first(), patterns).unwrap();
            assert forall|p: Seq<char>| #[trigger] paths.contains(p) implies exists|i: int|
                0 <= i < entries.len() && spec_kept(#[trigger] entries[i], patterns)
                    && entries[i]->File_path@ == p by {
                if spec_kept(entries[0], patterns) && entries[0]->File_path@ == p {
                    assert(spec_kept(entries[0], patterns) && entries[0]->File_path@ == p);
                } else {
                    assert(tail.contains(p));
                    let j = choose|j: int|
                        0 <= j < entries.drop_first().len() && spec_kept(
                            #[trigger] entries.drop_first()[j],
                            patterns,
                        ) && entries.drop_first()[j]->File_path@ == p;
                    assert(entries[j + 1] == entries.drop_first()[j]);
                }
            }
            assert forall|p: Seq<char>|
                (exists|i: int|
                    0 <= i < entries.len() && spec_kept(#[trigger] entries[i], patterns)
                        && entries[i]->File_path@ == p) implies #[trigger] paths.contains(p) by {
                let i = choose|i: int|
                    0 <= i < entries.len() && spec_kept(#[trigger] entries[i], patterns)
                        && entries[i]->File_path@ == p;
                if i == 0 {
                    assert(paths[0] == p);
                } else {
                    assert(entries.drop_first()[i - 1] == entries[i]);
                    assert(tail.contains(p));
                    let j = choose|j: int| 0 <= j < tail.len() && tail[j] == p;
                    if spec_kept(entries[0], patterns) {
                        assert(paths[j + 1] == p);
                    } else {
                        assert(paths[j] == p);
                    }
                }
            }
        }
    }
}

} // verus!
