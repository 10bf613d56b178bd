//! The static, embedding mode: the discovered files and their contents are
//! bound into an immutable lookup table, and the three runtime operations
//! answer from that table alone.

use vstd::prelude::*;

use crate::BuildError;
use crate::FileList;
use crate::text::decode_text;
use crate::text::spec_text_of;

verus! {

/// One embedded entry: the lookup key exposed to callers, and the bytes
/// read for it at generation time.
pub struct Asset {
    pub path: String,
    pub content: Vec<u8>,
}

impl View for Asset {
    type V = (Seq<char>, Seq<u8>);

    open spec fn view(&self) -> (Seq<char>, Seq<u8>) {
        (self.path@, self.content@)
    }
}

impl DeepView for Asset {
    type V = (Seq<char>, Seq<u8>);

    open spec fn deep_view(&self) -> (Seq<char>, Seq<u8>) {
        self@
    }
}

/// The keys of a table, in order.
pub open spec fn spec_keys(table: Seq<(Seq<char>, Seq<u8>)>) -> Seq<Seq<char>> {
    table.map_values(|entry: (Seq<char>, Seq<u8>)| entry.0)
}

/// Exact string match against the keys, first entry wins; an absent key
/// yields nothing, never an error.
pub open spec fn spec_lookup(table: Seq<(Seq<char>, Seq<u8>)>, path: Seq<char>) -> Option<Seq<u8>>
    decreases table.len(),
{
    if table.len() == 0 {
        None
    } else if table[0].0 == path {
        Some(table[0].1)
    } else {
        spec_lookup(table.drop_first(), path)
    }
}

/// What assembling the table makes of the generation-time reads: an entry
/// per file, in list order, or the first file whose content could not be
/// obtained, which fails the build.
pub open spec fn spec_assemble(paths: Seq<String>, contents: Seq<Option<Vec<u8>>>) -> Result<
    Seq<(Seq<char>, Seq<u8>)>,
    BuildError,
>
    recommends
        paths.len() == contents.len(),
    decreases paths.len(),
{
    if paths.len() == 0 {
        Ok(Seq::empty())
    } else {
        match contents[0] {
            Some(bytes) => match spec_assemble(paths.drop_first(), contents.drop_first()) {
                Ok(rest) => Ok(seq![(paths[0]@, bytes@)] + rest),
                Err(e) => Err(e),
            },
            None => Err(BuildError::Unreadable(paths[0])),
        }
    }
}

/// The embedded asset table of the static mode.
pub struct StaticAssets {
    assets: Vec<Asset>,
}

impl View for StaticAssets {
    type V = Seq<(Seq<char>, Seq<u8>)>;

    closed spec fn view(&self) -> Seq<(Seq<char>, Seq<u8>)> {
        self.assets.deep_view()
    }
}

/// Copies a byte vector; the copy holds the same bytes.
pub(crate) fn clone_bytes(bytes: &Vec<u8>) -> (r: Vec<u8>)
    ensures
        r@ == bytes@,
{
    let r = bytes.clone();
    proof {
        assert(r@ =~= bytes@);
    }
    r
}

impl StaticAssets {
    /// Binds the discovered files to the contents read for them at
    /// generation time, entry by entry, in list order.  A file whose
    /// content is unavailable fails the build; there is no silent skip.
    pub fn assemble(files: FileList, contents: Vec<Option<Vec<u8>>>) -> (r: Result<
        StaticAssets,
        BuildError,
    >)
        requires
            files.paths@.len() == contents@.len(),
        ensures
            r is Ok <==> spec_assemble(files.paths@, contents@) is Ok,
            r matches Ok(table) ==> Ok::<_, BuildError>(table@) == spec_assemble(
                files.paths@,
                contents@,
            ),
            r matches Err(e) ==> Err::<Seq<(Seq<char>, Seq<u8>)>, _>(e) == spec_assemble(
                files.paths@,
                contents@,
            ),
    {
        let ghost all_paths = files.paths@;
        let ghost all_contents = contents@;
        let mut assets: Vec<Asset> = Vec::new();
        let mut i: usize = 0;
        proof {
            assert(all_paths.skip(0) =~= all_paths);
            assert(all_contents.skip(0) =~= all_contents);
            assert(assets.deep_view() + spec_assemble(all_paths, all_contents).unwrap()
                =~= spec_assemble(all_paths, all_contents).unwrap());
        }
        while i < files.paths.len()
            invariant
                i <= files.paths.len(),
                all_paths == files.paths@,
                all_contents == contents@,
                all_paths.len() == all_contents.len(),
                match spec_assemble(all_paths.skip(i as int), all_contents.skip(i as int)) {
                    Ok(rest) => spec_assemble(all_paths, all_contents) == Ok::<_, BuildError>(
                        assets.deep_view() + rest,
                    ),
                    Err(e) => spec_assemble(all_paths, all_contents) == Err::<
                        Seq<(Seq<char>, Seq<u8>)>,
                        _,
                    >(e),
                },
            decreases files.paths.len() - i,
        {
            let ghost rest_paths = all_paths.skip(i as int);
            let ghost rest_contents = all_contents.skip(i as int);
            proof {
                assert(rest_paths[0] == all_paths[i as int]);
                assert(rest_contents[0] == all_contents[i as int]);
                assert(rest_paths.drop_first() =~= all_paths.skip(i as int + 1));
                assert(rest_contents.drop_first() =~= all_contents.skip(i as int + 1));
            }
            match &contents[i] {
                Some(bytes) => {
                    let ghost before = assets.deep_view();
                    let entry = Asset {
                        path: files.paths[i].clone(),
                        content: clone_bytes(bytes),
                    };
                    assets.push(entry);
                    proof {
                        assert(assets.deep_view() =~= before.push(
                            (all_paths[i as int]@, all_contents[i as int].unwrap()@),
                        ));
                        let tail_paths = rest_paths.drop_first();
                        let tail_contents = rest_contents.drop_first();
                        if spec_assemble(tail_paths, tail_contents) is Ok {
                            let tail = spec_assemble(tail_paths, tail_contents).unwrap();
                            assert(assets.deep_view() + tail =~= before + (seq![
                                (all_paths[i as int]@, all_contents[i as int].unwrap()@),
                            ] + tail));
                        }
                    }
                },
                None => {
                    return Err(BuildError::Unreadable(files.paths[i].clone()));
                },
            }
            i += 1;
        }
        proof {
            assert(all_paths.skip(i as int) =~= Seq::<String>::empty());
            assert(assets.deep_view() + Seq::<(Seq<char>, Seq<u8>)>::empty()
                =~= assets.deep_view());
        }
        Ok(StaticAssets { assets })
    }

    /// The embedded key set, as a fresh list: re-invoking it yields a new,
    /// independent sequence over the same fixed keys.
    pub fn list(&self) -> (r: Vec<String>)
        ensures
            r.deep_view() == spec_keys(self@),
    {
        let mut keys: Vec<String> = Vec::new();
        let mut i: usize = 0;
        while i < self.assets.len()
            invariant
                i <= self.assets.len(),
                self@ == self.assets.deep_view(),
                keys@.len() == i as int,
                keys.deep_view() =~= spec_keys(self@).take(i as int),
            decreases self.assets.len() - i,
        {
            let entry_key = self.assets[i].path.clone();
            let ghost added = entry_key;
            let ghost pre = keys@;
            let ghost before = keys.deep_view();
            keys.push(entry_key);
            proof {
                assert(self@[i as int] == (self.assets@[i as int].path@,
                self.assets@[i as int].content@));
                assert(spec_keys(self@)[i as int] == self@[i as int].0);
                assert(keys@ == pre.push(added));
                assert(spec_keys(self@).len() == self@.len());
                assert(pre.len() == i as int);
                assert forall|j: int| 0 <= j < keys@.len() implies keys.deep_view()[j]
                    == spec_keys(self@).take(i as int + 1)[j] by {
                    assert(keys.deep_view()[j] == keys@[j]@);
                    if j < i as int {
                        assert(pre.push(added)[j] == pre[j]);
                        assert(before[j] == pre[j]@);
                        assert(before[j] == spec_keys(self@).take(i as int)[j]);
                    } else {
                        assert(pre.push(added)[j] == added);
                    }
                }
                assert(keys.deep_view() =~= spec_keys(self@).take(i as int + 1));
            }
            i += 1;
        }
        proof {
            assert(spec_keys(self@).take(i as int) =~= spec_keys(self@));
        }
        keys
    }

    /// The embedded content for the path: exact match against the key set,
    /// the bytes stored for the first matching entry; an absent key yields
    /// nothing, never an error.
    pub fn get(&self, path: &str) -> (r: Option<Vec<u8>>)
        ensures
            r is Some <==> spec_lookup(self@, path@) is Some,
            r matches Some(bytes) ==> spec_lookup(self@, path@) == Some(bytes@),
    {
        let key: String = path.to_owned();
        let mut i: usize = 0;
        proof {
            assert(self@.skip(0) =~= self@);
        }
        while i < self.assets.len()
            invariant
                i <= self.assets.len(),
                self@ == self.assets.deep_view(),
                key@ == path@,
                spec_lookup(self@, path@) == spec_lookup(self@.skip(i as int), path@),
            decreases self.assets.len() - i,
        {
            proof {
                assert(self@[i as int] == (self.assets@[i as int].path@,
                self.assets@[i as int].content@));
                assert(self@.skip(i as int)[0] == self@[i as int]);
                assert(self@.skip(i as int).drop_first() =~= self@.skip(i as int + 1));
            }
            if self.assets[i].path == key {
                return Some(clone_bytes(&self.assets[i].content));
            }
            i += 1;
        }
        proof {
            assert(self@.skip(i as int) =~= Seq::<(Seq<char>, Seq<u8>)>::empty());
        }
        None
    }

    /// The embedded content as text: present exactly when the path is
    /// embedded and its bytes are valid UTF-8, and then it is those bytes
    /// decoded; absent otherwise, never an error.
    pub fn get_str(&self, path: &str) -> (r: Option<String>)
        ensures
            r is Some <==> spec_text_of(spec_lookup(self@, path@)) is Some,
            r matches Some(text) ==> spec_text_of(spec_lookup(self@, path@)) == Some(text@),
    {
        match self.get(path) {
            Some(bytes) => decode_text(&bytes),
            None => None,
        }
    }
}

/// Content can be fetched for a path exactly when the path is listed: the
/// lookup answers for exactly the keys of the table, and for no others.
pub proof fn lemma_get_iff_listed(table: Seq<(Seq<char>, Seq<u8>)>, path: Seq<char>)
    ensures
        spec_lookup(table, path) is Some <==> spec_keys(table).contains(path),
    decreases table.len(),
{
    if table.len() > 0 {
        lemma_get_iff_listed(table.drop_first(), path);
        assert forall|j: int| 0 <= j < table.len() - 1 implies spec_keys(table.drop_first())[j]
            == spec_keys(table)[j + 1] by {
            assert(table.drop_first()[j] == table[j + 1]);
        }
        if table[0].0 == path {
            assert(spec_keys(table)[0] == path);
            assert(spec_keys(table).contains(path));
        } else {
            if spec_keys(table).contains(path) {
                let k = choose|k: int| 0 <= k < spec_keys(table).len() && spec_keys(table)[k]
                    == path;
                assert(k != 0);
                assert(spec_keys(table.drop_first())[k - 1] == path);
                assert(spec_keys(table.drop_first()).contains(path));
            }
            if spec_keys(table.drop_first()).contains(path) {
                let k = choose|k: int|
                    0 <= k < spec_keys(table.drop_first()).len() && spec_keys(
                        table.drop_first(),
                    )[k] == path;
                assert(spec_keys(table)[k + 1] == path);
                assert(spec_keys(table).contains(path));
            }
        }
    }
}

/// Listing is idempotent: any two results of listing the same table hold
/// the same keys in the same order, hence the same element set.
pub proof fn lemma_list_idempotent(
    table: Seq<(Seq<char>, Seq<u8>)>,
    first: Seq<Seq<char>>,
    second: Seq<Seq<char>>,
)
    requires
        first == spec_keys(table),
        second == spec_keys(table),
    ensures
        first == second,
        first.to_set() == second.to_set(),
{
}

/// The two generation modes agree on content.  When the embedded keys are
/// distinct, looking one of them up in the assembled table yields exactly
/// the bytes read for that file at generation time: the same bytes the
/// dynamic mode hands back when its call-time read finds the file
/// unmodified.
pub proof fn lemma_modes_agree(
    paths: Seq<String>,
    contents: Seq<Option<Vec<u8>>>,
    table: Seq<(Seq<char>, Seq<u8>)>,
    i: int,
)
    requires
        paths.len() == contents.len(),
        spec_assemble(paths, contents) == Ok::<_, BuildError>(table),
        0 <= i < paths.len(),
        forall|a: int, b: int| 0 <= a < b < paths.len() ==> paths[a]@ != paths[b]@,
    ensures
        contents[i] is Some,
        spec_lookup(table, paths[i]@) == Some(contents[i].unwrap()@),
    decreases paths.len(),
{
    assert(contents[0] is Some);
    let rest = spec_assemble(paths.drop_first(), contents.drop_first()).unwrap();
    assert(table == seq![(paths[0]@, contents[0].unwrap()@)] + rest);
    assert(table[0] == (paths[0]@, contents[0].unwrap()@));
    if i == 0 {
        assert(spec_lookup(table, paths[0]@) == Some(table[0].1));
    } else {
        assert(paths[0]@ != paths[i]@);
        assert(table.drop_first() =~= rest);
        assert(paths.drop_first()[i - 1] == paths[i]);
        assert(contents.drop_first()[i - 1] == contents[i]);
        assert forall|a: int, b: int|
            0 <= a < b < paths.drop_first().len() implies paths.drop_first()[a]@
            != paths.drop_first()[b]@ by {
            assert(paths.drop_first()[a] == paths[a + 1]);
            assert(paths.drop_first()[b] == paths[b + 1]);
        }
        lemma_modes_agree(paths.drop_first(), contents.drop_first(), rest, i - 1);
    }
}

} // verus!
