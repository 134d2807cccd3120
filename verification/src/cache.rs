//! Single-slot cache management.
//!
//! The cache directory is modelled as a list of directory entries. Given the
//! artifact URL, `ensure_cached` decides whether the artifact is already
//! present (cache hit) or must be downloaded after every stale file in the
//! directory is removed (cache miss), and returns the plan of filesystem
//! actions that realises that decision.

use vstd::prelude::*;

verus! {

/// The final path segment of `s`: everything after the last `/`, the whole
/// string when `s` holds no `/`, and empty when `s` ends in `/`.
pub open spec fn last_segment(s: Seq<char>) -> Seq<char>
    decreases s.len(),
{
    if s.len() == 0 {
        s
    } else if s.last() == '/' {
        Seq::<char>::empty()
    } else {
        last_segment(s.drop_last()).push(s.last())
    }
}

proof fn lemma_last_segment_suffix(s: Seq<char>, i: int)
    requires
        0 <= i <= s.len(),
        forall|j: int| i <= j < s.len() ==> s[j] != '/',
        i == 0 || s[i - 1] == '/',
    ensures
        last_segment(s) == s.subrange(i, s.len() as int),
    decreases s.len(),
{
    if s.len() == 0 {
        assert(last_segment(s) =~= s.subrange(i, s.len() as int));
    } else if i == s.len() {
        assert(s.last() == '/');
        assert(last_segment(s) =~= s.subrange(i, s.len() as int));
    } else {
        assert(s.last() != '/');
        lemma_last_segment_suffix(s.drop_last(), i);
        assert(s.subrange(i, s.len() as int) =~= s.drop_last().subrange(
            i,
            s.drop_last().len() as int,
        ).push(s.last()));
    }
}

/// One directory entry of the cache directory: its filename and whether it
/// is a plain file (subdirectories are never touched by the cache).
pub struct DirEntry {
    pub name: String,
    pub is_file: bool,
}

/// The cache directory as the pipeline sees it: its path (with a trailing
/// separator), whether it exists yet, and its entries in directory order.
pub struct CacheDir {
    pub path: String,
    pub exists: bool,
    pub entries: Vec<DirEntry>,
}

/// The filesystem actions that realise one cache pass: reuse the artifact
/// already at `path`, or create the directory if it is missing, delete the
/// stale files, and download the artifact to `path`.
pub enum CachePlan {
    Hit { path: String },
    Fetch { path: String, create_dir: bool, stale: Vec<String> },
}

#[verifier::ext_equal]
pub ghost struct EntryModel {
    pub name: Seq<char>,
    pub is_file: bool,
}

#[verifier::ext_equal]
pub ghost struct DirModel {
    pub path: Seq<char>,
    pub exists: bool,
    pub entries: Seq<EntryModel>,
}

#[verifier::ext_equal]
pub ghost enum PlanModel {
    Hit { path: Seq<char> },
    Fetch { path: Seq<char>, create_dir: bool, stale: Seq<Seq<char>> },
}

impl View for DirEntry {
    type V = EntryModel;

    open spec fn view(&self) -> EntryModel {
        EntryModel { name: self.name@, is_file: self.is_file }
    }
}

impl View for CacheDir {
    type V = DirModel;

    open spec fn view(&self) -> DirModel {
        DirModel {
            path: self.path@,
            exists: self.exists,
            entries: self.entries@.map_values(|e: DirEntry| e@),
        }
    }
}

impl View for CachePlan {
    type V = PlanModel;

    open spec fn view(&self) -> PlanModel {
        match self {
            CachePlan::Hit { path } => PlanModel::Hit { path: path@ },
            CachePlan::Fetch { path, create_dir, stale } => (PlanModel::Fetch {
                path: path@,
                create_dir: *create_dir,
                stale: stale@.map_values(|s: String| s@),
            }),
        }
    }
}

/// Whether some entry of the directory already bears `name`; the cache key
/// is the filename alone, not the file's content.
pub open spec fn has_entry(entries: Seq<EntryModel>, name: Seq<char>) -> bool {
    exists|k: int| 0 <= k < entries.len() && entries[k].name == name
}

/// The entries that a cache miss keeps: the subdirectories, in order.
pub open spec fn kept_entries(entries: Seq<EntryModel>) -> Seq<EntryModel>
    decreases entries.len(),
{
    if entries.len() == 0 {
        Seq::<EntryModel>::empty()
    } else if entries.last().is_file {
        kept_entries(entries.drop_last())
    } else {
        kept_entries(entries.drop_last()).push(entries.last())
    }
}

/// The full paths of the files that a cache miss deletes, in directory order.
pub open spec fn stale_paths(entries: Seq<EntryModel>, dir_path: Seq<char>) -> Seq<Seq<char>>
    decreases entries.len(),
{
    if entries.len() == 0 {
        Seq::<Seq<char>>::empty()
    } else if entries.last().is_file {
        stale_paths(entries.drop_last(), dir_path).push(dir_path + entries.last().name)
    } else {
        stale_paths(entries.drop_last(), dir_path)
    }
}

/// One cache pass over the directory model: the state the directory has
/// after the pass and the plan of actions that brings it there. A missing
/// directory counts as empty and is created; a present entry named like the
/// artifact is a hit; otherwise every file is dropped, every subdirectory
/// kept, and the artifact's entry added.
pub open spec fn ensure_cached_spec(d: DirModel, url: Seq<char>) -> (DirModel, PlanModel) {
    let name = last_segment(url);
    let path = d.path + name;
    let entries0 = if d.exists {
        d.entries
    } else {
        Seq::<EntryModel>::empty()
    };
    if has_entry(entries0, name) {
        (DirModel { path: d.path, exists: true, entries: entries0 }, PlanModel::Hit { path })
    } else {
        (
            DirModel {
                path: d.path,
                exists: true,
                entries: kept_entries(entries0).push(EntryModel { name, is_file: true }),
            },
            PlanModel::Fetch {
                path,
                create_dir: !d.exists,
                stale: stale_paths(entries0, d.path),
            },
        )
    }
}

fn contains_name(entries: &Vec<DirEntry>, name: &String) -> (r: bool)
    ensures
        r == has_entry(entries@.map_values(|e: DirEntry| e@), name@),
{
    let ghost m = entries@.map_values(|e: DirEntry| e@);
    let mut k: usize = 0;
    while k < entries.len()
        invariant
            k <= entries@.len(),
            m == entries@.map_values(|e: DirEntry| e@),
            forall|j: int| 0 <= j < k ==> m[j].name != name@,
        decreases entries@.len() - k,
    {
        if entries[k].name == *name {
            proof {
                assert(m[k as int] == entries@[k as int]@);
            }
            return true;
        }
        k = k + 1;
    }
    proof {
        assert(forall|j: int| 0 <= j < m.len() ==> m[j] == entries@[j]@);
    }
    false
}

/// The filename under which the artifact at `url` is cached: the substring
/// after the last `/` of the URL.
pub fn installer_name(url: &str) -> (r: String)
    ensures
        r@ == last_segment(url@),
{
    let n = url.unicode_len();
    let mut i = n;
    while i > 0 && url.get_char(i - 1) != '/'
        invariant
            i <= n,
            n == url@.len(),
            forall|j: int| i <= j < n ==> url@[j] != '/',
        decreases i,
    {
        i = i - 1;
    }
    proof {
        lemma_last_segment_suffix(url@, i as int);
    }
    let seg = url.substring_char(i, n);
    seg.to_owned()
}

/// Cache Manager: brings the directory model to the state it will have once
/// the returned plan's actions are done. On a hit nothing changes and
/// nothing is downloaded; on a miss every file directly inside the
/// directory is deleted (subdirectories stay) and the artifact is
/// downloaded to the returned target path, whose name is the URL's final
/// path segment appended to the directory path.
pub fn ensure_cached(dir: &mut CacheDir, url: &str) -> (plan: CachePlan)
    ensures
        final(dir)@ == ensure_cached_spec(old(dir)@, url@).0,
        plan@ == ensure_cached_spec(old(dir)@, url@).1,
{
    let name = installer_name(url);
    let mut path = dir.path.clone();
    path.append(name.as_str());
    let was_present = dir.exists;
    if !dir.exists {
        dir.exists = true;
        dir.entries = Vec::new();
        proof {
            assert(dir.entries@.map_values(|e: DirEntry| e@) =~= Seq::<EntryModel>::empty());
        }
    }
    let ghost m0 = dir.entries@.map_values(|e: DirEntry| e@);
    let ghost dpath = dir.path@;
    if contains_name(&dir.entries, &name) {
        proof {
            assert(dir@ =~= ensure_cached_spec(old(dir)@, url@).0);
        }
        CachePlan::Hit { path }
    } else {
        let mut kept: Vec<DirEntry> = Vec::new();
        let mut stale: Vec<String> = Vec::new();
        let mut k: usize = 0;
        proof {
            assert(kept@.map_values(|e: DirEntry| e@) =~= kept_entries(m0.take(0)));
            assert(stale@.map_values(|s: String| s@) =~= stale_paths(m0.take(0), dpath));
        }
        while k < dir.entries.len()
            invariant
                k <= dir.entries@.len(),
                m0 == dir.entries@.map_values(|e: DirEntry| e@),
                dpath == dir.path@,
                kept@.map_values(|e: DirEntry| e@) == kept_entries(m0.take(k as int)),
                stale@.map_values(|s: String| s@) == stale_paths(m0.take(k as int), dpath),
            decreases dir.entries@.len() - k,
        {
            proof {
                assert(m0.take(k + 1).drop_last() =~= m0.take(k as int));
                assert(m0.take(k + 1).last() == m0[k as int]);
                assert(m0[k as int] == dir.entries@[k as int]@);
            }
            if dir.entries[k].is_file {
                let mut sp = dir.path.clone();
                sp.append(dir.entries[k].name.as_str());
                stale.push(sp);
                proof {
                    assert(stale@.map_values(|s: String| s@) =~= stale_paths(
                        m0.take(k + 1),
                        dpath,
                    ));
                    assert(kept@.map_values(|e: DirEntry| e@) == kept_entries(m0.take(k + 1)));
                }
            } else {
                let nm = dir.entries[k].name.clone();
                kept.push(DirEntry { name: nm, is_file: false });
                proof {
                    assert(kept@.map_values(|e: DirEntry| e@) =~= kept_entries(m0.take(k + 1)));
                    assert(stale@.map_values(|s: String| s@) == stale_paths(
                        m0.take(k + 1),
                        dpath,
                    ));
                }
            }
            k = k + 1;
        }
        proof {
            assert(m0.take(k as int) =~= m0);
        }
        kept.push(DirEntry { name, is_file: true });
        dir.entries = kept;
        let plan = CachePlan::Fetch { path, create_dir: !was_present, stale };
        proof {
            assert(dir@.entries =~= ensure_cached_spec(old(dir)@, url@).0.entries);
            assert(dir@ =~= ensure_cached_spec(old(dir)@, url@).0);
            assert(plan@ =~= ensure_cached_spec(old(dir)@, url@).1);
        }
        plan
    }
}

/// The target path a plan returns, hit or miss.
pub open spec fn plan_path(p: PlanModel) -> Seq<char> {
    match p {
        PlanModel::Hit { path } => path,
        PlanModel::Fetch { path, .. } => path,
    }
}

/// Whether some file entry (not a subdirectory) of the directory bears `name`.
pub open spec fn has_file(entries: Seq<EntryModel>, name: Seq<char>) -> bool {
    exists|k: int| 0 <= k < entries.len() && entries[k].is_file && entries[k].name == name
}

proof fn lemma_kept_entries_elements(s: Seq<EntryModel>)
    ensures
        forall|e: EntryModel| #[trigger] kept_entries(s).contains(e) <==> s.contains(e)
            && !e.is_file,
    decreases s.len(),
{
    if s.len() > 0 {
        let d = s.drop_last();
        let l = s.last();
        lemma_kept_entries_elements(d);
        assert forall|e: EntryModel| #[trigger] kept_entries(s).contains(e) implies s.contains(e)
            && !e.is_file by {
            if !l.is_file && e == l {
                assert(s[s.len() - 1] == e);
            } else {
                if l.is_file {
                    assert(kept_entries(d).contains(e));
                } else {
                    let j = choose|j: int|
                        0 <= j < kept_entries(s).len() && kept_entries(s)[j] == e;
                    assert(kept_entries(d)[j] == e);
                    assert(kept_entries(d).contains(e));
                }
                let i = choose|i: int| 0 <= i < d.len() && d[i] == e;
                assert(s[i] == e);
            }
        }
        assert forall|e: EntryModel| s.contains(e) && !e.is_file implies #[trigger] kept_entries(
            s,
        ).contains(e) by {
            let i = choose|i: int| 0 <= i < s.len() && s[i] == e;
            if i < s.len() - 1 {
                assert(d[i] == e);
                assert(d.contains(e));
                assert(kept_entries(d).contains(e));
                let j = choose|j: int| 0 <= j < kept_entries(d).len() && kept_entries(d)[j] == e;
                if !l.is_file {
                    assert(kept_entries(s)[j] == e);
                }
            } else {
                assert(e == l);
                assert(kept_entries(s).last() == e);
            }
        }
    }
}

proof fn lemma_kept_entries_not_named(s: Seq<EntryModel>, name: Seq<char>)
    requires
        !has_entry(s, name),
    ensures
        !has_entry(kept_entries(s), name),
{
    lemma_kept_entries_elements(s);
    assert forall|k: int| 0 <= k < kept_entries(s).len() implies kept_entries(s)[k].name
        != name by {
        assert(kept_entries(s).contains(kept_entries(s)[k]));
        let e = kept_entries(s)[k];
        let i = choose|i: int| 0 <= i < s.len() && s[i] == e;
        assert(s[i].name != name);
    }
}

proof fn lemma_stale_paths_cover(s: Seq<EntryModel>, p: Seq<char>)
    ensures
        forall|i: int| 0 <= i < s.len() && s[i].is_file ==> #[trigger] stale_paths(s, p).contains(
            p + s[i].name,
        ),
    decreases s.len(),
{
    if s.len() > 0 {
        let d = s.drop_last();
        lemma_stale_paths_cover(d, p);
        assert forall|i: int| 0 <= i < s.len() && s[i].is_file implies #[trigger] stale_paths(
            s,
            p,
        ).contains(p + s[i].name) by {
            if i < s.len() - 1 {
                assert(d[i] == s[i]);
                assert(stale_paths(d, p).contains(p + d[i].name));
                let j = choose|j: int|
                    0 <= j < stale_paths(d, p).len() && stale_paths(d, p)[j] == p + d[i].name;
                assert(stale_paths(s, p)[j] == p + s[i].name);
            } else {
                assert(stale_paths(s, p).last() == p + s.last().name);
            }
        }
    }
}

/// Law: a second cache pass with the same URL, right after a first one on
/// the same directory, is a pure hit — it changes nothing, downloads
/// nothing, and returns the same target path. Only the first pass may
/// download, so two passes perform at most one download in all.
pub proof fn lemma_cache_idempotent(d: DirModel, url: Seq<char>)
    ensures
        ({
            let (d1, p1) = ensure_cached_spec(d, url);
            let (d2, p2) = ensure_cached_spec(d1, url);
            &&& d2 == d1
            &&& p2 is Hit
            &&& plan_path(p2) == plan_path(p1)
        }),
{
    let name = last_segment(url);
    let (d1, p1) = ensure_cached_spec(d, url);
    if !has_entry(d1.entries, name) {
        assert(d1.entries.last().name == name);
    }
    let (d2, p2) = ensure_cached_spec(d1, url);
    assert(d2 =~= d1);
}

/// Law: a cache pass for URL A and then one for URL B, whose final path
/// segment differs, leave the directory holding B's artifact and no other
/// file; in particular A's artifact is gone. Holds whenever no entry of the
/// starting directory already bears B's name: a pre-existing entry named
/// like B's artifact would make the second pass a hit and leave A's
/// artifact in place.
pub proof fn lemma_cache_invalidation(d: DirModel, url_a: Seq<char>, url_b: Seq<char>)
    requires
        last_segment(url_a) != last_segment(url_b),
        !has_entry(d.entries, last_segment(url_b)),
    ensures
        ({
            let (d1, p1) = ensure_cached_spec(d, url_a);
            let (d2, p2) = ensure_cached_spec(d1, url_b);
            &&& has_file(d2.entries, last_segment(url_b))
            &&& forall|i: int| 0 <= i < d2.entries.len() && d2.entries[i].is_file
                ==> d2.entries[i].name == last_segment(url_b)
            &&& !has_file(d2.entries, last_segment(url_a))
        }),
{
    let name_a = last_segment(url_a);
    let name_b = last_segment(url_b);
    let (d1, p1) = ensure_cached_spec(d, url_a);
    let entries0 = if d.exists {
        d.entries
    } else {
        Seq::<EntryModel>::empty()
    };
    assert(!has_entry(entries0, name_b));
    if !has_entry(entries0, name_a) {
        lemma_kept_entries_not_named(entries0, name_b);
        assert forall|k: int| 0 <= k < d1.entries.len() implies d1.entries[k].name != name_b by {
            if k < d1.entries.len() - 1 {
                assert(kept_entries(entries0)[k] == d1.entries[k]);
            }
        }
    }
    assert(!has_entry(d1.entries, name_b));
    let (d2, p2) = ensure_cached_spec(d1, url_b);
    lemma_kept_entries_elements(d1.entries);
    assert(d2.entries.last() == (EntryModel { name: name_b, is_file: true }));
    assert forall|i: int| 0 <= i < d2.entries.len() && d2.entries[i].is_file implies d2.entries[
        i
    ].name == name_b by {
        if i < d2.entries.len() - 1 {
            assert(kept_entries(d1.entries)[i] == d2.entries[i]);
            assert(kept_entries(d1.entries).contains(d2.entries[i]));
        }
    }
}

/// Law: on a cache miss against an existing directory, every file already
/// in the directory is removed — its full path stands in the plan's stale
/// list, and afterwards the only file entry is the new artifact — while
/// every subdirectory survives untouched.
pub proof fn lemma_miss_clears_stale_files(d: DirModel, url: Seq<char>)
    requires
        d.exists,
        !has_entry(d.entries, last_segment(url)),
    ensures
        ({
            let (d1, p) = ensure_cached_spec(d, url);
            &&& p is Fetch
            &&& forall|i: int| 0 <= i < d.entries.len() && d.entries[i].is_file
                ==> p->Fetch_stale.contains(d.path + d.entries[i].name)
            &&& forall|i: int| 0 <= i < d.entries.len() && !d.entries[i].is_file
                ==> d1.entries.contains(d.entries[i])
            &&& forall|i: int| 0 <= i < d1.entries.len() && d1.entries[i].is_file
                ==> d1.entries[i] == (EntryModel { name: last_segment(url), is_file: true })
        }),
{
    let name = last_segment(url);
    let (d1, p) = ensure_cached_spec(d, url);
    lemma_stale_paths_cover(d.entries, d.path);
    lemma_kept_entries_elements(d.entries);
    assert forall|i: int| 0 <= i < d.entries.len() && !d.entries[i].is_file implies d1
        .entries.contains(d.entries[i]) by {
        assert(d.entries.contains(d.entries[i]));
        assert(kept_entries(d.entries).contains(d.entries[i]));
        let j = choose|j: int|
            0 <= j < kept_entries(d.entries).len() && kept_entries(d.entries)[j] == d.entries[i];
        assert(d1.entries[j] == d.entries[i]);
    }
    assert forall|i: int| 0 <= i < d1.entries.len() && d1.entries[i].is_file implies d1.entries[i]
        == (EntryModel { name: name, is_file: true }) by {
        if i < d1.entries.len() - 1 {
            assert(kept_entries(d.entries)[i] == d1.entries[i]);
            assert(kept_entries(d.entries).contains(d1.entries[i]));
        }
    }
}

} // verus!
