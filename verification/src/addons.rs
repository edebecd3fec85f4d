use vstd::prelude::*;

use crate::time::UtcTime;

verus! {

/// One installed add-on, as the catalog records it.
#[derive(Debug, Clone, PartialEq, Eq)]
pub struct Addon {
    pub id: u64,
    pub display_name: String,
    pub path: String,
    pub url: String,
    pub file_system_size: u64,
    pub file_system_space_required: u64,
    pub last_update: UtcTime,
    pub dependencies: Vec<u64>,
}

/// The raw shape of one catalog entry, exactly as the catalog document
/// nests it; decoding into this shape happens outside the library.
#[derive(Debug, Clone, PartialEq, Eq)]
pub struct ExtensionRepr {
    pub display_name: String,
    pub extension_path: String,
    pub file_system_space_required: u64,
    pub url: String,
    pub storage_info: StorageInfoRepr,
    pub steam_dependencies: Vec<u64>,
}

#[derive(Debug, Clone, PartialEq, Eq)]
pub struct StorageInfoRepr {
    pub published_id: u64,
    pub last_update: UtcTime,
    pub file_system_size: u64,
}

impl Addon {
    /// Flattens one raw catalog entry into an [`Addon`]: every field is
    /// carried over unchanged, only the nesting goes away.
    pub fn from_extension_repr(extension: ExtensionRepr) -> (r: Self)
        ensures
            r.id == extension.storage_info.published_id,
            r.display_name == extension.display_name,
            r.path == extension.extension_path,
            r.url == extension.url,
            r.file_system_size == extension.storage_info.file_system_size,
            r.file_system_space_required == extension.file_system_space_required,
            r.last_update == extension.storage_info.last_update,
            r.dependencies == extension.steam_dependencies,
    {
        let ExtensionRepr {
            display_name,
            extension_path: path,
            file_system_space_required,
            url,
            storage_info: StorageInfoRepr { published_id: id, last_update, file_system_size },
            steam_dependencies: dependencies,
        } = extension;

        Addon {
            id,
            display_name,
            path,
            url,
            file_system_size,
            file_system_space_required,
            last_update,
            dependencies,
        }
    }
}

/// No two catalog entries share an id.
pub open spec fn unique_ids(s: Seq<Addon>) -> bool {
    forall|i: int, j: int| 0 <= i < j < s.len() ==> s[i].id != s[j].id
}

/// Index of the first entry carrying `id`, or -1 if none does.
pub open spec fn spec_find_id(s: Seq<Addon>, id: u64) -> int
    decreases s.len(),
{
    if s.len() == 0 {
        -1
    } else if s[0].id == id {
        0
    } else {
        let r = spec_find_id(s.drop_first(), id);
        if r == -1 {
            -1
        } else {
            r + 1
        }
    }
}

/// Adds one entry to a catalog keyed by id: a fresh id goes to the end, a
/// repeated id replaces the entry already holding it.
pub open spec fn spec_upsert(acc: Seq<Addon>, a: Addon) -> Seq<Addon> {
    let i = spec_find_id(acc, a.id);
    if i == -1 {
        acc.push(a)
    } else {
        acc.update(i, a)
    }
}

/// The catalog that a raw entry list collapses to: entries are taken in
/// source order and duplicate ids collapse to the last occurrence seen,
/// which keeps the position of the first.
pub open spec fn spec_catalog(entries: Seq<Addon>) -> Seq<Addon>
    decreases entries.len(),
{
    if entries.len() == 0 {
        Seq::empty()
    } else {
        spec_upsert(spec_catalog(entries.drop_last()), entries.last())
    }
}

proof fn lemma_find_id_props(s: Seq<Addon>, id: u64)
    ensures
        spec_find_id(s, id) == -1 ==> forall|k: int| 0 <= k < s.len() ==> s[k].id != id,
        spec_find_id(s, id) != -1 ==> 0 <= spec_find_id(s, id) < s.len() && s[spec_find_id(
            s,
            id,
        )].id == id,
    decreases s.len(),
{
    if s.len() > 0 && s[0].id != id {
        lemma_find_id_props(s.drop_first(), id);
        assert forall|k: int| spec_find_id(s, id) == -1 && 0 <= k < s.len() implies s[k].id
            != id by {
            if k > 0 {
                assert(s.drop_first()[k - 1] == s[k]);
            }
        }
    }
}

proof fn lemma_upsert_unique(acc: Seq<Addon>, a: Addon)
    requires
        unique_ids(acc),
    ensures
        unique_ids(spec_upsert(acc, a)),
{
    lemma_find_id_props(acc, a.id);
}

proof fn lemma_catalog_unique(entries: Seq<Addon>)
    ensures
        unique_ids(spec_catalog(entries)),
    decreases entries.len(),
{
    if entries.len() > 0 {
        lemma_catalog_unique(entries.drop_last());
        lemma_upsert_unique(spec_catalog(entries.drop_last()), entries.last());
    }
}

/// Index of the first entry of `v` carrying `id`, if any.
fn find_addon(v: &Vec<Addon>, id: u64) -> (r: Option<usize>)
    ensures
        match r {
            Some(i) => i < v@.len() && v@[i as int].id == id && spec_find_id(v@, id) == i,
            None => spec_find_id(v@, id) == -1,
        },
{
    let mut i: usize = 0;
    while i < v.len()
        invariant
            i <= v@.len(),
            forall|k: int| 0 <= k < i ==> v@[k].id != id,
        decreases v@.len() - i,
    {
        if v[i].id == id {
            proof {
                lemma_find_first_is(v@, id, i as int);
            }
            return Some(i);
        }
        i += 1;
    }
    proof {
        lemma_find_none(v@, id);
    }
    None
}

proof fn lemma_find_first_is(s: Seq<Addon>, id: u64, i: int)
    requires
        0 <= i < s.len(),
        s[i].id == id,
        forall|k: int| 0 <= k < i ==> s[k].id != id,
    ensures
        spec_find_id(s, id) == i,
    decreases s.len(),
{
    if i > 0 {
        assert forall|k: int| 0 <= k < i - 1 implies s.drop_first()[k].id != id by {
            assert(s.drop_first()[k] == s[k + 1]);
        }
        assert(s.drop_first()[i - 1] == s[i]);
        lemma_find_first_is(s.drop_first(), id, i - 1);
    }
}

proof fn lemma_find_none(s: Seq<Addon>, id: u64)
    requires
        forall|k: int| 0 <= k < s.len() ==> s[k].id != id,
    ensures
        spec_find_id(s, id) == -1,
    decreases s.len(),
{
    if s.len() > 0 {
        assert forall|k: int| 0 <= k < s.drop_first().len() implies s.drop_first()[k].id != id by {
            assert(s.drop_first()[k] == s[k + 1]);
        }
        lemma_find_none(s.drop_first(), id);
    }
}

/// Collapses a decoded entry list into the catalog: entries keyed by id,
/// duplicate ids collapsing to the last occurrence in source order.
pub fn catalog_from_entries(entries: Vec<Addon>) -> (r: Vec<Addon>)
    ensures
        r@ == spec_catalog(entries@),
        unique_ids(r@),
{
    let ghost orig = entries@;
    let mut entries = entries;
    let mut out: Vec<Addon> = Vec::new();
    let ghost mut done: int = 0;
    while entries.len() > 0
        invariant
            0 <= done,
            done + entries@.len() == orig.len(),
            entries@ == orig.skip(done),
            out@ == spec_catalog(orig.take(done)),
        decreases entries@.len(),
    {
        let a = entries.remove(0);
        proof {
            assert(a == orig[done]);
            assert(orig.take(done + 1).drop_last() == orig.take(done));
            assert(orig.take(done + 1).last() == orig[done]);
            assert(entries@ == orig.skip(done + 1));
        }
        match find_addon(&out, a.id) {
            Some(i) => {
                out.remove(i);
                out.insert(i, a);
                proof {
                    assert(out@ =~= spec_upsert(spec_catalog(orig.take(done)), a));
                }
            },
            None => {
                out.push(a);
            },
        }
        proof {
            done = done + 1;
        }
    }
    proof {
        assert(orig.take(done) == orig);
        lemma_catalog_unique(orig);
    }
    out
}

} // verus!
