use vstd::prelude::*;
use vstd::string::StrSliceExecFns;

use crate::addons::{unique_ids, Addon};
use crate::presets::{Preset, PresetAddon};
use crate::time::{later, spec_later, OffsetTime, UtcTime};

verus! {

/// Everything the report needs to know about one catalog add-on, joined
/// from the catalog and the presets.
#[derive(Debug, Clone, PartialEq, Eq)]
pub struct AddonAnalysis {
    pub id: u64,
    pub name: String,
    pub link: String,
    pub last_update: UtcTime,
    pub last_usage: Option<OffsetTime>,
    pub file_size: u64,
    pub preset_count: usize,
    pub dependency_count: usize,
    pub dependents_count: usize,
}

/// How often `id` occurs in one dependency list.
pub open spec fn count_dep(deps: Seq<u64>, id: u64) -> nat
    decreases deps.len(),
{
    if deps.len() == 0 {
        0
    } else {
        count_dep(deps.drop_last(), id) + (if deps.last() == id {
            1nat
        } else {
            0nat
        })
    }
}

pub open spec fn is_steam_ref(m: PresetAddon, id: u64) -> bool {
    match m {
        PresetAddon::Steam(i) => i == id,
        PresetAddon::Local(_) => false,
    }
}

/// How often a preset's mod list references `id` remotely; `local:`
/// entries never count.
pub open spec fn count_matches(mods: Seq<PresetAddon>, id: u64) -> nat
    decreases mods.len(),
{
    if mods.len() == 0 {
        0
    } else {
        count_matches(mods.drop_last(), id) + (if is_steam_ref(mods.last(), id) {
            1nat
        } else {
            0nat
        })
    }
}

/// How many catalog entries' dependency lists mention `id`, counted once
/// per occurrence; a dependency on an id outside the catalog counts
/// towards nobody.
pub open spec fn spec_dependents_count(id: u64, addons: Seq<Addon>) -> nat
    decreases addons.len(),
{
    if addons.len() == 0 {
        0
    } else {
        spec_dependents_count(id, addons.drop_last()) + count_dep(
            addons.last().dependencies@,
            id,
        )
    }
}

/// How many preset mod entries reference `id`, counted once per entry, so
/// a preset listing an id twice contributes two.
pub open spec fn spec_preset_count(id: u64, presets: Seq<Preset>) -> nat
    decreases presets.len(),
{
    if presets.len() == 0 {
        0
    } else {
        spec_preset_count(id, presets.drop_last()) + count_matches(
            presets.last().mods@,
            id,
        )
    }
}

pub open spec fn spec_merge_usage(u: Option<OffsetTime>, t: OffsetTime) -> OffsetTime {
    match u {
        None => t,
        Some(x) => spec_later(x, t),
    }
}

/// The stamp of the most recently written preset that references `id`, or
/// `None` where no preset does. On a tie of instants the preset later in
/// the input keeps its offset.
pub open spec fn spec_last_usage(id: u64, presets: Seq<Preset>) -> Option<OffsetTime>
    decreases presets.len(),
{
    if presets.len() == 0 {
        None
    } else {
        let prev = spec_last_usage(id, presets.drop_last());
        let p = presets.last();
        if count_matches(p.mods@, id) > 0 {
            Some(spec_merge_usage(prev, p.last_update))
        } else {
            prev
        }
    }
}

/// Sum of all dependency list lengths in the catalog.
pub open spec fn spec_total_deps(addons: Seq<Addon>) -> nat
    decreases addons.len(),
{
    if addons.len() == 0 {
        0
    } else {
        spec_total_deps(addons.drop_last()) + addons.last().dependencies@.len()
    }
}

/// Sum of all mod list lengths across the presets.
pub open spec fn spec_total_mods(presets: Seq<Preset>) -> nat
    decreases presets.len(),
{
    if presets.len() == 0 {
        0
    } else {
        spec_total_mods(presets.drop_last()) + presets.last().mods@.len()
    }
}

/// ASCII-only lowercasing, character by character, as
/// `str::to_ascii_lowercase` folds names for sorting.
pub open spec fn lower_char(c: char) -> char {
    if 'A' as u32 <= c as u32 && c as u32 <= 'Z' as u32 {
        ((c as u8) + 32) as char
    } else {
        c
    }
}

pub open spec fn lower(s: Seq<char>) -> Seq<char> {
    Seq::new(s.len(), |i: int| lower_char(s[i]))
}

/// Lexicographic order on character sequences by code point; with both
/// sides lowercased this is the report's case-insensitive name order.
pub open spec fn lex_le(a: Seq<char>, b: Seq<char>) -> bool
    decreases a.len(),
{
    if a.len() == 0 {
        true
    } else if b.len() == 0 {
        false
    } else if a[0] == b[0] {
        lex_le(a.drop_first(), b.drop_first())
    } else {
        (a[0] as u32) < (b[0] as u32)
    }
}

pub open spec fn key_le(x: AddonAnalysis, y: AddonAnalysis) -> bool {
    lex_le(lower(x.name@), lower(y.name@))
}

/// Stable insertion: `x` goes after every element whose key does not
/// exceed its own, so elements with equal keys keep their input order.
pub open spec fn spec_insert_sorted(s: Seq<AddonAnalysis>, x: AddonAnalysis) -> Seq<
    AddonAnalysis,
>
    decreases s.len(),
{
    if s.len() == 0 {
        seq![x]
    } else if key_le(s[0], x) {
        seq![s[0]] + spec_insert_sorted(s.drop_first(), x)
    } else {
        seq![x] + s
    }
}

/// Stable insertion sort by case-folded name.
pub open spec fn spec_sort(s: Seq<AddonAnalysis>) -> Seq<AddonAnalysis>
    decreases s.len(),
{
    if s.len() == 0 {
        Seq::empty()
    } else {
        spec_insert_sorted(spec_sort(s.drop_last()), s.last())
    }
}

/// The analysis record one add-on collapses to.
pub open spec fn spec_analysis_of(a: Addon, addons: Seq<Addon>, presets: Seq<Preset>) -> AddonAnalysis {
    AddonAnalysis {
        id: a.id,
        name: a.display_name,
        link: a.url,
        last_update: a.last_update,
        last_usage: spec_last_usage(a.id, presets),
        file_size: a.file_system_size,
        preset_count: spec_preset_count(a.id, presets) as usize,
        dependency_count: a.dependencies@.len() as usize,
        dependents_count: spec_dependents_count(a.id, addons) as usize,
    }
}

/// One record per catalog entry, in catalog order, before sorting.
pub open spec fn spec_seeded(addons: Seq<Addon>, presets: Seq<Preset>) -> Seq<AddonAnalysis> {
    Seq::new(addons.len(), |i: int| spec_analysis_of(addons[i], addons, presets))
}

/// The whole engine: one record per catalog entry, sorted by case-folded
/// name, ties keeping catalog order.
pub open spec fn spec_analyze(addons: Seq<Addon>, presets: Seq<Preset>) -> Seq<AddonAnalysis> {
    spec_sort(spec_seeded(addons, presets))
}

proof fn lemma_count_dep_le(deps: Seq<u64>, id: u64)
    ensures
        count_dep(deps, id) <= deps.len(),
    decreases deps.len(),
{
    if deps.len() > 0 {
        lemma_count_dep_le(deps.drop_last(), id);
    }
}

proof fn lemma_count_matches_le(mods: Seq<PresetAddon>, id: u64)
    ensures
        count_matches(mods, id) <= mods.len(),
    decreases mods.len(),
{
    if mods.len() > 0 {
        lemma_count_matches_le(mods.drop_last(), id);
    }
}

proof fn lemma_dependents_le_total(id: u64, addons: Seq<Addon>)
    ensures
        spec_dependents_count(id, addons) <= spec_total_deps(addons),
    decreases addons.len(),
{
    if addons.len() > 0 {
        lemma_dependents_le_total(id, addons.drop_last());
        lemma_count_dep_le(addons.last().dependencies@, id);
    }
}

proof fn lemma_preset_count_le_total(id: u64, presets: Seq<Preset>)
    ensures
        spec_preset_count(id, presets) <= spec_total_mods(presets),
    decreases presets.len(),
{
    if presets.len() > 0 {
        lemma_preset_count_le_total(id, presets.drop_last());
        lemma_count_matches_le(presets.last().mods@, id);
    }
}

proof fn lemma_total_deps_take_step(addons: Seq<Addon>, i: int)
    requires
        0 <= i < addons.len(),
    ensures
        spec_total_deps(addons.take(i + 1)) == spec_total_deps(addons.take(i))
            + addons[i].dependencies@.len(),
{
    assert(addons.take(i + 1).drop_last() =~= addons.take(i));
    assert(addons.take(i + 1).last() == addons[i]);
}

proof fn lemma_total_deps_take_le(addons: Seq<Addon>, i: int)
    requires
        0 <= i <= addons.len(),
    ensures
        spec_total_deps(addons.take(i)) <= spec_total_deps(addons),
    decreases addons.len() - i,
{
    if i < addons.len() {
        lemma_total_deps_take_step(addons, i);
        lemma_total_deps_take_le(addons, i + 1);
    } else {
        assert(addons.take(i) =~= addons);
    }
}

proof fn lemma_total_mods_take_step(presets: Seq<Preset>, i: int)
    requires
        0 <= i < presets.len(),
    ensures
        spec_total_mods(presets.take(i + 1)) == spec_total_mods(presets.take(i))
            + presets[i].mods@.len(),
{
    assert(presets.take(i + 1).drop_last() =~= presets.take(i));
    assert(presets.take(i + 1).last() == presets[i]);
}

proof fn lemma_total_mods_take_le(presets: Seq<Preset>, i: int)
    requires
        0 <= i <= presets.len(),
    ensures
        spec_total_mods(presets.take(i)) <= spec_total_mods(presets),
    decreases presets.len() - i,
{
    if i < presets.len() {
        lemma_total_mods_take_step(presets, i);
        lemma_total_mods_take_le(presets, i + 1);
    } else {
        assert(presets.take(i) =~= presets);
    }
}

/// Merging the same stamp in a second time changes nothing: within one
/// preset only the first matching entry can move the usage stamp.
proof fn lemma_merge_again(u: Option<OffsetTime>, t: OffsetTime)
    ensures
        spec_merge_usage(Some(spec_merge_usage(u, t)), t) == spec_merge_usage(u, t),
{
}

/// The fields that the seed pass copies from the catalog entry.
pub open spec fn static_fields_ok(r: AddonAnalysis, a: Addon) -> bool {
    &&& r.id == a.id
    &&& r.name == a.display_name
    &&& r.link == a.url
    &&& r.last_update == a.last_update
    &&& r.file_size == a.file_system_size
    &&& r.dependency_count == a.dependencies@.len()
}

/// Index of the record carrying `id`, if any.
fn find_analysis(v: &Vec<AddonAnalysis>, id: u64) -> (r: Option<usize>)
    ensures
        match r {
            Some(k) => k < v@.len() && v@[k as int].id == id,
            None => forall|t: int| 0 <= t < v@.len() ==> v@[t].id != id,
        },
{
    let mut i: usize = 0;
    while i < v.len()
        invariant
            i <= v@.len(),
            forall|t: int| 0 <= t < i ==> v@[t].id != id,
        decreases v@.len() - i,
    {
        if v[i].id == id {
            return Some(i);
        }
        i += 1;
    }
    None
}

fn lower_char_x(c: char) -> (r: char)
    ensures
        r == lower_char(c),
{
    let cu = c as u32;
    if 'A' as u32 <= cu && cu <= 'Z' as u32 {
        ((c as u8) + 32) as char
    } else {
        c
    }
}

/// With the first `i` characters equal, order is decided past them.
proof fn lemma_lex_le_skip(x: Seq<char>, y: Seq<char>, i: int)
    requires
        0 <= i <= x.len(),
        i <= y.len(),
        forall|k: int| 0 <= k < i ==> x[k] == y[k],
    ensures
        lex_le(x, y) == lex_le(x.skip(i), y.skip(i)),
    decreases i,
{
    if i == 0 {
        assert(x.skip(0) =~= x);
        assert(y.skip(0) =~= y);
    } else {
        assert(x.len() > 0 && y.len() > 0 && x[0] == y[0]);
        assert forall|k: int| 0 <= k < i - 1 implies x.drop_first()[k] == y.drop_first()[k] by {
            assert(x.drop_first()[k] == x[k + 1]);
            assert(y.drop_first()[k] == y[k + 1]);
        }
        lemma_lex_le_skip(x.drop_first(), y.drop_first(), i - 1);
        assert(x.drop_first().skip(i - 1) =~= x.skip(i));
        assert(y.drop_first().skip(i - 1) =~= y.skip(i));
    }
}

/// Case-insensitive name comparison, deciding `key_le`.
fn le_by_lower_name(a: &AddonAnalysis, b: &AddonAnalysis) -> (r: bool)
    ensures
        r == key_le(*a, *b),
{
    let an = a.name.as_str().unicode_len();
    let bn = b.name.as_str().unicode_len();
    let mut i: usize = 0;
    loop
        invariant
            i <= an,
            i <= bn,
            an == a.name@.len(),
            bn == b.name@.len(),
            forall|k: int| 0 <= k < i ==> lower_char(a.name@[k]) == lower_char(b.name@[k]),
        ensures
            i <= an,
            i <= bn,
            forall|k: int| 0 <= k < i ==> lower_char(a.name@[k]) == lower_char(b.name@[k]),
            i == an || i == bn || lower_char(a.name@[i as int]) != lower_char(b.name@[i as int]),
        decreases an - i,
    {
        if i >= an || i >= bn {
            break ;
        }
        let ca = lower_char_x(a.name.as_str().get_char(i));
        let cb = lower_char_x(b.name.as_str().get_char(i));
        if ca as u32 != cb as u32 {
            break ;
        }
        i += 1;
    }
    proof {
        lemma_lex_le_skip(lower(a.name@), lower(b.name@), i as int);
    }
    if i < an && i < bn {
        let ca = lower_char_x(a.name.as_str().get_char(i));
        let cb = lower_char_x(b.name.as_str().get_char(i));
        proof {
            assert(lower(a.name@).skip(i as int)[0] == lower(a.name@)[i as int]);
            assert(lower(b.name@).skip(i as int)[0] == lower(b.name@)[i as int]);
        }
        (ca as u32) < (cb as u32)
    } else {
        proof {
            if i >= an {
                assert(lower(a.name@).skip(i as int).len() == 0);
            } else {
                assert(lower(a.name@).skip(i as int).len() > 0);
                assert(lower(b.name@).skip(i as int).len() == 0);
            }
        }
        an <= bn
    }
}

/// Inserting at the first position whose element's key exceeds `x`'s is
/// exactly what [`spec_insert_sorted`] does.
proof fn lemma_insert_at(s: Seq<AddonAnalysis>, x: AddonAnalysis, p: int)
    requires
        0 <= p <= s.len(),
        forall|k: int| 0 <= k < p ==> key_le(s[k], x),
        p == s.len() || !key_le(s[p], x),
    ensures
        s.take(p) + seq![x] + s.skip(p) == spec_insert_sorted(s, x),
    decreases p,
{
    if s.len() == 0 {
        assert(s.take(p) + seq![x] + s.skip(p) =~= seq![x]);
    } else if p == 0 {
        assert(s.take(0) + seq![x] + s.skip(0) =~= seq![x] + s);
    } else {
        assert(key_le(s[0], x));
        assert forall|k: int| 0 <= k < p - 1 implies key_le(s.drop_first()[k], x) by {
            assert(s.drop_first()[k] == s[k + 1]);
        }
        if p - 1 < s.drop_first().len() {
            assert(s.drop_first()[p - 1] == s[p]);
        }
        lemma_insert_at(s.drop_first(), x, p - 1);
        assert(s.take(p) + seq![x] + s.skip(p) =~= seq![s[0]] + (s.drop_first().take(p - 1)
            + seq![x] + s.drop_first().skip(p - 1)));
    }
}

/// Stable insertion sort, smallest case-folded name first.
fn sort_by_lower_name(input: Vec<AddonAnalysis>) -> (r: Vec<AddonAnalysis>)
    ensures
        r@ == spec_sort(input@),
{
    let ghost orig = input@;
    let mut v = input;
    let mut out: Vec<AddonAnalysis> = Vec::new();
    let ghost mut done: int = 0;
    while v.len() > 0
        invariant
            0 <= done,
            done + v@.len() == orig.len(),
            v@ == orig.skip(done),
            out@ == spec_sort(orig.take(done)),
        decreases v@.len(),
    {
        let x = v.remove(0);
        proof {
            assert(x == orig[done]);
            assert(orig.take(done + 1).drop_last() =~= orig.take(done));
            assert(orig.take(done + 1).last() == orig[done]);
            assert(v@ == orig.skip(done + 1));
        }
        let mut p: usize = 0;
        loop
            invariant
                p <= out@.len(),
                out@ == spec_sort(orig.take(done)),
                forall|k: int| 0 <= k < p ==> key_le(out@[k], x),
            ensures
                p <= out@.len(),
                out@ == spec_sort(orig.take(done)),
                forall|k: int| 0 <= k < p ==> key_le(out@[k], x),
                p == out@.len() || !key_le(out@[p as int], x),
            decreases out@.len() - p,
        {
            if p >= out.len() {
                break ;
            }
            if !le_by_lower_name(&out[p], &x) {
                break ;
            }
            p += 1;
        }
        proof {
            lemma_insert_at(out@, x, p as int);
        }
        out.insert(p, x);
        proof {
            assert(out@ =~= spec_sort(orig.take(done)).take(p as int) + seq![x] + spec_sort(
                orig.take(done),
            ).skip(p as int));
            done = done + 1;
        }
    }
    proof {
        assert(orig.take(done) =~= orig);
    }
    out
}

/// The record state the dependents pass maintains: statistics over the
/// part of the catalog walked so far, usage untouched.
pub open spec fn dep_pass_ok(
    r: AddonAnalysis,
    a: Addon,
    addons: Seq<Addon>,
    upto: int,
    extra: nat,
) -> bool {
    &&& static_fields_ok(r, a)
    &&& r.preset_count == 0
    &&& r.last_usage is None
    &&& r.dependents_count == spec_dependents_count(a.id, addons.take(upto)) + extra
}

/// The record state the usage pass maintains: dependents complete, usage
/// statistics over the presets walked so far.
pub open spec fn usage_pass_ok(
    r: AddonAnalysis,
    a: Addon,
    addons: Seq<Addon>,
    presets: Seq<Preset>,
    upto: int,
    extra: nat,
    partial_usage: Option<OffsetTime>,
) -> bool {
    &&& static_fields_ok(r, a)
    &&& r.dependents_count == spec_dependents_count(a.id, addons)
    &&& r.preset_count == spec_preset_count(a.id, presets.take(upto)) + extra
    &&& r.last_usage == partial_usage
}

/// Mid-preset usage stamp: the stamp after `cnt` matching entries of a
/// preset stamped `t` have been folded onto `prev`.
pub open spec fn mid_usage(prev: Option<OffsetTime>, cnt: nat, t: OffsetTime) -> Option<
    OffsetTime,
> {
    if cnt > 0 {
        Some(spec_merge_usage(prev, t))
    } else {
        prev
    }
}

/// The Analysis Engine: joins the catalog and the presets into one record
/// per add-on — usage counts and stamps, dependency and dependents counts —
/// sorted by case-folded name. A pure function of its two inputs: equal
/// inputs give the one sequence [`spec_analyze`] names.
pub fn perform_analysis(addons: &Vec<Addon>, presets: &Vec<Preset>) -> (r: Vec<AddonAnalysis>)
    requires
        unique_ids(addons@),
        spec_total_deps(addons@) <= usize::MAX,
        spec_total_mods(presets@) <= usize::MAX,
    ensures
        r@ == spec_analyze(addons@, presets@),
{
    let mut out: Vec<AddonAnalysis> = Vec::new();
    // Seed pass: one record per catalog entry, statistics zeroed.
    let mut i: usize = 0;
    while i < addons.len()
        invariant
            i <= addons@.len(),
            out@.len() == i,
            forall|k: int|
                0 <= k < i ==> #[trigger] dep_pass_ok(out@[k], addons@[k], addons@, 0, 0),
        decreases addons@.len() - i,
    {
        let a = &addons[i];
        out.push(
            AddonAnalysis {
                id: a.id,
                name: a.display_name.clone(),
                link: a.url.clone(),
                last_update: a.last_update,
                last_usage: None,
                file_size: a.file_system_size,
                preset_count: 0,
                dependency_count: a.dependencies.len(),
                dependents_count: 0,
            },
        );
        proof {
            assert(addons@.take(0) =~= Seq::<Addon>::empty());
        }
        i += 1;
    }
    // Dependents pass: walk every dependency list and credit the record it
    // points at; ids outside the catalog credit nobody.
    let mut i: usize = 0;
    while i < addons.len()
        invariant
            unique_ids(addons@),
            spec_total_deps(addons@) <= usize::MAX,
            i <= addons@.len(),
            out@.len() == addons@.len(),
            forall|k: int|
                0 <= k < out@.len() ==> #[trigger] dep_pass_ok(
                    out@[k],
                    addons@[k],
                    addons@,
                    i as int,
                    0,
                ),
        decreases addons@.len() - i,
    {
        let deps_len = addons[i].dependencies.len();
        let mut j: usize = 0;
        while j < deps_len
            invariant
                unique_ids(addons@),
                spec_total_deps(addons@) <= usize::MAX,
                i < addons@.len(),
                j <= deps_len,
                deps_len == addons@[i as int].dependencies@.len(),
                out@.len() == addons@.len(),
                forall|k: int|
                    0 <= k < out@.len() ==> #[trigger] dep_pass_ok(
                        out@[k],
                        addons@[k],
                        addons@,
                        i as int,
                        count_dep(
                            addons@[i as int].dependencies@.take(j as int),
                            addons@[k].id,
                        ),
                    ),
            decreases deps_len - j,
        {
            let d = addons[i].dependencies[j];
            let ghost pre = out@;
            let ghost deps_i = addons@[i as int].dependencies@;
            proof {
                assert(deps_i.take(j as int + 1).drop_last() =~= deps_i.take(j as int));
                assert(deps_i.take(j as int + 1).last() == d);
            }
            match find_analysis(&out, d) {
                Some(k) => {
                    let mut rec = out.remove(k);
                    proof {
                        assert(dep_pass_ok(pre[k as int], addons@[k as int], addons@, i as int,
                            count_dep(deps_i.take(j as int), addons@[k as int].id)));
                        lemma_dependents_le_total(rec.id, addons@.take(i as int));
                        lemma_total_deps_take_le(addons@, i as int + 1);
                        lemma_total_deps_take_step(addons@, i as int);
                        lemma_count_dep_le(deps_i.take(j as int), rec.id);
                        assert(count_dep(deps_i.take(j as int), rec.id) <= j);
                    }
                    rec.dependents_count = rec.dependents_count + 1;
                    out.insert(k, rec);
                    proof {
                        assert(out@ =~= pre.update(k as int, rec));
                        let id0 = addons@[k as int].id;
                        assert(d == id0);
                        assert forall|t: int| 0 <= t < out@.len() implies #[trigger] dep_pass_ok(
                            out@[t],
                            addons@[t],
                            addons@,
                            i as int,
                            count_dep(deps_i.take(j as int + 1), addons@[t].id),
                        ) by {
                            assert(dep_pass_ok(pre[t], addons@[t], addons@, i as int,
                                count_dep(deps_i.take(j as int), addons@[t].id)));
                            if t == k as int {
                                assert(out@[t] == rec);
                                assert(count_dep(deps_i.take(j as int + 1), id0) == count_dep(
                                    deps_i.take(j as int), id0) + 1);
                            } else {
                                assert(out@[t] == pre[t]);
                                assert(addons@[t].id != id0);
                                assert(count_dep(deps_i.take(j as int + 1), addons@[t].id)
                                    == count_dep(deps_i.take(j as int), addons@[t].id));
                            }
                        }
                    }
                },
                None => {
                    proof {
                        assert forall|t: int| 0 <= t < out@.len() implies #[trigger] dep_pass_ok(
                            out@[t],
                            addons@[t],
                            addons@,
                            i as int,
                            count_dep(deps_i.take(j as int + 1), addons@[t].id),
                        ) by {
                            assert(dep_pass_ok(pre[t], addons@[t], addons@, i as int,
                                count_dep(deps_i.take(j as int), addons@[t].id)));
                            assert(out@[t].id != d);
                            assert(count_dep(deps_i.take(j as int + 1), addons@[t].id)
                                == count_dep(deps_i.take(j as int), addons@[t].id));
                        }
                    }
                },
            }
            j += 1;
        }
        proof {
            let deps_i = addons@[i as int].dependencies@;
            assert(deps_i.take(deps_len as int) =~= deps_i);
            assert(addons@.take(i as int + 1).drop_last() =~= addons@.take(i as int));
            assert(addons@.take(i as int + 1).last() == addons@[i as int]);
            assert forall|t: int| 0 <= t < out@.len() implies #[trigger] dep_pass_ok(
                out@[t],
                addons@[t],
                addons@,
                i as int + 1,
                0,
            ) by {
                assert(dep_pass_ok(out@[t], addons@[t], addons@, i as int,
                    count_dep(deps_i.take(deps_len as int), addons@[t].id)));
                assert(spec_dependents_count(addons@[t].id, addons@.take(i as int + 1))
                    == spec_dependents_count(addons@[t].id, addons@.take(i as int)) + count_dep(
                    deps_i, addons@[t].id));
            }
        }
        i += 1;
    }
    // Usage pass: walk every preset's mod list; each remote reference into
    // the catalog counts once and offers the preset's stamp.
    proof {
        assert(addons@.take(addons@.len() as int) =~= addons@);
        assert(presets@.take(0) =~= Seq::<Preset>::empty());
        assert forall|t: int| 0 <= t < out@.len() implies #[trigger] usage_pass_ok(
            out@[t],
            addons@[t],
            addons@,
            presets@,
            0,
            0,
            spec_last_usage(addons@[t].id, presets@.take(0)),
        ) by {
            assert(dep_pass_ok(out@[t], addons@[t], addons@, addons@.len() as int, 0));
        }
    }
    let mut i: usize = 0;
    while i < presets.len()
        invariant
            unique_ids(addons@),
            spec_total_mods(presets@) <= usize::MAX,
            i <= presets@.len(),
            out@.len() == addons@.len(),
            forall|k: int|
                0 <= k < out@.len() ==> #[trigger] usage_pass_ok(
                    out@[k],
                    addons@[k],
                    addons@,
                    presets@,
                    i as int,
                    0,
                    spec_last_usage(addons@[k].id, presets@.take(i as int)),
                ),
        decreases presets@.len() - i,
    {
        let mods_len = presets[i].mods.len();
        let mut j: usize = 0;
        while j < mods_len
            invariant
                unique_ids(addons@),
                spec_total_mods(presets@) <= usize::MAX,
                i < presets@.len(),
                j <= mods_len,
                mods_len == presets@[i as int].mods@.len(),
                out@.len() == addons@.len(),
                forall|k: int|
                    0 <= k < out@.len() ==> #[trigger] usage_pass_ok(
                        out@[k],
                        addons@[k],
                        addons@,
                        presets@,
                        i as int,
                        count_matches(
                            presets@[i as int].mods@.take(j as int),
                            addons@[k].id,
                        ),
                        mid_usage(
                            spec_last_usage(addons@[k].id, presets@.take(i as int)),
                            count_matches(
                                presets@[i as int].mods@.take(j as int),
                                addons@[k].id,
                            ),
                            presets@[i as int].last_update,
                        ),
                    ),
            decreases mods_len - j,
        {
            let ghost mods_i = presets@[i as int].mods@;
            let ghost t_i = presets@[i as int].last_update;
            proof {
                assert(mods_i.take(j as int + 1).drop_last() =~= mods_i.take(j as int));
                assert(mods_i.take(j as int + 1).last() == mods_i[j as int]);
            }
            let m = &presets[i].mods[j];
            match m {
                PresetAddon::Steam(d) => {
                    let d = *d;
                    let ghost pre = out@;
                    match find_analysis(&out, d) {
                        Some(k) => {
                            let stamp = presets[i].last_update;
                            let mut rec = out.remove(k);
                            proof {
                                assert(usage_pass_ok(pre[k as int], addons@[k as int], addons@,
                                    presets@, i as int,
                                    count_matches(mods_i.take(j as int), addons@[k as int].id),
                                    mid_usage(
                                        spec_last_usage(addons@[k as int].id,
                                            presets@.take(i as int)),
                                        count_matches(mods_i.take(j as int),
                                            addons@[k as int].id),
                                        t_i,
                                    )));
                                lemma_preset_count_le_total(rec.id, presets@.take(i as int));
                                lemma_total_mods_take_le(presets@, i as int + 1);
                                lemma_total_mods_take_step(presets@, i as int);
                                lemma_count_matches_le(mods_i.take(j as int), rec.id);
                            }
                            rec.preset_count = rec.preset_count + 1;
                            rec.last_usage = Some(
                                match rec.last_usage {
                                    Some(lu) => later(lu, stamp),
                                    None => stamp,
                                },
                            );
                            out.insert(k, rec);
                            proof {
                                assert(out@ =~= pre.update(k as int, rec));
                                let id0 = addons@[k as int].id;
                                assert(d == id0);
                                assert(is_steam_ref(mods_i[j as int], id0));
                                assert forall|t: int| 0 <= t < out@.len() implies
                                    #[trigger] usage_pass_ok(
                                    out@[t],
                                    addons@[t],
                                    addons@,
                                    presets@,
                                    i as int,
                                    count_matches(mods_i.take(j as int + 1), addons@[t].id),
                                    mid_usage(
                                        spec_last_usage(addons@[t].id, presets@.take(i as int)),
                                        count_matches(mods_i.take(j as int + 1), addons@[t].id),
                                        t_i,
                                    ),
                                ) by {
                                    assert(usage_pass_ok(pre[t], addons@[t], addons@, presets@,
                                        i as int,
                                        count_matches(mods_i.take(j as int), addons@[t].id),
                                        mid_usage(
                                            spec_last_usage(addons@[t].id,
                                                presets@.take(i as int)),
                                            count_matches(mods_i.take(j as int),
                                                addons@[t].id),
                                            t_i,
                                        )));
                                    let prev = spec_last_usage(addons@[t].id,
                                        presets@.take(i as int));
                                    if t == k as int {
                                        assert(out@[t] == rec);
                                        assert(count_matches(mods_i.take(j as int + 1), id0)
                                            == count_matches(mods_i.take(j as int), id0) + 1);
                                        lemma_merge_again(prev, t_i);
                                    } else {
                                        assert(out@[t] == pre[t]);
                                        assert(addons@[t].id != id0);
                                        assert(!is_steam_ref(mods_i[j as int], addons@[t].id));
                                        assert(count_matches(mods_i.take(j as int + 1),
                                            addons@[t].id) == count_matches(
                                            mods_i.take(j as int), addons@[t].id));
                                    }
                                }
                            }
                        },
                        None => {
                            proof {
                                assert forall|t: int| 0 <= t < out@.len() implies
                                    #[trigger] usage_pass_ok(
                                    out@[t],
                                    addons@[t],
                                    addons@,
                                    presets@,
                                    i as int,
                                    count_matches(mods_i.take(j as int + 1), addons@[t].id),
                                    mid_usage(
                                        spec_last_usage(addons@[t].id, presets@.take(i as int)),
                                        count_matches(mods_i.take(j as int + 1), addons@[t].id),
                                        t_i,
                                    ),
                                ) by {
                                    assert(usage_pass_ok(pre[t], addons@[t], addons@, presets@,
                                        i as int,
                                        count_matches(mods_i.take(j as int), addons@[t].id),
                                        mid_usage(
                                            spec_last_usage(addons@[t].id,
                                                presets@.take(i as int)),
                                            count_matches(mods_i.take(j as int),
                                                addons@[t].id),
                                            t_i,
                                        )));
                                    assert(out@[t].id != d);
                                    assert(!is_steam_ref(mods_i[j as int], addons@[t].id));
                                    assert(count_matches(mods_i.take(j as int + 1),
                                        addons@[t].id) == count_matches(mods_i.take(j as int),
                                        addons@[t].id));
                                }
                            }
                        },
                    }
                },
                PresetAddon::Local(_) => {
                    proof {
                        assert forall|t: int| 0 <= t < out@.len() implies
                            #[trigger] usage_pass_ok(
                            out@[t],
                            addons@[t],
                            addons@,
                            presets@,
                            i as int,
                            count_matches(mods_i.take(j as int + 1), addons@[t].id),
                            mid_usage(
                                spec_last_usage(addons@[t].id, presets@.take(i as int)),
                                count_matches(mods_i.take(j as int + 1), addons@[t].id),
                                t_i,
                            ),
                        ) by {
                            assert(usage_pass_ok(out@[t], addons@[t], addons@, presets@,
                                i as int,
                                count_matches(mods_i.take(j as int), addons@[t].id),
                                mid_usage(
                                    spec_last_usage(addons@[t].id, presets@.take(i as int)),
                                    count_matches(mods_i.take(j as int), addons@[t].id),
                                    t_i,
                                )));
                            assert(!is_steam_ref(mods_i[j as int], addons@[t].id));
                            assert(count_matches(mods_i.take(j as int + 1), addons@[t].id)
                                == count_matches(mods_i.take(j as int), addons@[t].id));
                        }
                    }
                },
            }
            j += 1;
        }
        proof {
            let mods_i = presets@[i as int].mods@;
            assert(mods_i.take(mods_len as int) =~= mods_i);
            assert(presets@.take(i as int + 1).drop_last() =~= presets@.take(i as int));
            assert(presets@.take(i as int + 1).last() == presets@[i as int]);
            assert forall|t: int| 0 <= t < out@.len() implies #[trigger] usage_pass_ok(
                out@[t],
                addons@[t],
                addons@,
                presets@,
                i as int + 1,
                0,
                spec_last_usage(addons@[t].id, presets@.take(i as int + 1)),
            ) by {
                assert(usage_pass_ok(out@[t], addons@[t], addons@, presets@, i as int,
                    count_matches(mods_i.take(mods_len as int), addons@[t].id),
                    mid_usage(
                        spec_last_usage(addons@[t].id, presets@.take(i as int)),
                        count_matches(mods_i.take(mods_len as int), addons@[t].id),
                        presets@[i as int].last_update,
                    )));
                assert(spec_preset_count(addons@[t].id, presets@.take(i as int + 1))
                    == spec_preset_count(addons@[t].id, presets@.take(i as int)) + count_matches(
                    mods_i, addons@[t].id));
            }
        }
        i += 1;
    }
    proof {
        assert(presets@.take(presets@.len() as int) =~= presets@);
        assert(out@ =~= spec_seeded(addons@, presets@)) by {
            assert forall|k: int| 0 <= k < out@.len() implies out@[k] == spec_seeded(
                addons@,
                presets@,
            )[k] by {
                assert(usage_pass_ok(out@[k], addons@[k], addons@, presets@,
                    presets@.len() as int, 0,
                    spec_last_usage(addons@[k].id, presets@.take(presets@.len() as int))));
            }
        }
    }
    sort_by_lower_name(out)
}

/// Running the engine twice on the same inputs yields the same output,
/// order and values alike: [`perform_analysis`] pins its result to
/// [`spec_analyze`], a function of the two inputs alone.
pub proof fn lemma_analysis_deterministic(
    addons: Seq<Addon>,
    presets: Seq<Preset>,
    r1: Seq<AddonAnalysis>,
    r2: Seq<AddonAnalysis>,
)
    requires
        r1 == spec_analyze(addons, presets),
        r2 == spec_analyze(addons, presets),
    ensures
        r1 == r2,
{
}

/// Splitting one entry out of the catalog splits the dependents count: the
/// entry at `j` contributes to `id`'s dependents count exactly the number
/// of times `id` occurs in its dependency list, wherever in the catalog it
/// stands.
pub proof fn lemma_dependents_contribution(addons: Seq<Addon>, j: int, id: u64)
    requires
        0 <= j < addons.len(),
    ensures
        spec_dependents_count(id, addons) == spec_dependents_count(id, addons.remove(j))
            + count_dep(addons[j].dependencies@, id),
    decreases addons.len(),
{
    if j == addons.len() - 1 {
        assert(addons.remove(j) =~= addons.drop_last());
    } else {
        lemma_dependents_contribution(addons.drop_last(), j, id);
        assert(addons.drop_last()[j] == addons[j]);
        assert(addons.remove(j).drop_last() =~= addons.drop_last().remove(j));
        assert(addons.remove(j).last() == addons.last());
    }
}

/// A dependency id that no catalog entry owns is inert: a catalog that
/// differs from another only by such a reference, appended to one entry's
/// dependency list, computes the same dependents count for every add-on —
/// and the engine raises no error, since it has none to raise.
pub proof fn lemma_dangling_reference_inert(
    addons1: Seq<Addon>,
    addons2: Seq<Addon>,
    j: int,
    d: u64,
)
    requires
        addons1.len() == addons2.len(),
        0 <= j < addons1.len(),
        forall|k: int| 0 <= k < addons1.len() && k != j ==> addons2[k] == addons1[k],
        addons2[j].dependencies@ == addons1[j].dependencies@.push(d),
        forall|k: int| 0 <= k < addons1.len() ==> addons1[k].id != d,
    ensures
        forall|k: int|
            0 <= k < addons1.len() ==> spec_dependents_count(#[trigger] addons1[k].id, addons2)
                == spec_dependents_count(addons1[k].id, addons1),
{
    assert forall|k: int| 0 <= k < addons1.len() implies spec_dependents_count(
        #[trigger] addons1[k].id,
        addons2,
    ) == spec_dependents_count(addons1[k].id, addons1) by {
        let id = addons1[k].id;
        lemma_dependents_contribution(addons2, j, id);
        lemma_dependents_contribution(addons1, j, id);
        assert(addons2.remove(j) =~= addons1.remove(j));
        let old_deps = addons1[j].dependencies@;
        assert(old_deps.push(d).drop_last() =~= old_deps);
        assert(old_deps.push(d).last() == d);
        assert(count_dep(addons2[j].dependencies@, id) == count_dep(old_deps, id));
    }
}

/// Splitting one preset out splits the count: the preset at `j`
/// contributes to `id`'s preset count exactly the number of remote
/// references to `id` its list holds.
pub proof fn lemma_preset_count_contribution(presets: Seq<Preset>, j: int, id: u64)
    requires
        0 <= j < presets.len(),
    ensures
        spec_preset_count(id, presets) == spec_preset_count(id, presets.remove(j))
            + count_matches(presets[j].mods@, id),
    decreases presets.len(),
{
    if j == presets.len() - 1 {
        assert(presets.remove(j) =~= presets.drop_last());
    } else {
        lemma_preset_count_contribution(presets.drop_last(), j, id);
        assert(presets.drop_last()[j] == presets[j]);
        assert(presets.remove(j).drop_last() =~= presets.drop_last().remove(j));
        assert(presets.remove(j).last() == presets.last());
    }
}

/// One more remote reference to `id` in any one preset's list — a
/// duplicate included — raises `id`'s preset count by exactly one: the
/// engine counts occurrences, not referencing presets.
pub proof fn lemma_duplicate_reference_counts(
    presets1: Seq<Preset>,
    presets2: Seq<Preset>,
    j: int,
    id: u64,
)
    requires
        presets1.len() == presets2.len(),
        0 <= j < presets1.len(),
        forall|k: int| 0 <= k < presets1.len() && k != j ==> presets2[k] == presets1[k],
        presets2[j].mods@ == presets1[j].mods@.push(PresetAddon::Steam(id)),
    ensures
        spec_preset_count(id, presets2) == spec_preset_count(id, presets1) + 1,
{
    lemma_preset_count_contribution(presets2, j, id);
    lemma_preset_count_contribution(presets1, j, id);
    assert(presets2.remove(j) =~= presets1.remove(j));
    let old_mods = presets1[j].mods@;
    assert(old_mods.push(PresetAddon::Steam(id)).drop_last() =~= old_mods);
    assert(old_mods.push(PresetAddon::Steam(id)).last() == PresetAddon::Steam(id));
}

/// Whether a preset references `id` remotely at all.
pub open spec fn references(p: Preset, id: u64) -> bool {
    count_matches(p.mods@, id) > 0
}

/// The usage stamp is the maximum: it is present exactly when some preset
/// references the id; it is then the stamp of one referencing preset, and
/// no referencing preset carries a later instant. Presets stamped
/// `t1 < t2 < t3` and all referencing an id therefore leave it `t3`.
pub proof fn lemma_last_usage_is_max(id: u64, presets: Seq<Preset>)
    ensures
        (spec_last_usage(id, presets) is Some) == exists|j: int|
            0 <= j < presets.len() && #[trigger] references(presets[j], id),
        spec_last_usage(id, presets) matches Some(t) ==> exists|j: int|
            0 <= j < presets.len() && #[trigger] references(presets[j], id)
                && presets[j].last_update == t,
        spec_last_usage(id, presets) matches Some(t) ==> forall|j: int|
            0 <= j < presets.len() && #[trigger] references(presets[j], id)
                ==> presets[j].last_update.epoch_ms <= t.epoch_ms,
    decreases presets.len(),
{
    if presets.len() > 0 {
        lemma_last_usage_is_max(id, presets.drop_last());
        let n = presets.len() as int;
        assert(forall|j: int| 0 <= j < n - 1 ==> presets.drop_last()[j] == presets[j]);
        if references(presets[n - 1], id) {
            assert(count_matches(presets.last().mods@, id) > 0);
        }
        if spec_last_usage(id, presets) is Some && !(spec_last_usage(id, presets.drop_last())
            is Some) {
            assert(references(presets[n - 1], id));
        }
    }
}

/// With every preset referencing `id` exactly once, the preset count is
/// exactly the number of presets.
pub proof fn lemma_one_reference_per_preset(id: u64, presets: Seq<Preset>)
    requires
        forall|k: int|
            0 <= k < presets.len() ==> #[trigger] count_matches(presets[k].mods@, id) == 1,
    ensures
        spec_preset_count(id, presets) == presets.len(),
    decreases presets.len(),
{
    if presets.len() > 0 {
        let n = presets.len() as int;
        assert(forall|k: int| 0 <= k < n - 1 ==> presets.drop_last()[k] == presets[k]);
        assert forall|k: int|
            0 <= k < n - 1 implies #[trigger] count_matches(
            presets.drop_last()[k].mods@,
            id,
        ) == 1 by {
            assert(count_matches(presets[k].mods@, id) == 1);
        }
        lemma_one_reference_per_preset(id, presets.drop_last());
        assert(count_matches(presets[n - 1].mods@, id) == 1);
    }
}

/// A `local:` reference never moves a statistic: with one preset's list
/// extended by a local entry, every preset count, every usage stamp, and
/// hence the whole analysis of any catalog, is unchanged.
pub proof fn lemma_local_reference_inert(
    presets1: Seq<Preset>,
    presets2: Seq<Preset>,
    j: int,
    m: PresetAddon,
)
    requires
        presets1.len() == presets2.len(),
        0 <= j < presets1.len(),
        forall|k: int| 0 <= k < presets1.len() && k != j ==> presets2[k] == presets1[k],
        presets2[j].last_update == presets1[j].last_update,
        presets2[j].mods@ == presets1[j].mods@.push(m),
        m matches PresetAddon::Local(_),
    ensures
        forall|id: u64| spec_preset_count(id, presets2) == spec_preset_count(id, presets1),
        forall|id: u64| spec_last_usage(id, presets2) == spec_last_usage(id, presets1),
        forall|addons: Seq<Addon>|
            spec_analyze(addons, presets2) == spec_analyze(addons, presets1),
{
    assert forall|id: u64|
        #[trigger] count_matches(presets2[j].mods@, id) == count_matches(
        presets1[j].mods@,
        id,
    ) by {
        let old_mods = presets1[j].mods@;
        assert(old_mods.push(m).drop_last() =~= old_mods);
        assert(old_mods.push(m).last() == m);
        assert(!is_steam_ref(m, id));
    }
    assert forall|id: u64|
        #[trigger] spec_preset_count(id, presets2) == spec_preset_count(id, presets1) by {
        lemma_usage_congruent(presets1, presets2, id);
    }
    assert forall|id: u64|
        #[trigger] spec_last_usage(id, presets2) == spec_last_usage(id, presets1) by {
        lemma_usage_congruent(presets1, presets2, id);
    }
    assert forall|addons: Seq<Addon>|
        #[trigger] spec_analyze(addons, presets2) == spec_analyze(addons, presets1) by {
        assert(spec_seeded(addons, presets2) =~= spec_seeded(addons, presets1));
    }
}

/// Two preset lists whose entries agree pairwise on stamp and on how often
/// they reference `id` feed the usage statistics identically.
proof fn lemma_usage_congruent(presets1: Seq<Preset>, presets2: Seq<Preset>, id: u64)
    requires
        presets1.len() == presets2.len(),
        forall|k: int|
            0 <= k < presets1.len() ==> #[trigger] count_matches(presets2[k].mods@, id)
                == count_matches(presets1[k].mods@, id) && presets2[k].last_update
                == presets1[k].last_update,
    ensures
        spec_preset_count(id, presets2) == spec_preset_count(id, presets1),
        spec_last_usage(id, presets2) == spec_last_usage(id, presets1),
    decreases presets1.len(),
{
    if presets1.len() > 0 {
        let n = presets1.len() as int;
        assert(forall|k: int|
            0 <= k < n - 1 ==> presets1.drop_last()[k] == presets1[k] && presets2.drop_last()[k]
                == presets2[k]);
        assert forall|k: int|
            0 <= k < n - 1 implies #[trigger] count_matches(presets2.drop_last()[k].mods@, id)
                == count_matches(presets1.drop_last()[k].mods@, id)
                && presets2.drop_last()[k].last_update
                == presets1.drop_last()[k].last_update by {
            assert(count_matches(presets2[k].mods@, id) == count_matches(
                presets1[k].mods@,
                id,
            ));
        }
        lemma_usage_congruent(presets1.drop_last(), presets2.drop_last(), id);
        assert(count_matches(presets2[n - 1].mods@, id) == count_matches(
            presets1[n - 1].mods@,
            id,
        ));
        assert(presets2.last().last_update == presets1.last().last_update);
        assert(presets2.last() == presets2[n - 1]);
        assert(spec_preset_count(id, presets2) == spec_preset_count(id, presets2.drop_last())
            + count_matches(presets2.last().mods@, id));
        assert(spec_preset_count(id, presets1) == spec_preset_count(id, presets1.drop_last())
            + count_matches(presets1.last().mods@, id));
        assert(spec_last_usage(id, presets2) == spec_last_usage(id, presets1));
    }
}

/// Non-strict order by case-folded name.
pub open spec fn sorted_by_key(s: Seq<AddonAnalysis>) -> bool {
    forall|i: int, j: int| 0 <= i < j < s.len() ==> key_le(#[trigger] s[i], #[trigger] s[j])
}

proof fn lemma_lex_le_total(a: Seq<char>, b: Seq<char>)
    ensures
        lex_le(a, b) || lex_le(b, a),
    decreases a.len(),
{
    if a.len() > 0 && b.len() > 0 {
        if a[0] == b[0] {
            lemma_lex_le_total(a.drop_first(), b.drop_first());
        } else {
            vstd::utf8::char_u32_cast(a[0], a[0] as u32);
            vstd::utf8::char_u32_cast(b[0], b[0] as u32);
        }
    }
}

proof fn lemma_lex_le_trans(a: Seq<char>, b: Seq<char>, c: Seq<char>)
    requires
        lex_le(a, b),
        lex_le(b, c),
    ensures
        lex_le(a, c),
    decreases a.len(),
{
    if a.len() > 0 && b.len() > 0 && c.len() > 0 && a[0] == b[0] && b[0] == c[0] {
        lemma_lex_le_trans(a.drop_first(), b.drop_first(), c.drop_first());
    }
}

/// A lower bound of a sequence and of `x` bounds the insertion too.
proof fn lemma_insert_lower_bound(s: Seq<AddonAnalysis>, x: AddonAnalysis, e: AddonAnalysis)
    requires
        forall|t: int| 0 <= t < s.len() ==> key_le(e, #[trigger] s[t]),
        key_le(e, x),
    ensures
        forall|k: int|
            0 <= k < spec_insert_sorted(s, x).len() ==> key_le(
                e,
                #[trigger] spec_insert_sorted(s, x)[k],
            ),
    decreases s.len(),
{
    if s.len() > 0 && key_le(s[0], x) {
        assert(forall|t: int| 0 <= t < s.drop_first().len() ==> s.drop_first()[t] == s[t + 1]);
        lemma_insert_lower_bound(s.drop_first(), x, e);
        assert(forall|k: int|
            1 <= k < spec_insert_sorted(s, x).len() ==> spec_insert_sorted(s, x)[k]
                == spec_insert_sorted(s.drop_first(), x)[k - 1]);
    }
}

proof fn lemma_insert_keeps_sorted(s: Seq<AddonAnalysis>, x: AddonAnalysis)
    requires
        sorted_by_key(s),
    ensures
        sorted_by_key(spec_insert_sorted(s, x)),
    decreases s.len(),
{
    if s.len() == 0 {
    } else if key_le(s[0], x) {
        let rest = s.drop_first();
        assert(forall|t: int| 0 <= t < rest.len() ==> rest[t] == s[t + 1]);
        lemma_insert_keeps_sorted(rest, x);
        lemma_insert_lower_bound(rest, x, s[0]);
        let r = spec_insert_sorted(s, x);
        assert(forall|k: int|
            1 <= k < r.len() ==> r[k] == spec_insert_sorted(rest, x)[k - 1]);
        assert forall|i: int, j: int| 0 <= i < j < r.len() implies key_le(
            #[trigger] r[i],
            #[trigger] r[j],
        ) by {
            if i == 0 {
                assert(key_le(s[0], spec_insert_sorted(rest, x)[j - 1]));
            }
        }
    } else {
        lemma_lex_le_total(lower(s[0].name@), lower(x.name@));
        assert(key_le(x, s[0]));
        let r = spec_insert_sorted(s, x);
        assert(r =~= seq![x] + s);
        assert forall|i: int, j: int| 0 <= i < j < r.len() implies key_le(
            #[trigger] r[i],
            #[trigger] r[j],
        ) by {
            if i == 0 {
                if j > 1 {
                    lemma_lex_le_trans(lower(x.name@), lower(s[0].name@), lower(s[j - 1].name@));
                }
            }
        }
    }
}

proof fn lemma_sort_sorted(s: Seq<AddonAnalysis>)
    ensures
        sorted_by_key(spec_sort(s)),
    decreases s.len(),
{
    if s.len() > 0 {
        lemma_sort_sorted(s.drop_last());
        lemma_insert_keeps_sorted(spec_sort(s.drop_last()), s.last());
    }
}

/// The engine's output is ordered by case-folded name from first row to
/// last; names equal under folding keep their catalog order, since
/// [`spec_insert_sorted`] sends a later element past every equal key.
pub proof fn lemma_analyze_sorted(addons: Seq<Addon>, presets: Seq<Preset>)
    ensures
        sorted_by_key(spec_analyze(addons, presets)),
{
    lemma_sort_sorted(spec_seeded(addons, presets));
}

proof fn lemma_insert_len(s: Seq<AddonAnalysis>, x: AddonAnalysis)
    ensures
        spec_insert_sorted(s, x).len() == s.len() + 1,
    decreases s.len(),
{
    if s.len() > 0 && key_le(s[0], x) {
        lemma_insert_len(s.drop_first(), x);
    }
}

/// Sorting loses nothing and invents nothing: the engine emits exactly one
/// record per catalog entry.
pub proof fn lemma_analyze_len(addons: Seq<Addon>, presets: Seq<Preset>)
    ensures
        spec_analyze(addons, presets).len() == addons.len(),
{
    lemma_sort_len(spec_seeded(addons, presets));
}

proof fn lemma_sort_len(s: Seq<AddonAnalysis>)
    ensures
        spec_sort(s).len() == s.len(),
    decreases s.len(),
{
    if s.len() > 0 {
        lemma_sort_len(s.drop_last());
        lemma_insert_len(spec_sort(s.drop_last()), s.last());
    }
}

} // verus!
