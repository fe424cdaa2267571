//! The catalog aggregator: collects the bundles that survived discovery
//! and parsing, drops the failures, orders the survivors by path, removes
//! duplicated paths, and sums the sizes bottom-up.

use vstd::prelude::*;
use vstd::multiset::Multiset;
use vstd::seq_lib::group_to_multiset_ensures;
use vstd::seq_lib::lemma_multiset_commutative;
use crate::records::{Bundle, BundleView, Catalog, CatalogView, MediaEntry, MediaEntryView};
use crate::sidecar::ParseError;
use crate::text::{lex_le, lemma_lex_le_antisym, lemma_lex_le_total, lemma_lex_le_trans, str_le};

verus! {

/// The bundles stand in lexicographic path order.
pub open spec fn path_sorted(s: Seq<BundleView>) -> bool {
    forall|i: int, j: int|
        0 <= i < j < s.len() ==> lex_le(#[trigger] s[i].path, #[trigger] s[j].path)
}

/// No two bundles share a path.
pub open spec fn distinct_paths(s: Seq<BundleView>) -> bool {
    forall|i: int, j: int| 0 <= i < j < s.len() ==> #[trigger] s[i].path != #[trigger] s[j].path
}

/// The views of a sequence of bundles.
pub open spec fn views(s: Seq<Bundle>) -> Seq<BundleView> {
    s.map_values(|b: Bundle| b@)
}

/// Saturating addition on byte counts: the aggregate size is clamped at
/// `u64::MAX` rather than wrapping.
pub open spec fn sat_add(a: u64, b: u64) -> u64 {
    if a + b > u64::MAX {
        u64::MAX
    } else {
        (a + b) as u64
    }
}

/// The clamped sum of the sizes of a list of media entries.
pub open spec fn media_total(ms: Seq<MediaEntryView>) -> u64
    decreases ms.len(),
{
    if ms.len() == 0 {
        0
    } else {
        sat_add(media_total(ms.drop_last()), ms.last().size)
    }
}

/// What one bundle contributes to the catalog total: its own file size
/// plus the size of every one of its media entries.
pub open spec fn bundle_weight(b: BundleView) -> u64 {
    sat_add(b.size, media_total(b.media))
}

/// The clamped sum of the weights of a sequence of bundles.
pub open spec fn catalog_total(bs: Seq<BundleView>) -> u64
    decreases bs.len(),
{
    if bs.len() == 0 {
        0
    } else {
        sat_add(catalog_total(bs.drop_last()), bundle_weight(bs.last()))
    }
}

/// Insert a bundle into a path-sorted sequence, after every bundle whose
/// path does not come later; insertion is stable.
pub open spec fn insert_sorted(b: BundleView, s: Seq<BundleView>) -> Seq<BundleView>
    decreases s.len(),
{
    if s.len() == 0 {
        seq![b]
    } else if lex_le(s[0].path, b.path) {
        seq![s[0]] + insert_sorted(b, s.skip(1))
    } else {
        seq![b] + s
    }
}

/// Stable sort by path: bundles end up in lexicographic path order, and
/// bundles with equal paths keep their relative order.
pub open spec fn sort_by_path(s: Seq<BundleView>) -> Seq<BundleView>
    decreases s.len(),
{
    if s.len() == 0 {
        Seq::<BundleView>::empty()
    } else {
        insert_sorted(s.last(), sort_by_path(s.drop_last()))
    }
}

/// Drop every bundle whose path equals the path of the bundle right
/// before it; on a path-sorted sequence this keeps exactly the first
/// bundle of each path.
pub open spec fn dedup_by_path(s: Seq<BundleView>) -> Seq<BundleView>
    decreases s.len(),
{
    if s.len() == 0 {
        Seq::<BundleView>::empty()
    } else if s.len() >= 2 && s[s.len() - 2].path == s.last().path {
        dedup_by_path(s.drop_last())
    } else {
        dedup_by_path(s.drop_last()) + seq![s.last()]
    }
}

/// The views of the bundles that parsed, in order; failed candidates are
/// dropped.
pub open spec fn ok_views(rs: Seq<Result<Bundle, ParseError>>) -> Seq<BundleView>
    decreases rs.len(),
{
    if rs.len() == 0 {
        Seq::<BundleView>::empty()
    } else {
        ok_views(rs.drop_last()) + match rs.last() {
            Ok(b) => seq![b@],
            Err(_) => Seq::<BundleView>::empty(),
        }
    }
}

/// What one scan's catalog is, as a function of the surviving bundles:
/// the survivors sorted by path and deduplicated, with the clamped sum of
/// their weights.
pub open spec fn spec_build_catalog(bs: Seq<BundleView>) -> CatalogView {
    CatalogView {
        bundles: dedup_by_path(sort_by_path(bs)),
        total_size: catalog_total(dedup_by_path(sort_by_path(bs))),
    }
}

/// Add two byte counts, clamping at `u64::MAX`.
pub fn add_sizes(a: u64, b: u64) -> (r: u64)
    ensures
        r == sat_add(a, b),
{
    if a <= u64::MAX - b {
        a + b
    } else {
        u64::MAX
    }
}

/// The clamped sum of the sizes of a bundle's media entries.
fn media_total_exec(ms: &Vec<MediaEntry>) -> (t: u64)
    ensures
        t == media_total(ms@.map_values(|m: MediaEntry| m@)),
{
    let ghost mv = ms@.map_values(|m: MediaEntry| m@);
    let mut t: u64 = 0;
    let mut i: usize = 0;
    while i < ms.len()
        invariant
            i <= ms@.len(),
            mv == ms@.map_values(|m: MediaEntry| m@),
            t == media_total(mv.take(i as int)),
        decreases ms@.len() - i,
    {
        proof {
            assert(mv.take(i + 1 as int).drop_last() =~= mv.take(i as int));
            assert(mv.take(i + 1 as int).last() == mv[i as int]);
        }
        t = add_sizes(t, ms[i].size);
        i = i + 1;
    }
    proof {
        assert(mv.take(ms@.len() as int) =~= mv);
    }
    t
}

/// What one bundle contributes to the catalog total.
pub fn bundle_weight_exec(b: &Bundle) -> (w: u64)
    ensures
        w == bundle_weight(b@),
{
    let m = media_total_exec(&b.media);
    add_sizes(b.size, m)
}

/// `insert_sorted` puts the new bundle exactly after the longest prefix
/// of bundles whose paths do not come later.
proof fn lemma_insert_sorted_at(b: BundleView, s: Seq<BundleView>, k: int)
    requires
        0 <= k <= s.len(),
        forall|j: int| 0 <= j < k ==> lex_le(#[trigger] s[j].path, b.path),
        k < s.len() ==> !lex_le(s[k].path, b.path),
    ensures
        insert_sorted(b, s) == s.take(k) + seq![b] + s.skip(k),
    decreases k,
{
    if k == 0 {
        if s.len() == 0 {
            assert(insert_sorted(b, s) =~= s.take(0) + seq![b] + s.skip(0));
        } else {
            assert(!lex_le(s[0].path, b.path));
            assert(seq![b] + s =~= s.take(0) + seq![b] + s.skip(0));
        }
    } else {
        assert(lex_le(s[0].path, b.path));
        assert forall|j: int| 0 <= j < k - 1 implies lex_le(#[trigger] s.skip(1)[j].path, b.path) by {
            assert(s.skip(1)[j] == s[j + 1]);
        }
        assert(k - 1 < s.skip(1).len() ==> !lex_le(s.skip(1)[k - 1].path, b.path));
        lemma_insert_sorted_at(b, s.skip(1), k - 1);
        assert(seq![s[0]] + (s.skip(1).take(k - 1) + seq![b] + s.skip(1).skip(k - 1)) =~= s.take(k)
            + seq![b] + s.skip(k));
    }
}

/// Insert one bundle into a vector, keeping lexicographic path order.
fn insert_by_path(v: &mut Vec<Bundle>, b: Bundle)
    ensures
        views(final(v)@) == insert_sorted(b@, views(old(v)@)),
{
    let ghost orig = v@;
    let mut k: usize = 0;
    loop
        invariant
            v@ == orig,
            k <= v@.len(),
            forall|j: int| 0 <= j < k ==> lex_le(#[trigger] views(orig)[j].path, b@.path),
        ensures
            v@ == orig,
            k <= v@.len(),
            forall|j: int| 0 <= j < k ==> lex_le(#[trigger] views(orig)[j].path, b@.path),
            k < v@.len() ==> !lex_le(views(orig)[k as int].path, b@.path),
        decreases v@.len() - k,
    {
        if k == v.len() {
            break;
        }
        if !str_le(&v[k].path, &b.path) {
            break;
        }
        k = k + 1;
    }
    proof {
        lemma_insert_sorted_at(b@, views(orig), k as int);
    }
    v.insert(k, b);
    proof {
        assert(views(v@) =~= views(orig).take(k as int) + seq![b@] + views(orig).skip(k as int));
    }
}

/// Sort bundles into lexicographic path order; the sort is stable.
fn sort_bundles(v: Vec<Bundle>) -> (r: Vec<Bundle>)
    ensures
        views(r@) == sort_by_path(views(v@)),
{
    let ghost orig = views(v@);
    let mut v = v;
    let mut out: Vec<Bundle> = Vec::new();
    let ghost mut i: int = 0;
    while v.len() > 0
        invariant
            0 <= i <= orig.len(),
            views(v@) == orig.skip(i),
            views(out@) == sort_by_path(orig.take(i)),
        decreases v@.len(),
    {
        let ghost before = v@;
        let b = v.remove(0);
        proof {
            assert(b@ == views(before)[0]);
            assert(views(v@) =~= views(before).skip(1));
            assert(views(before).skip(1) =~= orig.skip(i + 1));
            assert(b@ == orig[i]);
        }
        insert_by_path(&mut out, b);
        proof {
            assert(orig.take(i + 1).drop_last() =~= orig.take(i));
            assert(orig.take(i + 1).last() == orig[i]);
            i = i + 1;
        }
    }
    proof {
        assert(orig.take(orig.len() as int) =~= orig);
    }
    out
}

/// Keep the first bundle of each run of equal paths; on sorted input this
/// removes every duplicated path.
fn dedup_bundles(v: Vec<Bundle>) -> (r: Vec<Bundle>)
    ensures
        views(r@) == dedup_by_path(views(v@)),
{
    let ghost orig = views(v@);
    let mut v = v;
    let mut out: Vec<Bundle> = Vec::new();
    let ghost mut i: int = 0;
    while v.len() > 0
        invariant
            0 <= i <= orig.len(),
            views(v@) == orig.skip(i),
            views(out@) == dedup_by_path(orig.take(i)),
            i > 0 ==> out@.len() > 0 && views(out@).last().path == orig[i - 1].path,
        decreases v@.len(),
    {
        let ghost before = v@;
        let b = v.remove(0);
        proof {
            assert(b@ == views(before)[0]);
            assert(views(v@) =~= views(before).skip(1));
            assert(views(before).skip(1) =~= orig.skip(i + 1));
            assert(b@ == orig[i]);
            assert(orig.take(i + 1).drop_last() =~= orig.take(i));
            assert(orig.take(i + 1).last() == orig[i]);
        }
        let keep = if out.len() == 0 {
            true
        } else {
            let last = out.len() - 1;
            !(out[last].path == b.path)
        };
        if keep {
            out.push(b);
            proof {
                assert(views(out@) =~= views(out@.drop_last()) + seq![orig[i]]);
            }
        }
        proof {
            i = i + 1;
        }
    }
    proof {
        assert(orig.take(orig.len() as int) =~= orig);
    }
    out
}

/// Build the catalog of one scan from the per-candidate parse results:
/// failed candidates are dropped, the surviving bundles are sorted by
/// path, duplicated paths are removed, and the total size is the clamped
/// sum of every bundle's weight.
pub fn build_catalog(results: Vec<Result<Bundle, ParseError>>) -> (c: Catalog)
    ensures
        c@ == spec_build_catalog(ok_views(results@)),
{
    let ghost orig = results@;
    let mut results = results;
    let mut bundles: Vec<Bundle> = Vec::new();
    let ghost mut i: int = 0;
    while results.len() > 0
        invariant
            0 <= i <= orig.len(),
            results@ == orig.skip(i),
            views(bundles@) == ok_views(orig.take(i)),
        decreases results@.len(),
    {
        let ghost before = results@;
        let r = results.remove(0);
        proof {
            assert(r == before[0]);
            assert(results@ =~= before.skip(1));
            assert(before.skip(1) =~= orig.skip(i + 1));
            assert(r == orig[i]);
            assert(orig.take(i + 1).drop_last() =~= orig.take(i));
            assert(orig.take(i + 1).last() == orig[i]);
        }
        match r {
            Ok(b) => {
                bundles.push(b);
                proof {
                    assert(views(bundles@) =~= views(bundles@.drop_last()) + seq![bundles@.last()@]);
                }
            },
            Err(_) => {
            },
        }
        proof {
            assert(views(bundles@) =~= ok_views(orig.take(i + 1)));
            i = i + 1;
        }
    }
    proof {
        assert(orig.take(orig.len() as int) =~= orig);
    }
    let sorted = sort_bundles(bundles);
    let deduped = dedup_bundles(sorted);
    let ghost dv = views(deduped@);
    let mut t: u64 = 0;
    let mut j: usize = 0;
    while j < deduped.len()
        invariant
            j <= deduped@.len(),
            dv == views(deduped@),
            t == catalog_total(dv.take(j as int)),
        decreases deduped@.len() - j,
    {
        proof {
            assert(dv.take(j + 1 as int).drop_last() =~= dv.take(j as int));
            assert(dv.take(j + 1 as int).last() == dv[j as int]);
        }
        let w = bundle_weight_exec(&deduped[j]);
        t = add_sizes(t, w);
        j = j + 1;
    }
    proof {
        assert(dv.take(deduped@.len() as int) =~= dv);
    }
    let c = Catalog { bundles: deduped, total_size: t };
    proof {
        assert(c@ =~= spec_build_catalog(ok_views(orig)));
    }
    c
}

/// Law: scanning is deterministic. Two runs that end with the same
/// surviving bundles build the same catalog: the same bundle sequence,
/// in the same order, with the same total size.
pub proof fn lemma_build_deterministic(bs1: Seq<BundleView>, bs2: Seq<BundleView>)
    requires
        bs1 == bs2,
    ensures
        spec_build_catalog(bs1) == spec_build_catalog(bs2),
{
}

/// Law: a scan that matches no files yields the empty catalog with total
/// size 0, not an error.
pub proof fn lemma_empty_scan()
    ensures
        ok_views(Seq::<Result<Bundle, ParseError>>::empty()) == Seq::<BundleView>::empty(),
        spec_build_catalog(Seq::<BundleView>::empty()).bundles == Seq::<BundleView>::empty(),
        spec_build_catalog(Seq::<BundleView>::empty()).total_size == 0,
{
    assert(sort_by_path(Seq::<BundleView>::empty()) == Seq::<BundleView>::empty());
    assert(dedup_by_path(Seq::<BundleView>::empty()) == Seq::<BundleView>::empty());
}

/// The media entries of a bundle all report size 0, so their clamped sum
/// is 0.
proof fn lemma_media_total_zero(ms: Seq<MediaEntryView>)
    requires
        forall|i: int| 0 <= i < ms.len() ==> #[trigger] ms[i].size == 0,
    ensures
        media_total(ms) == 0,
    decreases ms.len(),
{
    if ms.len() > 0 {
        assert(ms.last().size == 0);
        assert forall|i: int| 0 <= i < ms.drop_last().len() implies #[trigger] ms.drop_last()[i].size
            == 0 by {
            assert(ms.drop_last()[i] == ms[i]);
        }
        lemma_media_total_zero(ms.drop_last());
    }
}

/// Law: size additivity in the default case. A bundle of file size `S`
/// whose media entries all report size 0 contributes exactly `S` to the
/// catalog total.
pub proof fn lemma_weight_zero_media(b: BundleView)
    requires
        forall|i: int| 0 <= i < b.media.len() ==> #[trigger] b.media[i].size == 0,
    ensures
        bundle_weight(b) == b.size,
{
    lemma_media_total_zero(b.media);
}

/// Where `insert_sorted` puts the new bundle: after the longest prefix
/// of bundles whose paths do not come later.
pub open spec fn insert_pos(b: BundleView, s: Seq<BundleView>) -> int
    decreases s.len(),
{
    if s.len() == 0 {
        0
    } else if lex_le(s[0].path, b.path) {
        1 + insert_pos(b, s.skip(1))
    } else {
        0
    }
}

/// `insert_pos` is a position of `s`, every bundle before it does not
/// come after the new one, and the bundle at it comes after.
proof fn lemma_insert_pos_props(b: BundleView, s: Seq<BundleView>)
    ensures
        0 <= insert_pos(b, s) <= s.len(),
        forall|j: int| 0 <= j < insert_pos(b, s) ==> lex_le(#[trigger] s[j].path, b.path),
        insert_pos(b, s) < s.len() ==> !lex_le(s[insert_pos(b, s)].path, b.path),
    decreases s.len(),
{
    if s.len() > 0 && lex_le(s[0].path, b.path) {
        lemma_insert_pos_props(b, s.skip(1));
        let ip = insert_pos(b, s);
        assert forall|j: int| 0 <= j < ip implies lex_le(#[trigger] s[j].path, b.path) by {
            if j > 0 {
                assert(s.skip(1)[j - 1] == s[j]);
                assert(lex_le(s.skip(1)[j - 1].path, b.path));
            }
        }
        if ip < s.len() {
            assert(s.skip(1)[ip - 1] == s[ip]);
            assert(!lex_le(s.skip(1)[ip - 1].path, b.path));
        }
    }
}

/// `insert_sorted` splits the sequence at `insert_pos` and puts the new
/// bundle in between.
proof fn lemma_insert_shape(b: BundleView, s: Seq<BundleView>)
    ensures
        insert_sorted(b, s) == s.take(insert_pos(b, s)) + seq![b] + s.skip(insert_pos(b, s)),
{
    lemma_insert_pos_props(b, s);
    lemma_insert_sorted_at(b, s, insert_pos(b, s));
}

/// Inserting adds exactly the new bundle to the contents.
proof fn lemma_insert_sorted_multiset(b: BundleView, s: Seq<BundleView>)
    ensures
        insert_sorted(b, s).to_multiset() == s.to_multiset().insert(b),
        insert_sorted(b, s).len() == s.len() + 1,
{
    broadcast use group_to_multiset_ensures;

    lemma_insert_shape(b, s);
    let ip = insert_pos(b, s);
    lemma_insert_pos_props(b, s);
    lemma_multiset_commutative(s.take(ip) + seq![b], s.skip(ip));
    lemma_multiset_commutative(s.take(ip), seq![b]);
    lemma_multiset_commutative(s.take(ip), s.skip(ip));
    assert(s.take(ip) + s.skip(ip) =~= s);
    assert(seq![b] =~= Seq::<BundleView>::empty().push(b));
    assert(Seq::<BundleView>::empty().to_multiset() =~= Multiset::<BundleView>::empty());
    assert(seq![b].to_multiset() =~= Multiset::<BundleView>::empty().insert(b));
    assert(insert_sorted(b, s).to_multiset() =~= s.to_multiset().insert(b));
}

/// Sorting keeps exactly the same bundles.
proof fn lemma_sort_multiset(s: Seq<BundleView>)
    ensures
        sort_by_path(s).to_multiset() == s.to_multiset(),
        sort_by_path(s).len() == s.len(),
    decreases s.len(),
{
    broadcast use group_to_multiset_ensures;

    if s.len() > 0 {
        lemma_sort_multiset(s.drop_last());
        lemma_insert_sorted_multiset(s.last(), sort_by_path(s.drop_last()));
        assert(s =~= s.drop_last().push(s.last()));
        assert(s.drop_last().push(s.last()).to_multiset() =~= s.drop_last().to_multiset().insert(
            s.last(),
        ));
    }
}

/// Inserting into a path-sorted sequence keeps it path-sorted.
proof fn lemma_insert_sorted_sorted(b: BundleView, s: Seq<BundleView>)
    requires
        path_sorted(s),
    ensures
        path_sorted(insert_sorted(b, s)),
{
    lemma_insert_shape(b, s);
    lemma_insert_pos_props(b, s);
    let ip = insert_pos(b, s);
    let r = insert_sorted(b, s);
    assert forall|i: int, j: int| 0 <= i < j < r.len() implies lex_le(
        #[trigger] r[i].path,
        #[trigger] r[j].path,
    ) by {
        if ip < s.len() {
            lemma_lex_le_total(s[ip].path, b.path);
        }
        if i < ip {
            assert(r[i] == s[i]);
        } else if i == ip {
            assert(r[i] == b);
        } else {
            assert(r[i] == s[i - 1]);
        }
        if j < ip {
            assert(r[j] == s[j]);
        } else if j == ip {
            assert(r[j] == b);
        } else {
            assert(r[j] == s[j - 1]);
        }
        if j == ip {
            assert(lex_le(s[i].path, b.path));
        } else if i == ip && j > ip {
            assert(lex_le(b.path, s[ip].path));
            if j - 1 > ip {
                lemma_lex_le_trans(b.path, s[ip].path, s[j - 1].path);
            }
        }
    }
}

/// Sorting yields a path-sorted sequence.
proof fn lemma_sort_sorted(s: Seq<BundleView>)
    ensures
        path_sorted(sort_by_path(s)),
    decreases s.len(),
{
    if s.len() > 0 {
        lemma_sort_sorted(s.drop_last());
        lemma_insert_sorted_sorted(s.last(), sort_by_path(s.drop_last()));
    }
}

/// Sorting keeps paths distinct.
proof fn lemma_sort_distinct(s: Seq<BundleView>)
    requires
        distinct_paths(s),
    ensures
        distinct_paths(sort_by_path(s)),
    decreases s.len(),
{
    broadcast use group_to_multiset_ensures;

    if s.len() > 0 {
        let dl = s.drop_last();
        let b = s.last();
        assert forall|i: int, j: int| 0 <= i < j < dl.len() implies #[trigger] dl[i].path
            != #[trigger] dl[j].path by {
            assert(dl[i] == s[i]);
            assert(dl[j] == s[j]);
        }
        lemma_sort_distinct(dl);
        lemma_sort_multiset(dl);
        let t = sort_by_path(dl);
        assert forall|i: int| 0 <= i < t.len() implies #[trigger] t[i].path != b.path by {
            assert(t.contains(t[i]));
            assert(t.to_multiset().count(t[i]) > 0);
            assert(dl.to_multiset().count(t[i]) > 0);
            assert(dl.contains(t[i]));
            let m = choose|m: int| 0 <= m < dl.len() && dl[m] == t[i];
            assert(s[m] == dl[m]);
            assert(s[s.len() - 1] == b);
            assert(s[m].path != s[s.len() - 1].path);
        }
        lemma_insert_shape(b, t);
        lemma_insert_pos_props(b, t);
        let ip = insert_pos(b, t);
        let r = insert_sorted(b, t);
        assert(t.take(ip).len() == ip);
        assert(t.skip(ip).len() == t.len() - ip);
        assert forall|i: int, j: int| 0 <= i < j < r.len() implies #[trigger] r[i].path
            != #[trigger] r[j].path by {
            assert(r[i] == (t.take(ip) + seq![b] + t.skip(ip))[i]);
            assert(r[j] == (t.take(ip) + seq![b] + t.skip(ip))[j]);
            if i < ip {
                assert(r[i] == t[i]);
            } else if i == ip {
                assert(r[i] == b);
            } else {
                assert(r[i] == t[i - 1]);
            }
            if j < ip {
                assert(r[j] == t[j]);
            } else if j == ip {
                assert(r[j] == b);
            } else {
                assert(r[j] == t[j - 1]);
            }
        }
    }
}

/// Two path-sorted sequences with the same bundles and no duplicated
/// paths are the same sequence.
proof fn lemma_sorted_unique(s1: Seq<BundleView>, s2: Seq<BundleView>)
    requires
        path_sorted(s1),
        path_sorted(s2),
        distinct_paths(s1),
        s1.to_multiset() == s2.to_multiset(),
    ensures
        s1 == s2,
    decreases s1.len(),
{
    broadcast use group_to_multiset_ensures;

    assert(s1.to_multiset().len() == s1.len());
    assert(s2.to_multiset().len() == s2.len());
    assert(s1.len() == s2.len());
    if s1.len() == 0 {
        assert(s1 =~= s2);
    } else {
        assert(s1.contains(s1[0]));
        assert(s2.to_multiset().count(s1[0]) > 0);
        assert(s2.contains(s1[0]));
        let j = choose|j: int| 0 <= j < s2.len() && s2[j] == s1[0];
        assert(s1.to_multiset().count(s2[0]) > 0);
        assert(s1.contains(s2[0]));
        let i = choose|i: int| 0 <= i < s1.len() && s1[i] == s2[0];
        if i != 0 {
            assert(lex_le(s1[0].path, s1[i].path));
            if j != 0 {
                assert(lex_le(s2[0].path, s2[j].path));
            }
            lemma_lex_le_antisym(s1[0].path, s2[0].path);
            assert(s1[0].path == s1[i].path);
            assert(false);
        }
        assert(s1[0] == s2[0]);
        let t1 = s1.skip(1);
        let t2 = s2.skip(1);
        assert(s1.remove(0) =~= t1);
        assert(s2.remove(0) =~= t2);
        assert(s1.remove(0).to_multiset() =~= s1.to_multiset().remove(s1[0]));
        assert(s2.remove(0).to_multiset() =~= s2.to_multiset().remove(s2[0]));
        assert(t1.to_multiset() == t2.to_multiset());
        assert forall|a: int, c: int| 0 <= a < c < t1.len() implies lex_le(
            #[trigger] t1[a].path,
            #[trigger] t1[c].path,
        ) by {
            assert(t1[a] == s1[a + 1]);
            assert(t1[c] == s1[c + 1]);
        }
        assert forall|a: int, c: int| 0 <= a < c < t2.len() implies lex_le(
            #[trigger] t2[a].path,
            #[trigger] t2[c].path,
        ) by {
            assert(t2[a] == s2[a + 1]);
            assert(t2[c] == s2[c + 1]);
        }
        assert forall|a: int, c: int| 0 <= a < c < t1.len() implies #[trigger] t1[a].path
            != #[trigger] t1[c].path by {
            assert(t1[a] == s1[a + 1]);
            assert(t1[c] == s1[c + 1]);
        }
        lemma_sorted_unique(t1, t2);
        assert forall|k: int| 0 <= k < s1.len() implies s1[k] == s2[k] by {
            if k > 0 {
                assert(t1[k - 1] == t2[k - 1]);
            }
        }
        assert(s1 =~= s2);
    }
}

/// Law: order determinism. The catalog is the same whatever order the
/// parallel workers finished in: two scans that collect the same bundles
/// (no path twice, as one directory snapshot yields) build identical
/// catalogs, bundle order included.
pub proof fn lemma_order_deterministic(bs1: Seq<BundleView>, bs2: Seq<BundleView>)
    requires
        bs1.to_multiset() == bs2.to_multiset(),
        distinct_paths(bs1),
        distinct_paths(bs2),
    ensures
        spec_build_catalog(bs1) == spec_build_catalog(bs2),
{
    lemma_sort_sorted(bs1);
    lemma_sort_sorted(bs2);
    lemma_sort_multiset(bs1);
    lemma_sort_multiset(bs2);
    lemma_sort_distinct(bs1);
    lemma_sorted_unique(sort_by_path(bs1), sort_by_path(bs2));
}

/// When no two bundles share a path, deduplication drops nothing.
proof fn lemma_dedup_identity(s: Seq<BundleView>)
    requires
        distinct_paths(s),
    ensures
        dedup_by_path(s) == s,
    decreases s.len(),
{
    if s.len() > 0 {
        let dl = s.drop_last();
        assert forall|i: int, j: int| 0 <= i < j < dl.len() implies #[trigger] dl[i].path
            != #[trigger] dl[j].path by {
            assert(dl[i] == s[i]);
            assert(dl[j] == s[j]);
        }
        lemma_dedup_identity(dl);
        if s.len() >= 2 {
            assert(s[s.len() - 2].path != s[s.len() - 1].path);
        }
        assert(dedup_by_path(s) =~= s);
    }
}

/// Law: on a snapshot with no duplicated paths the catalog keeps every
/// surviving bundle, one for one.
pub proof fn lemma_catalog_count(bs: Seq<BundleView>)
    requires
        distinct_paths(bs),
    ensures
        spec_build_catalog(bs).bundles.len() == bs.len(),
{
    lemma_sort_multiset(bs);
    lemma_sort_distinct(bs);
    lemma_dedup_identity(sort_by_path(bs));
}

/// Law: partial-failure isolation. A candidate whose sidecar failed to
/// parse contributes nothing: the surviving bundles are exactly those of
/// the same scan without the failed candidate, so one corrupted sidecar
/// never aborts or disturbs the rest of the scan.
pub proof fn lemma_failure_isolated(rs: Seq<Result<Bundle, ParseError>>, k: int)
    requires
        0 <= k < rs.len(),
        rs[k] is Err,
    ensures
        ok_views(rs) == ok_views(rs.remove(k)),
    decreases rs.len(),
{
    if k == rs.len() - 1 {
        assert(rs.remove(k) =~= rs.drop_last());
        assert(ok_views(rs) =~= ok_views(rs.drop_last()));
    } else {
        assert(rs.drop_last()[k] == rs[k]);
        lemma_failure_isolated(rs.drop_last(), k);
        assert(rs.remove(k).drop_last() =~= rs.drop_last().remove(k));
        assert(rs.remove(k).last() == rs.last());
        assert(rs.remove(k).len() == rs.len() - 1);
        assert(ok_views(rs) =~= ok_views(rs.remove(k)));
    }
}

} // verus!
