//! The flat result row handed to the presentation layer: one row per
//! bundle and one per media entry, carrying the fields the filters and
//! the result table read.

use vstd::prelude::*;
use crate::records::{BundleView, Catalog, MediaEntryView};

verus! {

/// Mathematical view of a result row.
#[verifier::ext_equal]
pub ghost struct MatchDataView {
    pub asset_type: Seq<char>,
    pub asset_name: Seq<char>,
    pub source_path: Seq<char>,
    pub language: Seq<char>,
    pub shor_id: Seq<char>,
    pub size: u64,
}

/// One result row. Bundle rows carry the bundle's category, name, path,
/// language, id and size; media rows the same fields of the entry, whose
/// category is always `Media`.
pub struct MatchData {
    pub asset_type: String,
    pub asset_name: String,
    pub source_path: String,
    pub language: String,
    pub shor_id: String,
    pub size: u64,
}

impl View for MatchData {
    type V = MatchDataView;

    open spec fn view(&self) -> MatchDataView {
        MatchDataView {
            asset_type: self.asset_type@,
            asset_name: self.asset_name@,
            source_path: self.source_path@,
            language: self.language@,
            shor_id: self.shor_id@,
            size: self.size,
        }
    }
}

/// The row of a bundle.
pub open spec fn bundle_row(b: BundleView) -> MatchDataView {
    MatchDataView {
        asset_type: b.category,
        asset_name: b.name,
        source_path: b.path,
        language: b.language,
        shor_id: b.id,
        size: b.size,
    }
}

/// The row of a media entry.
pub open spec fn media_row(m: MediaEntryView) -> MatchDataView {
    MatchDataView {
        asset_type: m.category,
        asset_name: m.name,
        source_path: m.path,
        language: m.language,
        shor_id: m.id,
        size: m.size,
    }
}

/// The rows of a bundle's media entries, in order.
pub open spec fn media_rows(ms: Seq<MediaEntryView>) -> Seq<MatchDataView> {
    ms.map_values(|m: MediaEntryView| media_row(m))
}

/// The rows of a whole catalog: for each bundle in order, its own row
/// followed by the rows of its media entries.
pub open spec fn catalog_rows_of(bs: Seq<BundleView>) -> Seq<MatchDataView>
    decreases bs.len(),
{
    if bs.len() == 0 {
        Seq::<MatchDataView>::empty()
    } else {
        catalog_rows_of(bs.drop_last()) + seq![bundle_row(bs.last())] + media_rows(
            bs.last().media,
        )
    }
}

/// Flatten a catalog into result rows: one row per bundle, followed by
/// one row per media entry of that bundle, keeping catalog order.
pub fn catalog_rows(c: &Catalog) -> (out: Vec<MatchData>)
    ensures
        out@.map_values(|d: MatchData| d@) == catalog_rows_of(
            c.bundles@.map_values(|b: crate::records::Bundle| b@),
        ),
{
    let ghost bviews = c.bundles@.map_values(|b: crate::records::Bundle| b@);
    let mut out: Vec<MatchData> = Vec::new();
    let mut i: usize = 0;
    while i < c.bundles.len()
        invariant
            i <= c.bundles@.len(),
            bviews == c.bundles@.map_values(|b: crate::records::Bundle| b@),
            out@.map_values(|d: MatchData| d@) == catalog_rows_of(bviews.take(i as int)),
        decreases c.bundles@.len() - i,
    {
        let b = &c.bundles[i];
        proof {
            assert(bviews[i as int] == c.bundles@[i as int]@);
            assert(bviews.take(i + 1 as int).drop_last() =~= bviews.take(i as int));
            assert(bviews.take(i + 1 as int).last() == bviews[i as int]);
        }
        out.push(
            MatchData {
                asset_type: b.category.clone(),
                asset_name: b.name.clone(),
                source_path: b.path.clone(),
                language: b.language.clone(),
                shor_id: b.id.clone(),
                size: b.size,
            },
        );
        proof {
            assert(out@.map_values(|d: MatchData| d@) =~= catalog_rows_of(bviews.take(i as int))
                + seq![bundle_row(bviews[i as int])]);
        }
        let ghost mviews = bviews[i as int].media;
        let mut j: usize = 0;
        while j < b.media.len()
            invariant
                j <= b.media@.len(),
                i < c.bundles@.len(),
                bviews == c.bundles@.map_values(|bb: crate::records::Bundle| bb@),
                mviews == bviews[i as int].media,
                mviews == b.media@.map_values(|m: crate::records::MediaEntry| m@),
                out@.map_values(|d: MatchData| d@) == catalog_rows_of(bviews.take(i as int))
                    + seq![bundle_row(bviews[i as int])] + media_rows(mviews.take(j as int)),
            decreases b.media@.len() - j,
        {
            let m = &b.media[j];
            proof {
                assert(mviews[j as int] == b.media@[j as int]@);
            }
            let ghost prev = out@;
            out.push(
                MatchData {
                    asset_type: m.category.clone(),
                    asset_name: m.name.clone(),
                    source_path: m.path.clone(),
                    language: m.language.clone(),
                    shor_id: m.id.clone(),
                    size: m.size,
                },
            );
            proof {
                assert(out@.last()@ == media_row(mviews[j as int]));
                assert(out@.map_values(|d: MatchData| d@) =~= prev.map_values(
                    |d: MatchData| d@,
                ).push(out@.last()@));
                assert(media_rows(mviews.take(j + 1 as int)) =~= media_rows(
                    mviews.take(j as int),
                ).push(media_row(mviews[j as int])));
                assert(out@.map_values(|d: MatchData| d@) =~= catalog_rows_of(
                    bviews.take(i as int),
                ) + seq![bundle_row(bviews[i as int])] + media_rows(mviews.take(j + 1 as int)));
            }
            j = j + 1;
        }
        proof {
            assert(mviews.take(mviews.len() as int) =~= mviews);
            assert(out@.map_values(|d: MatchData| d@) =~= catalog_rows_of(bviews.take(i + 1 as int)));
        }
        i = i + 1;
    }
    proof {
        assert(bviews.take(c.bundles@.len() as int) =~= bviews);
    }
    out
}

} // verus!
