//! Plain data shapes for the catalog: a media entry packed inside a bundle,
//! a bundle file with its sidecar-derived metadata, and the aggregated
//! catalog of one scan.

use vstd::prelude::*;

verus! {

/// Mathematical view of a media entry: every text field as a sequence of
/// characters.
#[verifier::ext_equal]
pub ghost struct MediaEntryView {
    pub name: Seq<char>,
    pub path: Seq<char>,
    pub language: Seq<char>,
    pub id: Seq<char>,
    pub category: Seq<char>,
    pub size: u64,
}

/// One packed asset inside a bundle, as described by the sidecar's media
/// array. Entries produced from sidecar parsing carry no on-disk size of
/// their own and default to size 0.
pub struct MediaEntry {
    pub name: String,
    pub path: String,
    pub language: String,
    pub id: String,
    pub category: String,
    pub size: u64,
}

impl View for MediaEntry {
    type V = MediaEntryView;

    open spec fn view(&self) -> MediaEntryView {
        MediaEntryView {
            name: self.name@,
            path: self.path@,
            language: self.language@,
            id: self.id@,
            category: self.category@,
            size: self.size,
        }
    }
}

/// Mathematical view of a bundle.
#[verifier::ext_equal]
pub ghost struct BundleView {
    pub name: Seq<char>,
    pub path: Seq<char>,
    pub size: u64,
    pub language: Seq<char>,
    pub id: Seq<char>,
    pub category: Seq<char>,
    pub media: Seq<MediaEntryView>,
}

/// One bundle file plus its sidecar metadata. `name`, `path` and `size`
/// come from the filesystem and are always present; `language`, `id` and
/// `category` default to the empty string when the sidecar lacks them or is
/// absent, and `media` keeps the order of the sidecar's media array.
pub struct Bundle {
    pub name: String,
    pub path: String,
    pub size: u64,
    pub language: String,
    pub id: String,
    pub category: String,
    pub media: Vec<MediaEntry>,
}

impl View for Bundle {
    type V = BundleView;

    open spec fn view(&self) -> BundleView {
        BundleView {
            name: self.name@,
            path: self.path@,
            size: self.size,
            language: self.language@,
            id: self.id@,
            category: self.category@,
            media: self.media@.map_values(|m: MediaEntry| m@),
        }
    }
}

/// Mathematical view of a catalog.
#[verifier::ext_equal]
pub ghost struct CatalogView {
    pub bundles: Seq<BundleView>,
    pub total_size: u64,
}

/// The aggregate result of one discovery run: the surviving bundles in a
/// deterministic order (lexicographic by path) and the clamped sum of every
/// bundle size plus every media entry size.
pub struct Catalog {
    pub bundles: Vec<Bundle>,
    pub total_size: u64,
}

impl View for Catalog {
    type V = CatalogView;

    open spec fn view(&self) -> CatalogView {
        CatalogView {
            bundles: self.bundles@.map_values(|b: Bundle| b@),
            total_size: self.total_size,
        }
    }
}

} // verus!
