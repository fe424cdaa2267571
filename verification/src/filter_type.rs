//! The filter chain: a closed set of filter kinds, each a predicate over
//! result rows, applied in sequence with AND semantics. New kinds extend
//! the `Filter` sum and implement `MatchBank`; the aggregator and scanner
//! need not know about them.

use vstd::prelude::*;
use crate::match_data::{MatchData, MatchDataView, catalog_rows, catalog_rows_of};
use crate::records::{Bundle, Catalog};
use crate::text::{fold_chars, fold_seq, str_eq, to_chars, wild_match, wild_matches};

verus! {

/// The capability every filter kind implements: a predicate over result
/// rows, with its meaning pinned by `spec_matches`.
pub trait MatchBank {
    /// What this filter accepts.
    spec fn spec_matches(&self, data: MatchDataView) -> bool;

    /// Decide whether the row passes this filter.
    fn matches(&self, data: &MatchData) -> (r: bool)
        ensures
            r == self.spec_matches(data@),
    ;
}

/// Filter rows by a wildcard pattern on the row's name. The granularity
/// flags say whether bundle rows and media rows are constrained; a row
/// outside the filter's granularity always passes. The `use_regex` flag
/// is configuration carried for the presentation layer; matching always
/// uses the wildcard rule.
pub struct NameFilter {
    pub pattern: String,
    pub case_sensitive: bool,
    pub use_regex: bool,
    pub filter_banks: bool,
    pub filter_media: bool,
}

impl NameFilter {
    /// A fresh name filter: match-everything pattern, case-insensitive,
    /// constraining bundle and media rows alike.
    pub fn new() -> (f: Self)
        ensures
            f.pattern@ == "*"@,
            f.case_sensitive == false,
            f.use_regex == false,
            f.filter_banks == true,
            f.filter_media == true,
    {
        Self {
            pattern: "*".to_owned(),
            case_sensitive: false,
            use_regex: false,
            filter_banks: true,
            filter_media: true,
        }
    }
}

impl MatchBank for NameFilter {
    open spec fn spec_matches(&self, data: MatchDataView) -> bool {
        let applies = if data.asset_type == "Media"@ {
            self.filter_media
        } else {
            self.filter_banks
        };
        if !applies {
            true
        } else if self.case_sensitive {
            wild_match(self.pattern@, data.asset_name)
        } else {
            wild_match(fold_seq(self.pattern@), fold_seq(data.asset_name))
        }
    }

    fn matches(&self, data: &MatchData) -> (r: bool)
        ensures
            r == self.spec_matches(data@),
    {
        let is_media = str_eq(data.asset_type.as_str(), "Media");
        let applies = if is_media {
            self.filter_media
        } else {
            self.filter_banks
        };
        if !applies {
            true
        } else {
            let p = to_chars(self.pattern.as_str());
            let n = to_chars(data.asset_name.as_str());
            if self.case_sensitive {
                wild_matches(&p, &n)
            } else {
                let pf = fold_chars(&p);
                let nf = fold_chars(&n);
                wild_matches(&pf, &nf)
            }
        }
    }
}

/// Filter rows by language tag: a row passes when its language is one of
/// the accepted languages. An empty accepted set constrains nothing, so
/// every row passes.
pub struct LanguageFilter {
    pub languages: Vec<String>,
}

impl LanguageFilter {
    /// A fresh language filter accepting every language.
    pub fn new() -> (f: Self)
        ensures
            f.languages@.len() == 0,
    {
        Self { languages: Vec::new() }
    }
}

impl MatchBank for LanguageFilter {
    open spec fn spec_matches(&self, data: MatchDataView) -> bool {
        self.languages@.len() == 0 || exists|i: int|
            0 <= i < self.languages@.len() && #[trigger] self.languages@[i]@ == data.language
    }

    fn matches(&self, data: &MatchData) -> (r: bool)
        ensures
            r == self.spec_matches(data@),
    {
        if self.languages.len() == 0 {
            return true;
        }
        let mut i: usize = 0;
        while i < self.languages.len()
            invariant
                i <= self.languages@.len(),
                forall|j: int| 0 <= j < i ==> #[trigger] self.languages@[j]@ != data.language@,
            decreases self.languages@.len() - i,
        {
            if str_eq(self.languages[i].as_str(), data.language.as_str()) {
                return true;
            }
            i = i + 1;
        }
        false
    }
}

/// The closed set of filter kinds a chain can hold; the presentation
/// layer switches on the variant to render and edit each filter.
pub enum Filter {
    Name(NameFilter),
    Language(LanguageFilter),
}

impl MatchBank for Filter {
    open spec fn spec_matches(&self, data: MatchDataView) -> bool {
        match self {
            Filter::Name(f) => f.spec_matches(data),
            Filter::Language(f) => f.spec_matches(data),
        }
    }

    fn matches(&self, data: &MatchData) -> (r: bool)
        ensures
            r == self.spec_matches(data@),
    {
        match self {
            Filter::Name(f) => f.matches(data),
            Filter::Language(f) => f.matches(data),
        }
    }
}

/// Does a row satisfy every filter of the chain?
pub open spec fn all_match(fs: Seq<Filter>, d: MatchDataView) -> bool {
    forall|i: int| 0 <= i < fs.len() ==> #[trigger] fs[i].spec_matches(d)
}

/// The rows that satisfy every filter of the chain, in their original
/// order. A chain with no filters keeps every row.
pub open spec fn apply_chain(rows: Seq<MatchDataView>, fs: Seq<Filter>) -> Seq<MatchDataView>
    decreases rows.len(),
{
    if rows.len() == 0 {
        Seq::<MatchDataView>::empty()
    } else {
        apply_chain(rows.drop_last(), fs) + if all_match(fs, rows.last()) {
            seq![rows.last()]
        } else {
            Seq::<MatchDataView>::empty()
        }
    }
}

/// Keep the rows that satisfy every filter of the chain.
pub fn apply_filters(rows: Vec<MatchData>, filters: &Vec<Filter>) -> (out: Vec<MatchData>)
    ensures
        out@.map_values(|d: MatchData| d@) == apply_chain(
            rows@.map_values(|d: MatchData| d@),
            filters@,
        ),
{
    let ghost orig = rows@.map_values(|d: MatchData| d@);
    let mut rows = rows;
    let mut out: Vec<MatchData> = Vec::new();
    let ghost mut i: int = 0;
    while rows.len() > 0
        invariant
            0 <= i <= orig.len(),
            rows@.map_values(|d: MatchData| d@) == orig.skip(i),
            out@.map_values(|d: MatchData| d@) == apply_chain(orig.take(i), filters@),
        decreases rows@.len(),
    {
        let ghost before = rows@;
        let d = rows.remove(0);
        proof {
            assert(d@ == before.map_values(|x: MatchData| x@)[0]);
            assert(rows@.map_values(|x: MatchData| x@) =~= before.map_values(
                |x: MatchData| x@,
            ).skip(1));
            assert(before.map_values(|x: MatchData| x@).skip(1) =~= orig.skip(i + 1));
            assert(d@ == orig[i]);
            assert(orig.take(i + 1).drop_last() =~= orig.take(i));
            assert(orig.take(i + 1).last() == orig[i]);
        }
        let mut ok = true;
        let mut k: usize = 0;
        while k < filters.len()
            invariant
                k <= filters@.len(),
                ok == (forall|j: int| 0 <= j < k ==> #[trigger] filters@[j].spec_matches(d@)),
            decreases filters@.len() - k,
        {
            let f = &filters[k];
            let m = f.matches(&d);
            ok = ok && m;
            k = k + 1;
        }
        proof {
            assert(ok == all_match(filters@, d@));
        }
        if ok {
            let ghost prev = out@;
            out.push(d);
            proof {
                assert(out@.map_values(|x: MatchData| x@) =~= prev.map_values(
                    |x: MatchData| x@,
                ).push(out@.last()@));
            }
        }
        proof {
            assert(out@.map_values(|x: MatchData| x@) =~= apply_chain(orig.take(i + 1), filters@));
            i = i + 1;
        }
    }
    proof {
        assert(orig.take(orig.len() as int) =~= orig);
    }
    out
}

/// Law: a chain with zero filters is the identity view — it keeps every
/// row unchanged, in order.
pub proof fn lemma_empty_chain_identity(rows: Seq<MatchDataView>)
    ensures
        apply_chain(rows, Seq::<Filter>::empty()) == rows,
    decreases rows.len(),
{
    if rows.len() > 0 {
        lemma_empty_chain_identity(rows.drop_last());
        assert(apply_chain(rows, Seq::<Filter>::empty()) =~= rows);
    }
}

/// Apply a filter chain to a catalog: flatten it into rows and keep the
/// rows every filter accepts. The catalog itself is not changed.
pub fn apply(catalog: &Catalog, filters: &Vec<Filter>) -> (out: Vec<MatchData>)
    ensures
        out@.map_values(|d: MatchData| d@) == apply_chain(
            catalog_rows_of(catalog.bundles@.map_values(|b: Bundle| b@)),
            filters@,
        ),
{
    let rows = catalog_rows(catalog);
    apply_filters(rows, filters)
}

} // verus!
