//! The sidecar parser: decodes a bundle's sidecar descriptor into the
//! bundle's metadata fields and its ordered list of media entries.
//!
//! The descriptor is a JSON document holding a `SoundBanksInfo` object,
//! whose `SoundBanks` array carries one record per bundle. The first record
//! describes this bundle: its `Language`, `Id` and `Type` tags, and a
//! `Media` array of packed assets, each with `ShortName`, `Path`,
//! `Language` and `Id`. Every missing key degrades to an empty string or
//! an empty list; only ill-formed JSON is an error.

use vstd::prelude::*;
use crate::json::{JVal, jview, json_of, json_from_str, json_get, json_as_str, json_as_array};
use crate::records::{Bundle, BundleView, MediaEntry, MediaEntryView};

verus! {

/// Look a key up in a JSON object; `None` on anything but an object
/// holding the key.
pub open spec fn jget(v: JVal, k: Seq<char>) -> Option<JVal> {
    match v {
        JVal::Obj(m) => if m.contains_key(k) {
            Some(m[k])
        } else {
            None
        },
        _ => None,
    }
}

/// The characters of a JSON string; `None` on anything else.
pub open spec fn jstr(v: Option<JVal>) -> Option<Seq<char>> {
    match v {
        Some(JVal::Str(s)) => Some(s),
        _ => None,
    }
}

/// The characters of a JSON string, or the empty string when the value is
/// absent or not a string.
pub open spec fn jstr_or_empty(v: Option<JVal>) -> Seq<char> {
    match jstr(v) {
        Some(s) => s,
        None => Seq::<char>::empty(),
    }
}

/// What one element of the `Media` array denotes: an entry whenever its
/// identity fields `ShortName` and `Path` are strings, with `Language`
/// and `Id` defaulting to empty; category is fixed to `Media` and the
/// size to 0. A malformed element denotes nothing and is skipped.
pub open spec fn media_view_of(e: JVal) -> Option<MediaEntryView> {
    match (jstr(jget(e, "ShortName"@)), jstr(jget(e, "Path"@))) {
        (Some(n), Some(p)) => Some(
            MediaEntryView {
                name: n,
                path: p,
                language: jstr_or_empty(jget(e, "Language"@)),
                id: jstr_or_empty(jget(e, "Id"@)),
                category: "Media"@,
                size: 0,
            },
        ),
        _ => None,
    }
}

/// The entries a `Media` array denotes, in array order, malformed
/// elements skipped.
pub open spec fn media_list_of(arr: Seq<JVal>) -> Seq<MediaEntryView>
    decreases arr.len(),
{
    if arr.len() == 0 {
        Seq::<MediaEntryView>::empty()
    } else {
        media_list_of(arr.drop_last()) + match media_view_of(arr.last()) {
            Some(m) => seq![m],
            None => Seq::<MediaEntryView>::empty(),
        }
    }
}

/// The bundle record of a sidecar document: the first element of the
/// `SoundBanks` array under `SoundBanksInfo`, when that shape is present.
pub open spec fn bank_record_of(doc: JVal) -> Option<JVal> {
    match jget(doc, "SoundBanksInfo"@) {
        Some(sbi) => match jget(sbi, "SoundBanks"@) {
            Some(JVal::Arr(a)) => if a.len() > 0 {
                Some(a[0])
            } else {
                None
            },
            _ => None,
        },
        None => None,
    }
}

/// Mathematical view of the sidecar-derived fields.
#[verifier::ext_equal]
pub ghost struct SidecarView {
    pub language: Seq<char>,
    pub id: Seq<char>,
    pub category: Seq<char>,
    pub media: Seq<MediaEntryView>,
}

/// What a well-formed sidecar document denotes: the bundle record's tags,
/// each empty when missing, and the entries of its media array.
pub open spec fn sidecar_view_of(doc: JVal) -> SidecarView {
    match bank_record_of(doc) {
        Some(rec) => SidecarView {
            language: jstr_or_empty(jget(rec, "Language"@)),
            id: jstr_or_empty(jget(rec, "Id"@)),
            category: jstr_or_empty(jget(rec, "Type"@)),
            media: match jget(rec, "Media"@) {
                Some(JVal::Arr(a)) => media_list_of(a),
                _ => Seq::<MediaEntryView>::empty(),
            },
        },
        None => SidecarView {
            language: Seq::<char>::empty(),
            id: Seq::<char>::empty(),
            category: Seq::<char>::empty(),
            media: Seq::<MediaEntryView>::empty(),
        },
    }
}

/// The sidecar-derived fields of one bundle.
pub struct SidecarInfo {
    pub language: String,
    pub id: String,
    pub category: String,
    pub media: Vec<MediaEntry>,
}

impl View for SidecarInfo {
    type V = SidecarView;

    open spec fn view(&self) -> SidecarView {
        SidecarView {
            language: self.language@,
            id: self.id@,
            category: self.category@,
            media: self.media@.map_values(|m: MediaEntry| m@),
        }
    }
}

/// A sidecar file whose content is not a well-formed document; `path` is
/// the bundle file it belongs to.
#[derive(Debug)]
pub struct ParseError {
    pub path: String,
}

/// The string under `key`, or the empty string when the value is not an
/// object, lacks the key, or holds something other than a string there.
fn get_str_field(v: &serde_json::Value, key: &str) -> (r: String)
    ensures
        r@ == jstr_or_empty(jget(jview(*v), key@)),
{
    match json_get(v, key) {
        Some(x) => match json_as_str(x) {
            Some(s) => s.to_owned(),
            None => String::new(),
        },
        None => String::new(),
    }
}

/// Decode one element of the media array; `None` when its identity fields
/// are missing, so that one malformed entry never aborts the bundle.
fn parse_media_entry(e: &serde_json::Value) -> (r: Option<MediaEntry>)
    ensures
        match media_view_of(jview(*e)) {
            Some(mv) => r matches Some(m) && m@ == mv,
            None => r is None,
        },
{
    let name = match json_get(e, "ShortName") {
        Some(x) => match json_as_str(x) {
            Some(s) => s.to_owned(),
            None => {
                return None;
            },
        },
        None => {
            return None;
        },
    };
    let path = match json_get(e, "Path") {
        Some(x) => match json_as_str(x) {
            Some(s) => s.to_owned(),
            None => {
                return None;
            },
        },
        None => {
            return None;
        },
    };
    let language = get_str_field(e, "Language");
    let id = get_str_field(e, "Id");
    Some(MediaEntry { name, path, language, id, category: "Media".to_owned(), size: 0 })
}

/// Decode a media array in order, skipping malformed elements.
fn parse_media_list(arr: &Vec<serde_json::Value>) -> (r: Vec<MediaEntry>)
    ensures
        r@.map_values(|m: MediaEntry| m@) == media_list_of(
            arr@.map_values(|x: serde_json::Value| jview(x)),
        ),
{
    let ghost aview = arr@.map_values(|x: serde_json::Value| jview(x));
    let mut out: Vec<MediaEntry> = Vec::new();
    let mut i: usize = 0;
    while i < arr.len()
        invariant
            i <= arr@.len(),
            aview == arr@.map_values(|x: serde_json::Value| jview(x)),
            out@.map_values(|m: MediaEntry| m@) == media_list_of(aview.take(i as int)),
        decreases arr@.len() - i,
    {
        let e = &arr[i];
        proof {
            assert(aview[i as int] == jview(arr@[i as int]));
            assert(aview.take(i + 1 as int).drop_last() =~= aview.take(i as int));
            assert(aview.take(i + 1 as int).last() == aview[i as int]);
        }
        match parse_media_entry(e) {
            Some(m) => {
                out.push(m);
                proof {
                    assert(out@.map_values(|m: MediaEntry| m@) =~= out@.drop_last().map_values(
                        |m: MediaEntry| m@,
                    ).push(out@.last()@));
                }
            },
            None => {
            },
        }
        proof {
            assert(out@.map_values(|m: MediaEntry| m@) =~= media_list_of(aview.take(i + 1 as int)));
        }
        i = i + 1;
    }
    proof {
        assert(aview.take(arr@.len() as int) =~= aview);
    }
    out
}

/// Decode a sidecar's text. `None` exactly when the text is not
/// well-formed JSON; otherwise the fields its document denotes, every
/// missing key degraded to empty.
pub fn parse_sidecar(text: &str) -> (r: Option<SidecarInfo>)
    ensures
        match json_of(text@) {
            None => r is None,
            Some(doc) => r matches Some(info) && info@ == sidecar_view_of(doc),
        },
{
    let v = match json_from_str(text) {
        Some(v) => v,
        None => {
            return None;
        },
    };
    let rec = match json_get(&v, "SoundBanksInfo") {
        Some(sbi) => match json_get(sbi, "SoundBanks") {
            Some(sb) => match json_as_array(sb) {
                Some(arr) => if arr.len() > 0 {
                    Some(&arr[0])
                } else {
                    None
                },
                None => None,
            },
            None => None,
        },
        None => None,
    };
    proof {
        match rec {
            Some(r) => {
                assert(bank_record_of(jview(v)) == Some(jview(*r)));
            },
            None => {
                assert(bank_record_of(jview(v)) is None);
            },
        }
    }
    match rec {
        None => Some(
            SidecarInfo {
                language: String::new(),
                id: String::new(),
                category: String::new(),
                media: Vec::new(),
            },
        ),
        Some(r) => {
            let language = get_str_field(r, "Language");
            let id = get_str_field(r, "Id");
            let category = get_str_field(r, "Type");
            let media = match json_get(r, "Media") {
                Some(m) => match json_as_array(m) {
                    Some(arr) => parse_media_list(arr),
                    None => Vec::new(),
                },
                None => Vec::new(),
            };
            Some(SidecarInfo { language, id, category, media })
        },
    }
}

/// The view of a bundle whose sidecar is absent: only the
/// filesystem-derived fields are populated.
pub open spec fn plain_bundle_view(name: Seq<char>, path: Seq<char>, size: u64) -> BundleView {
    BundleView {
        name,
        path,
        size,
        language: Seq::<char>::empty(),
        id: Seq::<char>::empty(),
        category: Seq::<char>::empty(),
        media: Seq::<MediaEntryView>::empty(),
    }
}

/// The view of a bundle built from filesystem data plus sidecar fields.
pub open spec fn sidecar_bundle_view(
    name: Seq<char>,
    path: Seq<char>,
    size: u64,
    sc: SidecarView,
) -> BundleView {
    BundleView {
        name,
        path,
        size,
        language: sc.language,
        id: sc.id,
        category: sc.category,
        media: sc.media,
    }
}

/// Build one bundle from its filesystem data (`name`, `path`, `size`) and
/// the text of its sidecar, when one exists. A missing sidecar is not an
/// error: the bundle keeps empty tags and no media. Ill-formed sidecar
/// text fails with a `ParseError` naming the bundle's path, so that the
/// caller can drop this one candidate and keep scanning.
pub fn parse_bundle(name: String, path: String, size: u64, sidecar: Option<&str>) -> (r: Result<
    Bundle,
    ParseError,
>)
    ensures
        match sidecar {
            None => r matches Ok(b) && b@ == plain_bundle_view(name@, path@, size),
            Some(text) => match json_of(text@) {
                None => r matches Err(e) && e.path@ == path@,
                Some(doc) => r matches Ok(b) && b@ == sidecar_bundle_view(
                    name@,
                    path@,
                    size,
                    sidecar_view_of(doc),
                ),
            },
        },
{
    match sidecar {
        None => Ok(
            Bundle {
                name,
                path,
                size,
                language: String::new(),
                id: String::new(),
                category: String::new(),
                media: Vec::new(),
            },
        ),
        Some(text) => match parse_sidecar(text) {
            None => Err(ParseError { path }),
            Some(info) => Ok(
                Bundle {
                    name,
                    path,
                    size,
                    language: info.language,
                    id: info.id,
                    category: info.category,
                    media: info.media,
                },
            ),
        },
    }
}

/// The document of one media array element carrying the four entry
/// fields.
pub open spec fn media_entry_doc(n: Seq<char>, p: Seq<char>, l: Seq<char>, i: Seq<char>) -> JVal {
    JVal::Obj(
        map![
            "ShortName"@ => JVal::Str(n),
            "Path"@ => JVal::Str(p),
            "Language"@ => JVal::Str(l),
            "Id"@ => JVal::Str(i)
        ],
    )
}

/// A sidecar document whose bundle record carries the three tags and a
/// media array.
pub open spec fn sidecar_doc(l: Seq<char>, id: Seq<char>, t: Seq<char>, media: Seq<JVal>) -> JVal {
    JVal::Obj(
        map![
            "SoundBanksInfo"@ => JVal::Obj(
                map![
                    "SoundBanks"@ => JVal::Arr(
                        seq![
                            JVal::Obj(
                                map![
                                    "Language"@ => JVal::Str(l),
                                    "Id"@ => JVal::Str(id),
                                    "Type"@ => JVal::Str(t),
                                    "Media"@ => JVal::Arr(media)
                                ],
                            )
                        ],
                    )
                ],
            )
        ],
    )
}

/// Law: round-trip preservation of a media entry. Every field present in
/// a well-formed media array element appears unchanged in the entry it
/// denotes, with the fixed category and default size.
pub proof fn lemma_media_entry_round_trip(n: Seq<char>, p: Seq<char>, l: Seq<char>, i: Seq<char>)
    ensures
        media_view_of(media_entry_doc(n, p, l, i)) == Some(
            MediaEntryView {
                name: n,
                path: p,
                language: l,
                id: i,
                category: "Media"@,
                size: 0,
            },
        ),
{
    reveal_strlit("ShortName");
    reveal_strlit("Path");
    reveal_strlit("Language");
    reveal_strlit("Id");
    assert("ShortName"@.len() == 9);
    assert("Path"@.len() == 4);
    assert("Language"@.len() == 8);
    assert("Id"@.len() == 2);
    assert(jget(media_entry_doc(n, p, l, i), "ShortName"@) == Some(JVal::Str(n)));
    assert(jget(media_entry_doc(n, p, l, i), "Path"@) == Some(JVal::Str(p)));
    assert(jget(media_entry_doc(n, p, l, i), "Language"@) == Some(JVal::Str(l)));
    assert(jget(media_entry_doc(n, p, l, i), "Id"@) == Some(JVal::Str(i)));
}

/// Law: round-trip preservation of the bundle record. Every tag present
/// in a well-formed sidecar appears unchanged in the fields it denotes,
/// and the media array denotes its entries in order.
pub proof fn lemma_sidecar_round_trip(l: Seq<char>, id: Seq<char>, t: Seq<char>, media: Seq<JVal>)
    ensures
        sidecar_view_of(sidecar_doc(l, id, t, media)) == (SidecarView {
            language: l,
            id: id,
            category: t,
            media: media_list_of(media),
        }),
{
    reveal_strlit("SoundBanksInfo");
    reveal_strlit("SoundBanks");
    reveal_strlit("Language");
    reveal_strlit("Id");
    reveal_strlit("Type");
    reveal_strlit("Media");
    assert("Language"@.len() == 8);
    assert("Id"@.len() == 2);
    assert("Type"@.len() == 4);
    assert("Media"@.len() == 5);
    let rec = JVal::Obj(
        map![
            "Language"@ => JVal::Str(l),
            "Id"@ => JVal::Str(id),
            "Type"@ => JVal::Str(t),
            "Media"@ => JVal::Arr(media)
        ],
    );
    let doc = sidecar_doc(l, id, t, media);
    assert(bank_record_of(doc) == Some(rec));
    assert(jget(rec, "Language"@) == Some(JVal::Str(l)));
    assert(jget(rec, "Id"@) == Some(JVal::Str(id)));
    assert(jget(rec, "Type"@) == Some(JVal::Str(t)));
    assert(jget(rec, "Media"@) == Some(JVal::Arr(media)));
}

} // verus!
