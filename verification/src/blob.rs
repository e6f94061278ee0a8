//! The embedded page-data blobs, as plain values. The trusted seam is as
//! narrow as it can be: one extraction of a blob attribute and of the page
//! title from HTML, and one parse of a JSON document into the library's own
//! [`JsonValue`] tree, whose result is pinned by the name [`json_of`]. Every
//! reading of what the values mean is verified code above this module.

use soup::NodeExt;
use soup::QueryBuilderExt;
use vstd::prelude::*;
use crate::util::str_eq;

verus! {

#[verifier::external_type_specification]
#[verifier::external_body]
pub struct ExJsonValue(serde_json::Value);

/// A parsed JSON document, held as plain values. Numbers beyond unsigned
/// 64-bit integers are kept only as the fact that a number stood there: the
/// collection service's blobs carry identifiers and sizes, and a fractional
/// number can never satisfy an integer-field read.
pub enum JsonValue {
    Null,
    Bool(bool),
    UInt(u64),
    /// A number that is no unsigned 64-bit integer.
    OtherNumber,
    Str(String),
    Arr(Vec<JsonValue>),
    Obj(Vec<(String, JsonValue)>),
}

/// The mathematical shape of a parsed JSON document.
pub enum JsonView {
    Null,
    Bool(bool),
    UInt(u64),
    OtherNumber,
    Str(Seq<char>),
    Arr(Seq<JsonView>),
    Obj(Seq<(Seq<char>, JsonView)>),
}

/// What a [`JsonValue`] denotes.
pub open spec fn json_view(v: JsonValue) -> JsonView
    decreases v,
    via json_view_dec
{
    match v {
        JsonValue::Null => JsonView::Null,
        JsonValue::Bool(b) => JsonView::Bool(b),
        JsonValue::UInt(n) => JsonView::UInt(n),
        JsonValue::OtherNumber => JsonView::OtherNumber,
        JsonValue::Str(s) => JsonView::Str(s@),
        JsonValue::Arr(elems) => JsonView::Arr(json_views(elems@)),
        JsonValue::Obj(entries) => JsonView::Obj(entry_views(entries@)),
    }
}

/// What a sequence of JSON values denotes, element by element.
pub open spec fn json_views(elems: Seq<JsonValue>) -> Seq<JsonView>
    decreases elems,
    via json_views_dec
{
    if elems.len() == 0 {
        Seq::empty()
    } else {
        seq![json_view(elems[0])] + json_views(elems.drop_first())
    }
}

/// What a sequence of JSON object entries denotes, entry by entry.
pub open spec fn entry_views(entries: Seq<(String, JsonValue)>) -> Seq<(Seq<char>, JsonView)>
    decreases entries,
    via entry_views_dec
{
    if entries.len() == 0 {
        Seq::empty()
    } else {
        seq![(entries[0].0@, json_view(entries[0].1))] + entry_views(entries.drop_first())
    }
}

#[via_fn]
proof fn json_view_dec(v: JsonValue) {
    broadcast use vstd::std_specs::vec::axiom_vec_decreases_to_view;

    match v {
        JsonValue::Arr(elems) => {
            assert(decreases_to!(v => elems));
            assert(decreases_to!(elems => elems@));
        },
        JsonValue::Obj(entries) => {
            assert(decreases_to!(v => entries));
            assert(decreases_to!(entries => entries@));
        },
        _ => {},
    }
}

#[via_fn]
proof fn json_views_dec(elems: Seq<JsonValue>) {
    broadcast use vstd::seq::axiom_seq_index_decreases;
    broadcast use vstd::seq::axiom_seq_subrange_decreases;

    if elems.len() > 0 {
        assert(decreases_to!(elems => elems[0]));
        assert(elems.drop_first() == elems.subrange(1, elems.len() as int));
        assert(elems.subrange(1, elems.len() as int).len() < elems.len());
        assert(decreases_to!(elems => elems.subrange(1, elems.len() as int)));
    }
}

#[via_fn]
proof fn entry_views_dec(entries: Seq<(String, JsonValue)>) {
    broadcast use vstd::seq::axiom_seq_index_decreases;
    broadcast use vstd::seq::axiom_seq_subrange_decreases;

    if entries.len() > 0 {
        assert(decreases_to!(entries => entries[0]));
        assert(decreases_to!(entries[0] => entries[0].1));
        assert(entries.drop_first() == entries.subrange(1, entries.len() as int));
        assert(entries.subrange(1, entries.len() as int).len() < entries.len());
        assert(decreases_to!(entries => entries.subrange(1, entries.len() as int)));
    }
}

/// Element views line up with the elements.
pub proof fn lemma_json_views_index(elems: Seq<JsonValue>, i: int)
    ensures
        json_views(elems).len() == elems.len(),
        0 <= i < elems.len() ==> json_views(elems)[i] == json_view(elems[i]),
    decreases elems.len(),
{
    if elems.len() > 0 {
        lemma_json_views_index(elems.drop_first(), i - 1);
        if 0 < i < elems.len() {
            assert(elems.drop_first()[i - 1] == elems[i]);
        }
    }
}

/// Entry views line up with the entries.
pub proof fn lemma_entry_views_index(entries: Seq<(String, JsonValue)>, i: int)
    ensures
        entry_views(entries).len() == entries.len(),
        0 <= i < entries.len() ==> entry_views(entries)[i] == (
            entries[i].0@,
            json_view(entries[i].1),
        ),
    decreases entries.len(),
{
    if entries.len() > 0 {
        lemma_entry_views_index(entries.drop_first(), i - 1);
        if 0 < i < entries.len() {
            assert(entries.drop_first()[i - 1] == entries[i]);
        }
    }
}

/// The value under the first entry carrying this key.
pub open spec fn entry_lookup(entries: Seq<(Seq<char>, JsonView)>, key: Seq<char>) -> Option<
    JsonView,
>
    decreases entries.len(),
{
    if entries.len() == 0 {
        None
    } else if entries[0].0 == key {
        Some(entries[0].1)
    } else {
        entry_lookup(entries.drop_first(), key)
    }
}

/// The value a JSON object holds under a key: nothing on anything that is no
/// object or has no such key.
pub open spec fn spec_get(v: JsonView, key: Seq<char>) -> Option<JsonView> {
    match v {
        JsonView::Obj(entries) => entry_lookup(entries, key),
        _ => None,
    }
}

impl JsonValue {
    /// The value under a key, as `spec_get` says.
    pub fn get(&self, key: &str) -> (r: Option<&JsonValue>)
        ensures
            match r {
                Some(f) => spec_get(json_view(*self), key@) == Some(json_view(*f)),
                None => spec_get(json_view(*self), key@) is None,
            },
    {
        match self {
            JsonValue::Obj(entries) => {
                let ghost ev = entry_views(entries@);
                proof {
                    lemma_entry_views_index(entries@, 0);
                    assert(ev.skip(0) =~= ev);
                }
                let mut i: usize = 0;
                while i < entries.len()
                    invariant
                        i <= entries@.len(),
                        ev == entry_views(entries@),
                        json_view(*self) == JsonView::Obj(ev),
                        ev.len() == entries@.len(),
                        entry_lookup(ev, key@) == entry_lookup(ev.skip(i as int), key@),
                        forall|j: int| 0 <= j < i ==> ev[j].0 != key@,
                    decreases entries@.len() - i,
                {
                    proof {
                        lemma_entry_views_index(entries@, i as int);
                        assert(ev.skip(i as int)[0] == ev[i as int]);
                        assert(ev.skip(i as int).drop_first() =~= ev.skip(i + 1));
                    }
                    if str_eq(entries[i].0.as_str(), key) {
                        proof {
                            assert(entry_lookup(ev.skip(i as int), key@) == Some(ev[i as int].1));
                        }
                        return Some(&entries[i].1);
                    }
                    i += 1;
                }
                proof {
                    assert(ev.skip(entries@.len() as int) =~= Seq::<(Seq<char>, JsonView)>::empty());
                }
                None
            },
            _ => None,
        }
    }
}

/// What the page-data extraction yields on given HTML text: the `data-blob`
/// attribute of the first element whose `id` is `pagedata`, a function of the
/// text alone.
pub uninterp spec fn pagedata_blob_of(html: Seq<char>) -> Option<Seq<char>>;

/// Relies on soup: `Soup::new` parses the HTML, `attr` with `find` selects
/// the first element whose `id` is `pagedata`, and `get` reads that element's
/// `data-blob` attribute. Together a function of the HTML text alone.
#[verifier::external_body]
pub(crate) fn extract_pagedata_blob(html: &str) -> (r: Option<String>)
    ensures
        match r {
            Some(s) => pagedata_blob_of(html@) == Some(s@),
            None => pagedata_blob_of(html@) is None,
        },
{
    soup::Soup::new(html).attr("id", "pagedata").find().and_then(|el| el.get("data-blob"))
}

/// What the title extraction yields on given HTML text: the text of the first
/// `title` element, a function of the text alone.
pub uninterp spec fn page_title_of(html: Seq<char>) -> Option<Seq<char>>;

/// Relies on soup: `Soup::new` parses the HTML, `tag` with `find` selects the
/// first `title` element, and `text` gathers its text. Together a function of
/// the HTML text alone.
#[verifier::external_body]
pub(crate) fn extract_page_title(html: &str) -> (r: Option<String>)
    ensures
        match r {
            Some(s) => page_title_of(html@) == Some(s@),
            None => page_title_of(html@) is None,
        },
{
    soup::Soup::new(html).tag("title").find().map(|el| el.text())
}

/// What JSON parsing yields on given text: the [`JsonView`] tree the text
/// denotes, or nothing when the text is not valid JSON; a function of the
/// text alone.
pub uninterp spec fn json_of(s: Seq<char>) -> Option<JsonView>;

/// Relies on `serde_json::from_str::<Value>`: parses a JSON document, or
/// nothing when the text is not valid JSON; `from_serde` carries the parsed
/// document over into the library's tree.
#[verifier::external_body]
pub(crate) fn parse_json(s: &str) -> (r: Option<JsonValue>)
    ensures
        match r {
            Some(v) => json_of(s@) == Some(json_view(v)),
            None => json_of(s@) is None,
        },
{
    serde_json::from_str::<serde_json::Value>(s).ok().map(|v| from_serde(&v))
}

/// The conversion half of `parse_json`: relies on `serde_json::Value` having
/// exactly these six variants, and on `Number::as_u64` for the one numeric
/// shape the service's blobs use; every variant is carried over one for one.
#[verifier::external_body]
fn from_serde(v: &serde_json::Value) -> JsonValue {
    match v {
        serde_json::Value::Null => JsonValue::Null,
        serde_json::Value::Bool(b) => JsonValue::Bool(*b),
        serde_json::Value::Number(n) => match n.as_u64() {
            Some(u) => JsonValue::UInt(u),
            None => JsonValue::OtherNumber,
        },
        serde_json::Value::String(s) => JsonValue::Str(s.clone()),
        serde_json::Value::Array(a) => JsonValue::Arr(a.iter().map(from_serde).collect()),
        serde_json::Value::Object(m) => JsonValue::Obj(
            m.iter().map(|(k, val)| (k.clone(), from_serde(val))).collect(),
        ),
    }
}

} // verus!
