//! The persistence pipelines of the store, phrased over the file's contents
//! as a value. The caller owns the actual file: it hands the current
//! contents in (`None` when the file does not exist yet) and writes the
//! returned contents back out. Parsing the contents is delegated to the
//! `jsonparser` crate behind one trusted wrapper; everything around it —
//! initialization, corruption recovery, the document update and the
//! serialization — is verified.

use vstd::prelude::*;
use crate::doc::{
    doc_get, doc_set, empty_object_text, plain_doc, render_doc, wf_doc, DocView, Document, Entry,
    JsonVal, JsonValView,
};
use crate::scan::{depth_ok, lemma_render_depth_ok, nesting_within_limit};

verus! {

/// What the `jsonparser` crate reads out of a text: the entries of the
/// top-level JSON object in order, or nothing when the text does not parse
/// as a JSON object. The result depends on the text alone.
pub uninterp spec fn parsed_doc(text: Seq<char>) -> Option<DocView>;

/// The parse result `r` of a text reads renderings back verbatim: whenever
/// the text is the serialized form of a well-formed document of plain
/// entries (quote-free keys, each value a quote-free string or a keyword),
/// `r` holds exactly that document.
pub open spec fn reads_renderings_back(r: Option<Document>, text: Seq<char>) -> bool {
    forall|d: DocView| wf_doc(d) && plain_doc(d) && text == #[trigger] render_doc(d)
        ==> (r matches Some(p) && p@ == d)
}

/// Relies on `jsonparser::JSONParser::from`, `JSONValue::as_object` and the
/// `Display` rendering of `JSONValue`: `from` returns `Ok` exactly when the
/// text parses, and then always holds a top-level object; the object's
/// entries come out in insertion order with unique keys; a non-string value
/// is kept as its rendered text. The parser reads a quoted string as the
/// characters up to the next `"` with no escape handling, so the serialized
/// text of a document of plain entries is read back verbatim; and it can
/// reach `Ok` only through a close-brace token, so a text without `}` never
/// parses. The parser recurses once per nested object or array and is
/// called only on text of bounded nesting, which keeps it within the stack.
#[verifier::external_body]
fn parse_document(text: &str) -> (r: Option<Document>)
    requires
        depth_ok(text@),
    ensures
        r matches Some(d) ==> parsed_doc(text@) == Some(d@) && wf_doc(d@),
        r is None ==> parsed_doc(text@) is None,
        r is None <== !text@.contains('}'),
        reads_renderings_back(r, text@),
{
    let v = match jsonparser::JSONParser::from(text) {
        Ok(v) => v,
        Err(_) => return None,
    };
    let obj = v.as_object()?;
    let mut entries: Vec<Entry> = Vec::new();
    for (k, val) in obj.iter() {
        let jv = match val {
            jsonparser::JSONValue::String(s) => JsonVal::Str(s.clone()),
            other => JsonVal::Raw(other.to_string()),
        };
        entries.push(Entry { key: k.clone(), val: jv });
    }
    Some(Document { entries })
}

/// The file contents that initialization establishes: the contents as they
/// are when the file exists, the empty-object text when it does not.
pub open spec fn init_text(current: Option<String>) -> Seq<char> {
    match current {
        Some(t) => t@,
        None => empty_object_text(),
    }
}

/// What loading a text yields: its parsed entries, or nothing when it does
/// not parse as a JSON object — text nested beyond the accepted bound is
/// never parsed and yields nothing as well.
pub open spec fn loadable_doc(t: Seq<char>) -> Option<DocView> {
    if depth_ok(t) {
        parsed_doc(t)
    } else {
        None
    }
}

/// The document the store works on for given file contents: what loading
/// yields, or — corruption recovery — the empty document when loading
/// yields nothing.
pub open spec fn effective_doc(t: Seq<char>) -> DocView {
    match loadable_doc(t) {
        Some(d) => d,
        None => Seq::empty(),
    }
}

/// The literal text of the empty JSON object, `{}`.
pub fn empty_object_contents() -> (r: String)
    ensures
        r@ == empty_object_text(),
{
    let r = "{}".to_owned();
    proof {
        reveal_strlit("{}");
        assert(r@ =~= empty_object_text());
    }
    r
}

/// The backing-store manager's step: when the file is absent it is created
/// holding the empty object (the flag asks the caller for that one write);
/// when the file exists, whatever it holds, nothing happens. Running the
/// step again on its own output is therefore a byte-for-byte no-op.
pub fn ensure_initialized(current: Option<String>) -> (r: (String, bool))
    ensures
        r.0@ == init_text(current),
        r.1 == (current is None),
{
    match current {
        Some(t) => (t, false),
        None => (empty_object_contents(), true),
    }
}

/// The outcome of a lookup: the string value under the key, an explicit
/// not-found signal, or the fatal type mismatch of a non-string value.
pub enum Lookup {
    Found(String),
    Missing,
    NotAString,
}

/// How a lookup outcome reflects the value a document holds under a key.
pub open spec fn lookup_reflects(o: Lookup, v: Option<JsonValView>) -> bool {
    match v {
        Some(JsonValView::Str(s)) => o matches Lookup::Found(x) && x@ == s,
        Some(JsonValView::Raw(_)) => o is NotAString,
        None => o is Missing,
    }
}

/// What a mutation returns: the new file contents, and whether corruption
/// recovery ran (the caller then first resets the file to the empty object,
/// as the recovery policy writes even before the final contents).
pub struct AddResult {
    pub contents: String,
    pub recovered: bool,
}

/// The mutation pipeline: initialize, read the document out of the current
/// contents (falling back to the empty document on corruption), store
/// `value` under `key`, and serialize. The returned contents are exactly
/// the rendering of the updated document; when the prior contents render a
/// well-formed document of plain entries, the update applies to precisely
/// that document. Text nested beyond the accepted bound never reaches the
/// parser and is recovered from like any other corruption.
pub fn add_data(current: Option<String>, key: &str, value: &str) -> (r: AddResult)
    ensures
        ({
            let t0 = init_text(current);
            &&& wf_doc(effective_doc(t0))
            &&& r.recovered == (loadable_doc(t0) is None)
            &&& r.recovered <== !t0.contains('}')
            &&& r.contents@ == render_doc(
                doc_set(effective_doc(t0), key@, JsonValView::Str(value@)),
            )
            &&& forall|d: DocView| wf_doc(d) && plain_doc(d) && t0 == #[trigger] render_doc(d)
                ==> !r.recovered && r.contents@ == render_doc(
                    doc_set(d, key@, JsonValView::Str(value@)),
                )
        }),
{
    let (text, _created) = ensure_initialized(current);
    let parsed = if nesting_within_limit(text.as_str()) {
        parse_document(text.as_str())
    } else {
        None
    };
    proof {
        assert forall|d: DocView| wf_doc(d) && plain_doc(d) && text@ == #[trigger] render_doc(d)
            implies (parsed matches Some(p) && p@ == d) by {
            lemma_render_depth_ok(d);
        }
    }
    let recovered = parsed.is_none();
    let mut document = match parsed {
        Some(d) => d,
        None => Document::new(),
    };
    proof {
        assert(document@ == effective_doc(init_text(current)));
    }
    document.set(key, value);
    let contents = document.serialize();
    AddResult { contents, recovered }
}

/// What a lookup returns: the outcome, the file contents after the call
/// (reset to the empty object when recovery ran, unchanged otherwise), and
/// whether corruption recovery ran.
pub struct GetResult {
    pub outcome: Lookup,
    pub contents: String,
    pub recovered: bool,
}

/// The lookup pipeline: initialize, read the document out of the current
/// contents, and query the key. Unparsable contents are destructively reset
/// to the empty object — the self-healing policy — and the lookup then
/// misses, as it does for text nested beyond the accepted bound, which
/// never reaches the parser. A missing key is an outcome, never a fault.
/// When the prior contents render a well-formed document of plain entries,
/// the lookup answers from precisely that document and leaves it untouched.
pub fn get_data(current: Option<String>, key: &str) -> (r: GetResult)
    ensures
        ({
            let t0 = init_text(current);
            &&& wf_doc(effective_doc(t0))
            &&& r.recovered == (loadable_doc(t0) is None)
            &&& r.recovered <== !t0.contains('}')
            &&& r.contents@ == (if loadable_doc(t0) is Some {
                t0
            } else {
                empty_object_text()
            })
            &&& lookup_reflects(r.outcome, doc_get(effective_doc(t0), key@))
            &&& forall|d: DocView| wf_doc(d) && plain_doc(d) && t0 == #[trigger] render_doc(d)
                ==> !r.recovered && r.contents@ == t0 && lookup_reflects(
                    r.outcome,
                    doc_get(d, key@),
                )
        }),
{
    let (text, _created) = ensure_initialized(current);
    let parsed = if nesting_within_limit(text.as_str()) {
        parse_document(text.as_str())
    } else {
        None
    };
    proof {
        assert forall|d: DocView| wf_doc(d) && plain_doc(d) && text@ == #[trigger] render_doc(d)
            implies (parsed matches Some(p) && p@ == d) by {
            lemma_render_depth_ok(d);
        }
    }
    match parsed {
        Some(document) => {
            let outcome = match document.get(key) {
                Some(v) => match v {
                    JsonVal::Str(s) => Lookup::Found(s.clone()),
                    JsonVal::Raw(_) => Lookup::NotAString,
                },
                None => Lookup::Missing,
            };
            GetResult { outcome, contents: text, recovered: false }
        },
        None => GetResult {
            outcome: Lookup::Missing,
            contents: empty_object_contents(),
            recovered: true,
        },
    }
}

} // verus!
