//! The ordered document model: an in-memory mapping from string keys to JSON
//! values that keeps insertion order for iteration and for the serialized
//! text. Overwriting an existing key keeps the entry at its original
//! position; only a key seen for the first time is appended at the end.

use vstd::prelude::*;
use vstd::string::StringExecFns;

verus! {

/// A JSON value as the store models it: either a JSON string, or the
/// rendered text of any other JSON value (number, boolean, null, array,
/// nested object), kept verbatim so that rewriting the document reproduces
/// the entry unchanged.
pub enum JsonVal {
    Str(String),
    Raw(String),
}

/// The mathematical shape of a `JsonVal`: the character sequence of the
/// string, or of the rendered text.
pub enum JsonValView {
    Str(Seq<char>),
    Raw(Seq<char>),
}

impl View for JsonVal {
    type V = JsonValView;

    open spec fn view(&self) -> JsonValView {
        match self {
            JsonVal::Str(s) => JsonValView::Str(s@),
            JsonVal::Raw(t) => JsonValView::Raw(t@),
        }
    }
}

/// One key/value pair of the document.
pub struct Entry {
    pub key: String,
    pub val: JsonVal,
}

impl View for Entry {
    type V = (Seq<char>, JsonValView);

    open spec fn view(&self) -> (Seq<char>, JsonValView) {
        (self.key@, self.val@)
    }
}

/// A document is modelled as the sequence of its entries, in order.
pub type DocView = Seq<(Seq<char>, JsonValView)>;

/// The value under key `k`: the value of the first entry whose key is `k`,
/// or `None` when no entry has that key.
pub open spec fn doc_get(d: DocView, k: Seq<char>) -> Option<JsonValView>
    decreases d.len(),
{
    if d.len() == 0 {
        None
    } else if d[0].0 == k {
        Some(d[0].1)
    } else {
        doc_get(d.drop_first(), k)
    }
}

/// Whether some entry of the document has key `k`.
pub open spec fn doc_has_key(d: DocView, k: Seq<char>) -> bool {
    doc_get(d, k) is Some
}

/// The document after storing `v` under `k`: the first entry keyed `k` is
/// replaced in place, and a fresh key is appended at the end.
pub open spec fn doc_set(d: DocView, k: Seq<char>, v: JsonValView) -> DocView
    decreases d.len(),
{
    if d.len() == 0 {
        seq![(k, v)]
    } else if d[0].0 == k {
        seq![(k, v)] + d.drop_first()
    } else {
        seq![d[0]] + doc_set(d.drop_first(), k, v)
    }
}

/// A well-formed document holds at most one entry per key.
pub open spec fn wf_doc(d: DocView) -> bool
    decreases d.len(),
{
    d.len() == 0 || (!doc_has_key(d.drop_first(), d[0].0) && wf_doc(d.drop_first()))
}

/// The rendered text of a JSON keyword value: `null`, `true` or `false`.
/// Such a text is read back as the same value and rendered back to the same
/// text, so it may stand in a plain entry.
pub open spec fn keyword_raw(t: Seq<char>) -> bool {
    ||| t == seq!['n', 'u', 'l', 'l']
    ||| t == seq!['t', 'r', 'u', 'e']
    ||| t == seq!['f', 'a', 'l', 's', 'e']
}

/// An entry whose key holds no double quote and whose value is a quote-free
/// string or a keyword. The serialized text of such entries is read back
/// verbatim.
pub open spec fn plain_entry(e: (Seq<char>, JsonValView)) -> bool {
    &&& !e.0.contains('"')
    &&& match e.1 {
        JsonValView::Str(s) => !s.contains('"'),
        JsonValView::Raw(t) => keyword_raw(t),
    }
}

/// A document all of whose entries are plain.
pub open spec fn plain_doc(d: DocView) -> bool
    decreases d.len(),
{
    d.len() == 0 || (plain_entry(d[0]) && plain_doc(d.drop_first()))
}

/// The serialized text of one value.
pub open spec fn render_val(v: JsonValView) -> Seq<char> {
    match v {
        JsonValView::Str(s) => seq!['"'] + s + seq!['"'],
        JsonValView::Raw(t) => t,
    }
}

/// The serialized text of one entry: `"key": value`.
pub open spec fn render_entry(e: (Seq<char>, JsonValView)) -> Seq<char> {
    seq!['"'] + e.0 + seq!['"', ':', ' '] + render_val(e.1)
}

/// The separator written before entry `i`: nothing before the first entry,
/// a comma and a space before every later one.
pub open spec fn entry_sep(i: int) -> Seq<char> {
    if i == 0 {
        Seq::empty()
    } else {
        seq![',', ' ']
    }
}

/// The serialized text of the first `n` entries of the document, separators
/// included.
pub open spec fn render_prefix(d: DocView, n: int) -> Seq<char>
    decreases n,
{
    if n <= 0 {
        Seq::empty()
    } else {
        render_prefix(d, n - 1) + entry_sep(n - 1) + render_entry(d[n - 1])
    }
}

/// The serialized text of the whole document: the entries in order between
/// braces.
pub open spec fn render_doc(d: DocView) -> Seq<char> {
    seq!['{'] + render_prefix(d, d.len() as int) + seq!['}']
}

/// The text of the empty JSON object.
pub open spec fn empty_object_text() -> Seq<char> {
    seq!['{', '}']
}

/// The empty document serializes to the empty-object text.
pub proof fn lemma_render_empty()
    ensures
        render_doc(Seq::empty()) == empty_object_text(),
{
    assert(render_doc(Seq::empty()) =~= empty_object_text());
}

/// Relies on `<str as PartialEq>::eq`: two string slices compare equal
/// exactly when they hold the same characters.
#[verifier::external_body]
fn str_eq(a: &str, b: &str) -> (r: bool)
    ensures
        r == (a@ == b@),
{
    a == b
}

/// The in-memory ordered document.
pub struct Document {
    pub entries: Vec<Entry>,
}

impl View for Document {
    type V = DocView;

    open spec fn view(&self) -> DocView {
        self.entries@.map_values(|e: Entry| e@)
    }
}

impl Document {
    /// The empty document.
    pub fn new() -> (r: Document)
        ensures
            r@ == Seq::<(Seq<char>, JsonValView)>::empty(),
    {
        let r = Document { entries: Vec::new() };
        proof {
            assert(r@ =~= Seq::<(Seq<char>, JsonValView)>::empty());
        }
        r
    }

    /// The index of the first entry keyed `key`, if any.
    fn find(&self, key: &str) -> (r: Option<usize>)
        ensures
            match r {
                Some(i) => i < self@.len() && self@[i as int].0 == key@ && (forall|j: int|
                    0 <= j < i ==> self@[j].0 != key@),
                None => forall|j: int| 0 <= j < self@.len() ==> self@[j].0 != key@,
            },
    {
        let mut i: usize = 0;
        while i < self.entries.len()
            invariant
                i <= self.entries.len(),
                self@.len() == self.entries@.len(),
                forall|j: int| 0 <= j < i ==> self@[j].0 != key@,
            decreases self.entries.len() - i,
        {
            if str_eq(self.entries[i].key.as_str(), key) {
                return Some(i);
            }
            i += 1;
        }
        None
    }

    /// Look a key up; `None` is the explicit absent-marker.
    pub fn get(&self, key: &str) -> (r: Option<&JsonVal>)
        ensures
            match r {
                Some(v) => doc_get(self@, key@) == Some(v@),
                None => doc_get(self@, key@) is None,
            },
    {
        match self.find(key) {
            Some(i) => {
                proof {
                    lemma_doc_get_at_first(self@, key@, i as int);
                }
                Some(&self.entries[i].val)
            },
            None => {
                proof {
                    lemma_doc_get_absent(self@, key@);
                }
                None
            },
        }
    }

    /// Store `value` under `key`: overwrite in place if the key is present,
    /// append otherwise. Never fails.
    pub fn set(&mut self, key: &str, value: &str)
        ensures
            final(self)@ == doc_set(old(self)@, key@, JsonValView::Str(value@)),
    {
        let val = JsonVal::Str(value.to_owned());
        match self.find(key) {
            Some(i) => {
                self.entries[i] = Entry { key: key.to_owned(), val };
                proof {
                    lemma_doc_set_at_first(old(self)@, key@, JsonValView::Str(value@), i as int);
                    assert(final(self)@ =~= old(self)@.update(
                        i as int,
                        (key@, JsonValView::Str(value@)),
                    ));
                }
            },
            None => {
                self.entries.push(Entry { key: key.to_owned(), val });
                proof {
                    lemma_doc_set_absent(old(self)@, key@, JsonValView::Str(value@));
                    assert(final(self)@ =~= old(self)@.push((key@, JsonValView::Str(value@))));
                }
            },
        }
    }

    /// Serialize the document: its entries in order, rendered between
    /// braces, `", "` between entries and `": "` after each key.
    pub fn serialize(&self) -> (r: String)
        ensures
            r@ == render_doc(self@),
    {
        let mut out = String::new();
        out.append("{");
        proof {
            reveal_strlit("{");
            assert(out@ =~= seq!['{'] + render_prefix(self@, 0));
        }
        let mut i: usize = 0;
        while i < self.entries.len()
            invariant
                i <= self.entries.len(),
                self@.len() == self.entries@.len(),
                out@ == seq!['{'] + render_prefix(self@, i as int),
            decreases self.entries.len() - i,
        {
            if i > 0 {
                out.append(", ");
            }
            out.append("\"");
            out.append(self.entries[i].key.as_str());
            out.append("\": ");
            match &self.entries[i].val {
                JsonVal::Str(s) => {
                    out.append("\"");
                    out.append(s.as_str());
                    out.append("\"");
                },
                JsonVal::Raw(t) => {
                    out.append(t.as_str());
                },
            }
            proof {
                reveal_strlit(", ");
                reveal_strlit("\"");
                reveal_strlit("\": ");
                assert((", ")@ =~= seq![',', ' ']);
                assert(("\"")@ =~= seq!['"']);
                assert(("\": ")@ =~= seq!['"', ':', ' ']);
                assert(out@ =~= seq!['{'] + render_prefix(self@, i + 1));
            }
            i += 1;
        }
        out.append("}");
        proof {
            reveal_strlit("}");
            assert(("}")@ =~= seq!['}']);
            assert(out@ =~= render_doc(self@));
        }
        out
    }
}

/// When the first entry keyed `k` stands at index `i`, the lookup returns
/// that entry's value.
pub proof fn lemma_doc_get_at_first(d: DocView, k: Seq<char>, i: int)
    requires
        0 <= i < d.len(),
        d[i].0 == k,
        forall|j: int| 0 <= j < i ==> d[j].0 != k,
    ensures
        doc_get(d, k) == Some(d[i].1),
    decreases i,
{
    if i > 0 {
        lemma_doc_get_at_first(d.drop_first(), k, i - 1);
    }
}

/// When no entry has key `k`, the lookup returns the absent-marker.
pub proof fn lemma_doc_get_absent(d: DocView, k: Seq<char>)
    requires
        forall|j: int| 0 <= j < d.len() ==> d[j].0 != k,
    ensures
        doc_get(d, k) is None,
    decreases d.len(),
{
    if d.len() > 0 {
        lemma_doc_get_absent(d.drop_first(), k);
    }
}

/// When the first entry keyed `k` stands at index `i`, storing under `k`
/// replaces exactly that entry.
pub proof fn lemma_doc_set_at_first(d: DocView, k: Seq<char>, v: JsonValView, i: int)
    requires
        0 <= i < d.len(),
        d[i].0 == k,
        forall|j: int| 0 <= j < i ==> d[j].0 != k,
    ensures
        doc_set(d, k, v) == d.update(i, (k, v)),
    decreases i,
{
    if i == 0 {
        assert(doc_set(d, k, v) =~= d.update(0, (k, v)));
    } else {
        lemma_doc_set_at_first(d.drop_first(), k, v, i - 1);
        assert(doc_set(d, k, v) =~= d.update(i, (k, v)));
    }
}

/// When no entry has key `k`, storing under `k` appends a new entry.
pub proof fn lemma_doc_set_absent(d: DocView, k: Seq<char>, v: JsonValView)
    requires
        forall|j: int| 0 <= j < d.len() ==> d[j].0 != k,
    ensures
        doc_set(d, k, v) == d.push((k, v)),
    decreases d.len(),
{
    if d.len() == 0 {
        assert(doc_set(d, k, v) =~= d.push((k, v)));
    } else {
        lemma_doc_set_absent(d.drop_first(), k, v);
        assert(doc_set(d, k, v) =~= d.push((k, v)));
    }
}

} // verus!
