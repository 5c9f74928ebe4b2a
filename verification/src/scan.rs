//! A bound on bracket nesting, checked before any text is handed to the
//! parser. The parser recurses once per nested object or array, so text of
//! unbounded nesting would exhaust the stack; text over the bound is
//! treated as unparsable and taken down the recovery path instead. A
//! bracket inside a quoted span does not count: the tokenizer reads a
//! quoted string verbatim up to the next `"`, so such a bracket is a plain
//! character.

use vstd::prelude::*;
use vstd::std_specs::iter::IteratorSpec;
use vstd::string::StrSliceExecFns;
use crate::doc::{
    entry_sep, plain_doc, plain_entry, render_doc, render_entry, render_prefix, render_val,
    DocView, JsonValView,
};

verus! {

/// The deepest bracket nesting accepted in a backing file. One nesting
/// level costs the parser a handful of stack frames, so this depth is far
/// inside any stack, and a key/value store's file — one flat object — sits
/// at depth one.
pub const MAX_NESTING: usize = 100;

/// The scan's state at a position in the text: whether the position lies
/// inside a quoted span, the bracket depth there, and the deepest depth
/// seen so far.
pub struct ScanState {
    pub in_quotes: bool,
    pub depth: int,
    pub deepest: int,
}

/// One character's effect on the scan state.
pub open spec fn scan_step(st: ScanState, c: char) -> ScanState {
    if st.in_quotes {
        if c == '"' {
            ScanState { in_quotes: false, depth: st.depth, deepest: st.deepest }
        } else {
            st
        }
    } else if c == '"' {
        ScanState { in_quotes: true, depth: st.depth, deepest: st.deepest }
    } else if c == '{' || c == '[' {
        ScanState {
            in_quotes: false,
            depth: st.depth + 1,
            deepest: if st.depth + 1 > st.deepest {
                st.depth + 1
            } else {
                st.deepest
            },
        }
    } else if c == '}' || c == ']' {
        ScanState {
            in_quotes: false,
            depth: if st.depth > 0 {
                st.depth - 1
            } else {
                0
            },
            deepest: st.deepest,
        }
    } else {
        st
    }
}

/// The scan state after reading a text from a given state.
pub open spec fn scan_chars(st: ScanState, t: Seq<char>) -> ScanState
    decreases t.len(),
{
    if t.len() == 0 {
        st
    } else {
        scan_chars(scan_step(st, t[0]), t.drop_first())
    }
}

/// The state the scan starts from.
pub open spec fn start_state() -> ScanState {
    ScanState { in_quotes: false, depth: 0, deepest: 0 }
}

/// The deepest bracket nesting of a text.
pub open spec fn max_nesting(t: Seq<char>) -> int {
    scan_chars(start_state(), t).deepest
}

/// Whether a text's nesting stays within the accepted bound.
pub open spec fn depth_ok(t: Seq<char>) -> bool {
    max_nesting(t) <= MAX_NESTING
}

/// Scanning a concatenation scans the parts in turn.
pub proof fn lemma_scan_append(st: ScanState, a: Seq<char>, b: Seq<char>)
    ensures
        scan_chars(st, a + b) == scan_chars(scan_chars(st, a), b),
    decreases a.len(),
{
    if a.len() == 0 {
        assert(a + b =~= b);
    } else {
        lemma_scan_append(scan_step(st, a[0]), a.drop_first(), b);
        assert((a + b).len() > 0);
        assert((a + b)[0] == a[0]);
        assert((a + b).drop_first() =~= a.drop_first() + b);
    }
}

/// Scanning one character is one step.
pub proof fn lemma_scan_one(st: ScanState, c: char)
    ensures
        scan_chars(st, seq![c]) == scan_step(st, c),
{
    assert(seq![c].drop_first() =~= Seq::<char>::empty());
    assert(scan_chars(scan_step(st, c), Seq::<char>::empty()) == scan_step(st, c));
}

/// Scanning a non-empty text starts with its first character.
pub proof fn lemma_scan_unfold(st: ScanState, t: Seq<char>)
    requires
        t.len() > 0,
    ensures
        scan_chars(st, t) == scan_chars(scan_step(st, t[0]), t.drop_first()),
{
}

/// Inside a quoted span, a quote-free text changes nothing.
pub proof fn lemma_scan_quoted_span(st: ScanState, t: Seq<char>)
    requires
        st.in_quotes,
        !t.contains('"'),
    ensures
        scan_chars(st, t) == st,
    decreases t.len(),
{
    if t.len() > 0 {
        if t[0] == '"' {
            assert(t.contains('"'));
        }
        assert(scan_step(st, t[0]) == st);
        assert(!t.drop_first().contains('"')) by {
            if t.drop_first().contains('"') {
                let i = choose|i: int|
                    0 <= i < t.drop_first().len() && t.drop_first()[i] == '"';
                assert(t[i + 1] == '"');
            }
        }
        lemma_scan_quoted_span(st, t.drop_first());
    }
}

/// A character that the scan passes over outside quotes: neither a quote
/// nor a bracket.
pub open spec fn neutral_char(c: char) -> bool {
    c != '"' && c != '{' && c != '[' && c != '}' && c != ']'
}

/// Outside quotes, a text of neutral characters changes nothing.
pub proof fn lemma_scan_neutral_span(st: ScanState, t: Seq<char>)
    requires
        !st.in_quotes,
        forall|i: int| 0 <= i < t.len() ==> neutral_char(#[trigger] t[i]),
    ensures
        scan_chars(st, t) == st,
    decreases t.len(),
{
    if t.len() > 0 {
        assert(neutral_char(t[0]));
        assert(scan_step(st, t[0]) == st);
        assert forall|i: int| 0 <= i < t.drop_first().len() implies neutral_char(
            #[trigger] t.drop_first()[i],
        ) by {
            assert(t.drop_first()[i] == t[i + 1]);
        }
        lemma_scan_neutral_span(st, t.drop_first());
    }
}

/// Outside quotes, the rendering of one plain entry changes nothing: its
/// brackets-free pieces stand between balanced quotes.
pub proof fn lemma_scan_plain_entry(st: ScanState, e: (Seq<char>, JsonValView))
    requires
        !st.in_quotes,
        plain_entry(e),
    ensures
        scan_chars(st, render_entry(e)) == st,
{
    let q = seq!['"'];
    let mid = seq!['"', ':', ' '];
    let opened = ScanState { in_quotes: true, depth: st.depth, deepest: st.deepest };
    lemma_scan_one(st, '"');
    lemma_scan_one(opened, '"');
    assert(scan_chars(st, q) == opened);
    assert(scan_chars(opened, q) == st);
    lemma_scan_append(st, q, e.0);
    lemma_scan_quoted_span(opened, e.0);
    lemma_scan_append(st, q + e.0, mid);
    assert(scan_chars(opened, mid) == st) by {
        lemma_scan_unfold(opened, mid);
        assert(mid.drop_first() =~= seq![':', ' ']);
        lemma_scan_unfold(st, seq![':', ' ']);
        assert(seq![':', ' '].drop_first() =~= seq![' ']);
        lemma_scan_one(st, ' ');
    }
    lemma_scan_append(st, (q + e.0) + mid, render_val(e.1));
    match e.1 {
        JsonValView::Str(s) => {
            assert(render_val(e.1) == (q + s) + q);
            lemma_scan_append(st, q, s);
            lemma_scan_quoted_span(opened, s);
            lemma_scan_append(st, q + s, q);
        },
        JsonValView::Raw(t) => {
            assert forall|i: int| 0 <= i < t.len() implies neutral_char(#[trigger] t[i]) by {
                if t == seq!['n', 'u', 'l', 'l'] {
                    assert(neutral_char(t[i]));
                } else if t == seq!['t', 'r', 'u', 'e'] {
                    assert(neutral_char(t[i]));
                } else {
                    assert(t == seq!['f', 'a', 'l', 's', 'e']);
                    assert(neutral_char(t[i]));
                }
            }
            lemma_scan_neutral_span(st, t);
        },
    }
}

/// In a plain document every entry is plain.
pub proof fn lemma_plain_doc_index(d: DocView)
    requires
        plain_doc(d),
    ensures
        forall|i: int| 0 <= i < d.len() ==> plain_entry(#[trigger] d[i]),
    decreases d.len(),
{
    if d.len() > 0 {
        lemma_plain_doc_index(d.drop_first());
        assert forall|i: int| 0 <= i < d.len() implies plain_entry(#[trigger] d[i]) by {
            if i > 0 {
                assert(d.drop_first()[i - 1] == d[i]);
            }
        }
    }
}

/// Outside quotes, the rendering of the first `n` entries of a document of
/// plain entries changes nothing.
pub proof fn lemma_scan_plain_prefix(st: ScanState, d: DocView, n: int)
    requires
        !st.in_quotes,
        forall|i: int| 0 <= i < d.len() ==> plain_entry(#[trigger] d[i]),
        n <= d.len(),
    ensures
        scan_chars(st, render_prefix(d, n)) == st,
    decreases n,
{
    if n > 0 {
        lemma_scan_plain_prefix(st, d, n - 1);
        lemma_scan_append(st, render_prefix(d, n - 1), entry_sep(n - 1));
        assert(scan_chars(st, entry_sep(n - 1)) == st) by {
            assert forall|i: int| 0 <= i < entry_sep(n - 1).len() implies neutral_char(
                #[trigger] entry_sep(n - 1)[i],
            ) by {}
            lemma_scan_neutral_span(st, entry_sep(n - 1));
        }
        lemma_scan_append(st, render_prefix(d, n - 1) + entry_sep(n - 1), render_entry(d[n - 1]));
        lemma_scan_plain_entry(st, d[n - 1]);
    }
}

/// The rendering of a plain document nests exactly one level deep, so it
/// always stays within the accepted bound.
pub proof fn lemma_render_depth_ok(d: DocView)
    requires
        plain_doc(d),
    ensures
        depth_ok(render_doc(d)),
{
    lemma_plain_doc_index(d);
    let ob = seq!['{'];
    let cb = seq!['}'];
    let st1 = ScanState { in_quotes: false, depth: 1, deepest: 1 };
    lemma_scan_one(start_state(), '{');
    lemma_scan_one(st1, '}');
    assert(scan_chars(start_state(), ob) == st1);
    lemma_scan_append(start_state(), ob, render_prefix(d, d.len() as int));
    lemma_scan_plain_prefix(st1, d, d.len() as int);
    lemma_scan_append(start_state(), ob + render_prefix(d, d.len() as int), cb);
    assert(scan_chars(st1, cb) == (ScanState { in_quotes: false, depth: 0, deepest: 1 }));
    assert(max_nesting(render_doc(d)) == 1);
}

/// Whether a text's bracket nesting stays within the accepted bound;
/// exactly the scan the parser's guard runs.
pub fn nesting_within_limit(text: &str) -> (r: bool)
    ensures
        r == depth_ok(text@),
{
    broadcast use vstd::string::axiom_spec_iter, vstd::string::next_postcondition;

    let n = text.unicode_len();
    let mut it = text.chars();
    let ghost mut i: int = 0;
    let mut in_quotes = false;
    let mut depth: usize = 0;
    let mut deepest: usize = 0;
    loop
        invariant_except_break
            0 <= i <= n,
            n == text@.len(),
            it.obeys_prophetic_iter_laws(),
            it.remaining() == text@.skip(i),
            depth as int <= i,
            deepest as int <= i,
            scan_chars(start_state(), text@.take(i)) == (ScanState {
                in_quotes,
                depth: depth as int,
                deepest: deepest as int,
            }),
        ensures
            scan_chars(start_state(), text@) == (ScanState {
                in_quotes,
                depth: depth as int,
                deepest: deepest as int,
            }),
        decreases n - i,
    {
        match it.next() {
            Some(c) => {
                proof {
                    assert(text@.skip(i)[0] == text@[i]);
                    assert(text@.take(i + 1) =~= text@.take(i) + seq![c]);
                    lemma_scan_append(start_state(), text@.take(i), seq![c]);
                    lemma_scan_one(scan_chars(start_state(), text@.take(i)), c);
                    assert(text@.skip(i).drop_first() =~= text@.skip(i + 1));
                }
                if in_quotes {
                    if c == '"' {
                        in_quotes = false;
                    }
                } else if c == '"' {
                    in_quotes = true;
                } else if c == '{' || c == '[' {
                    depth = depth + 1;
                    if depth > deepest {
                        deepest = depth;
                    }
                } else if c == '}' || c == ']' {
                    if depth > 0 {
                        depth = depth - 1;
                    }
                }
                proof {
                    i = i + 1;
                }
            },
            None => {
                proof {
                    assert(text@.skip(i).len() == 0);
                    assert(text@.take(i) =~= text@);
                }
                break;
            },
        }
    }
    deepest <= MAX_NESTING
}

} // verus!
