//! Raw JSON member values, carried through a load/save cycle unchanged.
//!
//! A document may hold object members this program does not understand.
//! Their values are kept verbatim, as the exact span of text between the
//! member's `:` and the delimiter that ends the value.  A [`RawJson`] is
//! such a span, checked to be a single balanced value so that writing it
//! back into a document and reading that document again recovers the very
//! same span.

use vstd::prelude::*;
use vstd::string::StrSliceExecFns;

verus! {

/// Whitespace as the document grammar knows it.
pub open spec fn is_ws(c: char) -> bool {
    c == ' ' || c == '\n' || c == '\t' || c == '\r'
}

/// A character that ends a value at nesting depth zero.
pub open spec fn is_end_delim(c: char) -> bool {
    c == ',' || c == '}' || c == ']'
}

/// Scans one balanced value starting at `i`: tracks bracket depth and
/// string state, and stops right before the first `,`, `}` or `]` that is
/// seen at depth zero outside a string.  Returns the index of that
/// delimiter, or `None` if the text ends first.
pub open spec fn scan_raw(s: Seq<char>, i: int, depth: int, instr: bool, esc: bool) -> Option<int>
    decreases s.len() - i,
{
    if i < 0 || i >= s.len() {
        None
    } else {
        let c = s[i];
        if instr {
            if esc {
                scan_raw(s, i + 1, depth, true, false)
            } else if c == '\\' {
                scan_raw(s, i + 1, depth, true, true)
            } else if c == '"' {
                scan_raw(s, i + 1, depth, false, false)
            } else {
                scan_raw(s, i + 1, depth, true, false)
            }
        } else if depth == 0 && is_end_delim(c) {
            Some(i)
        } else if c == '"' {
            scan_raw(s, i + 1, depth, true, false)
        } else if c == '{' || c == '[' {
            scan_raw(s, i + 1, depth + 1, false, false)
        } else if c == '}' || c == ']' {
            if depth > 0 {
                scan_raw(s, i + 1, depth - 1, false, false)
            } else {
                None
            }
        } else {
            scan_raw(s, i + 1, depth, false, false)
        }
    }
}

/// What a kept raw value must satisfy: nonempty, not opening with
/// whitespace, and scanned as exactly one balanced value when a delimiter
/// follows it.
pub open spec fn raw_wf(t: Seq<char>) -> bool {
    &&& t.len() > 0
    &&& !is_ws(t[0])
    &&& scan_raw(t.push(','), 0, 0, false, false) == Some(t.len() as int)
}

/// The verbatim text of one unrecognized member value.
pub struct RawJson {
    text: String,
}

impl View for RawJson {
    type V = Seq<char>;

    closed spec fn view(&self) -> Seq<char> {
        self.text@
    }
}

impl Clone for RawJson {
    fn clone(&self) -> (r: Self)
        ensures
            r@ == self@,
    {
        RawJson { text: self.text.clone() }
    }
}

/// A scan always stops at a delimiter inside the text, at or after where
/// it started.
pub proof fn lemma_scan_raw_bounds(s: Seq<char>, i: int, depth: int, instr: bool, esc: bool)
    ensures
        scan_raw(s, i, depth, instr, esc) matches Some(j) ==> i <= j < s.len()
            && is_end_delim(s[j]),
    decreases s.len() - i,
{
    if 0 <= i < s.len() {
        lemma_scan_raw_bounds(s, i + 1, depth, instr, esc);
        lemma_scan_raw_bounds(s, i + 1, depth, true, false);
        lemma_scan_raw_bounds(s, i + 1, depth, true, true);
        lemma_scan_raw_bounds(s, i + 1, depth, false, false);
        lemma_scan_raw_bounds(s, i + 1, depth + 1, false, false);
        lemma_scan_raw_bounds(s, i + 1, depth - 1, false, false);
    }
}

/// A scan reads only the characters it passes over: it behaves the same in
/// any text that holds the same span followed by a delimiter.
pub proof fn lemma_scan_raw_transfer(
    s1: Seq<char>,
    i1: int,
    s2: Seq<char>,
    i2: int,
    depth: int,
    instr: bool,
    esc: bool,
    j1: int,
)
    requires
        scan_raw(s1, i1, depth, instr, esc) == Some(j1),
        0 <= i2,
        i2 + (j1 - i1) < s2.len(),
        s1.subrange(i1, j1) == s2.subrange(i2, i2 + (j1 - i1)),
        is_end_delim(s2[i2 + (j1 - i1)]),
    ensures
        scan_raw(s2, i2, depth, instr, esc) == Some(i2 + (j1 - i1)),
    decreases j1 - i1,
{
    lemma_scan_raw_bounds(s1, i1, depth, instr, esc);
    if j1 == i1 {
        // The first scan stopped at once, so depth is zero, no string is
        // open, and the matching position of the second text is a
        // delimiter: any branch that moved on would have stopped later.
        lemma_scan_raw_bounds(s1, i1 + 1, depth, true, false);
        lemma_scan_raw_bounds(s1, i1 + 1, depth, true, true);
        lemma_scan_raw_bounds(s1, i1 + 1, depth, false, false);
        lemma_scan_raw_bounds(s1, i1 + 1, depth + 1, false, false);
        lemma_scan_raw_bounds(s1, i1 + 1, depth - 1, false, false);
        assert(depth == 0 && !instr && is_end_delim(s1[i1]));
    } else {
        let a = s1.subrange(i1, j1);
        let b = s2.subrange(i2, i2 + (j1 - i1));
        assert(s1[i1] == s2[i2]) by {
            assert(a[0] == b[0]);
        }
        let c = s1[i1];
        let a2 = s1.subrange(i1 + 1, j1);
        let b2 = s2.subrange(i2 + 1, i2 + (j1 - i1));
        assert(a2 =~= b2) by {
            assert forall|k: int| 0 <= k < a2.len() implies #[trigger] a2[k] == b2[k] by {
                assert(a2[k] == a[k + 1]);
                assert(b2[k] == b[k + 1]);
            }
        }
        if instr {
            if esc {
                lemma_scan_raw_transfer(s1, i1 + 1, s2, i2 + 1, depth, true, false, j1);
            } else if c == '\\' {
                lemma_scan_raw_transfer(s1, i1 + 1, s2, i2 + 1, depth, true, true, j1);
            } else if c == '"' {
                lemma_scan_raw_transfer(s1, i1 + 1, s2, i2 + 1, depth, false, false, j1);
            } else {
                lemma_scan_raw_transfer(s1, i1 + 1, s2, i2 + 1, depth, true, false, j1);
            }
        } else if c == '"' {
            lemma_scan_raw_transfer(s1, i1 + 1, s2, i2 + 1, depth, true, false, j1);
        } else if c == '{' || c == '[' {
            lemma_scan_raw_transfer(s1, i1 + 1, s2, i2 + 1, depth + 1, false, false, j1);
        } else if c == '}' || c == ']' {
            lemma_scan_raw_transfer(s1, i1 + 1, s2, i2 + 1, depth - 1, false, false, j1);
        } else {
            lemma_scan_raw_transfer(s1, i1 + 1, s2, i2 + 1, depth, false, false, j1);
        }
    }
}

/// Runs the balanced-value scan over `s` starting at `start`, at depth
/// zero and outside any string.
pub fn scan_raw_str(s: &str, start: usize) -> (r: Option<usize>)
    ensures
        match r {
            Some(j) => scan_raw(s@, start as int, 0, false, false) == Some(j as int),
            None => scan_raw(s@, start as int, 0, false, false) is None,
        },
{
    let n = s.unicode_len();
    let mut i = start;
    let mut depth: usize = 0;
    let mut instr = false;
    let mut esc = false;
    loop
        invariant
            n == s@.len(),
            start <= i,
            depth <= i,
            !instr ==> !esc,
            scan_raw(s@, start as int, 0, false, false) == scan_raw(
                s@,
                i as int,
                depth as int,
                instr,
                esc,
            ),
        decreases n - i,
    {
        if i >= n {
            return None;
        }
        let ghost (i0, d0, in0, e0) = (i as int, depth as int, instr, esc);
        let c = s.get_char(i);
        if instr {
            if esc {
                esc = false;
            } else if c == '\\' {
                esc = true;
            } else if c == '"' {
                instr = false;
            }
            i = i + 1;
        } else if depth == 0 && (c == ',' || c == '}' || c == ']') {
            return Some(i);
        } else if c == '"' {
            instr = true;
            i = i + 1;
        } else if c == '{' || c == '[' {
            depth = depth + 1;
            i = i + 1;
        } else if c == '}' || c == ']' {
            depth = depth - 1;
            i = i + 1;
        } else {
            i = i + 1;
        }
        proof {
            assert(scan_raw(s@, i0, d0, in0, e0) == scan_raw(
                s@,
                i as int,
                depth as int,
                instr,
                esc,
            ));
        }
    }
}

impl RawJson {
    /// Accepts `text` as a raw member value if it is one balanced value,
    /// nonempty and not opening with whitespace.
    pub fn new(text: String) -> (r: Option<RawJson>)
        ensures
            r matches Some(v) ==> v@ == text@ && raw_wf(text@),
            r is None ==> !raw_wf(text@),
    {
        let n = text.as_str().unicode_len();
        if n == 0 {
            return None;
        }
        let c0 = text.as_str().get_char(0);
        if c0 == ' ' || c0 == '\n' || c0 == '\t' || c0 == '\r' {
            return None;
        }
        let mut probe = text.clone();
        probe.push(',');
        match scan_raw_str(probe.as_str(), 0) {
            Some(j) if j == n => Some(RawJson { text }),
            _ => None,
        }
    }

    /// Wraps a span the caller has already shown to be one balanced
    /// value.
    pub(crate) fn from_checked(text: String) -> (r: RawJson)
        requires
            raw_wf(text@),
        ensures
            r@ == text@,
    {
        RawJson { text }
    }

    /// The kept span, verbatim.
    pub fn raw_text(&self) -> (r: &str)
        ensures
            r@ == self@,
    {
        self.text.as_str()
    }
}

} // verus!
