//! Parsing of documents and crash logs from their JSON text.
//!
//! The grammar is the one [`crate::ser`] writes, taken a little wider:
//! whitespace may stand between tokens, strings may use the common
//! backslash escapes, and numbers may carry leading zeros.  Known members
//! must come first and in their written order; every member after them is
//! kept as an unrecognized member with its raw value captured verbatim.

use vstd::prelude::*;
use crate::model::{
    AnnotationImage, AnnotationZStack, ImageModel, LightAnnotation, ZStackModel, cache_view,
    extras_view, image_wf, zstack_wf, doc_wf, zstacks_view,
};
use crate::raw::{RawJson, is_ws, lemma_scan_raw_bounds, lemma_scan_raw_transfer, raw_wf,
    scan_raw, scan_raw_str};
use vstd::string::StrSliceExecFns;
use crate::ser::{
    lit_member_best_index, lit_member_focus_image_index, lit_member_image_path,
    lit_member_images, lit_member_neighbours, lit_member_stack_index, lit_null,
};

verus! {

/// The first position at or after `i` that does not hold whitespace.
pub open spec fn ws_end(s: Seq<char>, i: int) -> int
    decreases s.len() - i,
{
    if 0 <= i < s.len() && is_ws(s[i]) {
        ws_end(s, i + 1)
    } else {
        i
    }
}

/// The word `w` stands at position `i` of `s`.
pub open spec fn match_lit(s: Seq<char>, i: int, w: Seq<char>) -> bool {
    &&& 0 <= i
    &&& i + w.len() <= s.len()
    &&& s.subrange(i, i + w.len()) == w
}

/// What a backslash escape stands for.
pub open spec fn unescape_char(c: char) -> Option<char> {
    if c == '"' {
        Some('"')
    } else if c == '\\' {
        Some('\\')
    } else if c == '/' {
        Some('/')
    } else if c == 'n' {
        Some('\n')
    } else if c == 't' {
        Some('\t')
    } else if c == 'r' {
        Some('\r')
    } else {
        None
    }
}

/// The remainder of a string value after its opening quote: the decoded
/// characters and the position after the closing quote.
pub open spec fn p_string_body(s: Seq<char>, i: int) -> Option<(Seq<char>, int)>
    decreases s.len() - i,
{
    if i < 0 || i >= s.len() {
        None
    } else if s[i] == '"' {
        Some((Seq::empty(), i + 1))
    } else if s[i] == '\\' {
        if i + 1 >= s.len() {
            None
        } else {
            match unescape_char(s[i + 1]) {
                None => None,
                Some(c) => match p_string_body(s, i + 2) {
                    None => None,
                    Some((t, j)) => Some((seq![c] + t, j)),
                },
            }
        }
    } else {
        match p_string_body(s, i + 1) {
            None => None,
            Some((t, j)) => Some((seq![s[i]] + t, j)),
        }
    }
}

/// A quoted string value at position `i`.
pub open spec fn p_string(s: Seq<char>, i: int) -> Option<(Seq<char>, int)> {
    if 0 <= i < s.len() && s[i] == '"' {
        p_string_body(s, i + 1)
    } else {
        None
    }
}

/// A decimal digit.
pub open spec fn is_digit(c: char) -> bool {
    c == '0' || c == '1' || c == '2' || c == '3' || c == '4' || c == '5' || c == '6' || c == '7'
        || c == '8' || c == '9'
}

/// A decimal digit's value.
pub open spec fn digit_val(c: char) -> nat {
    if c == '0' {
        0
    } else if c == '1' {
        1
    } else if c == '2' {
        2
    } else if c == '3' {
        3
    } else if c == '4' {
        4
    } else if c == '5' {
        5
    } else if c == '6' {
        6
    } else if c == '7' {
        7
    } else if c == '8' {
        8
    } else {
        9
    }
}

/// The first position at or after `i` that does not hold a digit.
pub open spec fn digits_end(s: Seq<char>, i: int) -> int
    decreases s.len() - i,
{
    if 0 <= i < s.len() && is_digit(s[i]) {
        digits_end(s, i + 1)
    } else {
        i
    }
}

/// The value of the digits of `s` between `i` and `j`.
pub open spec fn digits_val(s: Seq<char>, i: int, j: int) -> nat
    decreases j - i,
{
    if j <= i {
        0
    } else {
        digits_val(s, i, j - 1) * 10 + digit_val(s[j - 1])
    }
}

/// An unsigned decimal number at position `i`: its value, however large,
/// and the position after its digits.
pub open spec fn p_number(s: Seq<char>, i: int) -> Option<(nat, int)> {
    if 0 <= i < s.len() && is_digit(s[i]) {
        Some((digits_val(s, i, digits_end(s, i)), digits_end(s, i)))
    } else {
        None
    }
}

/// A raw member value at position `i`: the verbatim span up to the
/// delimiter that ends it, which must exist and must not come at once.
pub open spec fn p_raw(s: Seq<char>, i: int) -> Option<(Seq<char>, int)> {
    match scan_raw(s, i, 0, false, false) {
        None => None,
        Some(e) => if i < e <= s.len() {
            Some((s.subrange(i, e), e))
        } else {
            None
        },
    }
}

/// `null` or a quoted string, at position `i`.
pub open spec fn p_opt_path(s: Seq<char>, i: int) -> Option<(Option<Seq<char>>, int)> {
    if match_lit(s, i, lit_null()) {
        Some((None, i + lit_null().len()))
    } else {
        match p_string(s, i) {
            None => None,
            Some((t, j)) => Some((Some(t), j)),
        }
    }
}

/// `null` or a decimal number no larger than the machine can index with,
/// at position `i`.
pub open spec fn p_opt_index(s: Seq<char>, i: int) -> Option<(Option<usize>, int)> {
    if match_lit(s, i, lit_null()) {
        Some((None, i + lit_null().len()))
    } else {
        match p_number(s, i) {
            None => None,
            Some((v, j)) => if v <= usize::MAX {
                Some((Some(v as usize), j))
            } else {
                None
            },
        }
    }
}

/// Exactly `k` more neighbour slots, comma-separated, then the closing
/// bracket.
pub open spec fn p_neigh_items(s: Seq<char>, i: int, k: nat) -> Option<
    (Seq<Option<Seq<char>>>, int),
>
    decreases k,
{
    if k == 0 {
        let j = ws_end(s, i);
        if 0 <= j < s.len() && s[j] == ']' {
            Some((Seq::empty(), j + 1))
        } else {
            None
        }
    } else {
        let j = ws_end(s, i);
        match p_opt_path(s, j) {
            None => None,
            Some((el, j2)) => if k == 1 {
                let j3 = ws_end(s, j2);
                if 0 <= j3 < s.len() && s[j3] == ']' {
                    Some((seq![el], j3 + 1))
                } else {
                    None
                }
            } else {
                let j3 = ws_end(s, j2);
                if 0 <= j3 < s.len() && s[j3] == ',' {
                    match p_neigh_items(s, j3 + 1, (k - 1) as nat) {
                        None => None,
                        Some((rest, j4)) => Some((seq![el] + rest, j4)),
                    }
                } else {
                    None
                }
            },
        }
    }
}

/// Zero or more unrecognized members, each `, "name" : value`, then the
/// closing brace.
pub open spec fn p_extra_members(s: Seq<char>, i: int) -> Option<
    (Seq<(Seq<char>, Seq<char>)>, int),
>
    decreases s.len() - i,
{
    let j = ws_end(s, i);
    if !(i <= j < s.len()) {
        None
    } else if s[j] == '}' {
        Some((Seq::empty(), j + 1))
    } else if s[j] == ',' {
        let k = ws_end(s, j + 1);
        match p_string(s, k) {
            None => None,
            Some((key, k2)) => {
                let k3 = ws_end(s, k2);
                if k3 < s.len() && s[k3] == ':' {
                    let k4 = ws_end(s, k3 + 1);
                    match p_raw(s, k4) {
                        None => None,
                        Some((value, e)) => if i < e <= s.len() {
                            match p_extra_members(s, e) {
                                None => None,
                                Some((rest, j5)) => Some((seq![(key, value)] + rest, j5)),
                            }
                        } else {
                            None
                        },
                    }
                } else {
                    None
                }
            },
        }
    } else {
        None
    }
}

/// One image object at position `i`.
pub open spec fn p_image(s: Seq<char>, i: int) -> Option<(ImageModel, int)> {
    let j = ws_end(s, i);
    if !(0 <= j < s.len() && s[j] == '{') {
        None
    } else {
        let k = ws_end(s, j + 1);
        if !match_lit(s, k, lit_member_image_path()) {
            None
        } else {
            let k2 = ws_end(s, k + lit_member_image_path().len());
            if !(k2 < s.len() && s[k2] == ':') {
                None
            } else {
                match p_string(s, ws_end(s, k2 + 1)) {
                    None => None,
                    Some((path, k3)) => {
                        let k4 = ws_end(s, k3);
                        if !(k4 < s.len() && s[k4] == ',') {
                            None
                        } else {
                            let k5 = ws_end(s, k4 + 1);
                            if !match_lit(s, k5, lit_member_neighbours()) {
                                None
                            } else {
                                let k6 = ws_end(s, k5 + lit_member_neighbours().len());
                                if !(k6 < s.len() && s[k6] == ':') {
                                    None
                                } else {
                                    let k7 = ws_end(s, k6 + 1);
                                    if !(k7 < s.len() && s[k7] == '[') {
                                        None
                                    } else {
                                        match p_neigh_items(s, k7 + 1, 8) {
                                            None => None,
                                            Some((ns, k8)) => match p_extra_members(s, k8) {
                                                None => None,
                                                Some((extra, k9)) => Some(
                                                    (
                                                        ImageModel {
                                                            image_path: path,
                                                            neighbours: ns,
                                                            extra: extra,
                                                        },
                                                        k9,
                                                    ),
                                                ),
                                            },
                                        }
                                    }
                                }
                            }
                        }
                    },
                }
            }
        }
    }
}

/// One or more image objects, comma-separated, then the closing bracket.
pub open spec fn p_images_items(s: Seq<char>, i: int) -> Option<(Seq<ImageModel>, int)>
    decreases s.len() - i,
{
    match p_image(s, i) {
        None => None,
        Some((img, j)) => {
            if !(i < j <= s.len()) {
                None
            } else {
                let k = ws_end(s, j);
                if !(j <= k < s.len()) {
                    None
                } else if s[k] == ']' {
                    Some((seq![img], k + 1))
                } else if s[k] == ',' {
                    match p_images_items(s, k + 1) {
                        None => None,
                        Some((rest, j2)) => Some((seq![img] + rest, j2)),
                    }
                } else {
                    None
                }
            }
        },
    }
}

/// One z-stack object at position `i`.
pub open spec fn p_zstack(s: Seq<char>, i: int) -> Option<(ZStackModel, int)> {
    let j = ws_end(s, i);
    if !(0 <= j < s.len() && s[j] == '{') {
        None
    } else {
        let k = ws_end(s, j + 1);
        if !match_lit(s, k, lit_member_images()) {
            None
        } else {
            let k2 = ws_end(s, k + lit_member_images().len());
            if !(k2 < s.len() && s[k2] == ':') {
                None
            } else {
                let k3 = ws_end(s, k2 + 1);
                if !(k3 < s.len() && s[k3] == '[') {
                    None
                } else {
                    let k4 = ws_end(s, k3 + 1);
                    let images_result = if 0 <= k4 < s.len() && s[k4] == ']' {
                        Some((Seq::<ImageModel>::empty(), k4 + 1))
                    } else {
                        p_images_items(s, k3 + 1)
                    };
                    match images_result {
                        None => None,
                        Some((imgs, k5)) => {
                            let k6 = ws_end(s, k5);
                            if !(k6 < s.len() && s[k6] == ',') {
                                None
                            } else {
                                let k7 = ws_end(s, k6 + 1);
                                if !match_lit(s, k7, lit_member_best_index()) {
                                    None
                                } else {
                                    let k8 = ws_end(s, k7 + lit_member_best_index().len());
                                    if !(k8 < s.len() && s[k8] == ':') {
                                        None
                                    } else {
                                        match p_opt_index(s, ws_end(s, k8 + 1)) {
                                            None => None,
                                            Some((best, k9)) => match p_extra_members(s, k9) {
                                                None => None,
                                                Some((extra, k10)) => Some(
                                                    (
                                                        ZStackModel {
                                                            images: imgs,
                                                            best_index: best,
                                                            extra: extra,
                                                        },
                                                        k10,
                                                    ),
                                                ),
                                            },
                                        }
                                    }
                                }
                            }
                        },
                    }
                }
            }
        }
    }
}

/// One or more z-stack objects, comma-separated, then the closing bracket.
pub open spec fn p_zstacks_items(s: Seq<char>, i: int) -> Option<(Seq<ZStackModel>, int)>
    decreases s.len() - i,
{
    match p_zstack(s, i) {
        None => None,
        Some((z, j)) => {
            if !(i < j <= s.len()) {
                None
            } else {
                let k = ws_end(s, j);
                if !(j <= k < s.len()) {
                    None
                } else if s[k] == ']' {
                    Some((seq![z], k + 1))
                } else if s[k] == ',' {
                    match p_zstacks_items(s, k + 1) {
                        None => None,
                        Some((rest, j2)) => Some((seq![z] + rest, j2)),
                    }
                } else {
                    None
                }
            }
        },
    }
}

/// A whole document: the top-level array, with nothing but whitespace
/// after it.
pub open spec fn p_doc(s: Seq<char>) -> Option<Seq<ZStackModel>> {
    let i = ws_end(s, 0);
    if !(0 <= i < s.len() && s[i] == '[') {
        None
    } else {
        let j = ws_end(s, i + 1);
        if 0 <= j < s.len() && s[j] == ']' {
            if ws_end(s, j + 1) == s.len() {
                Some(Seq::empty())
            } else {
                None
            }
        } else {
            match p_zstacks_items(s, i + 1) {
                None => None,
                Some((stacks, j2)) => if ws_end(s, j2) == s.len() {
                    Some(stacks)
                } else {
                    None
                },
            }
        }
    }
}

/// One crash-log entry object at position `i`.
pub open spec fn p_cache_entry(s: Seq<char>, i: int) -> Option<((usize, usize), int)> {
    let j = ws_end(s, i);
    if !(0 <= j < s.len() && s[j] == '{') {
        None
    } else {
        let k = ws_end(s, j + 1);
        if !match_lit(s, k, lit_member_stack_index()) {
            None
        } else {
            let k2 = ws_end(s, k + lit_member_stack_index().len());
            if !(k2 < s.len() && s[k2] == ':') {
                None
            } else {
                match p_number(s, ws_end(s, k2 + 1)) {
                    None => None,
                    Some((si, k3)) => if si > usize::MAX {
                        None
                    } else {
                        let k4 = ws_end(s, k3);
                        if !(k4 < s.len() && s[k4] == ',') {
                            None
                        } else {
                            let k5 = ws_end(s, k4 + 1);
                            if !match_lit(s, k5, lit_member_focus_image_index()) {
                                None
                            } else {
                                let k6 = ws_end(s, k5 + lit_member_focus_image_index().len());
                                if !(k6 < s.len() && s[k6] == ':') {
                                    None
                                } else {
                                    match p_number(s, ws_end(s, k6 + 1)) {
                                        None => None,
                                        Some((fi, k7)) => if fi > usize::MAX {
                                            None
                                        } else {
                                            let k8 = ws_end(s, k7);
                                            if !(k8 < s.len() && s[k8] == '}') {
                                                None
                                            } else {
                                                Some(((si as usize, fi as usize), k8 + 1))
                                            }
                                        },
                                    }
                                }
                            }
                        }
                    },
                }
            }
        }
    }
}

/// One or more crash-log entries, comma-separated, then the closing
/// bracket.
pub open spec fn p_cache_items(s: Seq<char>, i: int) -> Option<(Seq<(usize, usize)>, int)>
    decreases s.len() - i,
{
    match p_cache_entry(s, i) {
        None => None,
        Some((e, j)) => {
            if !(i < j <= s.len()) {
                None
            } else {
                let k = ws_end(s, j);
                if !(j <= k < s.len()) {
                    None
                } else if s[k] == ']' {
                    Some((seq![e], k + 1))
                } else if s[k] == ',' {
                    match p_cache_items(s, k + 1) {
                        None => None,
                        Some((rest, j2)) => Some((seq![e] + rest, j2)),
                    }
                } else {
                    None
                }
            }
        },
    }
}

/// A whole crash log: the top-level array, with nothing but whitespace
/// after it.
pub open spec fn p_cache(s: Seq<char>) -> Option<Seq<(usize, usize)>> {
    let i = ws_end(s, 0);
    if !(0 <= i < s.len() && s[i] == '[') {
        None
    } else {
        let j = ws_end(s, i + 1);
        if 0 <= j < s.len() && s[j] == ']' {
            if ws_end(s, j + 1) == s.len() {
                Some(Seq::empty())
            } else {
                None
            }
        } else {
            match p_cache_items(s, i + 1) {
                None => None,
                Some((entries, j2)) => if ws_end(s, j2) == s.len() {
                    Some(entries)
                } else {
                    None
                },
            }
        }
    }
}


/// Whitespace skipping stops at or after where it starts, inside the
/// text's bounds.
pub proof fn lemma_ws_end_bounds(s: Seq<char>, i: int)
    requires
        0 <= i <= s.len(),
    ensures
        i <= ws_end(s, i) <= s.len(),
    decreases s.len() - i,
{
    if i < s.len() && is_ws(s[i]) {
        lemma_ws_end_bounds(s, i + 1);
    }
}

/// Skipping whitespace twice is skipping it once.
pub proof fn lemma_ws_end_idempotent(s: Seq<char>, i: int)
    ensures
        ws_end(s, ws_end(s, i)) == ws_end(s, i),
    decreases s.len() - i,
{
    if 0 <= i < s.len() && is_ws(s[i]) {
        lemma_ws_end_idempotent(s, i + 1);
    }
}

/// Digits stop at or after where they start, inside the text's bounds.
proof fn lemma_digits_end_bounds(s: Seq<char>, i: int)
    requires
        0 <= i <= s.len(),
    ensures
        i <= digits_end(s, i) <= s.len(),
    decreases s.len() - i,
{
    if i < s.len() && is_digit(s[i]) {
        lemma_digits_end_bounds(s, i + 1);
    }
}

/// Reading more digits never shrinks the value.
proof fn lemma_digits_val_mono(s: Seq<char>, i: int, j1: int, j2: int)
    requires
        j1 <= j2,
    ensures
        digits_val(s, i, j1) <= digits_val(s, i, j2),
    decreases j2 - j1,
{
    if j1 < j2 {
        lemma_digits_val_mono(s, i, j1, j2 - 1);
        assert(digits_val(s, i, j2 - 1) * 10 >= digits_val(s, i, j2 - 1)) by (nonlinear_arith);
    }
}

/// Skips whitespace: the first position at or after `i` holding none.
fn ws_skip(s: &str, i: usize) -> (r: usize)
    requires
        i <= s@.len(),
    ensures
        i <= r <= s@.len(),
        r as int == ws_end(s@, i as int),
    decreases s@.len() - i,
{
    let n = s.unicode_len();
    if i < n {
        let c = s.get_char(i);
        if c == ' ' || c == '\n' || c == '\t' || c == '\r' {
            return ws_skip(s, i + 1);
        }
    }
    i
}

/// Whether the characters of `w` from `k` on stand at `i + k` of `s`.
fn try_lit_from(s: &str, i: usize, w: &str, k: usize) -> (b: bool)
    requires
        i + w@.len() <= s@.len(),
        k <= w@.len(),
    ensures
        b <==> (forall|t: int| k <= t < w@.len() ==> s@[i + t] == #[trigger] w@[t]),
    decreases w@.len() - k,
{
    let n = s.unicode_len();
    let m = w.unicode_len();
    if k >= m {
        return true;
    }
    let c1 = s.get_char(i + k);
    let c2 = w.get_char(k);
    if c1 == c2 {
        try_lit_from(s, i, w, k + 1)
    } else {
        proof {
            assert(s@[i + k as int] != w@[k as int]);
        }
        false
    }
}

/// Whether the word `w` stands at position `i` of `s`.
fn try_lit(s: &str, i: usize, w: &str) -> (b: bool)
    requires
        i <= s@.len(),
    ensures
        b == match_lit(s@, i as int, w@),
{
    let n = s.unicode_len();
    let m = w.unicode_len();
    if m > n - i {
        proof {
            assert(!match_lit(s@, i as int, w@));
        }
        return false;
    }
    let b = try_lit_from(s, i, w, 0);
    proof {
        if b {
            assert(s@.subrange(i as int, i + w@.len()) =~= w@) by {
                assert forall|t: int| 0 <= t < w@.len() implies s@.subrange(
                    i as int,
                    i + w@.len(),
                )[t] == w@[t] by {
                    assert(s@[i + t] == w@[t]);
                }
            }
        } else {
            if match_lit(s@, i as int, w@) {
                assert forall|t: int| 0 <= t < w@.len() implies s@[i + t] == #[trigger] w@[t] by {
                    assert(s@.subrange(i as int, i + w@.len())[t] == w@[t]);
                }
            }
        }
    }
    b
}

/// Reads a quoted string value at `i`: the decoded characters and the
/// position after the closing quote.
fn parse_string(s: &str, i: usize) -> (r: Option<(String, usize)>)
    requires
        i <= s@.len(),
    ensures
        match r {
            Some(t) => p_string(s@, i as int) == Some((t.0@, t.1 as int)) && i < t.1 <= s@.len(),
            None => p_string(s@, i as int) is None,
        },
{
    let n = s.unicode_len();
    if !(i < n) {
        return None;
    }
    if s.get_char(i) != '"' {
        return None;
    }
    let mut acc = String::new();
    let mut k = i + 1;
    loop
        invariant
            n == s@.len(),
            i + 1 <= k <= n,
            i < n,
            s@[i as int] == '"',
            (match p_string_body(s@, k as int) {
                Some(t) => p_string_body(s@, i as int + 1) == Some((acc@ + t.0, t.1)),
                None => p_string_body(s@, i as int + 1) is None,
            }),
        decreases n - k,
    {
        if k >= n {
            return None;
        }
        let c = s.get_char(k);
        if c == '"' {
            proof {
                assert(acc@ + Seq::<char>::empty() =~= acc@);
            }
            return Some((acc, k + 1));
        } else if c == '\\' {
            if k + 1 >= n {
                return None;
            }
            let e = s.get_char(k + 1);
            let u: char;
            if e == '"' {
                u = '"';
            } else if e == '\\' {
                u = '\\';
            } else if e == '/' {
                u = '/';
            } else if e == 'n' {
                u = '\n';
            } else if e == 't' {
                u = '\t';
            } else if e == 'r' {
                u = '\r';
            } else {
                return None;
            }
            let ghost acc0 = acc@;
            acc.push(u);
            proof {
                assert(unescape_char(s@[k as int + 1]) == Some(u));
                match p_string_body(s@, k as int + 2) {
                    Some(t) => {
                        assert(acc0 + (seq![u] + t.0) =~= acc@ + t.0);
                    },
                    None => {},
                }
            }
            k = k + 2;
        } else {
            let ghost acc0 = acc@;
            acc.push(c);
            proof {
                match p_string_body(s@, k as int + 1) {
                    Some(t) => {
                        assert(acc0 + (seq![c] + t.0) =~= acc@ + t.0);
                    },
                    None => {},
                }
            }
            k = k + 1;
        }
    }
}

/// The value of a decimal digit character.
fn digit_value_of(c: char) -> (d: usize)
    requires
        is_digit(c),
    ensures
        d == digit_val(c),
        d < 10,
{
    if c == '0' {
        0
    } else if c == '1' {
        1
    } else if c == '2' {
        2
    } else if c == '3' {
        3
    } else if c == '4' {
        4
    } else if c == '5' {
        5
    } else if c == '6' {
        6
    } else if c == '7' {
        7
    } else if c == '8' {
        8
    } else {
        9
    }
}

/// Reads an unsigned decimal number at `i`.  Fails when no digit stands
/// there, or when the value cannot be indexed with on this machine.
fn parse_number(s: &str, i: usize) -> (r: Option<(usize, usize)>)
    requires
        i <= s@.len(),
    ensures
        match r {
            Some(t) => p_number(s@, i as int) == Some((t.0 as nat, t.1 as int)) && i < t.1
                <= s@.len(),
            None => (match p_number(s@, i as int) {
                Some(t) => t.0 > usize::MAX,
                None => true,
            }),
        },
{
    let n = s.unicode_len();
    if !(i < n) {
        return None;
    }
    let c0 = s.get_char(i);
    if !(c0 == '0' || c0 == '1' || c0 == '2' || c0 == '3' || c0 == '4' || c0 == '5' || c0 == '6'
        || c0 == '7' || c0 == '8' || c0 == '9') {
        return None;
    }
    let mut acc: usize = 0;
    let mut k = i;
    proof {
        lemma_digits_end_bounds(s@, i as int);
    }
    loop
        invariant
            n == s@.len(),
            i <= k <= n,
            i < n,
            is_digit(s@[i as int]),
            digits_end(s@, i as int) == digits_end(s@, k as int),
            acc == digits_val(s@, i as int, k as int),
            k as int <= digits_end(s@, i as int),
        decreases n - k,
    {
        proof {
            lemma_digits_end_bounds(s@, k as int);
        }
        if k >= n {
            return Some((acc, k));
        }
        let c = s.get_char(k);
        if !(c == '0' || c == '1' || c == '2' || c == '3' || c == '4' || c == '5' || c == '6' || c
            == '7' || c == '8' || c == '9') {
            if k == i {
                proof {
                    assert(false);
                }
            }
            return Some((acc, k));
        }
        let d = digit_value_of(c);
        let acc2 = match acc.checked_mul(10) {
            Some(x) => x.checked_add(d),
            None => None,
        };
        match acc2 {
            None => {
                proof {
                    assert(digits_val(s@, i as int, k as int + 1) == acc * 10 + d);
                    assert(acc * 10 + d > usize::MAX);
                    assert(digits_end(s@, i as int) >= k as int + 1) by {
                        lemma_digits_end_bounds(s@, k as int + 1);
                    }
                    lemma_digits_val_mono(
                        s@,
                        i as int,
                        k as int + 1,
                        digits_end(s@, i as int),
                    );
                }
                return None;
            },
            Some(v) => {
                proof {
                    lemma_digits_end_bounds(s@, k as int + 1);
                }
                acc = v;
                k = k + 1;
            },
        }
    }
}

/// Reads a raw member value at `i`: the verbatim span and the position of
/// the delimiter after it.  `i` must not hold whitespace, so that the
/// span can be written back and read again unchanged.
fn parse_raw(s: &str, i: usize) -> (r: Option<(RawJson, usize)>)
    requires
        i <= s@.len(),
        i as int == ws_end(s@, i as int),
    ensures
        match r {
            Some(t) => p_raw(s@, i as int) == Some((t.0@, t.1 as int)) && i < t.1 <= s@.len()
                && raw_wf(t.0@),
            None => p_raw(s@, i as int) is None,
        },
{
    match scan_raw_str(s, i) {
        None => None,
        Some(e) => {
            proof {
                lemma_scan_raw_bounds(s@, i as int, 0, false, false);
            }
            if e <= i {
                return None;
            }
            let text = s.substring_char(i, e).to_owned();
            proof {
                let t = s@.subrange(i as int, e as int);
                assert(text@ == t);
                assert(t.len() > 0);
                assert(!is_ws(t[0])) by {
                    assert(t[0] == s@[i as int]);
                    if is_ws(s@[i as int]) {
                        lemma_ws_end_bounds(s@, i as int + 1);
                    }
                }
                assert(t.push(',').subrange(0, e - i) =~= t);
                lemma_scan_raw_transfer(s@, i as int, t.push(','), 0, 0, false, false, e as int);
                assert(raw_wf(t));
            }
            let value = RawJson::from_checked(text);
            Some((value, e))
        },
    }
}

/// Reads `null` or a quoted string at `i`.
fn parse_opt_path(s: &str, i: usize) -> (r: Option<(Option<String>, usize)>)
    requires
        i <= s@.len(),
    ensures
        match r {
            Some(t) => p_opt_path(s@, i as int) == Some((t.0.deep_view(), t.1 as int)) && i < t.1
                <= s@.len(),
            None => p_opt_path(s@, i as int) is None,
        },
{
    let n = s.unicode_len();
    proof {
        reveal_strlit("null");
        assert(("null")@ =~= lit_null());
    }
    if try_lit(s, i, "null") {
        proof {
            assert(i + 4 <= n);
        }
        Some((None, i + 4))
    } else {
        match parse_string(s, i) {
            None => None,
            Some((t, j)) => Some((Some(t), j)),
        }
    }
}

/// Reads `null` or an index number at `i`.
fn parse_opt_index(s: &str, i: usize) -> (r: Option<(Option<usize>, usize)>)
    requires
        i <= s@.len(),
    ensures
        match r {
            Some(t) => p_opt_index(s@, i as int) == Some((t.0, t.1 as int)) && i < t.1 <= s@.len(),
            None => p_opt_index(s@, i as int) is None,
        },
{
    let n = s.unicode_len();
    proof {
        reveal_strlit("null");
        assert(("null")@ =~= lit_null());
    }
    if try_lit(s, i, "null") {
        proof {
            assert(i + 4 <= n);
        }
        Some((None, i + 4))
    } else {
        match parse_number(s, i) {
            None => None,
            Some((v, j)) => Some((Some(v), j)),
        }
    }
}


/// Reads exactly `k` more neighbour slots, comma-separated, then the
/// closing bracket.
fn parse_neigh_items(s: &str, i: usize, k: usize) -> (r: Option<(Vec<Option<String>>, usize)>)
    requires
        i <= s@.len(),
    ensures
        match r {
            Some(t) => p_neigh_items(s@, i as int, k as nat) == Some((t.0.deep_view(), t.1 as int))
                && i < t.1 <= s@.len() && t.0@.len() == k,
            None => p_neigh_items(s@, i as int, k as nat) is None,
        },
    decreases k,
{
    let n = s.unicode_len();
    let j = ws_skip(s, i);
    if k == 0 {
        if j < n && s.get_char(j) == ']' {
            let v: Vec<Option<String>> = Vec::new();
            proof {
                assert(v.deep_view() =~= Seq::<Option<Seq<char>>>::empty());
            }
            Some((v, j + 1))
        } else {
            None
        }
    } else {
        match parse_opt_path(s, j) {
            None => None,
            Some((el, j2)) => {
                let j3 = ws_skip(s, j2);
                if k == 1 {
                    if j3 < n && s.get_char(j3) == ']' {
                        let ghost elv = el.deep_view();
                        let mut v: Vec<Option<String>> = Vec::new();
                        v.push(el);
                        proof {
                            assert(v.deep_view() =~= seq![elv]);
                        }
                        Some((v, j3 + 1))
                    } else {
                        None
                    }
                } else {
                    if j3 < n && s.get_char(j3) == ',' {
                        match parse_neigh_items(s, j3 + 1, k - 1) {
                            None => None,
                            Some((rest, j4)) => {
                                let ghost elv = el.deep_view();
                                let ghost restv = rest.deep_view();
                                let mut v = rest;
                                v.insert(0, el);
                                proof {
                                    assert(v.deep_view() =~= seq![elv] + restv);
                                }
                                Some((v, j4))
                            },
                        }
                    } else {
                        None
                    }
                }
            },
        }
    }
}

/// Reads zero or more unrecognized members, then the closing brace.
fn parse_extra_members(s: &str, i: usize) -> (r: Option<(Vec<(String, RawJson)>, usize)>)
    requires
        i <= s@.len(),
    ensures
        match r {
            Some(t) => p_extra_members(s@, i as int) == Some((extras_view(t.0@), t.1 as int)) && i
                < t.1 <= s@.len() && (forall|q: int|
                0 <= q < t.0@.len() ==> raw_wf(#[trigger] extras_view(t.0@)[q].1)),
            None => p_extra_members(s@, i as int) is None,
        },
    decreases s@.len() - i,
{
    let n = s.unicode_len();
    let j = ws_skip(s, i);
    if !(j < n) {
        return None;
    }
    let c = s.get_char(j);
    if c == '}' {
        let v: Vec<(String, RawJson)> = Vec::new();
        proof {
            assert(extras_view(v@) =~= Seq::<(Seq<char>, Seq<char>)>::empty());
        }
        Some((v, j + 1))
    } else if c == ',' {
        let k = ws_skip(s, j + 1);
        match parse_string(s, k) {
            None => None,
            Some((key, k2)) => {
                let k3 = ws_skip(s, k2);
                if k3 < n && s.get_char(k3) == ':' {
                    let k4 = ws_skip(s, k3 + 1);
                    proof {
                        lemma_ws_end_idempotent(s@, k3 as int + 1);
                    }
                    match parse_raw(s, k4) {
                        None => None,
                        Some((value, e)) => {
                            match parse_extra_members(s, e) {
                                None => None,
                                Some((rest, j5)) => {
                                    let ghost keyv = key@;
                                    let ghost valv = value@;
                                    let ghost restv = extras_view(rest@);
                                    let mut v = rest;
                                    v.insert(0, (key, value));
                                    proof {
                                        assert(extras_view(v@) =~= seq![(keyv, valv)] + restv);
                                    }
                                    Some((v, j5))
                                },
                            }
                        },
                    }
                } else {
                    None
                }
            },
        }
    } else {
        None
    }
}


/// Reads one image object at `i`.
fn parse_image(s: &str, i: usize) -> (r: Option<(AnnotationImage, usize)>)
    requires
        i <= s@.len(),
    ensures
        match r {
            Some(t) => p_image(s@, i as int) == Some((t.0@, t.1 as int)) && i < t.1 <= s@.len()
                && image_wf(t.0@),
            None => p_image(s@, i as int) is None,
        },
{
    let n = s.unicode_len();
    proof {
        reveal_strlit("\"image_path\"");
        reveal_strlit("\"neighbours\"");
        assert(("\"image_path\"")@ =~= lit_member_image_path());
        assert(("\"neighbours\"")@ =~= lit_member_neighbours());
    }
    let j = ws_skip(s, i);
    if !(j < n && s.get_char(j) == '{') {
        return None;
    }
    let k = ws_skip(s, j + 1);
    if !try_lit(s, k, "\"image_path\"") {
        return None;
    }
    let k2 = ws_skip(s, k + 12);
    if !(k2 < n && s.get_char(k2) == ':') {
        return None;
    }
    let path_start = ws_skip(s, k2 + 1);
    match parse_string(s, path_start) {
        None => None,
        Some((path, k3)) => {
            let k4 = ws_skip(s, k3);
            if !(k4 < n && s.get_char(k4) == ',') {
                return None;
            }
            let k5 = ws_skip(s, k4 + 1);
            if !try_lit(s, k5, "\"neighbours\"") {
                return None;
            }
            let k6 = ws_skip(s, k5 + 12);
            if !(k6 < n && s.get_char(k6) == ':') {
                return None;
            }
            let k7 = ws_skip(s, k6 + 1);
            if !(k7 < n && s.get_char(k7) == '[') {
                return None;
            }
            match parse_neigh_items(s, k7 + 1, 8) {
                None => None,
                Some((ns, k8)) => match parse_extra_members(s, k8) {
                    None => None,
                    Some((extra, k9)) => {
                        let img = AnnotationImage { image_path: path, neighbours: ns, extra };
                        Some((img, k9))
                    },
                },
            }
        },
    }
}

/// Reads one or more image objects, comma-separated, then the closing
/// bracket.
fn parse_images_items(s: &str, i: usize) -> (r: Option<(Vec<AnnotationImage>, usize)>)
    requires
        i <= s@.len(),
    ensures
        match r {
            Some(t) => p_images_items(s@, i as int) == Some((t.0.deep_view(), t.1 as int)) && i
                < t.1 <= s@.len() && (forall|q: int|
                0 <= q < t.0@.len() ==> image_wf(#[trigger] t.0.deep_view()[q])),
            None => p_images_items(s@, i as int) is None,
        },
    decreases s@.len() - i,
{
    let n = s.unicode_len();
    match parse_image(s, i) {
        None => None,
        Some((img, j)) => {
            let k = ws_skip(s, j);
            if !(k < n) {
                return None;
            }
            let c = s.get_char(k);
            if c == ']' {
                let ghost imgv = img@;
                let mut v: Vec<AnnotationImage> = Vec::new();
                v.push(img);
                proof {
                    assert(v.deep_view() =~= seq![imgv]);
                }
                Some((v, k + 1))
            } else if c == ',' {
                match parse_images_items(s, k + 1) {
                    None => None,
                    Some((rest, j2)) => {
                        let ghost imgv = img@;
                        let ghost restv = rest.deep_view();
                        let mut v = rest;
                        v.insert(0, img);
                        proof {
                            assert(v.deep_view() =~= seq![imgv] + restv);
                        }
                        Some((v, j2))
                    },
                }
            } else {
                None
            }
        },
    }
}

/// Reads one z-stack object at `i`.
fn parse_zstack(s: &str, i: usize) -> (r: Option<(AnnotationZStack, usize)>)
    requires
        i <= s@.len(),
    ensures
        match r {
            Some(t) => p_zstack(s@, i as int) == Some((t.0@, t.1 as int)) && i < t.1 <= s@.len()
                && zstack_wf(t.0@),
            None => p_zstack(s@, i as int) is None,
        },
{
    let n = s.unicode_len();
    proof {
        reveal_strlit("\"images\"");
        reveal_strlit("\"best_index\"");
        assert(("\"images\"")@ =~= lit_member_images());
        assert(("\"best_index\"")@ =~= lit_member_best_index());
    }
    let j = ws_skip(s, i);
    if !(j < n && s.get_char(j) == '{') {
        return None;
    }
    let k = ws_skip(s, j + 1);
    if !try_lit(s, k, "\"images\"") {
        return None;
    }
    let k2 = ws_skip(s, k + 8);
    if !(k2 < n && s.get_char(k2) == ':') {
        return None;
    }
    let k3 = ws_skip(s, k2 + 1);
    if !(k3 < n && s.get_char(k3) == '[') {
        return None;
    }
    let k4 = ws_skip(s, k3 + 1);
    let images_result: Option<(Vec<AnnotationImage>, usize)>;
    if k4 < n && s.get_char(k4) == ']' {
        images_result = Some((Vec::new(), k4 + 1));
        proof {
            let t = images_result.unwrap();
            assert(t.0.deep_view() =~= Seq::<ImageModel>::empty());
        }
    } else {
        images_result = parse_images_items(s, k3 + 1);
    }
    match images_result {
        None => None,
        Some((imgs, k5)) => {
            let k6 = ws_skip(s, k5);
            if !(k6 < n && s.get_char(k6) == ',') {
                return None;
            }
            let k7 = ws_skip(s, k6 + 1);
            if !try_lit(s, k7, "\"best_index\"") {
                return None;
            }
            let k8 = ws_skip(s, k7 + 12);
            if !(k8 < n && s.get_char(k8) == ':') {
                return None;
            }
            match parse_opt_index(s, ws_skip(s, k8 + 1)) {
                None => None,
                Some((best, k9)) => match parse_extra_members(s, k9) {
                    None => None,
                    Some((extra, k10)) => {
                        let z = AnnotationZStack { images: imgs, best_index: best, extra };
                        Some((z, k10))
                    },
                },
            }
        },
    }
}

/// Reads one or more z-stack objects, comma-separated, then the closing
/// bracket.
fn parse_zstacks_items(s: &str, i: usize) -> (r: Option<(Vec<AnnotationZStack>, usize)>)
    requires
        i <= s@.len(),
    ensures
        match r {
            Some(t) => p_zstacks_items(s@, i as int) == Some((zstacks_view(t.0@), t.1 as int)) && i
                < t.1 <= s@.len() && doc_wf(zstacks_view(t.0@)),
            None => p_zstacks_items(s@, i as int) is None,
        },
    decreases s@.len() - i,
{
    let n = s.unicode_len();
    match parse_zstack(s, i) {
        None => None,
        Some((z, j)) => {
            let k = ws_skip(s, j);
            if !(k < n) {
                return None;
            }
            let c = s.get_char(k);
            if c == ']' {
                let ghost zv = z@;
                let mut v: Vec<AnnotationZStack> = Vec::new();
                v.push(z);
                proof {
                    assert(zstacks_view(v@) =~= seq![zv]);
                }
                Some((v, k + 1))
            } else if c == ',' {
                match parse_zstacks_items(s, k + 1) {
                    None => None,
                    Some((rest, j2)) => {
                        let ghost zv = z@;
                        let ghost restv = zstacks_view(rest@);
                        let mut v = rest;
                        v.insert(0, z);
                        proof {
                            assert(zstacks_view(v@) =~= seq![zv] + restv);
                        }
                        Some((v, j2))
                    },
                }
            } else {
                None
            }
        },
    }
}

/// Reads a whole document: the top-level array of z-stacks, with nothing
/// but whitespace around it.
pub fn parse_document(s: &str) -> (r: Option<Vec<AnnotationZStack>>)
    ensures
        match r {
            Some(v) => p_doc(s@) == Some(zstacks_view(v@)) && doc_wf(zstacks_view(v@)),
            None => p_doc(s@) is None,
        },
{
    let n = s.unicode_len();
    let i = ws_skip(s, 0);
    if !(i < n && s.get_char(i) == '[') {
        return None;
    }
    let j = ws_skip(s, i + 1);
    if j < n && s.get_char(j) == ']' {
        if ws_skip(s, j + 1) == n {
            let v: Vec<AnnotationZStack> = Vec::new();
            proof {
                assert(zstacks_view(v@) =~= Seq::<ZStackModel>::empty());
            }
            Some(v)
        } else {
            None
        }
    } else {
        match parse_zstacks_items(s, i + 1) {
            None => None,
            Some((v, j2)) => {
                if ws_skip(s, j2) == n {
                    Some(v)
                } else {
                    None
                }
            },
        }
    }
}

/// Reads one crash-log entry object at `i`.
fn parse_cache_entry(s: &str, i: usize) -> (r: Option<(LightAnnotation, usize)>)
    requires
        i <= s@.len(),
    ensures
        match r {
            Some(t) => p_cache_entry(s@, i as int) == Some((t.0@, t.1 as int)) && i < t.1
                <= s@.len(),
            None => p_cache_entry(s@, i as int) is None,
        },
{
    let n = s.unicode_len();
    proof {
        reveal_strlit("\"stack_index\"");
        reveal_strlit("\"focus_image_index\"");
        assert(("\"stack_index\"")@ =~= lit_member_stack_index());
        assert(("\"focus_image_index\"")@ =~= lit_member_focus_image_index());
    }
    let j = ws_skip(s, i);
    if !(j < n && s.get_char(j) == '{') {
        return None;
    }
    let k = ws_skip(s, j + 1);
    if !try_lit(s, k, "\"stack_index\"") {
        return None;
    }
    let k2 = ws_skip(s, k + 13);
    if !(k2 < n && s.get_char(k2) == ':') {
        return None;
    }
    match parse_number(s, ws_skip(s, k2 + 1)) {
        None => None,
        Some((si, k3)) => {
            let k4 = ws_skip(s, k3);
            if !(k4 < n && s.get_char(k4) == ',') {
                return None;
            }
            let k5 = ws_skip(s, k4 + 1);
            if !try_lit(s, k5, "\"focus_image_index\"") {
                return None;
            }
            let k6 = ws_skip(s, k5 + 19);
            if !(k6 < n && s.get_char(k6) == ':') {
                return None;
            }
            match parse_number(s, ws_skip(s, k6 + 1)) {
                None => None,
                Some((fi, k7)) => {
                    let k8 = ws_skip(s, k7);
                    if !(k8 < n && s.get_char(k8) == '}') {
                        return None;
                    }
                    Some((LightAnnotation { stack_index: si, focus_image_index: fi }, k8 + 1))
                },
            }
        },
    }
}

/// Reads one or more crash-log entries, comma-separated, then the closing
/// bracket.
fn parse_cache_items(s: &str, i: usize) -> (r: Option<(Vec<LightAnnotation>, usize)>)
    requires
        i <= s@.len(),
    ensures
        match r {
            Some(t) => p_cache_items(s@, i as int) == Some((cache_view(t.0@), t.1 as int)) && i
                < t.1 <= s@.len(),
            None => p_cache_items(s@, i as int) is None,
        },
    decreases s@.len() - i,
{
    let n = s.unicode_len();
    match parse_cache_entry(s, i) {
        None => None,
        Some((e, j)) => {
            let k = ws_skip(s, j);
            if !(k < n) {
                return None;
            }
            let c = s.get_char(k);
            if c == ']' {
                let ghost ev = e@;
                let mut v: Vec<LightAnnotation> = Vec::new();
                v.push(e);
                proof {
                    assert(cache_view(v@) =~= seq![ev]);
                }
                Some((v, k + 1))
            } else if c == ',' {
                match parse_cache_items(s, k + 1) {
                    None => None,
                    Some((rest, j2)) => {
                        let ghost ev = e@;
                        let ghost restv = cache_view(rest@);
                        let mut v = rest;
                        v.insert(0, e);
                        proof {
                            assert(cache_view(v@) =~= seq![ev] + restv);
                        }
                        Some((v, j2))
                    },
                }
            } else {
                None
            }
        },
    }
}

/// Reads a whole crash log: the top-level array of entries, with nothing
/// but whitespace around it.
pub fn parse_cache_log(s: &str) -> (r: Option<Vec<LightAnnotation>>)
    ensures
        match r {
            Some(v) => p_cache(s@) == Some(cache_view(v@)),
            None => p_cache(s@) is None,
        },
{
    let n = s.unicode_len();
    let i = ws_skip(s, 0);
    if !(i < n && s.get_char(i) == '[') {
        return None;
    }
    let j = ws_skip(s, i + 1);
    if j < n && s.get_char(j) == ']' {
        if ws_skip(s, j + 1) == n {
            let v: Vec<LightAnnotation> = Vec::new();
            proof {
                assert(cache_view(v@) =~= Seq::<(usize, usize)>::empty());
            }
            Some(v)
        } else {
            None
        }
    } else {
        match parse_cache_items(s, i + 1) {
            None => None,
            Some((v, j2)) => {
                if ws_skip(s, j2) == n {
                    Some(v)
                } else {
                    None
                }
            },
        }
    }
}

} // verus!
