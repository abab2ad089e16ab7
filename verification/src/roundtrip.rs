//! The round-trip guarantee: reading a written document gives back the
//! very document, unrecognized members included.

use vstd::prelude::*;
use vstd::arithmetic::div_mod::lemma_fundamental_div_mod;
use crate::model::{ImageModel, ZStackModel, doc_wf, image_wf, zstack_wf};
use crate::parse::{
    digit_val, digits_end, digits_val, is_digit, match_lit, p_cache, p_cache_entry, p_cache_items,
    p_doc, p_extra_members, p_image, p_images_items, p_neigh_items, p_number, p_opt_index,
    p_opt_path, p_raw, p_string, p_string_body, p_zstack, p_zstacks_items, unescape_char, ws_end,
};
use crate::raw::{is_end_delim, is_ws, lemma_scan_raw_transfer, raw_wf, scan_raw};
use crate::ser::{
    dec_digits, digit_char, esc_char, esc_seq, lit_member_best_index,
    lit_member_focus_image_index, lit_member_image_path, lit_member_images, lit_member_neighbours,
    lit_member_stack_index, lit_null, ser_cache, ser_cache_entry, ser_cache_from, ser_doc,
    ser_image, ser_images_from, ser_neigh_items_from, ser_opt_index, ser_opt_str, ser_string,
    ser_extras_from, ser_zstack, ser_zstacks_from,
};

verus! {

/// One character of a word standing at `i` stands at `i + k`.
proof fn lemma_lit_char(s: Seq<char>, i: int, w: Seq<char>, k: int)
    requires
        match_lit(s, i, w),
        0 <= k < w.len(),
    ensures
        s[i + k] == w[k],
{
    assert(s.subrange(i, i + w.len())[k] == w[k]);
}

/// A word made of two parts stands where both parts stand in turn.
proof fn lemma_lit_split(s: Seq<char>, i: int, a: Seq<char>, b: Seq<char>)
    requires
        match_lit(s, i, a + b),
    ensures
        match_lit(s, i, a),
        match_lit(s, i + a.len(), b),
{
    let w = a + b;
    assert(s.subrange(i, i + a.len()) =~= a) by {
        assert forall|k: int| 0 <= k < a.len() implies s.subrange(i, i + a.len())[k] == a[k] by {
            lemma_lit_char(s, i, w, k);
            assert(w[k] == a[k]);
        }
    }
    assert(s.subrange(i + a.len(), i + a.len() + b.len()) =~= b) by {
        assert forall|k: int| 0 <= k < b.len() implies s.subrange(
            i + a.len(),
            i + a.len() + b.len(),
        )[k] == b[k] by {
            lemma_lit_char(s, i, w, a.len() + k);
            assert(w[a.len() + k] == b[k]);
        }
    }
}

/// Skipping whitespace at a non-whitespace position stays put.
proof fn lemma_ws_stays(s: Seq<char>, i: int)
    requires
        0 <= i,
        i < s.len() ==> !is_ws(s[i]),
    ensures
        ws_end(s, i) == i,
{
}

/// A written string read back gives the very characters, with the reader
/// standing after the closing quote.
proof fn lemma_inv_string_body(s: Seq<char>, i: int, t: Seq<char>)
    requires
        match_lit(s, i, esc_seq(t) + seq!['"']),
    ensures
        p_string_body(s, i) == Some((t, i + esc_seq(t).len() + 1)),
    decreases t.len(),
{
    let w = esc_seq(t) + seq!['"'];
    if t.len() == 0 {
        assert(esc_seq(t).len() == 0);
        lemma_lit_char(s, i, w, 0);
        assert(s[i] == '"');
        assert(p_string_body(s, i) == Some((Seq::<char>::empty(), i + 1)));
        assert(t =~= Seq::<char>::empty());
    } else {
        let c = t[0];
        let rest = t.drop_first();
        assert(esc_seq(t) == esc_char(c) + esc_seq(rest));
        assert(w =~= esc_char(c) + (esc_seq(rest) + seq!['"'])) by {
            assert((esc_char(c) + esc_seq(rest)) + seq!['"'] =~= esc_char(c) + (esc_seq(rest)
                + seq!['"']));
        }
        lemma_lit_split(s, i, esc_char(c), esc_seq(rest) + seq!['"']);
        lemma_inv_string_body(s, i + esc_char(c).len(), rest);
        if c == '"' || c == '\\' {
            lemma_lit_char(s, i, esc_char(c), 0);
            lemma_lit_char(s, i, esc_char(c), 1);
            assert(s[i] == '\\');
            assert(unescape_char(s[i + 1]) == Some(c));
            assert(p_string_body(s, i) == Some((seq![c] + rest, i + 2 + esc_seq(rest).len() + 1)));
            assert(seq![c] + rest =~= t);
        } else {
            lemma_lit_char(s, i, esc_char(c), 0);
            assert(s[i] == c);
            assert(s[i] != '"' && s[i] != '\\');
            assert(p_string_body(s, i) == Some((seq![c] + rest, i + 1 + esc_seq(rest).len() + 1)));
            assert(seq![c] + rest =~= t);
        }
    }
}

/// A written string value read back gives the very characters.
proof fn lemma_inv_string(s: Seq<char>, i: int, t: Seq<char>)
    requires
        match_lit(s, i, ser_string(t)),
    ensures
        p_string(s, i) == Some((t, i + ser_string(t).len())),
{
    let w = ser_string(t);
    assert(w =~= seq!['"'] + (esc_seq(t) + seq!['"'])) by {
        assert((seq!['"'] + esc_seq(t)) + seq!['"'] =~= seq!['"'] + (esc_seq(t) + seq!['"']));
    }
    lemma_lit_split(s, i, seq!['"'], esc_seq(t) + seq!['"']);
    lemma_lit_char(s, i, w, 0);
    assert(s[i] == '"');
    lemma_inv_string_body(s, i + 1, t);
}

/// Every written digit is a digit, and its value is its own.
proof fn lemma_dec_digits_are_digits(n: nat)
    ensures
        dec_digits(n).len() >= 1,
        forall|k: int| 0 <= k < dec_digits(n).len() ==> is_digit(#[trigger] dec_digits(n)[k]),
        is_digit(dec_digits(n)[0]),
    decreases n,
{
    if n < 10 {
    } else {
        lemma_dec_digits_are_digits(n / 10);
        assert forall|k: int| 0 <= k < dec_digits(n).len() implies is_digit(
            #[trigger] dec_digits(n)[k],
        ) by {
            if k < dec_digits(n / 10).len() {
                assert(dec_digits(n)[k] == dec_digits(n / 10)[k]);
            } else {
                assert(dec_digits(n)[k] == digit_char(n % 10));
            }
        }
    }
}

/// Digits end exactly where the written digits end.
proof fn lemma_digits_end_at(s: Seq<char>, i: int, m: int)
    requires
        0 <= i <= m <= s.len(),
        forall|k: int| i <= k < m ==> is_digit(#[trigger] s[k]),
        m == s.len() || !is_digit(s[m]),
    ensures
        digits_end(s, i) == m,
    decreases m - i,
{
    if i < m {
        lemma_digits_end_at(s, i + 1, m);
    }
}

/// The value of written digits is the number written.
proof fn lemma_digits_val_of_dec(s: Seq<char>, i: int, n: nat)
    requires
        match_lit(s, i, dec_digits(n)),
    ensures
        digits_val(s, i, i + dec_digits(n).len()) == n,
    decreases n,
{
    let w = dec_digits(n);
    if n < 10 {
        lemma_lit_char(s, i, w, 0);
        assert(digits_val(s, i, i + 1) == digits_val(s, i, i) * 10 + digit_val(s[i]));
        assert(digit_val(digit_char(n)) == n);
    } else {
        let a = dec_digits(n / 10);
        let b = seq![digit_char(n % 10)];
        assert(w =~= a + b);
        lemma_lit_split(s, i, a, b);
        lemma_digits_val_of_dec(s, i, n / 10);
        lemma_lit_char(s, i + a.len(), b, 0);
        assert(s[i + a.len()] == digit_char(n % 10));
        assert(digits_val(s, i, i + w.len()) == digits_val(s, i, i + w.len() - 1) * 10 + digit_val(
            s[i + w.len() - 1],
        ));
        assert(digit_val(digit_char(n % 10)) == n % 10);
        lemma_fundamental_div_mod(n as int, 10);
    }
}

/// A written number read back gives the very value, with the reader
/// standing after the digits.
proof fn lemma_inv_number(s: Seq<char>, i: int, n: nat)
    requires
        match_lit(s, i, dec_digits(n)),
        i + dec_digits(n).len() == s.len() || !is_digit(s[i + dec_digits(n).len()]),
    ensures
        p_number(s, i) == Some((n, i + dec_digits(n).len())),
{
    let w = dec_digits(n);
    lemma_dec_digits_are_digits(n);
    assert forall|k: int| i <= k < i + w.len() implies is_digit(#[trigger] s[k]) by {
        lemma_lit_char(s, i, w, k - i);
    }
    lemma_digits_end_at(s, i, i + w.len());
    lemma_lit_char(s, i, w, 0);
    lemma_digits_val_of_dec(s, i, n);
}


/// A written raw value followed by a delimiter is captured verbatim.
proof fn lemma_inv_raw(s: Seq<char>, i: int, t: Seq<char>)
    requires
        raw_wf(t),
        match_lit(s, i, t),
        i + t.len() < s.len(),
        is_end_delim(s[i + t.len()]),
    ensures
        p_raw(s, i) == Some((t, i + t.len())),
{
    let probe = t.push(',');
    assert(probe.subrange(0, t.len() as int) =~= t);
    assert(s.subrange(i, i + t.len()) == t);
    lemma_scan_raw_transfer(probe, 0, s, i, 0, false, false, t.len() as int);
    assert(scan_raw(s, i, 0, false, false) == Some(i + t.len()));
}

/// A written optional string read back gives the very option.
proof fn lemma_inv_opt_path(s: Seq<char>, i: int, o: Option<Seq<char>>)
    requires
        match_lit(s, i, ser_opt_str(o)),
    ensures
        p_opt_path(s, i) == Some((o, i + ser_opt_str(o).len())),
{
    match o {
        None => {
        },
        Some(t) => {
            lemma_lit_char(s, i, ser_string(t), 0);
            assert(s[i] == '"');
            if match_lit(s, i, lit_null()) {
                lemma_lit_char(s, i, lit_null(), 0);
                assert(false);
            }
            lemma_inv_string(s, i, t);
        },
    }
}

/// A written optional index read back gives the very option.
proof fn lemma_inv_opt_index(s: Seq<char>, i: int, o: Option<usize>)
    requires
        match_lit(s, i, ser_opt_index(o)),
        i + ser_opt_index(o).len() == s.len() || !is_digit(s[i + ser_opt_index(o).len()]),
    ensures
        p_opt_index(s, i) == Some((o, i + ser_opt_index(o).len())),
{
    match o {
        None => {
        },
        Some(nv) => {
            lemma_dec_digits_are_digits(nv as nat);
            lemma_lit_char(s, i, dec_digits(nv as nat), 0);
            assert(is_digit(s[i]));
            if match_lit(s, i, lit_null()) {
                lemma_lit_char(s, i, lit_null(), 0);
                assert(false);
            }
            lemma_inv_number(s, i, nv as nat);
        },
    }
}

/// Written unrecognized members, read back from position `k` on, give the
/// very members, with the reader standing after the closing brace.
proof fn lemma_inv_extras_from(s: Seq<char>, i: int, e: Seq<(Seq<char>, Seq<char>)>, k: int)
    requires
        0 <= k <= e.len(),
        forall|q: int| 0 <= q < e.len() ==> raw_wf(#[trigger] e[q].1),
        match_lit(s, i, ser_extras_from(e, k) + seq!['}']),
    ensures
        p_extra_members(s, i) == Some((e.skip(k), i + ser_extras_from(e, k).len() + 1)),
    decreases e.len() - k,
{
    let w = ser_extras_from(e, k) + seq!['}'];
    if k == e.len() {
        assert(ser_extras_from(e, k).len() == 0);
        lemma_lit_char(s, i, w, 0);
        assert(s[i] == '}');
        lemma_ws_stays(s, i);
        assert(e.skip(k) =~= Seq::<(Seq<char>, Seq<char>)>::empty());
    } else {
        let key = e[k].0;
        let value = e[k].1;
        let a = ser_string(key);
        let rest = ser_extras_from(e, k + 1);
        assert(ser_extras_from(e, k) == seq![','] + a + seq![':'] + value + rest);
        assert(w =~= seq![','] + (a + (seq![':'] + (value + (rest + seq!['}']))))) by {
            assert(((((seq![','] + a) + seq![':']) + value) + rest) + seq!['}'] =~= seq![','] + (a
                + (seq![':'] + (value + (rest + seq!['}'])))));
        }
        lemma_lit_split(s, i, seq![','], a + (seq![':'] + (value + (rest + seq!['}']))));
        let i1 = i + 1;
        lemma_lit_split(s, i1, a, seq![':'] + (value + (rest + seq!['}'])));
        let i2 = i1 + a.len();
        lemma_lit_split(s, i2, seq![':'], value + (rest + seq!['}']));
        let i3 = i2 + 1;
        lemma_lit_split(s, i3, value, rest + seq!['}']);
        let i4 = i3 + value.len();
        // The characters that drive the reader's branches.
        lemma_lit_char(s, i, seq![','], 0);
        assert(s[i] == ',');
        lemma_ws_stays(s, i);
        lemma_lit_char(s, i1, a, 0);
        assert(s[i1] == '"');
        lemma_ws_stays(s, i1);
        lemma_inv_string(s, i1, key);
        lemma_lit_char(s, i2, seq![':'], 0);
        assert(s[i2] == ':');
        lemma_ws_stays(s, i2);
        lemma_lit_char(s, i3, value, 0);
        assert(!is_ws(s[i3]));
        lemma_ws_stays(s, i3);
        // After the value comes either the next member's comma or the
        // closing brace: an end delimiter either way.
        if k + 1 == e.len() {
            assert(rest.len() == 0);
            lemma_lit_char(s, i4, rest + seq!['}'], 0);
            assert(s[i4] == '}');
        } else {
            assert(rest == seq![','] + ser_string(e[k + 1].0) + seq![':'] + e[k + 1].1
                + ser_extras_from(e, k + 2));
            lemma_lit_char(s, i4, rest + seq!['}'], 0);
            assert((rest + seq!['}'])[0] == ',');
            assert(s[i4] == ',');
        }
        lemma_inv_raw(s, i3, value);
        lemma_inv_extras_from(s, i4, e, k + 1);
        assert(p_extra_members(s, i) == Some(
            (seq![(key, value)] + e.skip(k + 1), i + ser_extras_from(e, k).len() + 1),
        ));
        assert(seq![(key, value)] + e.skip(k + 1) =~= e.skip(k));
    }
}


/// A written optional string opens with a quote or the word `null`:
/// never with whitespace, a bracket or a comma.
proof fn lemma_opt_str_first(o: Option<Seq<char>>)
    ensures
        ser_opt_str(o).len() > 0,
        !is_ws(ser_opt_str(o)[0]),
        ser_opt_str(o)[0] == '"' || ser_opt_str(o)[0] == 'n',
{
    match o {
        None => {
            assert(ser_opt_str(o)[0] == 'n');
        },
        Some(t) => {
            assert(ser_opt_str(o)[0] == '"');
        },
    }
}

/// Written neighbour slots, read back from position `k` on, give the very
/// slots, with the reader standing after the closing bracket.
proof fn lemma_inv_neigh_from(s: Seq<char>, i: int, ns: Seq<Option<Seq<char>>>, k: int)
    requires
        0 <= k < ns.len(),
        match_lit(s, i, ser_neigh_items_from(ns, k) + seq![']']),
    ensures
        p_neigh_items(s, i, (ns.len() - k) as nat) == Some(
            (ns.skip(k), i + ser_neigh_items_from(ns, k).len() + 1),
        ),
    decreases ns.len() - k,
{
    let a = ser_opt_str(ns[k]);
    lemma_opt_str_first(ns[k]);
    if k == ns.len() - 1 {
        let w = ser_neigh_items_from(ns, k) + seq![']'];
        assert(ser_neigh_items_from(ns, k) == a);
        lemma_lit_split(s, i, a, seq![']']);
        lemma_lit_char(s, i, a, 0);
        lemma_ws_stays(s, i);
        lemma_inv_opt_path(s, i, ns[k]);
        lemma_lit_char(s, i + a.len(), seq![']'], 0);
        assert(s[i + a.len()] == ']');
        lemma_ws_stays(s, i + a.len());
        assert(ns.skip(k) =~= seq![ns[k]]);
    } else {
        let rest = ser_neigh_items_from(ns, k + 1);
        assert(ser_neigh_items_from(ns, k) == a + seq![','] + rest);
        let w = ser_neigh_items_from(ns, k) + seq![']'];
        assert(w =~= a + (seq![','] + (rest + seq![']']))) by {
            assert(((a + seq![',']) + rest) + seq![']'] =~= a + (seq![','] + (rest
                + seq![']'])));
        }
        lemma_lit_split(s, i, a, seq![','] + (rest + seq![']']));
        let i1 = i + a.len();
        lemma_lit_split(s, i1, seq![','], rest + seq![']']);
        let i2 = i1 + 1;
        lemma_lit_char(s, i, a, 0);
        lemma_ws_stays(s, i);
        lemma_inv_opt_path(s, i, ns[k]);
        lemma_lit_char(s, i1, seq![','], 0);
        assert(s[i1] == ',');
        lemma_ws_stays(s, i1);
        lemma_inv_neigh_from(s, i2, ns, k + 1);
        assert(p_neigh_items(s, i, (ns.len() - k) as nat) == Some(
            (seq![ns[k]] + ns.skip(k + 1), i + ser_neigh_items_from(ns, k).len() + 1),
        ));
        assert(seq![ns[k]] + ns.skip(k + 1) =~= ns.skip(k));
    }
}

/// A written image read back gives the very image, with the reader
/// standing after the closing brace.
proof fn lemma_inv_image(s: Seq<char>, i: int, m: ImageModel)
    requires
        image_wf(m),
        match_lit(s, i, ser_image(m)),
    ensures
        p_image(s, i) == Some((m, i + ser_image(m).len())),
{
    let lip = lit_member_image_path();
    let lnb = lit_member_neighbours();
    let ps = ser_string(m.image_path);
    let ni = ser_neigh_items_from(m.neighbours, 0);
    let ex = ser_extras_from(m.extra, 0);
    let w = ser_image(m);
    assert(w =~= seq!['{'] + (lip + (seq![':'] + (ps + (seq![','] + (lnb + (seq![':', '['] + ((ni
        + seq![']']) + (ex + seq!['}'])))))))));
    lemma_lit_split(s, i, seq!['{'], lip + (seq![':'] + (ps + (seq![','] + (lnb + (seq![':', '[']
        + ((ni + seq![']']) + (ex + seq!['}']))))))));
    let i1 = i + 1;
    lemma_lit_split(s, i1, lip, seq![':'] + (ps + (seq![','] + (lnb + (seq![':', '['] + ((ni
        + seq![']']) + (ex + seq!['}'])))))));
    let i2 = i1 + 12;
    lemma_lit_split(s, i2, seq![':'], ps + (seq![','] + (lnb + (seq![':', '['] + ((ni + seq![']'])
        + (ex + seq!['}']))))));
    let i3 = i2 + 1;
    lemma_lit_split(s, i3, ps, seq![','] + (lnb + (seq![':', '['] + ((ni + seq![']']) + (ex
        + seq!['}'])))));
    let i4 = i3 + ps.len();
    lemma_lit_split(s, i4, seq![','], lnb + (seq![':', '['] + ((ni + seq![']']) + (ex
        + seq!['}']))));
    let i5 = i4 + 1;
    lemma_lit_split(s, i5, lnb, seq![':', '['] + ((ni + seq![']']) + (ex + seq!['}'])));
    let i6 = i5 + 12;
    lemma_lit_split(s, i6, seq![':', '['], (ni + seq![']']) + (ex + seq!['}']));
    let i7 = i6 + 2;
    lemma_lit_split(s, i7, ni + seq![']'], ex + seq!['}']);
    let i8 = i7 + ni.len() + 1;
    // The characters that drive the reader.
    lemma_lit_char(s, i, seq!['{'], 0);
    lemma_ws_stays(s, i);
    lemma_lit_char(s, i1, lip, 0);
    lemma_ws_stays(s, i1);
    lemma_lit_char(s, i2, seq![':'], 0);
    lemma_ws_stays(s, i2);
    lemma_lit_char(s, i3, ps, 0);
    lemma_ws_stays(s, i3);
    lemma_inv_string(s, i3, m.image_path);
    lemma_lit_char(s, i4, seq![','], 0);
    lemma_ws_stays(s, i4);
    lemma_lit_char(s, i5, lnb, 0);
    lemma_ws_stays(s, i5);
    lemma_lit_char(s, i6, seq![':', '['], 0);
    lemma_lit_char(s, i6, seq![':', '['], 1);
    lemma_ws_stays(s, i6);
    lemma_inv_neigh_from(s, i7, m.neighbours, 0);
    assert(m.neighbours.skip(0) =~= m.neighbours);
    lemma_inv_extras_from(s, i8, m.extra, 0);
    assert(m.extra.skip(0) =~= m.extra);
    assert(p_image(s, i) matches Some(t) && t.0 =~= m && t.1 == i + w.len());
}


/// A written image opens with a brace.
proof fn lemma_image_first(m: ImageModel)
    ensures
        ser_image(m).len() > 0,
        ser_image(m)[0] == '{',
{
}

/// Written images, read back from position `k` on, give the very images,
/// with the reader standing after the closing bracket.
proof fn lemma_inv_images_from(s: Seq<char>, i: int, imgs: Seq<ImageModel>, k: int)
    requires
        0 <= k < imgs.len(),
        forall|q: int| 0 <= q < imgs.len() ==> image_wf(#[trigger] imgs[q]),
        match_lit(s, i, ser_images_from(imgs, k) + seq![']']),
    ensures
        p_images_items(s, i) == Some((imgs.skip(k), i + ser_images_from(imgs, k).len() + 1)),
    decreases imgs.len() - k,
{
    let a = ser_image(imgs[k]);
    lemma_image_first(imgs[k]);
    if k == imgs.len() - 1 {
        assert(ser_images_from(imgs, k) == a);
        lemma_lit_split(s, i, a, seq![']']);
        lemma_inv_image(s, i, imgs[k]);
        lemma_lit_char(s, i + a.len(), seq![']'], 0);
        assert(s[i + a.len()] == ']');
        lemma_ws_stays(s, i + a.len());
        assert(imgs.skip(k) =~= seq![imgs[k]]);
    } else {
        let rest = ser_images_from(imgs, k + 1);
        assert(ser_images_from(imgs, k) == a + seq![','] + rest);
        let w = ser_images_from(imgs, k) + seq![']'];
        assert(w =~= a + (seq![','] + (rest + seq![']']))) by {
            assert(((a + seq![',']) + rest) + seq![']'] =~= a + (seq![','] + (rest
                + seq![']'])));
        }
        lemma_lit_split(s, i, a, seq![','] + (rest + seq![']']));
        let i1 = i + a.len();
        lemma_lit_split(s, i1, seq![','], rest + seq![']']);
        let i2 = i1 + 1;
        lemma_inv_image(s, i, imgs[k]);
        lemma_lit_char(s, i1, seq![','], 0);
        assert(s[i1] == ',');
        lemma_ws_stays(s, i1);
        lemma_inv_images_from(s, i2, imgs, k + 1);
        assert(p_images_items(s, i) == Some(
            (seq![imgs[k]] + imgs.skip(k + 1), i + ser_images_from(imgs, k).len() + 1),
        ));
        assert(seq![imgs[k]] + imgs.skip(k + 1) =~= imgs.skip(k));
    }
}

/// A written z-stack read back gives the very z-stack, with the reader
/// standing after the closing brace.
#[verifier::rlimit(60)]
proof fn lemma_inv_zstack(s: Seq<char>, i: int, z: ZStackModel)
    requires
        zstack_wf(z),
        match_lit(s, i, ser_zstack(z)),
    ensures
        p_zstack(s, i) == Some((z, i + ser_zstack(z).len())),
{
    let lim = lit_member_images();
    let lbi = lit_member_best_index();
    let isf = ser_images_from(z.images, 0);
    let ob = ser_opt_index(z.best_index);
    let ex = ser_extras_from(z.extra, 0);
    let w = ser_zstack(z);
    assert(w =~= seq!['{'] + (lim + (seq![':', '['] + ((isf + seq![']']) + (seq![','] + (lbi
        + (seq![':'] + (ob + (ex + seq!['}'])))))))));
    lemma_lit_split(s, i, seq!['{'], lim + (seq![':', '['] + ((isf + seq![']']) + (seq![','] + (lbi
        + (seq![':'] + (ob + (ex + seq!['}']))))))));
    let i1 = i + 1;
    lemma_lit_split(s, i1, lim, seq![':', '['] + ((isf + seq![']']) + (seq![','] + (lbi + (seq![
        ':',
    ] + (ob + (ex + seq!['}'])))))));
    let i2 = i1 + 8;
    lemma_lit_split(s, i2, seq![':', '['], (isf + seq![']']) + (seq![','] + (lbi + (seq![':'] + (ob
        + (ex + seq!['}']))))));
    let i3 = i2 + 2;
    lemma_lit_split(s, i3, isf + seq![']'], seq![','] + (lbi + (seq![':'] + (ob + (ex
        + seq!['}'])))));
    let i4 = i3 + isf.len() + 1;
    lemma_lit_split(s, i4, seq![','], lbi + (seq![':'] + (ob + (ex + seq!['}']))));
    let i5 = i4 + 1;
    lemma_lit_split(s, i5, lbi, seq![':'] + (ob + (ex + seq!['}'])));
    let i6 = i5 + 12;
    lemma_lit_split(s, i6, seq![':'], ob + (ex + seq!['}']));
    let i7 = i6 + 1;
    lemma_lit_split(s, i7, ob, ex + seq!['}']);
    let i8 = i7 + ob.len();
    // The characters that drive the reader.
    lemma_lit_char(s, i, seq!['{'], 0);
    lemma_ws_stays(s, i);
    lemma_lit_char(s, i1, lim, 0);
    lemma_ws_stays(s, i1);
    lemma_lit_char(s, i2, seq![':', '['], 0);
    lemma_lit_char(s, i2, seq![':', '['], 1);
    lemma_ws_stays(s, i2);
    if z.images.len() == 0 {
        assert(isf.len() == 0);
        lemma_lit_char(s, i3, isf + seq![']'], 0);
        assert(s[i3] == ']');
        lemma_ws_stays(s, i3);
        assert(z.images =~= Seq::<ImageModel>::empty());
    } else {
        assert(isf == ser_image(z.images[0]) + seq![','] + ser_images_from(z.images, 1) || isf
            == ser_image(z.images[0]));
        lemma_image_first(z.images[0]);
        lemma_lit_char(s, i3, isf + seq![']'], 0);
        assert(s[i3] == '{');
        lemma_ws_stays(s, i3);
        lemma_inv_images_from(s, i3, z.images, 0);
        assert(z.images.skip(0) =~= z.images);
    }
    lemma_lit_char(s, i4, seq![','], 0);
    lemma_ws_stays(s, i4);
    lemma_lit_char(s, i5, lbi, 0);
    lemma_ws_stays(s, i5);
    lemma_lit_char(s, i6, seq![':'], 0);
    lemma_ws_stays(s, i6);
    // The value after `best_index` opens with a digit or `null`, and what
    // follows it is a comma or brace: no digit on either side.
    match z.best_index {
        None => {
            lemma_lit_char(s, i7, ob, 0);
            lemma_ws_stays(s, i7);
        },
        Some(nv) => {
            lemma_dec_digits_are_digits(nv as nat);
            lemma_lit_char(s, i7, ob, 0);
            lemma_ws_stays(s, i7);
        },
    }
    if z.extra.len() == 0 {
        lemma_lit_char(s, i8, ex + seq!['}'], 0);
        assert(s[i8] == '}');
    } else {
        assert(ex == seq![','] + ser_string(z.extra[0].0) + seq![':'] + z.extra[0].1
            + ser_extras_from(z.extra, 1));
        lemma_lit_char(s, i8, ex + seq!['}'], 0);
        assert((ex + seq!['}'])[0] == ',');
        assert(s[i8] == ',');
    }
    assert(!is_digit(s[i8]));
    lemma_inv_opt_index(s, i7, z.best_index);
    lemma_inv_extras_from(s, i8, z.extra, 0);
    assert(z.extra.skip(0) =~= z.extra);
    assert(p_zstack(s, i) matches Some(t) && t.0 =~= z && t.1 == i + w.len());
}

/// A written z-stack opens with a brace.
proof fn lemma_zstack_first(z: ZStackModel)
    ensures
        ser_zstack(z).len() > 0,
        ser_zstack(z)[0] == '{',
{
}

/// Written z-stacks, read back from position `k` on, give the very
/// stacks, with the reader standing after the closing bracket.
proof fn lemma_inv_zstacks_from(s: Seq<char>, i: int, d: Seq<ZStackModel>, k: int)
    requires
        0 <= k < d.len(),
        forall|q: int| 0 <= q < d.len() ==> zstack_wf(#[trigger] d[q]),
        match_lit(s, i, ser_zstacks_from(d, k) + seq![']']),
    ensures
        p_zstacks_items(s, i) == Some((d.skip(k), i + ser_zstacks_from(d, k).len() + 1)),
    decreases d.len() - k,
{
    let a = ser_zstack(d[k]);
    lemma_zstack_first(d[k]);
    if k == d.len() - 1 {
        assert(ser_zstacks_from(d, k) == a);
        lemma_lit_split(s, i, a, seq![']']);
        lemma_inv_zstack(s, i, d[k]);
        lemma_lit_char(s, i + a.len(), seq![']'], 0);
        assert(s[i + a.len()] == ']');
        lemma_ws_stays(s, i + a.len());
        assert(d.skip(k) =~= seq![d[k]]);
    } else {
        let rest = ser_zstacks_from(d, k + 1);
        assert(ser_zstacks_from(d, k) == a + seq![','] + rest);
        let w = ser_zstacks_from(d, k) + seq![']'];
        assert(w =~= a + (seq![','] + (rest + seq![']']))) by {
            assert(((a + seq![',']) + rest) + seq![']'] =~= a + (seq![','] + (rest
                + seq![']'])));
        }
        lemma_lit_split(s, i, a, seq![','] + (rest + seq![']']));
        let i1 = i + a.len();
        lemma_lit_split(s, i1, seq![','], rest + seq![']']);
        let i2 = i1 + 1;
        lemma_inv_zstack(s, i, d[k]);
        lemma_lit_char(s, i1, seq![','], 0);
        assert(s[i1] == ',');
        lemma_ws_stays(s, i1);
        lemma_inv_zstacks_from(s, i2, d, k + 1);
        assert(p_zstacks_items(s, i) == Some(
            (seq![d[k]] + d.skip(k + 1), i + ser_zstacks_from(d, k).len() + 1),
        ));
        assert(seq![d[k]] + d.skip(k + 1) =~= d.skip(k));
    }
}

/// Written z-stacks from position `k` on open with a brace.
proof fn lemma_zstacks_from_first(d: Seq<ZStackModel>, k: int)
    requires
        0 <= k < d.len(),
    ensures
        ser_zstacks_from(d, k).len() > 0,
        ser_zstacks_from(d, k)[0] == '{',
{
    lemma_zstack_first(d[k]);
}

/// Law: reading a written document gives back the very document — every
/// path, every neighbour slot, every mark, and every unrecognized member,
/// in order.
#[verifier::rlimit(100)]
pub proof fn lemma_document_roundtrip(d: Seq<ZStackModel>)
    requires
        doc_wf(d),
    ensures
        p_doc(ser_doc(d)) == Some(d),
{
    let s = ser_doc(d);
    let zs = ser_zstacks_from(d, 0);
    assert(s =~= seq!['['] + (zs + seq![']'])) by {
        assert((seq!['['] + zs) + seq![']'] =~= seq!['['] + (zs + seq![']']));
    }
    assert(match_lit(s, 0, s)) by {
        assert(s.subrange(0, s.len() as int) =~= s);
    }
    lemma_lit_split(s, 0, seq!['['], zs + seq![']']);
    lemma_lit_char(s, 0, seq!['['], 0);
    assert(s[0] == '[');
    lemma_ws_stays(s, 0);
    if d.len() == 0 {
        assert(zs.len() == 0);
        lemma_lit_char(s, 1, zs + seq![']'], 0);
        assert(s[1] == ']');
        lemma_ws_stays(s, 1);
        lemma_ws_stays(s, 2);
        assert(p_doc(s) == Some(Seq::<ZStackModel>::empty()));
        assert(d =~= Seq::<ZStackModel>::empty());
    } else {
        lemma_zstacks_from_first(d, 0);
        lemma_lit_char(s, 1, zs + seq![']'], 0);
        assert((zs + seq![']'])[0] == zs[0]);
        assert(s[1] == '{');
        lemma_ws_stays(s, 1);
        lemma_inv_zstacks_from(s, 1, d, 0);
        assert(d.skip(0) =~= d);
        lemma_ws_stays(s, s.len() as int);
    }
}


/// A written crash-log entry read back gives the very entry, with the
/// reader standing after the closing brace.
#[verifier::rlimit(60)]
proof fn lemma_inv_cache_entry(s: Seq<char>, i: int, e: (usize, usize))
    requires
        match_lit(s, i, ser_cache_entry(e)),
    ensures
        p_cache_entry(s, i) == Some((e, i + ser_cache_entry(e).len())),
{
    let lsi = lit_member_stack_index();
    let lfi = lit_member_focus_image_index();
    let d1 = dec_digits(e.0 as nat);
    let d2 = dec_digits(e.1 as nat);
    let w = ser_cache_entry(e);
    assert(w =~= seq!['{'] + (lsi + (seq![':'] + (d1 + (seq![','] + (lfi + (seq![':'] + (d2
        + seq!['}'])))))))) by {
        assert(((((((seq!['{'] + lsi) + seq![':']) + d1) + seq![',']) + lfi) + seq![':']) + d2
            + seq!['}'] =~= seq!['{'] + (lsi + (seq![':'] + (d1 + (seq![','] + (lfi + (seq![':']
            + (d2 + seq!['}']))))))));
    }
    lemma_lit_split(s, i, seq!['{'], lsi + (seq![':'] + (d1 + (seq![','] + (lfi + (seq![':'] + (d2
        + seq!['}'])))))));
    let i1 = i + 1;
    lemma_lit_split(s, i1, lsi, seq![':'] + (d1 + (seq![','] + (lfi + (seq![':'] + (d2
        + seq!['}']))))));
    let i2 = i1 + 13;
    lemma_lit_split(s, i2, seq![':'], d1 + (seq![','] + (lfi + (seq![':'] + (d2 + seq!['}'])))));
    let i3 = i2 + 1;
    lemma_lit_split(s, i3, d1, seq![','] + (lfi + (seq![':'] + (d2 + seq!['}']))));
    let i4 = i3 + d1.len();
    lemma_lit_split(s, i4, seq![','], lfi + (seq![':'] + (d2 + seq!['}'])));
    let i5 = i4 + 1;
    lemma_lit_split(s, i5, lfi, seq![':'] + (d2 + seq!['}']));
    let i6 = i5 + 19;
    lemma_lit_split(s, i6, seq![':'], d2 + seq!['}']);
    let i7 = i6 + 1;
    lemma_lit_split(s, i7, d2, seq!['}']);
    let i8 = i7 + d2.len();
    // The characters that drive the reader.
    lemma_lit_char(s, i, seq!['{'], 0);
    lemma_ws_stays(s, i);
    lemma_lit_char(s, i1, lsi, 0);
    lemma_ws_stays(s, i1);
    lemma_lit_char(s, i2, seq![':'], 0);
    lemma_ws_stays(s, i2);
    lemma_dec_digits_are_digits(e.0 as nat);
    lemma_dec_digits_are_digits(e.1 as nat);
    lemma_lit_char(s, i3, d1, 0);
    lemma_ws_stays(s, i3);
    lemma_lit_char(s, i4, seq![','], 0);
    assert(!is_digit(s[i4]));
    lemma_inv_number(s, i3, e.0 as nat);
    lemma_ws_stays(s, i4);
    lemma_lit_char(s, i5, lfi, 0);
    lemma_ws_stays(s, i5);
    lemma_lit_char(s, i6, seq![':'], 0);
    lemma_ws_stays(s, i6);
    lemma_lit_char(s, i7, d2, 0);
    lemma_ws_stays(s, i7);
    lemma_lit_char(s, i8, seq!['}'], 0);
    assert(!is_digit(s[i8]));
    lemma_inv_number(s, i7, e.1 as nat);
    lemma_ws_stays(s, i8);
    assert((e.0, e.1) == e);
}

/// A written crash-log entry opens with a brace.
proof fn lemma_cache_entry_first(e: (usize, usize))
    ensures
        ser_cache_entry(e).len() > 0,
        ser_cache_entry(e)[0] == '{',
{
}

/// Written crash-log entries, read back from position `k` on, give the
/// very entries, with the reader standing after the closing bracket.
proof fn lemma_inv_cache_from(s: Seq<char>, i: int, entries: Seq<(usize, usize)>, k: int)
    requires
        0 <= k < entries.len(),
        match_lit(s, i, ser_cache_from(entries, k) + seq![']']),
    ensures
        p_cache_items(s, i) == Some(
            (entries.skip(k), i + ser_cache_from(entries, k).len() + 1),
        ),
    decreases entries.len() - k,
{
    let a = ser_cache_entry(entries[k]);
    lemma_cache_entry_first(entries[k]);
    if k == entries.len() - 1 {
        assert(ser_cache_from(entries, k) == a);
        lemma_lit_split(s, i, a, seq![']']);
        lemma_inv_cache_entry(s, i, entries[k]);
        lemma_lit_char(s, i + a.len(), seq![']'], 0);
        assert(s[i + a.len()] == ']');
        lemma_ws_stays(s, i + a.len());
        assert(entries.skip(k) =~= seq![entries[k]]);
    } else {
        let rest = ser_cache_from(entries, k + 1);
        assert(ser_cache_from(entries, k) == a + seq![','] + rest);
        let w = ser_cache_from(entries, k) + seq![']'];
        assert(w =~= a + (seq![','] + (rest + seq![']']))) by {
            assert(((a + seq![',']) + rest) + seq![']'] =~= a + (seq![','] + (rest
                + seq![']'])));
        }
        lemma_lit_split(s, i, a, seq![','] + (rest + seq![']']));
        let i1 = i + a.len();
        lemma_lit_split(s, i1, seq![','], rest + seq![']']);
        let i2 = i1 + 1;
        lemma_inv_cache_entry(s, i, entries[k]);
        lemma_lit_char(s, i1, seq![','], 0);
        assert(s[i1] == ',');
        lemma_ws_stays(s, i1);
        lemma_inv_cache_from(s, i2, entries, k + 1);
        assert(p_cache_items(s, i) == Some(
            (seq![entries[k]] + entries.skip(k + 1), i + ser_cache_from(entries, k).len() + 1),
        ));
        assert(seq![entries[k]] + entries.skip(k + 1) =~= entries.skip(k));
    }
}

/// Written crash-log entries from position `k` on open with a brace.
proof fn lemma_cache_from_first(entries: Seq<(usize, usize)>, k: int)
    requires
        0 <= k < entries.len(),
    ensures
        ser_cache_from(entries, k).len() > 0,
        ser_cache_from(entries, k)[0] == '{',
{
    lemma_cache_entry_first(entries[k]);
}

/// Law: reading a written crash log gives back the very entries, in
/// order — a mark recorded in the sibling file is never lost or changed.
pub proof fn lemma_cache_roundtrip(entries: Seq<(usize, usize)>)
    ensures
        p_cache(ser_cache(entries)) == Some(entries),
{
    let s = ser_cache(entries);
    let cs = ser_cache_from(entries, 0);
    assert(s =~= seq!['['] + (cs + seq![']'])) by {
        assert((seq!['['] + cs) + seq![']'] =~= seq!['['] + (cs + seq![']']));
    }
    assert(match_lit(s, 0, s)) by {
        assert(s.subrange(0, s.len() as int) =~= s);
    }
    lemma_lit_split(s, 0, seq!['['], cs + seq![']']);
    lemma_lit_char(s, 0, seq!['['], 0);
    assert(s[0] == '[');
    lemma_ws_stays(s, 0);
    if entries.len() == 0 {
        assert(cs.len() == 0);
        lemma_lit_char(s, 1, cs + seq![']'], 0);
        assert(s[1] == ']');
        lemma_ws_stays(s, 1);
        lemma_ws_stays(s, 2);
        assert(p_cache(s) == Some(Seq::<(usize, usize)>::empty()));
        assert(entries =~= Seq::<(usize, usize)>::empty());
    } else {
        lemma_cache_from_first(entries, 0);
        lemma_lit_char(s, 1, cs + seq![']'], 0);
        assert((cs + seq![']'])[0] == cs[0]);
        assert(s[1] == '{');
        lemma_ws_stays(s, 1);
        lemma_inv_cache_from(s, 1, entries, 0);
        assert(entries.skip(0) =~= entries);
        lemma_ws_stays(s, s.len() as int);
    }
}

} // verus!
