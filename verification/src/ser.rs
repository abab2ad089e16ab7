//! Serialization of documents and crash logs to their JSON text.
//!
//! The spec functions here are the single written form of a document: one
//! compact text without whitespace, known members first, unrecognized
//! members after them in arrival order, their raw values verbatim.  The
//! executable writers produce exactly that text.

use vstd::prelude::*;
use crate::model::{AnnotationImage, AnnotationZStack, LightAnnotation, ImageModel, ZStackModel};
use crate::model::{cache_view, zstacks_view};
use vstd::string::StrSliceExecFns;

verus! {

/// The decimal digit characters.
pub open spec fn digit_char(d: nat) -> char {
    if d == 0 {
        '0'
    } else if d == 1 {
        '1'
    } else if d == 2 {
        '2'
    } else if d == 3 {
        '3'
    } else if d == 4 {
        '4'
    } else if d == 5 {
        '5'
    } else if d == 6 {
        '6'
    } else if d == 7 {
        '7'
    } else if d == 8 {
        '8'
    } else {
        '9'
    }
}

/// The decimal digits of `n`, most significant first, no leading zeros.
pub open spec fn dec_digits(n: nat) -> Seq<char>
    decreases n,
{
    if n < 10 {
        seq![digit_char(n)]
    } else {
        dec_digits(n / 10).push(digit_char(n % 10))
    }
}

/// How one character is written inside a string: quotes and backslashes
/// get a backslash escape, everything else stands for itself.
pub open spec fn esc_char(c: char) -> Seq<char> {
    if c == '"' {
        seq!['\\', '"']
    } else if c == '\\' {
        seq!['\\', '\\']
    } else {
        seq![c]
    }
}

/// A string's characters, escaped one after the other.
pub open spec fn esc_seq(s: Seq<char>) -> Seq<char>
    decreases s.len(),
{
    if s.len() == 0 {
        Seq::empty()
    } else {
        esc_char(s[0]) + esc_seq(s.drop_first())
    }
}

/// A string value: quoted and escaped.
pub open spec fn ser_string(s: Seq<char>) -> Seq<char> {
    seq!['"'] + esc_seq(s) + seq!['"']
}

/// The literal `null`.
pub open spec fn lit_null() -> Seq<char> {
    seq!['n', 'u', 'l', 'l']
}

/// The quoted member name `image_path`.
pub open spec fn lit_member_image_path() -> Seq<char> {
    seq!['"', 'i', 'm', 'a', 'g', 'e', '_', 'p', 'a', 't', 'h', '"']
}

/// The quoted member name `neighbours`.
pub open spec fn lit_member_neighbours() -> Seq<char> {
    seq!['"', 'n', 'e', 'i', 'g', 'h', 'b', 'o', 'u', 'r', 's', '"']
}

/// The quoted member name `images`.
pub open spec fn lit_member_images() -> Seq<char> {
    seq!['"', 'i', 'm', 'a', 'g', 'e', 's', '"']
}

/// The quoted member name `best_index`.
pub open spec fn lit_member_best_index() -> Seq<char> {
    seq!['"', 'b', 'e', 's', 't', '_', 'i', 'n', 'd', 'e', 'x', '"']
}

/// The quoted member name `stack_index`.
pub open spec fn lit_member_stack_index() -> Seq<char> {
    seq!['"', 's', 't', 'a', 'c', 'k', '_', 'i', 'n', 'd', 'e', 'x', '"']
}

/// The quoted member name `focus_image_index`.
pub open spec fn lit_member_focus_image_index() -> Seq<char> {
    seq![
        '"',
        'f',
        'o',
        'c',
        'u',
        's',
        '_',
        'i',
        'm',
        'a',
        'g',
        'e',
        '_',
        'i',
        'n',
        'd',
        'e',
        'x',
        '"',
    ]
}

/// An optional string value: `null` when absent.
pub open spec fn ser_opt_str(o: Option<Seq<char>>) -> Seq<char> {
    match o {
        None => lit_null(),
        Some(s) => ser_string(s),
    }
}

/// An optional index value: `null` when absent.
pub open spec fn ser_opt_index(o: Option<usize>) -> Seq<char> {
    match o {
        None => lit_null(),
        Some(n) => dec_digits(n as nat),
    }
}

/// The neighbour slots from position `k` on, comma-separated.
pub open spec fn ser_neigh_items_from(ns: Seq<Option<Seq<char>>>, k: int) -> Seq<char>
    decreases ns.len() - k,
{
    if k < 0 || k >= ns.len() {
        Seq::empty()
    } else if k == ns.len() - 1 {
        ser_opt_str(ns[k])
    } else {
        ser_opt_str(ns[k]) + seq![','] + ser_neigh_items_from(ns, k + 1)
    }
}

/// The unrecognized members from position `k` on, each as
/// `,"name":value` with the raw value verbatim.
pub open spec fn ser_extras_from(e: Seq<(Seq<char>, Seq<char>)>, k: int) -> Seq<char>
    decreases e.len() - k,
{
    if k < 0 || k >= e.len() {
        Seq::empty()
    } else {
        seq![','] + ser_string(e[k].0) + seq![':'] + e[k].1 + ser_extras_from(e, k + 1)
    }
}

/// One image object.
pub open spec fn ser_image(m: ImageModel) -> Seq<char> {
    seq!['{'] + lit_member_image_path() + seq![':'] + ser_string(m.image_path) + seq![',']
        + lit_member_neighbours() + seq![':', '['] + ser_neigh_items_from(m.neighbours, 0)
        + seq![']'] + ser_extras_from(m.extra, 0) + seq!['}']
}

/// The images of a stack from position `k` on, comma-separated.
pub open spec fn ser_images_from(imgs: Seq<ImageModel>, k: int) -> Seq<char>
    decreases imgs.len() - k,
{
    if k < 0 || k >= imgs.len() {
        Seq::empty()
    } else if k == imgs.len() - 1 {
        ser_image(imgs[k])
    } else {
        ser_image(imgs[k]) + seq![','] + ser_images_from(imgs, k + 1)
    }
}

/// One z-stack object.
pub open spec fn ser_zstack(z: ZStackModel) -> Seq<char> {
    seq!['{'] + lit_member_images() + seq![':', '['] + ser_images_from(z.images, 0) + seq![']', ',']
        + lit_member_best_index() + seq![':'] + ser_opt_index(z.best_index) + ser_extras_from(
        z.extra,
        0,
    ) + seq!['}']
}

/// The stacks of a document from position `k` on, comma-separated.
pub open spec fn ser_zstacks_from(d: Seq<ZStackModel>, k: int) -> Seq<char>
    decreases d.len() - k,
{
    if k < 0 || k >= d.len() {
        Seq::empty()
    } else if k == d.len() - 1 {
        ser_zstack(d[k])
    } else {
        ser_zstack(d[k]) + seq![','] + ser_zstacks_from(d, k + 1)
    }
}

/// A whole document: the top-level array of z-stacks.
pub open spec fn ser_doc(d: Seq<ZStackModel>) -> Seq<char> {
    seq!['['] + ser_zstacks_from(d, 0) + seq![']']
}

/// One crash-log entry object.
pub open spec fn ser_cache_entry(e: (usize, usize)) -> Seq<char> {
    seq!['{'] + lit_member_stack_index() + seq![':'] + dec_digits(e.0 as nat) + seq![',']
        + lit_member_focus_image_index() + seq![':'] + dec_digits(e.1 as nat) + seq!['}']
}

/// The crash-log entries from position `k` on, comma-separated.
pub open spec fn ser_cache_from(entries: Seq<(usize, usize)>, k: int) -> Seq<char>
    decreases entries.len() - k,
{
    if k < 0 || k >= entries.len() {
        Seq::empty()
    } else if k == entries.len() - 1 {
        ser_cache_entry(entries[k])
    } else {
        ser_cache_entry(entries[k]) + seq![','] + ser_cache_from(entries, k + 1)
    }
}

/// A whole crash log: the top-level array of entries.
pub open spec fn ser_cache(entries: Seq<(usize, usize)>) -> Seq<char> {
    seq!['['] + ser_cache_from(entries, 0) + seq![']']
}

/// Appends every character of `s` to `out`.
fn write_chars(out: &mut String, s: &str)
    ensures
        final(out)@ == old(out)@ + s@,
{
    let n = s.unicode_len();
    let mut k: usize = 0;
    while k < n
        invariant
            n == s@.len(),
            k <= n,
            out@ == old(out)@ + s@.take(k as int),
        decreases n - k,
    {
        out.push(s.get_char(k));
        proof {
            assert(old(out)@ + s@.take(k as int + 1) =~= (old(out)@ + s@.take(k as int)).push(
                s@[k as int],
            ));
        }
        k = k + 1;
    }
    proof {
        assert(s@.take(n as int) =~= s@);
    }
}

/// The decimal digit for `d`.
fn digit_of(d: usize) -> (c: char)
    requires
        d < 10,
    ensures
        c == digit_char(d as nat),
{
    if d == 0 {
        '0'
    } else if d == 1 {
        '1'
    } else if d == 2 {
        '2'
    } else if d == 3 {
        '3'
    } else if d == 4 {
        '4'
    } else if d == 5 {
        '5'
    } else if d == 6 {
        '6'
    } else if d == 7 {
        '7'
    } else if d == 8 {
        '8'
    } else {
        '9'
    }
}

/// Appends the decimal digits of `n` to `out`.
fn write_number(out: &mut String, n: usize)
    ensures
        final(out)@ == old(out)@ + dec_digits(n as nat),
    decreases n,
{
    if n < 10 {
        out.push(digit_of(n));
        proof {
            assert(old(out)@ + dec_digits(n as nat) =~= old(out)@.push(digit_char(n as nat)));
        }
    } else {
        write_number(out, n / 10);
        out.push(digit_of(n % 10));
        proof {
            assert(old(out)@ + dec_digits(n as nat) =~= (old(out)@ + dec_digits(
                n as nat / 10,
            )).push(digit_char(n as nat % 10)));
        }
    }
}

/// Appends `s` as a quoted, escaped string value to `out`.
fn write_string_value(out: &mut String, s: &str)
    ensures
        final(out)@ == old(out)@ + ser_string(s@),
{
    let n = s.unicode_len();
    out.push('"');
    let mut k: usize = 0;
    while k < n
        invariant
            n == s@.len(),
            k <= n,
            out@ == old(out)@.push('"') + esc_seq(s@.take(k as int)),
        decreases n - k,
    {
        let c = s.get_char(k);
        if c == '"' {
            out.push('\\');
            out.push('"');
        } else if c == '\\' {
            out.push('\\');
            out.push('\\');
        } else {
            out.push(c);
        }
        proof {
            lemma_esc_seq_push(s@.take(k as int), s@[k as int]);
            assert(s@.take(k as int + 1) =~= s@.take(k as int).push(s@[k as int]));
            assert(out@ =~= old(out)@.push('"') + esc_seq(s@.take(k as int + 1)));
        }
        k = k + 1;
    }
    out.push('"');
    proof {
        assert(s@.take(n as int) =~= s@);
        assert(out@ =~= old(out)@ + ser_string(s@));
    }
}

/// Escaping one more character appends that character's escape.
proof fn lemma_esc_seq_push(s: Seq<char>, c: char)
    ensures
        esc_seq(s.push(c)) == esc_seq(s) + esc_char(c),
    decreases s.len(),
{
    if s.len() == 0 {
        assert(s.push(c)[0] == c);
        assert(s.push(c).drop_first() =~= Seq::<char>::empty());
        assert(esc_seq(s.push(c)) == esc_char(c) + esc_seq(Seq::<char>::empty()));
        assert(esc_char(c) + Seq::<char>::empty() =~= esc_char(c));
        assert(esc_seq(s) + esc_char(c) =~= esc_char(c));
    } else {
        lemma_esc_seq_push(s.drop_first(), c);
        assert(s.push(c)[0] == s[0]);
        assert(s.push(c).drop_first() =~= s.drop_first().push(c));
        assert(esc_seq(s.push(c)) == esc_char(s[0]) + esc_seq(s.drop_first().push(c)));
        vstd::seq_lib::lemma_concat_associative(esc_char(s[0]), esc_seq(s.drop_first()), esc_char(c));
        assert(esc_seq(s.push(c)) =~= esc_seq(s) + esc_char(c));
    }
}

/// Appends an optional string value, `null` when absent.
fn write_opt_path(out: &mut String, o: &Option<String>)
    ensures
        final(out)@ == old(out)@ + ser_opt_str(o.deep_view()),
{
    match o {
        None => write_chars(out, "null"),
        Some(p) => write_string_value(out, p.as_str()),
    }
    proof {
        reveal_strlit("null");
        assert(("null")@ =~= lit_null());
    }
}

/// Appends the neighbour slots from `k` on, comma-separated.
fn write_neigh_items_from(out: &mut String, ns: &Vec<Option<String>>, k: usize)
    requires
        k < ns@.len(),
    ensures
        final(out)@ == old(out)@ + ser_neigh_items_from(ns.deep_view(), k as int),
    decreases ns@.len() - k,
{
    write_opt_path(out, &ns[k]);
    if k < ns.len() - 1 {
        out.push(',');
        write_neigh_items_from(out, ns, k + 1);
        proof {
            assert(out@ =~= old(out)@ + ser_neigh_items_from(ns.deep_view(), k as int));
        }
    } else {
        proof {
            assert(out@ =~= old(out)@ + ser_neigh_items_from(ns.deep_view(), k as int));
        }
    }
}

/// Appends the unrecognized members from `k` on.
fn write_extras_from(out: &mut String, extra: &Vec<(String, crate::raw::RawJson)>, k: usize)
    requires
        k <= extra@.len(),
    ensures
        final(out)@ == old(out)@ + ser_extras_from(
            extra@.map_values(|p: (String, crate::raw::RawJson)| (p.0@, p.1@)),
            k as int,
        ),
    decreases extra@.len() - k,
{
    let ghost e = extra@.map_values(|p: (String, crate::raw::RawJson)| (p.0@, p.1@));
    if k < extra.len() {
        out.push(',');
        write_string_value(out, extra[k].0.as_str());
        out.push(':');
        write_chars(out, extra[k].1.raw_text());
        write_extras_from(out, extra, k + 1);
        proof {
            assert(e[k as int] == (extra@[k as int].0@, extra@[k as int].1@));
            assert(out@ =~= old(out)@ + ser_extras_from(e, k as int));
        }
    } else {
        proof {
            assert(out@ =~= old(out)@ + ser_extras_from(e, k as int));
        }
    }
}

/// Appends one image object.
fn write_image(out: &mut String, img: &AnnotationImage)
    ensures
        final(out)@ == old(out)@ + ser_image(img@),
{
    out.push('{');
    write_chars(out, "\"image_path\"");
    out.push(':');
    write_string_value(out, img.image_path.as_str());
    out.push(',');
    write_chars(out, "\"neighbours\"");
    out.push(':');
    out.push('[');
    if img.neighbours.len() > 0 {
        write_neigh_items_from(out, &img.neighbours, 0);
    }
    out.push(']');
    write_extras_from(out, &img.extra, 0);
    out.push('}');
    proof {
        reveal_strlit("\"image_path\"");
        reveal_strlit("\"neighbours\"");
        assert(("\"image_path\"")@ =~= lit_member_image_path());
        assert(("\"neighbours\"")@ =~= lit_member_neighbours());
        if img.neighbours.len() == 0 {
            assert(ser_neigh_items_from(img@.neighbours, 0) =~= Seq::<char>::empty());
        }
        assert(out@ =~= old(out)@ + ser_image(img@));
    }
}

/// Appends the images from `k` on, comma-separated.
fn write_images_from(out: &mut String, imgs: &Vec<AnnotationImage>, k: usize)
    requires
        k < imgs@.len(),
    ensures
        final(out)@ == old(out)@ + ser_images_from(imgs.deep_view(), k as int),
    decreases imgs@.len() - k,
{
    write_image(out, &imgs[k]);
    if k < imgs.len() - 1 {
        out.push(',');
        write_images_from(out, imgs, k + 1);
        proof {
            assert(out@ =~= old(out)@ + ser_images_from(imgs.deep_view(), k as int));
        }
    } else {
        proof {
            assert(out@ =~= old(out)@ + ser_images_from(imgs.deep_view(), k as int));
        }
    }
}

/// Appends one z-stack object.
fn write_zstack(out: &mut String, z: &AnnotationZStack)
    ensures
        final(out)@ == old(out)@ + ser_zstack(z@),
{
    out.push('{');
    write_chars(out, "\"images\"");
    out.push(':');
    out.push('[');
    if z.images.len() > 0 {
        write_images_from(out, &z.images, 0);
    }
    out.push(']');
    out.push(',');
    write_chars(out, "\"best_index\"");
    out.push(':');
    match z.best_index {
        None => write_chars(out, "null"),
        Some(n) => write_number(out, n),
    }
    write_extras_from(out, &z.extra, 0);
    out.push('}');
    proof {
        reveal_strlit("\"images\"");
        reveal_strlit("\"best_index\"");
        reveal_strlit("null");
        assert(("\"images\"")@ =~= lit_member_images());
        assert(("\"best_index\"")@ =~= lit_member_best_index());
        assert(("null")@ =~= lit_null());
        if z.images.len() == 0 {
            assert(ser_images_from(z@.images, 0) =~= Seq::<char>::empty());
        }
        assert(out@ =~= old(out)@ + ser_zstack(z@));
    }
}

/// Appends the stacks from `k` on, comma-separated.
fn write_zstacks_from(out: &mut String, stacks: &Vec<AnnotationZStack>, k: usize)
    requires
        k < stacks@.len(),
    ensures
        final(out)@ == old(out)@ + ser_zstacks_from(zstacks_view(stacks@), k as int),
    decreases stacks@.len() - k,
{
    write_zstack(out, &stacks[k]);
    if k < stacks.len() - 1 {
        out.push(',');
        write_zstacks_from(out, stacks, k + 1);
        proof {
            assert(out@ =~= old(out)@ + ser_zstacks_from(zstacks_view(stacks@), k as int));
        }
    } else {
        proof {
            assert(out@ =~= old(out)@ + ser_zstacks_from(zstacks_view(stacks@), k as int));
        }
    }
}

/// Writes a whole document: the exact text [`ser_doc`] describes.
pub fn serialize_document(stacks: &Vec<AnnotationZStack>) -> (r: String)
    ensures
        r@ == ser_doc(zstacks_view(stacks@)),
{
    let mut out = String::new();
    out.push('[');
    if stacks.len() > 0 {
        write_zstacks_from(&mut out, stacks, 0);
    }
    out.push(']');
    proof {
        if stacks@.len() == 0 {
            assert(ser_zstacks_from(zstacks_view(stacks@), 0) =~= Seq::<char>::empty());
        }
        assert(out@ =~= ser_doc(zstacks_view(stacks@)));
    }
    out
}

/// Appends the crash-log entries from `k` on, comma-separated.
fn write_cache_from(out: &mut String, entries: &Vec<LightAnnotation>, k: usize)
    requires
        k < entries@.len(),
    ensures
        final(out)@ == old(out)@ + ser_cache_from(cache_view(entries@), k as int),
    decreases entries@.len() - k,
{
    write_cache_entry(out, &entries[k]);
    if k < entries.len() - 1 {
        out.push(',');
        write_cache_from(out, entries, k + 1);
        proof {
            assert(out@ =~= old(out)@ + ser_cache_from(cache_view(entries@), k as int));
        }
    } else {
        proof {
            assert(out@ =~= old(out)@ + ser_cache_from(cache_view(entries@), k as int));
        }
    }
}

/// Writes a whole crash log: the exact text [`ser_cache`] describes.
pub fn serialize_cache(entries: &Vec<LightAnnotation>) -> (r: String)
    ensures
        r@ == ser_cache(cache_view(entries@)),
{
    let mut out = String::new();
    out.push('[');
    if entries.len() > 0 {
        write_cache_from(&mut out, entries, 0);
    }
    out.push(']');
    proof {
        if entries@.len() == 0 {
            assert(ser_cache_from(cache_view(entries@), 0) =~= Seq::<char>::empty());
        }
        assert(out@ =~= ser_cache(cache_view(entries@)));
    }
    out
}

/// Appends one crash-log entry object.
fn write_cache_entry(out: &mut String, e: &LightAnnotation)
    ensures
        final(out)@ == old(out)@ + ser_cache_entry(e@),
{
    out.push('{');
    write_chars(out, "\"stack_index\"");
    out.push(':');
    write_number(out, e.stack_index);
    out.push(',');
    write_chars(out, "\"focus_image_index\"");
    out.push(':');
    write_number(out, e.focus_image_index);
    out.push('}');
    proof {
        reveal_strlit("\"stack_index\"");
        reveal_strlit("\"focus_image_index\"");
        assert(("\"stack_index\"")@ =~= lit_member_stack_index());
        assert(("\"focus_image_index\"")@ =~= lit_member_focus_image_index());
        assert(out@ =~= old(out)@ + ser_cache_entry(e@));
    }
}

} // verus!
