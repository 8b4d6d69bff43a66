//! The notes file format, writing side.
//!
//! A note list is persisted as a pretty-printed JSON array: two-space
//! indentation, object keys in declaration order, strings escaped with
//! `\"`, `\\`, the named short escapes, and `\u00XX` for the other
//! control bytes. The spec functions here define that byte sequence
//! exactly; [`notes_to_content`] produces it.

use vstd::prelude::*;

use crate::note::Note;
use crate::note::NoteView;
use crate::note::views_of;
use crate::parse::lit_content;
use crate::parse::lit_created_at;
use crate::parse::lit_id;
use crate::parse::lit_updated_at;

verus! {

/// The lower-case hex digit of a nibble.
pub open spec fn hex_digit(n: int) -> u8
    recommends
        0 <= n < 16,
{
    if 0 <= n < 10 {
        (0x30 + n) as u8
    } else if n < 16 {
        (0x57 + n) as u8
    } else {
        0
    }
}

/// How one byte of a string value appears inside a JSON string: the
/// named short escapes where JSON has them, `\u00XX` for the other
/// control bytes.
pub open spec fn esc_byte(b: u8) -> Seq<u8> {
    if b == '"' as u8 {
        seq!['\\' as u8, '"' as u8]
    } else if b == '\\' as u8 {
        seq!['\\' as u8, '\\' as u8]
    } else if b == 0x08 {
        seq!['\\' as u8, 'b' as u8]
    } else if b == 0x09 {
        seq!['\\' as u8, 't' as u8]
    } else if b == 0x0a {
        seq!['\\' as u8, 'n' as u8]
    } else if b == 0x0c {
        seq!['\\' as u8, 'f' as u8]
    } else if b == 0x0d {
        seq!['\\' as u8, 'r' as u8]
    } else if b < 0x20 {
        seq!['\\' as u8, 'u' as u8, '0' as u8, '0' as u8, hex_digit(b as int / 16), hex_digit(
            b as int % 16,
        )]
    } else {
        seq![b]
    }
}

/// A whole string value, escaped byte for byte.
pub open spec fn esc(s: Seq<u8>) -> Seq<u8>
    decreases s.len(),
{
    if s.len() == 0 {
        Seq::empty()
    } else {
        esc_byte(s[0]) + esc(s.drop_first())
    }
}

/// A JSON string literal: quote, escaped body, quote.
pub open spec fn render_str(s: Seq<u8>) -> Seq<u8> {
    seq!['"' as u8] + esc(s) + seq!['"' as u8]
}

/// The quoted key of the `id` field.
pub open spec fn lit_key_id() -> Seq<u8> {
    seq!['"' as u8] + lit_id() + seq!['"' as u8]
}

/// The quoted key of the `content` field.
pub open spec fn lit_key_content() -> Seq<u8> {
    seq!['"' as u8] + lit_content() + seq!['"' as u8]
}

/// The quoted key of the `created_at` field.
pub open spec fn lit_key_created_at() -> Seq<u8> {
    seq!['"' as u8] + lit_created_at() + seq!['"' as u8]
}

/// The quoted key of the `updated_at` field.
pub open spec fn lit_key_updated_at() -> Seq<u8> {
    seq!['"' as u8] + lit_updated_at() + seq!['"' as u8]
}

/// The JSON `null` literal.
pub open spec fn lit_null() -> Seq<u8> {
    seq!['n' as u8, 'u' as u8, 'l' as u8, 'l' as u8]
}

/// Newline and item indentation, before each object in the array.
pub open spec fn ws_item() -> Seq<u8> {
    seq!['\n' as u8, ' ' as u8, ' ' as u8]
}

/// Newline and field indentation, before each key inside an object.
pub open spec fn ws_field() -> Seq<u8> {
    seq!['\n' as u8, ' ' as u8, ' ' as u8, ' ' as u8, ' ' as u8]
}

/// Newline and indentation before an object's closing brace.
pub open spec fn ws_close() -> Seq<u8> {
    seq!['\n' as u8, ' ' as u8, ' ' as u8]
}

/// The newline before the array's closing bracket.
pub open spec fn ws_end() -> Seq<u8> {
    seq!['\n' as u8]
}

/// One `key: "value"` field line, with its leading indentation.
pub open spec fn render_field(key: Seq<u8>, val: Seq<u8>) -> Seq<u8> {
    ws_field() + key + seq![':' as u8, ' ' as u8] + render_str(val)
}

/// The value of the `updated_at` field: `null` when absent.
pub open spec fn render_updated(u: Option<Seq<u8>>) -> Seq<u8> {
    match u {
        Some(s) => render_str(s),
        None => lit_null(),
    }
}

/// Everything of one note object after its opening brace: the four
/// fields in declaration order, and the closing brace.
pub open spec fn render_note_fields(n: NoteView) -> Seq<u8> {
    render_field(lit_key_id(), n.id) + seq![',' as u8] + render_field(lit_key_content(), n.content)
        + seq![',' as u8] + render_field(lit_key_created_at(), n.created_at) + seq![',' as u8]
        + ws_field() + lit_key_updated_at() + seq![':' as u8, ' ' as u8] + render_updated(
        n.updated_at,
    ) + ws_close() + seq!['}' as u8]
}

/// One note object, without the indentation that precedes it.
pub open spec fn render_note(n: NoteView) -> Seq<u8> {
    seq!['{' as u8] + render_note_fields(n)
}

/// The array items, separated by commas, each on its own indented line.
pub open spec fn render_items(ns: Seq<NoteView>) -> Seq<u8>
    decreases ns.len(),
{
    if ns.len() <= 1 {
        ws_item() + render_note(ns[0])
    } else {
        ws_item() + render_note(ns[0]) + seq![',' as u8] + render_items(ns.drop_first())
    }
}

/// The whole notes file for a given note list.
pub open spec fn render_notes(ns: Seq<NoteView>) -> Seq<u8> {
    if ns.len() == 0 {
        seq!['[' as u8, ']' as u8]
    } else {
        seq!['[' as u8] + render_items(ns) + ws_end() + seq![']' as u8]
    }
}

/// `esc` distributes over appending one byte.
proof fn lemma_esc_push(s: Seq<u8>, b: u8)
    ensures
        esc(s.push(b)) == esc(s) + esc_byte(b),
    decreases s.len(),
{
    if s.len() == 0 {
        assert(s.push(b)[0] == b);
        assert(s.push(b).drop_first() =~= Seq::<u8>::empty());
        assert(esc(s.push(b)) == esc_byte(b) + esc(Seq::<u8>::empty()));
        assert(esc(s.push(b)) =~= esc(s) + esc_byte(b));
    } else {
        lemma_esc_push(s.drop_first(), b);
        assert(s.push(b)[0] == s[0]);
        assert(s.push(b).drop_first() =~= s.drop_first().push(b));
        assert(esc(s.push(b)) =~= esc(s) + esc_byte(b));
    }
}

fn hex_digit_x(n: u8) -> (r: u8)
    requires
        n < 16,
    ensures
        r == hex_digit(n as int),
{
    if n < 10 {
        n + 0x30
    } else {
        n + 0x57
    }
}

/// Append the escaped form of one string-value byte.
fn push_esc_byte(out: &mut Vec<u8>, b: u8)
    ensures
        final(out)@ == old(out)@ + esc_byte(b),
{
    if b == '"' as u8 {
        out.push('\\' as u8);
        out.push('"' as u8);
    } else if b == '\\' as u8 {
        out.push('\\' as u8);
        out.push('\\' as u8);
    } else if b == 0x08 {
        out.push('\\' as u8);
        out.push('b' as u8);
    } else if b == 0x09 {
        out.push('\\' as u8);
        out.push('t' as u8);
    } else if b == 0x0a {
        out.push('\\' as u8);
        out.push('n' as u8);
    } else if b == 0x0c {
        out.push('\\' as u8);
        out.push('f' as u8);
    } else if b == 0x0d {
        out.push('\\' as u8);
        out.push('r' as u8);
    } else if b < 0x20 {
        out.push('\\' as u8);
        out.push('u' as u8);
        out.push('0' as u8);
        out.push('0' as u8);
        out.push(hex_digit_x(b / 16));
        out.push(hex_digit_x(b % 16));
    } else {
        out.push(b);
    }
    assert(out@ =~= old(out)@ + esc_byte(b));
}

/// Append the escaped form of a whole string value.
fn push_esc(out: &mut Vec<u8>, s: &Vec<u8>)
    ensures
        final(out)@ == old(out)@ + esc(s@),
{
    let mut i: usize = 0;
    while i < s.len()
        invariant
            i <= s@.len(),
            out@ == old(out)@ + esc(s@.subrange(0, i as int)),
        decreases s@.len() - i,
    {
        push_esc_byte(out, s[i]);
        proof {
            lemma_esc_push(s@.subrange(0, i as int), s@[i as int]);
            assert(s@.subrange(0, i as int).push(s@[i as int]) =~= s@.subrange(0, i + 1 as int));
        }
        i = i + 1;
    }
    proof {
        assert(s@.subrange(0, s@.len() as int) =~= s@);
    }
}

/// Append a full JSON string literal for a string value.
fn push_string(out: &mut Vec<u8>, s: &Vec<u8>)
    ensures
        final(out)@ == old(out)@ + render_str(s@),
{
    out.push('"' as u8);
    push_esc(out, s);
    out.push('"' as u8);
    assert(out@ =~= old(out)@ + render_str(s@));
}

/// Append the field indentation.
fn push_ws_field(out: &mut Vec<u8>)
    ensures
        final(out)@ == old(out)@ + ws_field(),
{
    out.push('\n' as u8);
    out.push(' ' as u8);
    out.push(' ' as u8);
    out.push(' ' as u8);
    out.push(' ' as u8);
    assert(out@ =~= old(out)@ + ws_field());
}

/// Append one `key: "value"` field line.
fn push_field(out: &mut Vec<u8>, key: &Vec<u8>, val: &Vec<u8>)
    ensures
        final(out)@ == old(out)@ + render_field(key@, val@),
{
    push_ws_field(out);
    push_key(out, key);
    out.push(':' as u8);
    out.push(' ' as u8);
    push_string(out, val);
    assert(out@ =~= old(out)@ + render_field(key@, val@));
}

/// Append the bytes of a quoted key.
fn push_key(out: &mut Vec<u8>, key: &Vec<u8>)
    ensures
        final(out)@ == old(out)@ + key@,
{
    let mut i: usize = 0;
    while i < key.len()
        invariant
            i <= key@.len(),
            out@ == old(out)@ + key@.subrange(0, i as int),
        decreases key@.len() - i,
    {
        out.push(key[i]);
        proof {
            assert(out@ =~= old(out)@ + key@.subrange(0, i + 1 as int));
        }
        i = i + 1;
    }
    proof {
        assert(key@.subrange(0, key@.len() as int) =~= key@);
    }
}

/// The `id` key as bytes.
pub(crate) fn key_id() -> (v: Vec<u8>)
    ensures
        v@ == lit_key_id(),
{
    let mut v: Vec<u8> = Vec::new();
    v.push('"' as u8);
    v.push('i' as u8);
    v.push('d' as u8);
    v.push('"' as u8);
    assert(v@ =~= lit_key_id());
    v
}

/// The `content` key as bytes.
pub(crate) fn key_content() -> (v: Vec<u8>)
    ensures
        v@ == lit_key_content(),
{
    let mut v: Vec<u8> = Vec::new();
    v.push('"' as u8);
    v.push('c' as u8);
    v.push('o' as u8);
    v.push('n' as u8);
    v.push('t' as u8);
    v.push('e' as u8);
    v.push('n' as u8);
    v.push('t' as u8);
    v.push('"' as u8);
    assert(v@ =~= lit_key_content());
    v
}

/// The `created_at` key as bytes.
pub(crate) fn key_created_at() -> (v: Vec<u8>)
    ensures
        v@ == lit_key_created_at(),
{
    let mut v: Vec<u8> = Vec::new();
    v.push('"' as u8);
    v.push('c' as u8);
    v.push('r' as u8);
    v.push('e' as u8);
    v.push('a' as u8);
    v.push('t' as u8);
    v.push('e' as u8);
    v.push('d' as u8);
    v.push('_' as u8);
    v.push('a' as u8);
    v.push('t' as u8);
    v.push('"' as u8);
    assert(v@ =~= lit_key_created_at());
    v
}

/// The `updated_at` key as bytes.
pub(crate) fn key_updated_at() -> (v: Vec<u8>)
    ensures
        v@ == lit_key_updated_at(),
{
    let mut v: Vec<u8> = Vec::new();
    v.push('"' as u8);
    v.push('u' as u8);
    v.push('p' as u8);
    v.push('d' as u8);
    v.push('a' as u8);
    v.push('t' as u8);
    v.push('e' as u8);
    v.push('d' as u8);
    v.push('_' as u8);
    v.push('a' as u8);
    v.push('t' as u8);
    v.push('"' as u8);
    assert(v@ =~= lit_key_updated_at());
    v
}

/// Append one rendered note object.
#[verifier::rlimit(100)]
fn push_note(out: &mut Vec<u8>, n: &Note)
    ensures
        final(out)@ == old(out)@ + render_note(n@),
{
    out.push('{' as u8);
    let kid = key_id();
    push_field(out, &kid, &n.id);
    assert(out@ =~= old(out)@ + (seq!['{' as u8] + render_field(lit_key_id(), n@.id)));
    out.push(',' as u8);
    let kc = key_content();
    push_field(out, &kc, &n.content);
    assert(out@ =~= old(out)@ + (seq!['{' as u8] + render_field(lit_key_id(), n@.id) + seq![
        ',' as u8,
    ] + render_field(lit_key_content(), n@.content)));
    out.push(',' as u8);
    let kcr = key_created_at();
    push_field(out, &kcr, &n.created_at);
    out.push(',' as u8);
    let ghost mid = old(out)@ + (seq!['{' as u8] + render_field(lit_key_id(), n@.id) + seq![
        ',' as u8,
    ] + render_field(lit_key_content(), n@.content) + seq![',' as u8] + render_field(
        lit_key_created_at(),
        n@.created_at,
    ) + seq![',' as u8]);
    assert(out@ =~= mid);
    push_ws_field(out);
    let ku = key_updated_at();
    push_key(out, &ku);
    out.push(':' as u8);
    out.push(' ' as u8);
    match &n.updated_at {
        Some(u) => {
            push_string(out, u);
        },
        None => {
            out.push('n' as u8);
            out.push('u' as u8);
            out.push('l' as u8);
            out.push('l' as u8);
        },
    }
    assert(out@ =~= mid + ws_field() + lit_key_updated_at() + seq![':' as u8, ' ' as u8]
        + render_updated(n@.updated_at));
    out.push('\n' as u8);
    out.push(' ' as u8);
    out.push(' ' as u8);
    out.push('}' as u8);
    assert(out@ =~= old(out)@ + render_note(n@));
}

/// Append the rendered items of `notes` from index `i` on.
fn push_items_from(out: &mut Vec<u8>, notes: &Vec<Note>, i: usize)
    requires
        i < notes@.len(),
    ensures
        final(out)@ == old(out)@ + render_items(views_of(notes@).skip(i as int)),
    decreases notes@.len() - i,
{
    out.push('\n' as u8);
    out.push(' ' as u8);
    out.push(' ' as u8);
    push_note(out, &notes[i]);
    proof {
        assert(views_of(notes@).skip(i as int)[0] == notes@[i as int]@);
    }
    if i < notes.len() - 1 {
        out.push(',' as u8);
        push_items_from(out, notes, i + 1);
        proof {
            assert(views_of(notes@).skip(i as int).drop_first() =~= views_of(notes@).skip(
                i + 1 as int,
            ));
            assert(views_of(notes@).skip(i as int).len() > 1);
            assert(out@ =~= old(out)@ + render_items(views_of(notes@).skip(i as int)));
        }
    } else {
        proof {
            assert(views_of(notes@).skip(i as int).len() == 1);
            assert(out@ =~= old(out)@ + render_items(views_of(notes@).skip(i as int)));
        }
    }
}

/// Render a whole note list as the notes file's byte content.
pub fn notes_to_content(notes: &Vec<Note>) -> (out: Vec<u8>)
    ensures
        out@ == render_notes(views_of(notes@)),
{
    let mut out: Vec<u8> = Vec::new();
    out.push('[' as u8);
    if notes.len() == 0 {
        out.push(']' as u8);
        assert(out@ =~= render_notes(views_of(notes@)));
    } else {
        push_items_from(&mut out, notes, 0);
        proof {
            assert(views_of(notes@).skip(0) =~= views_of(notes@));
        }
        out.push('\n' as u8);
        out.push(']' as u8);
        assert(out@ =~= render_notes(views_of(notes@)));
    }
    out
}

} // verus!
