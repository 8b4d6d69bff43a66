//! Round trip of the notes file format: parsing a rendered note list
//! yields exactly that list. The chain follows the grammar: escaped
//! string bodies first, then fields, notes, the item list, and the
//! whole file.

use vstd::prelude::*;

use vstd::arithmetic::div_mod::lemma_fundamental_div_mod;

use crate::note::NoteView;
use crate::parse::cons_seq;
use crate::parse::cons_str;
use crate::parse::expect_lit;
use crate::parse::hex4;
use crate::parse::hex_val;
use crate::parse::utf8_enc;
use crate::parse::is_ws;
use crate::parse::matches_at;
use crate::parse::PartialNote;
use crate::parse::empty_partial;
use crate::parse::lit_content;
use crate::parse::lit_created_at;
use crate::parse::lit_id;
use crate::parse::lit_updated_at;
use crate::parse::parse_field_any;
use crate::parse::parse_fields;
use crate::parse::tok_string;
use crate::parse::parse_items;
use crate::parse::parse_note;
use crate::parse::parse_notes;
use crate::parse::parse_string_body;
use crate::parse::parse_updated;
use crate::parse::skip_ws;
use crate::parse::tok;
use crate::render::esc;
use crate::render::esc_byte;
use crate::render::hex_digit;
use crate::render::lit_key_content;
use crate::render::lit_key_created_at;
use crate::render::lit_key_id;
use crate::render::lit_key_updated_at;
use crate::render::lit_null;
use crate::render::render_field;
use crate::render::render_items;
use crate::render::render_note;
use crate::render::render_note_fields;
use crate::render::render_notes;
use crate::render::render_str;
use crate::render::render_updated;
use crate::render::ws_close;
use crate::render::ws_end;
use crate::render::ws_field;
use crate::render::ws_item;

verus! {

/// Every byte of `w` is blank space.
pub open spec fn all_ws(w: Seq<u8>) -> bool {
    forall|k: int| 0 <= k < w.len() ==> is_ws(w[k])
}

/// A match of a concatenation splits into matches of its halves.
proof fn lemma_matches_split(s: Seq<u8>, i: int, a: Seq<u8>, b: Seq<u8>)
    requires
        matches_at(s, i, a + b),
    ensures
        matches_at(s, i, a),
        matches_at(s, i + a.len(), b),
{
    assert forall|k: int| 0 <= k < a.len() implies s[i + k] == a[k] by {
        assert((a + b)[k] == a[k]);
    }
    assert forall|k: int| 0 <= k < b.len() implies s[i + a.len() + k] == b[k] by {
        assert((a + b)[a.len() + k] == b[k]);
        assert(s[i + (a.len() + k)] == (a + b)[a.len() + k]);
    }
}

/// Skipping blank space over a fully blank segment lands exactly after
/// it, provided what follows is not blank.
proof fn lemma_skip_ws_over(s: Seq<u8>, i: int, w: Seq<u8>)
    requires
        matches_at(s, i, w),
        all_ws(w),
        i + w.len() == s.len() || !is_ws(s[i + w.len()]),
    ensures
        skip_ws(s, i) == i + w.len(),
    decreases w.len(),
{
    if w.len() == 0 {
    } else {
        assert(s[i + 0] == w[0]);
        assert(is_ws(s[i]));
        assert(w =~= seq![w[0]] + w.drop_first());
        lemma_matches_split(s, i, seq![w[0]], w.drop_first());
        assert(all_ws(w.drop_first())) by {
            assert forall|k: int| 0 <= k < w.drop_first().len() implies is_ws(
                w.drop_first()[k],
            ) by {
                assert(w.drop_first()[k] == w[k + 1]);
            }
        }
        lemma_skip_ws_over(s, i + 1, w.drop_first());
    }
}

/// A token preceded by blank space is consumed at the position after
/// both.
proof fn lemma_tok(s: Seq<u8>, i: int, w: Seq<u8>, pat: Seq<u8>)
    requires
        matches_at(s, i, w + pat),
        all_ws(w),
        pat.len() > 0,
        !is_ws(pat[0]),
    ensures
        tok(s, i, pat) == Some(i + w.len() + pat.len()),
{
    lemma_matches_split(s, i, w, pat);
    assert(s[i + w.len() + 0] == pat[0]);
    lemma_skip_ws_over(s, i, w);
}

/// Rendering a nibble as a hex digit and reading it back is identity.
proof fn lemma_hex_roundtrip(n: int)
    requires
        0 <= n < 16,
    ensures
        hex_val(hex_digit(n)) == Some(n as u8),
{
}

/// Parsing an escaped string body consumes it, up to and including the
/// closing quote, and decodes it to the original bytes.
#[verifier::rlimit(100)]
proof fn lemma_parse_esc(s: Seq<u8>, i: int, body: Seq<u8>)
    requires
        matches_at(s, i, esc(body) + seq!['"' as u8]),
    ensures
        parse_string_body(s, i) == Some((body, i + esc(body).len() + 1)),
    decreases body.len(),
{
    if body.len() == 0 {
        assert(esc(body) + seq!['"' as u8] =~= seq!['"' as u8]);
        assert(s[i + 0] == seq!['"' as u8][0]);
        assert(body =~= Seq::<u8>::empty());
    } else {
        let b0 = body[0];
        let rest = body.drop_first();
        assert(body.drop_first() =~= rest);
        assert(esc(body) == esc_byte(b0) + esc(rest));
        assert(esc(body) + seq!['"' as u8] =~= esc_byte(b0) + (esc(rest) + seq!['"' as u8]));
        lemma_matches_split(s, i, esc_byte(b0), esc(rest) + seq!['"' as u8]);
        lemma_parse_esc(s, i + esc_byte(b0).len(), rest);
        assert(seq![b0] + rest =~= body);
        if b0 == '"' as u8 || b0 == '\\' as u8 || b0 == 0x08 || b0 == 0x09 || b0 == 0x0a || b0
            == 0x0c || b0 == 0x0d {
            assert(s[i + 0] == esc_byte(b0)[0]);
            assert(s[i + 1] == esc_byte(b0)[1]);
            assert(parse_string_body(s, i) == cons_str(b0, parse_string_body(s, i + 2)));
        } else if b0 < 0x20 {
            assert(s[i + 0] == esc_byte(b0)[0]);
            assert(s[i + 1] == esc_byte(b0)[1]);
            assert(s[i + 2] == esc_byte(b0)[2]);
            assert(s[i + 3] == esc_byte(b0)[3]);
            assert(s[i + 4] == esc_byte(b0)[4]);
            assert(s[i + 5] == esc_byte(b0)[5]);
            let hi = b0 as int / 16;
            let lo = b0 as int % 16;
            lemma_hex_roundtrip(hi);
            lemma_hex_roundtrip(lo);
            lemma_fundamental_div_mod(b0 as int, 16);
            assert(hex_val(s[i + 2]) == Some(0u8));
            assert(hex_val(s[i + 3]) == Some(0u8));
            assert(hex_val(s[i + 4]) == Some(hi as u8));
            assert(hex_val(s[i + 5]) == Some(lo as u8));
            assert(hex4(s, i + 2) == Some(b0 as int));
            assert(utf8_enc(b0 as int) =~= seq![b0]);
            assert(parse_string_body(s, i) == cons_seq(seq![b0], parse_string_body(s, i + 6)));
        } else {
            assert(s[i + 0] == esc_byte(b0)[0]);
            assert(parse_string_body(s, i) == cons_str(b0, parse_string_body(s, i + 1)));
        }
    }
}

/// All the blank segments that the renderer emits are blank space.
proof fn lemma_ws_lits()
    ensures
        all_ws(ws_item()),
        all_ws(ws_field()),
        all_ws(ws_close()),
        all_ws(ws_end()),
        all_ws(seq![' ' as u8]),
        all_ws(Seq::<u8>::empty()),
{
}

/// Escaping leaves a string without quotes, backslashes or control
/// bytes unchanged.
proof fn lemma_esc_plain(t: Seq<u8>)
    requires
        forall|k: int|
            0 <= k < t.len() ==> 0x20 <= t[k] && t[k] != '"' as u8 && t[k] != '\\' as u8,
    ensures
        esc(t) == t,
    decreases t.len(),
{
    if t.len() > 0 {
        assert(esc_byte(t[0]) == seq![t[0]]);
        assert(forall|k: int|
            0 <= k < t.drop_first().len() ==> 0x20 <= #[trigger] t.drop_first()[k]
                && t.drop_first()[k] != '"' as u8 && t.drop_first()[k] != '\\' as u8);
        lemma_esc_plain(t.drop_first());
        assert(seq![t[0]] + t.drop_first() =~= t);
    }
}

/// The four field names escape to themselves and are pairwise
/// distinct.
proof fn lemma_names()
    ensures
        esc(lit_id()) == lit_id(),
        esc(lit_content()) == lit_content(),
        esc(lit_created_at()) == lit_created_at(),
        esc(lit_updated_at()) == lit_updated_at(),
        lit_id() != lit_content(),
        lit_id() != lit_created_at(),
        lit_id() != lit_updated_at(),
        lit_content() != lit_created_at(),
        lit_content() != lit_updated_at(),
        lit_created_at() != lit_updated_at(),
{
    lemma_esc_plain(lit_id());
    lemma_esc_plain(lit_content());
    lemma_esc_plain(lit_created_at());
    lemma_esc_plain(lit_updated_at());
    assert(lit_created_at()[0] != lit_updated_at()[0]);
}

/// A rendered string value, after blank space, parses back to itself.
proof fn lemma_tok_string(s: Seq<u8>, i: int, w: Seq<u8>, val: Seq<u8>)
    requires
        matches_at(s, i, w + render_str(val)),
        all_ws(w),
    ensures
        tok_string(s, i) == Some((val, i + w.len() + render_str(val).len())),
{
    let rs = render_str(val);
    lemma_matches_split(s, i, w, rs);
    let p0 = i + w.len();
    assert(rs =~= seq!['"' as u8] + (esc(val) + seq!['"' as u8]));
    assert(s[p0 + 0] == rs[0]);
    assert(rs[0] == '"' as u8);
    lemma_skip_ws_over(s, i, w);
    lemma_matches_split(s, p0, seq!['"' as u8], esc(val) + seq!['"' as u8]);
    lemma_parse_esc(s, p0 + 1, val);
}

/// Parsing a rendered `key: "value"` field yields the key, the colon,
/// and the value at the expected positions.
proof fn lemma_parse_field_core(s: Seq<u8>, i: int, name: Seq<u8>, val: Seq<u8>)
    requires
        matches_at(s, i, render_field(seq!['"' as u8] + name + seq!['"' as u8], val)),
        esc(name) == name,
    ensures
        tok_string(s, i) == Some((name, i + ws_field().len() + name.len() + 2)),
        tok(s, i + ws_field().len() + name.len() + 2, seq![':' as u8]) == Some(
            i + ws_field().len() + name.len() + 3,
        ),
        tok_string(s, i + ws_field().len() + name.len() + 3) == Some(
            (val, i + render_field(seq!['"' as u8] + name + seq!['"' as u8], val).len()),
        ),
{
    lemma_ws_lits();
    let key = seq!['"' as u8] + name + seq!['"' as u8];
    let rs = render_str(val);
    assert(render_field(key, val) =~= (ws_field() + key) + (seq![':' as u8] + (seq![' ' as u8]
        + rs)));
    lemma_matches_split(s, i, ws_field() + key, seq![':' as u8] + (seq![' ' as u8] + rs));
    assert(key == render_str(name));
    assert(ws_field() + key == ws_field() + render_str(name));
    lemma_tok_string(s, i, ws_field(), name);
    let p1 = i + ws_field().len() + key.len();
    lemma_matches_split(s, p1, seq![':' as u8], seq![' ' as u8] + rs);
    assert(Seq::<u8>::empty() + seq![':' as u8] =~= seq![':' as u8]);
    lemma_tok(s, p1, Seq::<u8>::empty(), seq![':' as u8]);
    let p2 = p1 + 1;
    lemma_matches_split(s, p2, seq![' ' as u8], rs);
    assert(seq![' ' as u8] + rs =~= seq![' ' as u8] + render_str(val));
    lemma_tok_string(s, p2, seq![' ' as u8], val);
    assert(render_field(key, val).len() == ws_field().len() + key.len() + 2 + rs.len());
}

/// Parsing a rendered `updated_at` value yields the optional string.
proof fn lemma_parse_updated(s: Seq<u8>, i: int, w: Seq<u8>, u: Option<Seq<u8>>)
    requires
        matches_at(s, i, w + render_updated(u)),
        all_ws(w),
    ensures
        parse_updated(s, i) == Some((u, i + w.len() + render_updated(u).len())),
{
    lemma_matches_split(s, i, w, render_updated(u));
    let j = i + w.len();
    match u {
        None => {
            assert(s[j + 0] == lit_null()[0]);
            assert(!is_ws(s[j]));
            lemma_skip_ws_over(s, i, w);
            assert(expect_lit(s, j, lit_null()) == Some(j + 4));
        },
        Some(us) => {
            let rs = render_str(us);
            assert(s[j + 0] == rs[0]);
            assert(rs[0] == '"' as u8) by {
                assert(rs =~= seq!['"' as u8] + (esc(us) + seq!['"' as u8]));
            }
            assert(!is_ws(s[j]));
            lemma_skip_ws_over(s, i, w);
            assert(rs =~= seq!['"' as u8] + (esc(us) + seq!['"' as u8]));
            lemma_matches_split(s, j, seq!['"' as u8], esc(us) + seq!['"' as u8]);
            lemma_parse_esc(s, j + 1, us);
        },
    }
}

/// Walking the first two rendered fields (`id`, `content`) advances
/// the field parse to the third field with both gathered.
#[verifier::rlimit(100)]
proof fn lemma_parse_note_fields_front(s: Seq<u8>, p0: int, n: NoteView)
    requires
        matches_at(
            s,
            p0,
            render_field(lit_key_id(), n.id) + (seq![',' as u8] + (render_field(
                lit_key_content(),
                n.content,
            ) + seq![',' as u8])),
        ),
    ensures
        parse_fields(s, p0, empty_partial()) == parse_fields(
            s,
            p0 + render_field(lit_key_id(), n.id).len() + 1 + render_field(
                lit_key_content(),
                n.content,
            ).len() + 1,
            PartialNote {
                id: Some(n.id),
                content: Some(n.content),
                created_at: None,
                updated_at: None,
            },
        ),
{
    lemma_ws_lits();
    lemma_names();
    let f1 = render_field(lit_key_id(), n.id);
    let f2 = render_field(lit_key_content(), n.content);
    let cm = seq![',' as u8];
    let st0 = empty_partial();
    let st1 = PartialNote { id: Some(n.id), content: None, created_at: None, updated_at: None };
    let st2 = PartialNote {
        id: Some(n.id),
        content: Some(n.content),
        created_at: None,
        updated_at: None,
    };
    lemma_matches_split(s, p0, f1, cm + (f2 + cm));
    lemma_parse_field_core(s, p0, lit_id(), n.id);
    let p1 = p0 + f1.len();
    assert(parse_field_any(s, p0, st0) == Some((st1, p1)));
    lemma_matches_split(s, p1, cm, f2 + cm);
    assert(s[p1 + 0] == cm[0]);
    assert(skip_ws(s, p1) == p1);
    let p2 = p1 + 1;
    lemma_matches_split(s, p2, f2, cm);
    lemma_parse_field_core(s, p2, lit_content(), n.content);
    let p3 = p2 + f2.len();
    assert(parse_field_any(s, p2, st1) == Some((st2, p3)));
    assert(s[p3 + 0] == cm[0]);
    assert(skip_ws(s, p3) == p3);
    assert(parse_fields(s, p0, st0) == parse_fields(s, p2, st1));
    assert(parse_fields(s, p2, st1) == parse_fields(s, p3 + 1, st2));
}

/// Walking the last two rendered fields (`created_at`, `updated_at`)
/// finishes the object with all four fields gathered.
#[verifier::rlimit(100)]
proof fn lemma_parse_note_fields_back(s: Seq<u8>, p4: int, n: NoteView)
    requires
        matches_at(
            s,
            p4,
            render_field(lit_key_created_at(), n.created_at) + (seq![',' as u8] + ((ws_field()
                + lit_key_updated_at()) + (seq![':' as u8] + (seq![' ' as u8] + (render_updated(
                n.updated_at,
            ) + (ws_close() + seq!['}' as u8])))))),
        ),
    ensures
        parse_fields(
            s,
            p4,
            PartialNote {
                id: Some(n.id),
                content: Some(n.content),
                created_at: None,
                updated_at: None,
            },
        ) == Some(
            (
                PartialNote {
                    id: Some(n.id),
                    content: Some(n.content),
                    created_at: Some(n.created_at),
                    updated_at: Some(n.updated_at),
                },
                p4 + render_field(lit_key_created_at(), n.created_at).len() + 1 + ws_field().len()
                    + lit_key_updated_at().len() + 2 + render_updated(n.updated_at).len()
                    + ws_close().len() + 1,
            ),
        ),
{
    lemma_ws_lits();
    lemma_names();
    let f3 = render_field(lit_key_created_at(), n.created_at);
    let u4 = render_updated(n.updated_at);
    let cm = seq![',' as u8];
    let tail = ws_close() + seq!['}' as u8];
    let st2 = PartialNote {
        id: Some(n.id),
        content: Some(n.content),
        created_at: None,
        updated_at: None,
    };
    let st3 = PartialNote {
        id: Some(n.id),
        content: Some(n.content),
        created_at: Some(n.created_at),
        updated_at: None,
    };
    let st4 = PartialNote {
        id: Some(n.id),
        content: Some(n.content),
        created_at: Some(n.created_at),
        updated_at: Some(n.updated_at),
    };
    lemma_matches_split(
        s,
        p4,
        f3,
        cm + ((ws_field() + lit_key_updated_at()) + (seq![':' as u8] + (seq![' ' as u8] + (u4
            + tail)))),
    );
    lemma_parse_field_core(s, p4, lit_created_at(), n.created_at);
    let p5 = p4 + f3.len();
    assert(parse_field_any(s, p4, st2) == Some((st3, p5)));
    lemma_matches_split(
        s,
        p5,
        cm,
        (ws_field() + lit_key_updated_at()) + (seq![':' as u8] + (seq![' ' as u8] + (u4 + tail))),
    );
    assert(s[p5 + 0] == cm[0]);
    assert(skip_ws(s, p5) == p5);
    let p6 = p5 + 1;
    lemma_matches_split(
        s,
        p6,
        ws_field() + lit_key_updated_at(),
        seq![':' as u8] + (seq![' ' as u8] + (u4 + tail)),
    );
    assert(lit_key_updated_at() == render_str(lit_updated_at()));
    assert(ws_field() + lit_key_updated_at() == ws_field() + render_str(lit_updated_at()));
    lemma_tok_string(s, p6, ws_field(), lit_updated_at());
    let p7 = p6 + ws_field().len() + lit_key_updated_at().len();
    lemma_matches_split(s, p7, seq![':' as u8], seq![' ' as u8] + (u4 + tail));
    assert(Seq::<u8>::empty() + seq![':' as u8] =~= seq![':' as u8]);
    lemma_tok(s, p7, Seq::<u8>::empty(), seq![':' as u8]);
    let p8 = p7 + 1;
    assert(seq![' ' as u8] + (u4 + tail) =~= (seq![' ' as u8] + u4) + tail);
    lemma_matches_split(s, p8, seq![' ' as u8] + u4, tail);
    lemma_parse_updated(s, p8, seq![' ' as u8], n.updated_at);
    let p9 = p8 + 1 + u4.len();
    assert(parse_field_any(s, p6, st3) == Some((st4, p9)));
    lemma_matches_split(s, p9, ws_close(), seq!['}' as u8]);
    assert(s[p9 + ws_close().len() + 0] == seq!['}' as u8][0]);
    lemma_skip_ws_over(s, p9, ws_close());
    let p10 = p9 + ws_close().len() + 1;
    assert(parse_fields(s, p6, st3) == Some((st4, p10)));
    assert(parse_fields(s, p4, st2) == Some((st4, p10)));
}

/// Walking the rendered fields of a note object gathers exactly its
/// four fields and consumes up to and including the closing brace.
#[verifier::rlimit(100)]
proof fn lemma_parse_note_fields(s: Seq<u8>, p0: int, n: NoteView)
    requires
        matches_at(s, p0, render_note_fields(n)),
    ensures
        parse_fields(s, p0, empty_partial()) == Some(
            (
                PartialNote {
                    id: Some(n.id),
                    content: Some(n.content),
                    created_at: Some(n.created_at),
                    updated_at: Some(n.updated_at),
                },
                p0 + render_note_fields(n).len(),
            ),
        ),
{
    let f1 = render_field(lit_key_id(), n.id);
    let f2 = render_field(lit_key_content(), n.content);
    let f3 = render_field(lit_key_created_at(), n.created_at);
    let u4 = render_updated(n.updated_at);
    let cm = seq![',' as u8];
    let tail = ws_close() + seq!['}' as u8];
    let front = f1 + (cm + (f2 + cm));
    let back = f3 + (cm + ((ws_field() + lit_key_updated_at()) + (seq![':' as u8] + (seq![
        ' ' as u8,
    ] + (u4 + tail)))));
    assert(render_note_fields(n) =~= front + back);
    lemma_matches_split(s, p0, front, back);
    lemma_parse_note_fields_front(s, p0, n);
    let p4 = p0 + front.len();
    lemma_parse_note_fields_back(s, p4, n);
    assert(p0 + render_note_fields(n).len() == p4 + f3.len() + 1 + ws_field().len()
        + lit_key_updated_at().len() + 2 + u4.len() + ws_close().len() + 1);
}

/// Parsing a rendered note object, after any blank space, yields that
/// note and consumes up to and including the closing brace.
proof fn lemma_parse_note(s: Seq<u8>, i: int, w: Seq<u8>, n: NoteView)
    requires
        matches_at(s, i, w + render_note(n)),
        all_ws(w),
    ensures
        parse_note(s, i) == Some((n, i + w.len() + render_note(n).len())),
{
    lemma_ws_lits();
    assert(w + render_note(n) =~= (w + seq!['{' as u8]) + render_note_fields(n));
    lemma_matches_split(s, i, w + seq!['{' as u8], render_note_fields(n));
    lemma_tok(s, i, w, seq!['{' as u8]);
    let p0 = i + w.len() + 1;
    lemma_parse_note_fields(s, p0, n);
    let p10 = p0 + render_note_fields(n).len();
    assert(parse_note(s, i) == Some(
        (
            NoteView {
                id: n.id,
                content: n.content,
                created_at: n.created_at,
                updated_at: n.updated_at,
            },
            p10,
        ),
    ));
    assert(NoteView {
        id: n.id,
        content: n.content,
        created_at: n.created_at,
        updated_at: n.updated_at,
    } == n);
    assert(p10 == i + w.len() + render_note(n).len());
}

/// Parsing rendered items followed by the closing line yields the
/// item list and consumes up to and including the closing bracket.
#[verifier::rlimit(100)]
proof fn lemma_parse_items_render(s: Seq<u8>, i: int, ns: Seq<NoteView>)
    requires
        ns.len() > 0,
        matches_at(s, i, render_items(ns) + (ws_end() + seq![']' as u8])),
    ensures
        parse_items(s, i) == Some((ns, i + render_items(ns).len() + 2)),
    decreases ns.len(),
{
    lemma_ws_lits();
    let n0 = ns[0];
    if ns.len() == 1 {
        assert(render_items(ns) == ws_item() + render_note(n0));
        assert(render_items(ns) + (ws_end() + seq![']' as u8]) =~= (ws_item() + render_note(n0))
            + (ws_end() + seq![']' as u8]));
        lemma_matches_split(s, i, ws_item() + render_note(n0), ws_end() + seq![']' as u8]);
        lemma_parse_note(s, i, ws_item(), n0);
        let j = i + ws_item().len() + render_note(n0).len();
        lemma_matches_split(s, j, ws_end(), seq![']' as u8]);
        assert(s[j + ws_end().len() + 0] == seq![']' as u8][0]);
        lemma_skip_ws_over(s, j, ws_end());
        let k = j + 1;
        assert(seq![n0] =~= ns);
        assert(parse_items(s, i) == Some((ns, k + 1)));
    } else {
        let rest = ns.drop_first();
        assert(render_items(ns) == ws_item() + render_note(n0) + seq![',' as u8] + render_items(
            rest,
        ));
        assert(render_items(ns) + (ws_end() + seq![']' as u8]) =~= (ws_item() + render_note(n0))
            + (seq![',' as u8] + (render_items(rest) + (ws_end() + seq![']' as u8]))));
        lemma_matches_split(
            s,
            i,
            ws_item() + render_note(n0),
            seq![',' as u8] + (render_items(rest) + (ws_end() + seq![']' as u8])),
        );
        lemma_parse_note(s, i, ws_item(), n0);
        let j = i + ws_item().len() + render_note(n0).len();
        lemma_matches_split(s, j, seq![',' as u8], render_items(rest) + (ws_end() + seq![
            ']' as u8,
        ]));
        assert(s[j + 0] == seq![',' as u8][0]);
        assert(matches_at(s, j, Seq::<u8>::empty()));
        lemma_skip_ws_over(s, j, Seq::<u8>::empty());
        lemma_parse_items_render(s, j + 1, rest);
        assert(seq![n0] + rest =~= ns);
        assert(parse_items(s, i) == Some((ns, i + render_items(ns).len() + 2)));
    }
}

/// The non-empty case of the round trip.
#[verifier::rlimit(100)]
proof fn lemma_parse_render_nonempty(ns: Seq<NoteView>)
    requires
        ns.len() > 0,
    ensures
        parse_notes(render_notes(ns)) == Some(ns),
{
    lemma_ws_lits();
    let s = render_notes(ns);
    assert(matches_at(s, 0, s)) by {
        assert forall|k: int| 0 <= k < s.len() implies s[0 + k] == #[trigger] s[k] by {}
    }
    {
        let mid = render_items(ns) + (ws_end() + seq![']' as u8]);
        assert(s =~= seq!['[' as u8] + mid);
        lemma_matches_split(s, 0, seq!['[' as u8], mid);
        assert(Seq::<u8>::empty() + seq!['[' as u8] =~= seq!['[' as u8]);
        lemma_tok(s, 0, Seq::<u8>::empty(), seq!['[' as u8]);
        let n0 = ns[0];
        // The byte after the leading blank space is the first object's
        // opening brace, so the empty-array branch is not taken.
        assert(mid[0] == ws_item()[0] && mid[1] == ws_item()[1] && mid[2] == ws_item()[2] && mid[3]
            == '{' as u8) by {
            if ns.len() == 1 {
                assert(render_items(ns) == ws_item() + render_note(n0));
            } else {
                assert(render_items(ns) == ws_item() + render_note(n0) + seq![',' as u8]
                    + render_items(ns.drop_first()));
            }
            assert(render_note(n0)[0] == '{' as u8);
        }
        assert(matches_at(s, 1, ws_item())) by {
            assert forall|p: int| 0 <= p < ws_item().len() implies s[1 + p]
                == #[trigger] ws_item()[p] by {
                assert(s[1 + p] == mid[p]);
            }
        }
        let k: int = (1 + ws_item().len()) as int;
        assert(s[k] == mid[3]);
        assert(!is_ws(s[k]));
        lemma_skip_ws_over(s, 1, ws_item());
        assert(s[k] == '{' as u8);
        lemma_parse_items_render(s, 1, ns);
        let m: int = (1 + render_items(ns).len() + 2) as int;
        assert(m == s.len());
        assert(skip_ws(s, m) == m);
    }
}

/// Round trip of the whole file: parsing a rendered note list yields
/// exactly that list.
pub proof fn lemma_parse_render(ns: Seq<NoteView>)
    ensures
        parse_notes(render_notes(ns)) == Some(ns),
{
    if ns.len() == 0 {
        let s = render_notes(ns);
        assert(matches_at(s, 0, s)) by {
            assert forall|k: int| 0 <= k < s.len() implies s[0 + k] == #[trigger] s[k] by {}
        }
        assert(s[0] == '[' as u8);
        assert(s[1] == ']' as u8);
        assert(skip_ws(s, 0) == 0);
        assert(matches_at(s, 0, seq!['[' as u8])) by {
            assert(s[0int] == seq!['[' as u8][0]);
        }
        assert(tok(s, 0, seq!['[' as u8]) == Some(1int));
        assert(skip_ws(s, 1) == 1);
        assert(skip_ws(s, 2) == 2);
        assert(Seq::<NoteView>::empty() =~= ns);
    } else {
        lemma_parse_render_nonempty(ns);
    }
}

} // verus!
