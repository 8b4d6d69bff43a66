//! The notes file format, reading side.
//!
//! A deterministic recursive-descent parser for the persisted shape: a
//! JSON array of note objects with exactly the four known keys, each
//! at most once and in any order, string or `null` values, string
//! escapes decoded (including surrogate pairs), and arbitrary blank
//! space between tokens. The spec functions define the parse exactly;
//! [`notes_from_bytes`] is proved to return precisely that parse.

use vstd::prelude::*;

use crate::note::Note;
use crate::note::NoteView;
use crate::note::VaultError;
use crate::note::views_of;
use crate::render::lit_null;

verus! {

/// A byte is JSON blank space.
pub open spec fn is_ws(b: u8) -> bool {
    b == 0x20 || b == 0x09 || b == 0x0a || b == 0x0d
}

/// The first position at or after `i` holding no blank space.
pub open spec fn skip_ws(s: Seq<u8>, i: int) -> int
    decreases s.len() - i,
{
    if 0 <= i < s.len() && is_ws(s[i]) {
        skip_ws(s, i + 1)
    } else {
        i
    }
}

/// `pat` occurs in `s` starting at position `i`.
pub open spec fn matches_at(s: Seq<u8>, i: int, pat: Seq<u8>) -> bool {
    &&& 0 <= i
    &&& i + pat.len() <= s.len()
    &&& forall|k: int| 0 <= k < pat.len() ==> s[i + k] == pat[k]
}

/// Consume `pat` at position `i`, yielding the position after it.
pub open spec fn expect_lit(s: Seq<u8>, i: int, pat: Seq<u8>) -> Option<int> {
    if matches_at(s, i, pat) {
        Some(i + pat.len() as int)
    } else {
        None
    }
}

/// Consume blank space, then `pat`.
pub open spec fn tok(s: Seq<u8>, i: int, pat: Seq<u8>) -> Option<int> {
    expect_lit(s, skip_ws(s, i), pat)
}

/// The value of one hex digit byte.
pub open spec fn hex_val(b: u8) -> Option<u8> {
    if 0x30 <= b && b <= 0x39 {
        Some((b - 0x30) as u8)
    } else if 0x61 <= b && b <= 0x66 {
        Some((b - 0x61 + 10) as u8)
    } else if 0x41 <= b && b <= 0x46 {
        Some((b - 0x41 + 10) as u8)
    } else {
        None
    }
}

/// Prepend one decoded byte to a string-body parse result.
pub open spec fn cons_str(b: u8, rest: Option<(Seq<u8>, int)>) -> Option<(Seq<u8>, int)> {
    match rest {
        Some((t, k)) => Some((seq![b] + t, k)),
        None => None,
    }
}

/// Prepend several decoded bytes to a string-body parse result.
pub open spec fn cons_seq(bs: Seq<u8>, rest: Option<(Seq<u8>, int)>) -> Option<(Seq<u8>, int)> {
    match rest {
        Some((t, k)) => Some((bs + t, k)),
        None => None,
    }
}

/// The value of four hex digit bytes starting at position `i`.
pub open spec fn hex4(s: Seq<u8>, i: int) -> Option<int> {
    if i < 0 || i + 4 > s.len() {
        None
    } else {
        match hex_val(s[i]) {
            None => None,
            Some(d0) => match hex_val(s[i + 1]) {
                None => None,
                Some(d1) => match hex_val(s[i + 2]) {
                    None => None,
                    Some(d2) => match hex_val(s[i + 3]) {
                        None => None,
                        Some(d3) => Some(d0 * 4096 + d1 * 256 + d2 * 16 + d3),
                    },
                },
            },
        }
    }
}

/// The UTF-8 encoding of one scalar value.
pub open spec fn utf8_enc(v: int) -> Seq<u8>
    recommends
        0 <= v < 0x110000,
{
    if v < 0x80 {
        seq![v as u8]
    } else if v < 0x800 {
        seq![(0xC0 + v / 0x40) as u8, (0x80 + v % 0x40) as u8]
    } else if v < 0x10000 {
        seq![(0xE0 + v / 0x1000) as u8, (0x80 + (v / 0x40) % 0x40) as u8, (0x80 + v % 0x40) as u8]
    } else {
        seq![
            (0xF0 + v / 0x40000) as u8,
            (0x80 + (v / 0x1000) % 0x40) as u8,
            (0x80 + (v / 0x40) % 0x40) as u8,
            (0x80 + v % 0x40) as u8,
        ]
    }
}

/// Parse a string body from just after the opening quote to just after
/// the closing quote, decoding escapes. Yields the decoded bytes and
/// the position after the closing quote.
pub open spec fn parse_string_body(s: Seq<u8>, i: int) -> Option<(Seq<u8>, int)>
    decreases s.len() - i,
{
    if !(0 <= i < s.len()) {
        None
    } else if s[i] == '"' as u8 {
        Some((Seq::empty(), i + 1))
    } else if s[i] == '\\' as u8 {
        if i + 1 >= s.len() {
            None
        } else {
            let e = s[i + 1];
            if e == '"' as u8 {
                cons_str('"' as u8, parse_string_body(s, i + 2))
            } else if e == '\\' as u8 {
                cons_str('\\' as u8, parse_string_body(s, i + 2))
            } else if e == '/' as u8 {
                cons_str('/' as u8, parse_string_body(s, i + 2))
            } else if e == 'b' as u8 {
                cons_str(0x08, parse_string_body(s, i + 2))
            } else if e == 'f' as u8 {
                cons_str(0x0c, parse_string_body(s, i + 2))
            } else if e == 'n' as u8 {
                cons_str(0x0a, parse_string_body(s, i + 2))
            } else if e == 'r' as u8 {
                cons_str(0x0d, parse_string_body(s, i + 2))
            } else if e == 't' as u8 {
                cons_str(0x09, parse_string_body(s, i + 2))
            } else if e == 'u' as u8 {
                match hex4(s, i + 2) {
                    None => None,
                    Some(v) => if 0xD800 <= v < 0xDC00 {
                        // A high surrogate must be followed by an
                        // escaped low surrogate; the pair decodes as
                        // one supplementary-plane scalar.
                        if i + 12 <= s.len() && s[i + 6] == '\\' as u8 && s[i + 7] == 'u' as u8 {
                            match hex4(s, i + 8) {
                                None => None,
                                Some(lo) => if 0xDC00 <= lo < 0xE000 {
                                    cons_seq(
                                        utf8_enc(0x10000 + (v - 0xD800) * 0x400 + (lo - 0xDC00)),
                                        parse_string_body(s, i + 12),
                                    )
                                } else {
                                    None
                                },
                            }
                        } else {
                            None
                        }
                    } else if 0xDC00 <= v < 0xE000 {
                        None
                    } else {
                        cons_seq(utf8_enc(v), parse_string_body(s, i + 6))
                    },
                }
            } else {
                None
            }
        }
    } else if s[i] < 0x20 {
        None
    } else {
        cons_str(s[i], parse_string_body(s, i + 1))
    }
}

/// Parse a whole string literal starting exactly at position `i`.
pub open spec fn parse_string(s: Seq<u8>, i: int) -> Option<(Seq<u8>, int)> {
    if 0 <= i < s.len() && s[i] == '"' as u8 {
        parse_string_body(s, i + 1)
    } else {
        None
    }
}

/// Consume blank space, then a string literal.
pub open spec fn tok_string(s: Seq<u8>, i: int) -> Option<(Seq<u8>, int)> {
    parse_string(s, skip_ws(s, i))
}

/// The `id` field name.
pub open spec fn lit_id() -> Seq<u8> {
    seq!['i' as u8, 'd' as u8]
}

/// The `content` field name.
pub open spec fn lit_content() -> Seq<u8> {
    seq!['c' as u8, 'o' as u8, 'n' as u8, 't' as u8, 'e' as u8, 'n' as u8, 't' as u8]
}

/// The `created_at` field name.
pub open spec fn lit_created_at() -> Seq<u8> {
    seq!['c' as u8, 'r' as u8, 'e' as u8, 'a' as u8, 't' as u8, 'e' as u8, 'd' as u8, '_' as u8, 'a' as u8, 't' as u8]
}

/// The `updated_at` field name.
pub open spec fn lit_updated_at() -> Seq<u8> {
    seq!['u' as u8, 'p' as u8, 'd' as u8, 'a' as u8, 't' as u8, 'e' as u8, 'd' as u8, '_' as u8, 'a' as u8, 't' as u8]
}

/// The fields of one note object gathered so far: `None` marks a field
/// not seen yet; for `updated_at` the inner option is the value.
pub ghost struct PartialNote {
    pub id: Option<Seq<u8>>,
    pub content: Option<Seq<u8>>,
    pub created_at: Option<Seq<u8>>,
    pub updated_at: Option<Option<Seq<u8>>>,
}

/// No field seen yet.
pub open spec fn empty_partial() -> PartialNote {
    PartialNote { id: None, content: None, created_at: None, updated_at: None }
}

/// Parse one `key: value` pair of a note object: the key must be one
/// of the four known field names, not seen before; the value is a
/// string, or `null`-or-string for `updated_at`.
pub open spec fn parse_field_any(s: Seq<u8>, i: int, st: PartialNote) -> Option<
    (PartialNote, int),
> {
    match tok_string(s, i) {
        None => None,
        Some((key, j)) => match tok(s, j, seq![':' as u8]) {
            None => None,
            Some(k) => if key == lit_id() {
                if st.id is Some {
                    None
                } else {
                    match tok_string(s, k) {
                        None => None,
                        Some((v, m)) => Some(
                            (
                                PartialNote {
                                    id: Some(v),
                                    content: st.content,
                                    created_at: st.created_at,
                                    updated_at: st.updated_at,
                                },
                                m,
                            ),
                        ),
                    }
                }
            } else if key == lit_content() {
                if st.content is Some {
                    None
                } else {
                    match tok_string(s, k) {
                        None => None,
                        Some((v, m)) => Some(
                            (
                                PartialNote {
                                    id: st.id,
                                    content: Some(v),
                                    created_at: st.created_at,
                                    updated_at: st.updated_at,
                                },
                                m,
                            ),
                        ),
                    }
                }
            } else if key == lit_created_at() {
                if st.created_at is Some {
                    None
                } else {
                    match tok_string(s, k) {
                        None => None,
                        Some((v, m)) => Some(
                            (
                                PartialNote {
                                    id: st.id,
                                    content: st.content,
                                    created_at: Some(v),
                                    updated_at: st.updated_at,
                                },
                                m,
                            ),
                        ),
                    }
                }
            } else if key == lit_updated_at() {
                if st.updated_at is Some {
                    None
                } else {
                    match parse_updated(s, k) {
                        None => None,
                        Some((u, m)) => Some(
                            (
                                PartialNote {
                                    id: st.id,
                                    content: st.content,
                                    created_at: st.created_at,
                                    updated_at: Some(u),
                                },
                                m,
                            ),
                        ),
                    }
                }
            } else {
                None
            },
        },
    }
}

/// Parse the fields of a note object from the position after `{` or
/// after a separating comma, up to and including the closing brace.
pub open spec fn parse_fields(s: Seq<u8>, i: int, st: PartialNote) -> Option<(PartialNote, int)>
    decreases s.len() - i,
{
    match parse_field_any(s, i, st) {
        None => None,
        Some((st2, j)) => {
            let k = skip_ws(s, j);
            if k < i + 1 || k >= s.len() {
                None
            } else if s[k] == ',' as u8 {
                parse_fields(s, k + 1, st2)
            } else if s[k] == '}' as u8 {
                Some((st2, k + 1))
            } else {
                None
            }
        },
    }
}

/// Parse the value of `updated_at`: `null` or a string literal.
pub open spec fn parse_updated(s: Seq<u8>, i: int) -> Option<(Option<Seq<u8>>, int)> {
    let j = skip_ws(s, i);
    if 0 <= j < s.len() && s[j] == 'n' as u8 {
        match expect_lit(s, j, lit_null()) {
            None => None,
            Some(k) => Some((None, k)),
        }
    } else {
        match parse_string(s, j) {
            None => None,
            Some((u, k)) => Some((Some(u), k)),
        }
    }
}

/// Parse one note object: the four known keys, each at most once and
/// in any order; `id`, `content` and `created_at` are required, a
/// missing `updated_at` means never updated; unknown keys are
/// rejected.
pub open spec fn parse_note(s: Seq<u8>, i: int) -> Option<(NoteView, int)> {
    match tok(s, i, seq!['{' as u8]) {
        None => None,
        Some(j) => match parse_fields(s, j, empty_partial()) {
            None => None,
            Some((st, k)) => if st.id is Some && st.content is Some && st.created_at is Some {
                Some(
                    (
                        NoteView {
                            id: st.id.unwrap(),
                            content: st.content.unwrap(),
                            created_at: st.created_at.unwrap(),
                            updated_at: match st.updated_at {
                                Some(u) => u,
                                None => None,
                            },
                        },
                        k,
                    ),
                )
            } else {
                None
            },
        },
    }
}

/// Parse the remaining array items from the start of one item on, and
/// consume the closing bracket.
pub open spec fn parse_items(s: Seq<u8>, i: int) -> Option<(Seq<NoteView>, int)>
    decreases s.len() - i,
{
    match parse_note(s, i) {
        None => None,
        Some((n, j)) => {
            let k = skip_ws(s, j);
            if k < i + 1 || k >= s.len() {
                None
            } else if s[k] == ',' as u8 {
                match parse_items(s, k + 1) {
                    None => None,
                    Some((ns, m)) => Some((seq![n] + ns, m)),
                }
            } else if s[k] == ']' as u8 {
                Some((seq![n], k + 1))
            } else {
                None
            }
        },
    }
}

/// Parse a whole notes file: one array of note objects and nothing but
/// blank space around it.
pub open spec fn parse_notes(s: Seq<u8>) -> Option<Seq<NoteView>> {
    match tok(s, 0, seq!['[' as u8]) {
        None => None,
        Some(j) => {
            let k = skip_ws(s, j);
            if k < s.len() && s[k] == ']' as u8 {
                if skip_ws(s, k + 1) == s.len() {
                    Some(Seq::empty())
                } else {
                    None
                }
            } else {
                match parse_items(s, j) {
                    None => None,
                    Some((ns, m)) => if skip_ws(s, m) == s.len() {
                        Some(ns)
                    } else {
                        None
                    },
                }
            }
        },
    }
}

/// Blank space is consumed monotonically and never past the end.
pub proof fn lemma_skip_ws_bounds(s: Seq<u8>, i: int)
    requires
        0 <= i <= s.len(),
    ensures
        i <= skip_ws(s, i) <= s.len(),
    decreases s.len() - i,
{
    if i < s.len() && is_ws(s[i]) {
        lemma_skip_ws_bounds(s, i + 1);
    }
}

fn skip_ws_x(s: &Vec<u8>, i: usize) -> (r: usize)
    requires
        i <= s@.len(),
    ensures
        r as int == skip_ws(s@, i as int),
        i <= r <= s@.len(),
{
    let mut j = i;
    while j < s.len() && (s[j] == 0x20 || s[j] == 0x09 || s[j] == 0x0a || s[j] == 0x0d)
        invariant
            i <= j <= s@.len(),
            skip_ws(s@, i as int) == skip_ws(s@, j as int),
        decreases s@.len() - j,
    {
        j = j + 1;
    }
    j
}

fn match_pat(s: &Vec<u8>, i: usize, pat: &Vec<u8>) -> (r: bool)
    requires
        i <= s@.len(),
    ensures
        r == matches_at(s@, i as int, pat@),
{
    let n = s.len();
    if pat.len() > n - i {
        assert(!matches_at(s@, i as int, pat@));
        return false;
    }
    let mut k: usize = 0;
    while k < pat.len()
        invariant
            i + pat@.len() <= s@.len(),
            s@.len() <= usize::MAX,
            k <= pat@.len(),
            forall|m: int| 0 <= m < k ==> s@[i + m] == pat@[m],
        decreases pat@.len() - k,
    {
        if s[i + k] != pat[k] {
            assert(s@[i as int + k as int] != pat@[k as int]);
            assert(!matches_at(s@, i as int, pat@));
            return false;
        }
        k = k + 1;
    }
    assert(matches_at(s@, i as int, pat@));
    true
}

/// Consume blank space, then one fixed byte.
fn tok_byte(s: &Vec<u8>, i: usize, b: u8) -> (r: Option<usize>)
    requires
        i <= s@.len(),
    ensures
        match r {
            Some(j) => tok(s@, i as int, seq![b]) == Some(j as int) && i < j <= s@.len(),
            None => tok(s@, i as int, seq![b]) is None,
        },
{
    let j = skip_ws_x(s, i);
    if j < s.len() && s[j] == b {
        assert(matches_at(s@, j as int, seq![b])) by {
            assert(seq![b][0] == b);
        }
        Some(j + 1)
    } else {
        proof {
            if j < s@.len() {
                assert(s@[j as int + 0] != seq![b][0]);
            }
            assert(!matches_at(s@, j as int, seq![b]));
        }
        None
    }
}

fn hex_val_x(b: u8) -> (r: Option<u8>)
    ensures
        r == hex_val(b),
{
    if 0x30 <= b && b <= 0x39 {
        Some(b - 0x30)
    } else if 0x61 <= b && b <= 0x66 {
        Some(b - 0x61 + 10)
    } else if 0x41 <= b && b <= 0x46 {
        Some(b - 0x41 + 10)
    } else {
        None
    }
}

/// Parse a string literal starting exactly at `i`, decoding escapes.
fn parse_string_x(s: &Vec<u8>, i: usize) -> (r: Option<(Vec<u8>, usize)>)
    requires
        i <= s@.len(),
    ensures
        match r {
            Some(p) => parse_string(s@, i as int) == Some((p.0@, p.1 as int)) && i < p.1
                <= s@.len(),
            None => parse_string(s@, i as int) is None,
        },
{
    let n = s.len();
    if i >= n || s[i] != '"' as u8 {
        return None;
    }
    let mut acc: Vec<u8> = Vec::new();
    let mut j = i + 1;
    while j < n
        invariant
            n == s@.len(),
            i + 1 <= j <= s@.len(),
            i < s@.len(),
            s@[i as int] == '"' as u8,
            parse_string(s@, i as int) == parse_string_body(s@, i + 1 as int),
            parse_string_body(s@, i + 1 as int) == cons_all(acc@, parse_string_body(s@, j as int)),
        decreases s@.len() - j,
    {
        let ghost j0 = j as int;
        let ghost acc0 = acc@;
        let c = s[j];
        if c == '"' as u8 {
            proof {
                assert(parse_string_body(s@, j0) == Some((Seq::<u8>::empty(), j0 + 1)));
                assert(acc0 + Seq::<u8>::empty() =~= acc0);
            }
            return Some((acc, j + 1));
        }
        if c == '\\' as u8 {
            if j + 1 >= n {
                assert(parse_string_body(s@, j0) is None);
                return None;
            }
            let e = s[j + 1];
            if e == '"' as u8 {
                acc.push('"' as u8);
                j = j + 2;
            } else if e == '\\' as u8 {
                acc.push('\\' as u8);
                j = j + 2;
            } else if e == '/' as u8 {
                acc.push('/' as u8);
                j = j + 2;
            } else if e == 'b' as u8 {
                acc.push(0x08);
                j = j + 2;
            } else if e == 'f' as u8 {
                acc.push(0x0c);
                j = j + 2;
            } else if e == 'n' as u8 {
                acc.push(0x0a);
                j = j + 2;
            } else if e == 'r' as u8 {
                acc.push(0x0d);
                j = j + 2;
            } else if e == 't' as u8 {
                acc.push(0x09);
                j = j + 2;
            } else if e == 'u' as u8 {
                let v = match hex4_x(s, j + 2) {
                    None => {
                        assert(parse_string_body(s@, j0) is None);
                        return None;
                    },
                    Some(v) => v,
                };
                if 0xD800 <= v && v < 0xDC00 {
                    if n - j >= 12 && s[j + 6] == '\\' as u8 && s[j + 7] == 'u' as u8 {
                        let lo = match hex4_x(s, j + 8) {
                            None => {
                                assert(parse_string_body(s@, j0) is None);
                                return None;
                            },
                            Some(lo) => lo,
                        };
                        if 0xDC00 <= lo && lo < 0xE000 {
                            let c32 = 0x10000 + (v - 0xD800) * 0x400 + (lo - 0xDC00);
                            push_utf8(&mut acc, c32);
                            j = j + 12;
                            proof {
                                assert(parse_string_body(s@, j0) == cons_seq(
                                    utf8_enc(c32 as int),
                                    parse_string_body(s@, j as int),
                                ));
                                lemma_cons_all_append(
                                    acc0,
                                    utf8_enc(c32 as int),
                                    parse_string_body(s@, j as int),
                                );
                            }
                            continue;
                        } else {
                            assert(parse_string_body(s@, j0) is None);
                            return None;
                        }
                    } else {
                        assert(parse_string_body(s@, j0) is None);
                        return None;
                    }
                } else if 0xDC00 <= v && v < 0xE000 {
                    assert(parse_string_body(s@, j0) is None);
                    return None;
                } else {
                    push_utf8(&mut acc, v);
                    j = j + 6;
                    proof {
                        assert(parse_string_body(s@, j0) == cons_seq(
                            utf8_enc(v as int),
                            parse_string_body(s@, j as int),
                        ));
                        lemma_cons_all_append(
                            acc0,
                            utf8_enc(v as int),
                            parse_string_body(s@, j as int),
                        );
                    }
                    continue;
                }
            } else {
                assert(parse_string_body(s@, j0) is None);
                return None;
            }
        } else if c < 0x20 {
            assert(parse_string_body(s@, j0) is None);
            return None;
        } else {
            acc.push(c);
            j = j + 1;
        }
        proof {
            let b = acc@[acc@.len() - 1];
            assert(acc@ == acc0.push(b));
            assert(parse_string_body(s@, j0) == cons_str(b, parse_string_body(s@, j as int)));
            lemma_cons_all_push(acc0, b, parse_string_body(s@, j as int));
        }
    }
    assert(parse_string_body(s@, j as int) is None);
    None
}

/// Prepend an already-decoded prefix to a string-body parse result.
pub open spec fn cons_all(a: Seq<u8>, rest: Option<(Seq<u8>, int)>) -> Option<(Seq<u8>, int)> {
    match rest {
        Some((t, k)) => Some((a + t, k)),
        None => None,
    }
}

/// Folding one byte into the prefix commutes with `cons_str`.
proof fn lemma_cons_all_push(a: Seq<u8>, b: u8, rest: Option<(Seq<u8>, int)>)
    ensures
        cons_all(a, cons_str(b, rest)) == cons_all(a.push(b), rest),
{
    match rest {
        Some((t, k)) => {
            assert(a + (seq![b] + t) =~= a.push(b) + t);
        },
        None => {},
    }
}

/// Folding several bytes into the prefix commutes with `cons_seq`.
proof fn lemma_cons_all_append(a: Seq<u8>, bs: Seq<u8>, rest: Option<(Seq<u8>, int)>)
    ensures
        cons_all(a, cons_seq(bs, rest)) == cons_all(a + bs, rest),
{
    match rest {
        Some((t, k)) => {
            assert(a + (bs + t) =~= (a + bs) + t);
        },
        None => {},
    }
}

/// Four hex digit bytes starting at `i`, as a value below `0x10000`.
fn hex4_x(s: &Vec<u8>, i: usize) -> (r: Option<u32>)
    requires
        i <= s@.len(),
    ensures
        match r {
            Some(v) => hex4(s@, i as int) == Some(v as int) && v < 0x10000,
            None => hex4(s@, i as int) is None,
        },
{
    let n = s.len();
    if n - i < 4 {
        return None;
    }
    let d0 = match hex_val_x(s[i]) {
        None => {
            return None;
        },
        Some(d) => d,
    };
    let d1 = match hex_val_x(s[i + 1]) {
        None => {
            return None;
        },
        Some(d) => d,
    };
    let d2 = match hex_val_x(s[i + 2]) {
        None => {
            return None;
        },
        Some(d) => d,
    };
    let d3 = match hex_val_x(s[i + 3]) {
        None => {
            return None;
        },
        Some(d) => d,
    };
    Some(d0 as u32 * 4096 + d1 as u32 * 256 + d2 as u32 * 16 + d3 as u32)
}

/// Append the UTF-8 encoding of one scalar value.
fn push_utf8(acc: &mut Vec<u8>, v: u32)
    requires
        v < 0x110000,
    ensures
        final(acc)@ == old(acc)@ + utf8_enc(v as int),
{
    if v < 0x80 {
        acc.push(v as u8);
    } else if v < 0x800 {
        acc.push(0xC0 + (v / 0x40) as u8);
        acc.push(0x80 + (v % 0x40) as u8);
    } else if v < 0x10000 {
        acc.push(0xE0 + (v / 0x1000) as u8);
        acc.push(0x80 + ((v / 0x40) % 0x40) as u8);
        acc.push(0x80 + (v % 0x40) as u8);
    } else {
        acc.push(0xF0 + (v / 0x40000) as u8);
        acc.push(0x80 + ((v / 0x1000) % 0x40) as u8);
        acc.push(0x80 + ((v / 0x40) % 0x40) as u8);
        acc.push(0x80 + (v % 0x40) as u8);
    }
    assert(acc@ =~= old(acc)@ + utf8_enc(v as int));
}

/// The fields gathered so far while reading one note object.
pub struct PartialNoteX {
    pub id: Option<Vec<u8>>,
    pub content: Option<Vec<u8>>,
    pub created_at: Option<Vec<u8>>,
    pub updated_at: Option<Option<Vec<u8>>>,
}

impl View for PartialNoteX {
    type V = PartialNote;

    open spec fn view(&self) -> PartialNote {
        PartialNote {
            id: match self.id {
                Some(v) => Some(v@),
                None => None,
            },
            content: match self.content {
                Some(v) => Some(v@),
                None => None,
            },
            created_at: match self.created_at {
                Some(v) => Some(v@),
                None => None,
            },
            updated_at: match self.updated_at {
                Some(Some(v)) => Some(Some(v@)),
                Some(None) => Some(None),
                None => None,
            },
        }
    }
}

/// Byte-for-byte equality of two byte vectors.
fn bytes_eq(a: &Vec<u8>, b: &Vec<u8>) -> (r: bool)
    ensures
        r == (a@ == b@),
{
    if a.len() != b.len() {
        return false;
    }
    let mut k: usize = 0;
    while k < a.len()
        invariant
            a@.len() == b@.len(),
            k <= a@.len(),
            forall|m: int| 0 <= m < k ==> a@[m] == b@[m],
        decreases a@.len() - k,
    {
        if a[k] != b[k] {
            return false;
        }
        k = k + 1;
    }
    proof {
        assert(a@ =~= b@);
    }
    true
}

/// The `id` field name as bytes.
fn id_name() -> (v: Vec<u8>)
    ensures
        v@ == lit_id(),
{
    let mut v: Vec<u8> = Vec::new();
    v.push('i' as u8);
    v.push('d' as u8);
    assert(v@ =~= lit_id());
    v
}

/// The `content` field name as bytes.
fn content_name() -> (v: Vec<u8>)
    ensures
        v@ == lit_content(),
{
    let mut v: Vec<u8> = Vec::new();
    v.push('c' as u8);
    v.push('o' as u8);
    v.push('n' as u8);
    v.push('t' as u8);
    v.push('e' as u8);
    v.push('n' as u8);
    v.push('t' as u8);
    assert(v@ =~= lit_content());
    v
}

/// The `created_at` field name as bytes.
fn created_at_name() -> (v: Vec<u8>)
    ensures
        v@ == lit_created_at(),
{
    let mut v: Vec<u8> = Vec::new();
    v.push('c' as u8);
    v.push('r' as u8);
    v.push('e' as u8);
    v.push('a' as u8);
    v.push('t' as u8);
    v.push('e' as u8);
    v.push('d' as u8);
    v.push('_' as u8);
    v.push('a' as u8);
    v.push('t' as u8);
    assert(v@ =~= lit_created_at());
    v
}

/// The `updated_at` field name as bytes.
fn updated_at_name() -> (v: Vec<u8>)
    ensures
        v@ == lit_updated_at(),
{
    let mut v: Vec<u8> = Vec::new();
    v.push('u' as u8);
    v.push('p' as u8);
    v.push('d' as u8);
    v.push('a' as u8);
    v.push('t' as u8);
    v.push('e' as u8);
    v.push('d' as u8);
    v.push('_' as u8);
    v.push('a' as u8);
    v.push('t' as u8);
    assert(v@ =~= lit_updated_at());
    v
}

/// The JSON `null` literal as bytes.
fn null_pat() -> (v: Vec<u8>)
    ensures
        v@ == lit_null(),
{
    let mut v: Vec<u8> = Vec::new();
    v.push('n' as u8);
    v.push('u' as u8);
    v.push('l' as u8);
    v.push('l' as u8);
    assert(v@ =~= lit_null());
    v
}

/// Consume blank space, then the value of `updated_at`.
fn parse_updated_x(s: &Vec<u8>, i: usize) -> (r: Option<(Option<Vec<u8>>, usize)>)
    requires
        i <= s@.len(),
    ensures
        match r {
            Some(p) => parse_updated(s@, i as int) matches Some(q) && q.1 == p.1 as int && i < p.1
                <= s@.len() && (match p.0 {
                Some(v) => q.0 == Some(v@),
                None => q.0 is None,
            }),
            None => parse_updated(s@, i as int) is None,
        },
{
    let j = skip_ws_x(s, i);
    if j < s.len() && s[j] == 'n' as u8 {
        let np = null_pat();
        if match_pat(s, j, &np) {
            Some((None, j + 4))
        } else {
            None
        }
    } else {
        match parse_string_x(s, j) {
            None => None,
            Some((u, k)) => Some((Some(u), k)),
        }
    }
}

/// Consume blank space, then one `key: value` field of a note object.
#[verifier::rlimit(100)]
fn parse_field_any_x(s: &Vec<u8>, i: usize, st: PartialNoteX) -> (r: Option<(PartialNoteX, usize)>)
    requires
        i <= s@.len(),
    ensures
        match r {
            Some(p) => parse_field_any(s@, i as int, st@) matches Some(q) && q.0 == p.0@ && q.1
                == p.1 as int && i < p.1 <= s@.len(),
            None => parse_field_any(s@, i as int, st@) is None,
        },
{
    let j = skip_ws_x(s, i);
    let (key, j2) = match parse_string_x(s, j) {
        None => {
            return None;
        },
        Some(p) => p,
    };
    let k = match tok_byte(s, j2, ':' as u8) {
        None => {
            return None;
        },
        Some(k) => k,
    };
    let idn = id_name();
    let cn = content_name();
    let crn = created_at_name();
    let upn = updated_at_name();
    if bytes_eq(&key, &idn) {
        if st.id.is_some() {
            return None;
        }
        let j3 = skip_ws_x(s, k);
        match parse_string_x(s, j3) {
            None => None,
            Some((v, m)) => Some(
                (
                    PartialNoteX {
                        id: Some(v),
                        content: st.content,
                        created_at: st.created_at,
                        updated_at: st.updated_at,
                    },
                    m,
                ),
            ),
        }
    } else if bytes_eq(&key, &cn) {
        if st.content.is_some() {
            return None;
        }
        let j3 = skip_ws_x(s, k);
        match parse_string_x(s, j3) {
            None => None,
            Some((v, m)) => Some(
                (
                    PartialNoteX {
                        id: st.id,
                        content: Some(v),
                        created_at: st.created_at,
                        updated_at: st.updated_at,
                    },
                    m,
                ),
            ),
        }
    } else if bytes_eq(&key, &crn) {
        if st.created_at.is_some() {
            return None;
        }
        let j3 = skip_ws_x(s, k);
        match parse_string_x(s, j3) {
            None => None,
            Some((v, m)) => Some(
                (
                    PartialNoteX {
                        id: st.id,
                        content: st.content,
                        created_at: Some(v),
                        updated_at: st.updated_at,
                    },
                    m,
                ),
            ),
        }
    } else if bytes_eq(&key, &upn) {
        if st.updated_at.is_some() {
            return None;
        }
        match parse_updated_x(s, k) {
            None => None,
            Some((u, m)) => Some(
                (
                    PartialNoteX {
                        id: st.id,
                        content: st.content,
                        created_at: st.created_at,
                        updated_at: Some(u),
                    },
                    m,
                ),
            ),
        }
    } else {
        None
    }
}

/// Consume the fields of a note object and its closing brace.
fn parse_fields_x(s: &Vec<u8>, i: usize, st: PartialNoteX) -> (r: Option<(PartialNoteX, usize)>)
    requires
        i <= s@.len(),
    ensures
        match r {
            Some(p) => parse_fields(s@, i as int, st@) matches Some(q) && q.0 == p.0@ && q.1
                == p.1 as int && i < p.1 <= s@.len(),
            None => parse_fields(s@, i as int, st@) is None,
        },
    decreases s@.len() - i,
{
    let (st2, j) = match parse_field_any_x(s, i, st) {
        None => {
            return None;
        },
        Some(p) => p,
    };
    let k = skip_ws_x(s, j);
    if k < s.len() && s[k] == ',' as u8 {
        parse_fields_x(s, k + 1, st2)
    } else if k < s.len() && s[k] == '}' as u8 {
        Some((st2, k + 1))
    } else {
        None
    }
}

/// Consume blank space, then one note object.
#[verifier::rlimit(100)]
fn parse_note_x(s: &Vec<u8>, i: usize) -> (r: Option<(Note, usize)>)
    requires
        i <= s@.len(),
    ensures
        match r {
            Some(p) => parse_note(s@, i as int) matches Some(q) && q.0 == p.0@ && q.1 == p.1 as int
                && i < p.1 <= s@.len(),
            None => parse_note(s@, i as int) is None,
        },
{
    let j = match tok_byte(s, i, '{' as u8) {
        None => {
            return None;
        },
        Some(j) => j,
    };
    let st0 = PartialNoteX { id: None, content: None, created_at: None, updated_at: None };
    assert(st0@ == empty_partial());
    let (st, k) = match parse_fields_x(s, j, st0) {
        None => {
            return None;
        },
        Some(p) => p,
    };
    let PartialNoteX { id, content, created_at, updated_at } = st;
    match (id, content, created_at) {
        (Some(id), Some(content), Some(created_at)) => {
            let updated_at = match updated_at {
                Some(u) => u,
                None => None,
            };
            Some((Note { id, content, created_at, updated_at }, k))
        },
        _ => None,
    }
}

/// Parse the remaining items and the closing bracket, recursively.
fn parse_items_x(s: &Vec<u8>, i: usize) -> (r: Option<(Vec<Note>, usize)>)
    requires
        i <= s@.len(),
    ensures
        match r {
            Some(p) => parse_items(s@, i as int) matches Some(q) && q.0 == views_of(p.0@) && q.1
                == p.1 as int && i < p.1 <= s@.len(),
            None => parse_items(s@, i as int) is None,
        },
    decreases s@.len() - i,
{
    let (n, j) = match parse_note_x(s, i) {
        None => {
            return None;
        },
        Some(p) => p,
    };
    let k = skip_ws_x(s, j);
    if k < s.len() && s[k] == ',' as u8 {
        match parse_items_x(s, k + 1) {
            None => None,
            Some((mut ns, m)) => {
                let ghost tail = ns@;
                ns.insert(0, n);
                proof {
                    assert(ns@ =~= seq![n] + tail);
                    assert(views_of(ns@) =~= seq![n@] + views_of(tail));
                }
                Some((ns, m))
            },
        }
    } else if k < s.len() && s[k] == ']' as u8 {
        let mut v: Vec<Note> = Vec::new();
        v.push(n);
        proof {
            assert(views_of(v@) =~= seq![n@]);
        }
        Some((v, k + 1))
    } else {
        None
    }
}

/// Parse a whole notes file from its raw bytes.
///
/// The result is exactly the specification-level parse: the note list
/// in file order on success, and a format failure on any byte content
/// that is not a well-formed notes array.
pub fn notes_from_bytes(content: &Vec<u8>) -> (r: Result<Vec<Note>, VaultError>)
    ensures
        match r {
            Ok(ns) => parse_notes(content@) == Some(views_of(ns@)),
            Err(e) => parse_notes(content@) is None && e == VaultError::FormatFailure,
        },
{
    let s = content;
    let j = match tok_byte(s, 0, '[' as u8) {
        None => {
            return Err(VaultError::FormatFailure);
        },
        Some(j) => j,
    };
    let k = skip_ws_x(s, j);
    if k < s.len() && s[k] == ']' as u8 {
        let e = skip_ws_x(s, k + 1);
        if e == s.len() {
            let v: Vec<Note> = Vec::new();
            proof {
                assert(views_of(v@) =~= Seq::<NoteView>::empty());
            }
            Ok(v)
        } else {
            Err(VaultError::FormatFailure)
        }
    } else {
        match parse_items_x(s, j) {
            None => Err(VaultError::FormatFailure),
            Some((ns, m)) => {
                let e = skip_ws_x(s, m);
                if e == s.len() {
                    Ok(ns)
                } else {
                    Err(VaultError::FormatFailure)
                }
            },
        }
    }
}

} // verus!
