//! The persisted form of a baseline: a JSON object mapping each path string
//! to its hex digest string, pretty-printed with two-space indent, and the
//! parser that reads it back. Serializing and then parsing returns the very
//! same entries (proved below), which is what makes the baseline store
//! idempotent.
//!
//! The writer escapes `"`, `\` and control characters (`\n`, `\r`, `\t` by
//! name, the rest as `\u00XX`). The reader additionally accepts `\/`, `\b`,
//! `\f` and any `\u00XX` escape; a `\u` escape above `00FF` is not accepted.

use vstd::prelude::*;
use crate::baseline::Baseline;
use crate::digest::hex_digit;
use crate::text::{str_to_chars, chars_to_string};

verus! {

// ---------------------------------------------------------------------
// The serialized text, as specification.
// ---------------------------------------------------------------------

/// How one character appears inside a JSON string.
pub open spec fn esc_char(c: char) -> Seq<char> {
    if c == '"' {
        seq!['\\', '"']
    } else if c == '\\' {
        seq!['\\', '\\']
    } else if c == '\n' {
        seq!['\\', 'n']
    } else if c == '\r' {
        seq!['\\', 'r']
    } else if c == '\t' {
        seq!['\\', 't']
    } else if (c as u32) < 32 {
        seq!['\\', 'u', '0', '0', hex_digit((c as u32 / 16) as u8), hex_digit((c as u32 % 16) as u8)]
    } else {
        seq![c]
    }
}

/// A whole string, escaped.
pub open spec fn esc_str(s: Seq<char>) -> Seq<char>
    decreases s.len(),
{
    if s.len() == 0 {
        Seq::empty()
    } else {
        esc_char(s[0]) + esc_str(s.drop_first())
    }
}

/// A string in quotes.
pub open spec fn quoted(s: Seq<char>) -> Seq<char> {
    seq!['"'] + esc_str(s) + seq!['"']
}

/// One member line: newline, two-space indent, key, colon, value.
pub open spec fn item_text(e: (Seq<char>, Seq<char>)) -> Seq<char> {
    seq!['\n', ' ', ' '] + quoted(e.0) + seq![':', ' '] + quoted(e.1)
}

/// All member lines, comma-separated.
pub open spec fn items_text(es: Seq<(Seq<char>, Seq<char>)>) -> Seq<char>
    decreases es.len(),
{
    if es.len() == 0 {
        Seq::empty()
    } else if es.len() == 1 {
        item_text(es[0])
    } else {
        item_text(es[0]) + seq![','] + items_text(es.drop_first())
    }
}

/// The persisted text of a baseline's entries.
pub open spec fn serialized(es: Seq<(Seq<char>, Seq<char>)>) -> Seq<char> {
    if es.len() == 0 {
        seq!['{', '}']
    } else {
        seq!['{'] + items_text(es) + seq!['\n', '}']
    }
}

// ---------------------------------------------------------------------
// The serializer.
// ---------------------------------------------------------------------

fn push_esc_char(out: &mut Vec<char>, c: char)
    ensures
        final(out)@ == old(out)@ + esc_char(c),
{
    if c == '"' {
        out.push('\\');
        out.push('"');
    } else if c == '\\' {
        out.push('\\');
        out.push('\\');
    } else if c == '\n' {
        out.push('\\');
        out.push('n');
    } else if c == '\r' {
        out.push('\\');
        out.push('r');
    } else if c == '\t' {
        out.push('\\');
        out.push('t');
    } else if (c as u32) < 32 {
        out.push('\\');
        out.push('u');
        out.push('0');
        out.push('0');
        out.push(crate::digest::hex_digit_char(((c as u32) / 16) as u8));
        out.push(crate::digest::hex_digit_char(((c as u32) % 16) as u8));
        proof {
            assert(out@ =~= old(out)@ + esc_char(c));
        }
    } else {
        out.push(c);
    }
    proof {
        assert(out@ =~= old(out)@ + esc_char(c));
    }
}

proof fn lemma_esc_str_snoc(s: Seq<char>, c: char)
    ensures
        esc_str(s.push(c)) =~= esc_str(s) + esc_char(c),
    decreases s.len(),
{
    let p = s.push(c);
    if s.len() == 0 {
        assert(p.drop_first() =~= Seq::<char>::empty());
        assert(esc_str(Seq::<char>::empty()) =~= Seq::<char>::empty());
    } else {
        assert(p[0] == s[0]);
        assert(p.drop_first() =~= s.drop_first().push(c));
        lemma_esc_str_snoc(s.drop_first(), c);
    }
}

pub(crate) fn push_quoted(out: &mut Vec<char>, s: &String)
    ensures
        final(out)@ == old(out)@ + quoted(s@),
{
    out.push('"');
    let cs = str_to_chars(s.as_str());
    let mut i: usize = 0;
    while i < cs.len()
        invariant
            i <= cs@.len(),
            cs@ == s@,
            out@ == old(out)@ + seq!['"'] + esc_str(s@.take(i as int)),
        decreases cs@.len() - i,
    {
        let ghost pre = out@;
        push_esc_char(out, cs[i]);
        proof {
            assert(s@.take(i + 1 as int) =~= s@.take(i as int).push(s@[i as int]));
            lemma_esc_str_snoc(s@.take(i as int), s@[i as int]);
            assert(out@ =~= old(out)@ + seq!['"'] + esc_str(s@.take(i + 1 as int)));
        }
        i = i + 1;
    }
    out.push('"');
    proof {
        assert(s@.take(s@.len() as int) =~= s@);
        assert(out@ =~= old(out)@ + quoted(s@));
    }
}

/// The text under which a baseline is persisted: the entries, in order, as
/// a pretty-printed JSON object of strings.
pub fn serialize_baseline(b: &Baseline) -> (out: Vec<char>)
    ensures
        out@ == serialized(b.entries_view()),
{
    let ghost es = b.entries_view();
    let mut out: Vec<char> = Vec::new();
    out.push('{');
    let n = b.len();
    if n == 0 {
        out.push('}');
        proof {
            assert(out@ =~= serialized(es));
        }
        return out;
    }
    let mut i: usize = 0;
    proof {
        assert(es.skip(0) =~= es);
        assert(out@ =~= seq!['{']);
    }
    while i < n
        invariant
            0 < n == es.len(),
            i <= n,
            es == b.entries_view(),
            serialized(es) =~= out@ + (if i < n {
                items_text(es.skip(i as int))
            } else {
                Seq::<char>::empty()
            }) + seq!['\n', '}'],
        decreases n - i,
    {
        let ghost pre = out@;
        out.push('\n');
        out.push(' ');
        out.push(' ');
        push_quoted(&mut out, b.path_at(i));
        out.push(':');
        out.push(' ');
        push_quoted(&mut out, b.digest_at(i));
        if i + 1 < n {
            out.push(',');
        }
        proof {
            let tail = es.skip(i as int);
            assert(tail[0] == es[i as int]);
            assert(tail.drop_first() =~= es.skip(i + 1 as int));
            if i + 1 < n {
                assert(tail.len() > 1);
                assert(items_text(tail) =~= item_text(es[i as int]) + seq![','] + items_text(
                    es.skip(i + 1 as int),
                ));
                assert(out@ =~= pre + item_text(es[i as int]) + seq![',']);
            } else {
                assert(tail.len() == 1);
                assert(items_text(tail) =~= item_text(es[i as int]));
                assert(out@ =~= pre + item_text(es[i as int]));
            }
            assert(serialized(es) =~= out@ + (if i + 1 < n {
                items_text(es.skip(i + 1 as int))
            } else {
                Seq::<char>::empty()
            }) + seq!['\n', '}']);
        }
        i = i + 1;
    }
    out.push('\n');
    out.push('}');
    proof {
        assert(out@ =~= serialized(es));
    }
    out
}

// ---------------------------------------------------------------------
// The parser, as specification: each function takes the text and a
// position and yields the parsed value with the position after it.
// ---------------------------------------------------------------------

/// JSON whitespace.
pub open spec fn is_ws(c: char) -> bool {
    c == ' ' || c == '\n' || c == '\t' || c == '\r'
}

/// The first position at or after `i` holding no whitespace.
pub open spec fn sp_skip_ws(s: Seq<char>, i: int) -> int
    decreases s.len() - i,
{
    if 0 <= i < s.len() && is_ws(s[i]) {
        sp_skip_ws(s, i + 1)
    } else {
        i
    }
}

proof fn lemma_skip_ws_bounds(s: Seq<char>, i: int)
    requires
        0 <= i <= s.len(),
    ensures
        i <= sp_skip_ws(s, i) <= s.len(),
    decreases s.len() - i,
{
    if i < s.len() && is_ws(s[i]) {
        lemma_skip_ws_bounds(s, i + 1);
    }
}

/// The value of a hex digit, either case.
pub open spec fn hex_val(c: char) -> Option<u32> {
    let u = c as u32;
    if 48 <= u && u <= 57 {
        Some((u - 48) as u32)
    } else if 97 <= u && u <= 102 {
        Some((u - 87) as u32)
    } else if 65 <= u && u <= 70 {
        Some((u - 55) as u32)
    } else {
        None
    }
}

/// An escape sequence, `i` pointing just after the backslash. A `\u`
/// escape is accepted up to `00FF`.
pub open spec fn sp_escape(s: Seq<char>, i: int) -> Option<(char, int)> {
    if !(0 <= i < s.len()) {
        None
    } else {
        let c = s[i];
        if c == '"' {
            Some(('"', i + 1))
        } else if c == '\\' {
            Some(('\\', i + 1))
        } else if c == '/' {
            Some(('/', i + 1))
        } else if c == 'n' {
            Some(('\n', i + 1))
        } else if c == 'r' {
            Some(('\r', i + 1))
        } else if c == 't' {
            Some(('\t', i + 1))
        } else if c == 'b' {
            Some(('\u{8}', i + 1))
        } else if c == 'f' {
            Some(('\u{c}', i + 1))
        } else if c == 'u' && i + 5 <= s.len() {
            match (hex_val(s[i + 1]), hex_val(s[i + 2]), hex_val(s[i + 3]), hex_val(s[i + 4])) {
                (Some(h3), Some(h2), Some(h1), Some(h0)) => {
                    let v = h3 * 4096 + h2 * 256 + h1 * 16 + h0;
                    if v <= 255 {
                        Some((((v as u8) as char), i + 5))
                    } else {
                        None
                    }
                },
                _ => None,
            }
        } else {
            None
        }
    }
}

/// A string's content, `i` pointing just after the opening quote; ends at
/// the closing quote.
pub open spec fn sp_string_body(s: Seq<char>, i: int) -> Option<(Seq<char>, int)>
    decreases s.len() - i,
{
    if !(0 <= i < s.len()) {
        None
    } else if s[i] == '"' {
        Some((Seq::empty(), i + 1))
    } else if s[i] == '\\' {
        match sp_escape(s, i + 1) {
            Some((c, j)) => if i < j && j <= s.len() {
                match sp_string_body(s, j) {
                    Some((t, k)) => Some((seq![c] + t, k)),
                    None => None,
                }
            } else {
                None
            },
            None => None,
        }
    } else if (s[i] as u32) < 32 {
        None
    } else {
        match sp_string_body(s, i + 1) {
            Some((t, k)) => Some((seq![s[i]] + t, k)),
            None => None,
        }
    }
}

proof fn lemma_string_body_bounds(s: Seq<char>, i: int)
    requires
        0 <= i,
    ensures
        sp_string_body(s, i) matches Some(r) ==> i < r.1 <= s.len(),
    decreases s.len() - i,
{
    if 0 <= i < s.len() && s[i] != '"' && s[i] == '\\' {
        match sp_escape(s, i + 1) {
            Some((c, j)) => {
                if i < j && j <= s.len() {
                    lemma_string_body_bounds(s, j);
                }
            },
            None => {},
        }
    } else if 0 <= i < s.len() && s[i] != '"' && (s[i] as u32) >= 32 {
        lemma_string_body_bounds(s, i + 1);
    }
}

/// One `"key": "value"` member, leading whitespace skipped.
pub open spec fn sp_member(s: Seq<char>, i: int) -> Option<((Seq<char>, Seq<char>), int)> {
    let i0 = sp_skip_ws(s, i);
    if 0 <= i0 < s.len() && s[i0] == '"' {
        match sp_string_body(s, i0 + 1) {
            Some((k, i1)) => {
                let i2 = sp_skip_ws(s, i1);
                if 0 <= i2 < s.len() && s[i2] == ':' {
                    let i3 = sp_skip_ws(s, i2 + 1);
                    if 0 <= i3 < s.len() && s[i3] == '"' {
                        match sp_string_body(s, i3 + 1) {
                            Some((v, i4)) => Some(((k, v), i4)),
                            None => None,
                        }
                    } else {
                        None
                    }
                } else {
                    None
                }
            },
            None => None,
        }
    } else {
        None
    }
}

/// One or more members up to and including the closing brace.
pub open spec fn sp_members(s: Seq<char>, i: int) -> Option<(Seq<(Seq<char>, Seq<char>)>, int)>
    decreases s.len() - i,
{
    match sp_member(s, i) {
        Some((kv, j)) => {
            let i5 = sp_skip_ws(s, j);
            if 0 <= i5 < s.len() && s[i5] == ',' {
                if i < i5 + 1 && i5 + 1 <= s.len() {
                    match sp_members(s, i5 + 1) {
                        Some((rest, k)) => Some((seq![kv] + rest, k)),
                        None => None,
                    }
                } else {
                    None
                }
            } else if 0 <= i5 < s.len() && s[i5] == '}' {
                Some((seq![kv], i5 + 1))
            } else {
                None
            }
        },
        None => None,
    }
}

/// A whole object of string members.
pub open spec fn sp_object(s: Seq<char>, i: int) -> Option<(Seq<(Seq<char>, Seq<char>)>, int)> {
    let i0 = sp_skip_ws(s, i);
    if 0 <= i0 < s.len() && s[i0] == '{' {
        let i1 = sp_skip_ws(s, i0 + 1);
        if 0 <= i1 < s.len() && s[i1] == '}' {
            Some((Seq::empty(), i1 + 1))
        } else {
            sp_members(s, i0 + 1)
        }
    } else {
        None
    }
}

/// What a baseline file's text denotes: its (path, digest) pairs in file
/// order, or nothing when the text is not an object of strings.
pub open spec fn sp_baseline(s: Seq<char>) -> Option<Seq<(Seq<char>, Seq<char>)>> {
    match sp_object(s, 0) {
        Some((es, j)) => if sp_skip_ws(s, j) == s.len() {
            Some(es)
        } else {
            None
        },
        None => None,
    }
}

// ---------------------------------------------------------------------
// The parser.
// ---------------------------------------------------------------------

fn px_skip_ws(v: &Vec<char>, start: usize) -> (r: usize)
    requires
        start <= v@.len(),
    ensures
        r == sp_skip_ws(v@, start as int),
        start <= r <= v@.len(),
{
    let mut i = start;
    while i < v.len() && (v[i] == ' ' || v[i] == '\n' || v[i] == '\t' || v[i] == '\r')
        invariant
            start <= i <= v@.len(),
            sp_skip_ws(v@, start as int) == sp_skip_ws(v@, i as int),
        decreases v@.len() - i,
    {
        i = i + 1;
    }
    i
}

fn px_hex_val(c: char) -> (r: Option<u32>)
    ensures
        r == hex_val(c),
{
    let u = c as u32;
    if 48 <= u && u <= 57 {
        Some(u - 48)
    } else if 97 <= u && u <= 102 {
        Some(u - 87)
    } else if 65 <= u && u <= 70 {
        Some(u - 55)
    } else {
        None
    }
}

fn px_escape(v: &Vec<char>, i: usize) -> (r: Option<(char, usize)>)
    ensures
        match r {
            Some((c, j)) => sp_escape(v@, i as int) == Some((c, j as int)) && i < j <= v@.len(),
            None => sp_escape(v@, i as int) is None,
        },
{
    if i >= v.len() {
        return None;
    }
    let c = v[i];
    if c == '"' {
        Some(('"', i + 1))
    } else if c == '\\' {
        Some(('\\', i + 1))
    } else if c == '/' {
        Some(('/', i + 1))
    } else if c == 'n' {
        Some(('\n', i + 1))
    } else if c == 'r' {
        Some(('\r', i + 1))
    } else if c == 't' {
        Some(('\t', i + 1))
    } else if c == 'b' {
        Some(('\u{8}', i + 1))
    } else if c == 'f' {
        Some(('\u{c}', i + 1))
    } else if c == 'u' && v.len() - i >= 5 {
        let h3 = px_hex_val(v[i + 1]);
        let h2 = px_hex_val(v[i + 2]);
        let h1 = px_hex_val(v[i + 3]);
        let h0 = px_hex_val(v[i + 4]);
        match (h3, h2, h1, h0) {
            (Some(a), Some(b), Some(d), Some(e)) => {
                let val = a * 4096 + b * 256 + d * 16 + e;
                if val <= 255 {
                    Some(((val as u8) as char, i + 5))
                } else {
                    None
                }
            },
            _ => None,
        }
    } else {
        None
    }
}

fn px_string_body(v: &Vec<char>, start: usize) -> (r: Option<(Vec<char>, usize)>)
    requires
        start <= v@.len(),
    ensures
        match r {
            Some(p) => sp_string_body(v@, start as int) == Some((p.0@, p.1 as int)) && start
                < p.1 <= v@.len(),
            None => sp_string_body(v@, start as int) is None,
        },
{
    let ghost s = v@;
    let mut acc: Vec<char> = Vec::new();
    let mut i = start;
    loop
        invariant
            start <= i <= s.len(),
            s == v@,
            sp_string_body(s, start as int) == (match sp_string_body(s, i as int) {
                Some(p) => Some::<(Seq<char>, int)>((acc@ + p.0, p.1)),
                None => None::<(Seq<char>, int)>,
            }),
        decreases s.len() - i,
    {
        if i >= v.len() {
            return None;
        }
        let c = v[i];
        if c == '"' {
            proof {
                assert(acc@ + Seq::<char>::empty() =~= acc@);
                lemma_string_body_bounds(s, start as int);
            }
            return Some((acc, i + 1));
        }
        if c == '\\' {
            match px_escape(v, i + 1) {
                Some((c2, j)) => {
                    let ghost acc_old = acc@;
                    let ghost i_old = i as int;
                    acc.push(c2);
                    i = j;
                    proof {
                        if sp_string_body(s, i as int) is Some {
                            let p = sp_string_body(s, i as int)->Some_0;
                            assert(sp_string_body(s, i_old) == Some((seq![c2] + p.0, p.1)));
                            assert(acc_old + (seq![c2] + p.0) =~= acc@ + p.0);
                        } else {
                            assert(sp_string_body(s, i_old) is None);
                        }
                    }
                },
                None => {
                    return None;
                },
            }
        } else if (c as u32) < 32 {
            return None;
        } else {
            let ghost acc_old = acc@;
            let ghost i_old = i as int;
            acc.push(c);
            i = i + 1;
            proof {
                if sp_string_body(s, i as int) is Some {
                    let p = sp_string_body(s, i as int)->Some_0;
                    assert(sp_string_body(s, i_old) == Some((seq![c] + p.0, p.1)));
                    assert(acc_old + (seq![c] + p.0) =~= acc@ + p.0);
                } else {
                    assert(sp_string_body(s, i_old) is None);
                }
            }
        }
    }
}

fn px_member(v: &Vec<char>, start: usize) -> (r: Option<((String, String), usize)>)
    requires
        start <= v@.len(),
    ensures
        match r {
            Some(p) => sp_member(v@, start as int) == Some((((p.0).0@, (p.0).1@), p.1 as int))
                && start < p.1 <= v@.len(),
            None => sp_member(v@, start as int) is None,
        },
{
    let i0 = px_skip_ws(v, start);
    if !(i0 < v.len()) {
        return None;
    }
    if !(v[i0] == '"') {
        return None;
    }
    match px_string_body(v, i0 + 1) {
        Some((k, i1)) => {
            let i2 = px_skip_ws(v, i1);
            if !(i2 < v.len()) {
                return None;
            }
            if !(v[i2] == ':') {
                return None;
            }
            let i3 = px_skip_ws(v, i2 + 1);
            if !(i3 < v.len()) {
                return None;
            }
            if !(v[i3] == '"') {
                return None;
            }
            match px_string_body(v, i3 + 1) {
                Some((val, i4)) => {
                    let ks = chars_to_string(&k);
                    let vs = chars_to_string(&val);
                    Some(((ks, vs), i4))
                },
                None => None,
            }
        },
        None => None,
    }
}

fn px_members(v: &Vec<char>, start: usize) -> (r: Option<(Vec<(String, String)>, usize)>)
    requires
        start <= v@.len(),
    ensures
        match r {
            Some(p) => sp_members(v@, start as int) == Some(
                (p.0@.map_values(|q: (String, String)| (q.0@, q.1@)), p.1 as int),
            ) && p.1 <= v@.len(),
            None => sp_members(v@, start as int) is None,
        },
{
    let ghost s = v@;
    let mut done: Vec<(String, String)> = Vec::new();
    let mut i = start;
    loop
        invariant
            i <= s.len(),
            s == v@,
            sp_members(s, start as int) == (match sp_members(s, i as int) {
                Some(p) => Some::<(Seq<(Seq<char>, Seq<char>)>, int)>(
                    (done@.map_values(|q: (String, String)| (q.0@, q.1@)) + p.0, p.1),
                ),
                None => None::<(Seq<(Seq<char>, Seq<char>)>, int)>,
            }),
        decreases s.len() - i,
    {
        match px_member(v, i) {
            Some((kv, j)) => {
                let ghost i_old = i as int;
                let ghost done_old = done@.map_values(|q: (String, String)| (q.0@, q.1@));
                let ghost kvv = (kv.0@, kv.1@);
                let i5 = px_skip_ws(v, j);
                if i5 < v.len() {
                    let c = v[i5];
                    if c == ',' {
                        done.push(kv);
                        i = i5 + 1;
                        proof {
                            assert(done@.map_values(|q: (String, String)| (q.0@, q.1@))
                                =~= done_old.push(kvv));
                            if sp_members(s, i as int) is Some {
                                let p = sp_members(s, i as int)->Some_0;
                                assert(sp_members(s, i_old) == Some((seq![kvv] + p.0, p.1)));
                                assert(done_old + (seq![kvv] + p.0) =~= done_old.push(kvv) + p.0);
                            } else {
                                assert(sp_members(s, i_old) is None);
                            }
                        }
                    } else if c == '}' {
                        done.push(kv);
                        proof {
                            assert(sp_members(s, i_old) == Some((seq![kvv], i5 + 1)));
                            assert(done_old + seq![kvv] =~= done@.map_values(
                                |q: (String, String)| (q.0@, q.1@),
                            ));
                        }
                        return Some((done, i5 + 1));
                    } else {
                        return None;
                    }
                } else {
                    return None;
                }
            },
            None => {
                return None;
            },
        }
    }
}


/// No key occurs twice.
pub open spec fn distinct_keys(es: Seq<(Seq<char>, Seq<char>)>) -> bool {
    forall|i: int, j: int| 0 <= i < j < es.len() ==> es[i].0 != es[j].0
}

/// Read a baseline back from its persisted text: `None` when the text is
/// not a JSON object of strings. A repeated key keeps its last value, as
/// the mapping the text denotes does; text that a baseline was serialized
/// from has no repeats, and parses back to the very same entries.
pub fn parse_baseline(text: &Vec<char>) -> (r: Option<Baseline>)
    ensures
        match r {
            Some(b) => {
                &&& sp_baseline(text@) matches Some(es)
                &&& b.wf()
                &&& b@ == crate::assoc::map_of_pairs(sp_baseline(text@)->Some_0)
                &&& distinct_keys(sp_baseline(text@)->Some_0) ==> b.entries_view()
                    =~= sp_baseline(text@)->Some_0
            },
            None => sp_baseline(text@) is None,
        },
{
    let ghost s = text@;
    let i0 = px_skip_ws(text, 0);
    if !(i0 < text.len()) {
        return None;
    }
    if !(text[i0] == '{') {
        return None;
    }
    let i1 = px_skip_ws(text, i0 + 1);
    let mut pairs: Vec<(String, String)>;
    let endpos: usize;
    if i1 < text.len() && text[i1] == '}' {
        pairs = Vec::new();
        endpos = i1 + 1;
        proof {
            assert(sp_object(s, 0) == Some((Seq::<(Seq<char>, Seq<char>)>::empty(), endpos as int)));
        }
    } else {
        match px_members(text, i0 + 1) {
            Some(p) => {
                pairs = p.0;
                endpos = p.1;
                proof {
                    assert(sp_object(s, 0) == Some(
                        (pairs@.map_values(|q: (String, String)| (q.0@, q.1@)), endpos as int),
                    ));
                }
            },
            None => {
                proof {
                    assert(sp_object(s, 0) is None);
                }
                return None;
            },
        }
    }
    let j = px_skip_ws(text, endpos);
    if j != text.len() {
        return None;
    }
    let ghost es = sp_baseline(s)->Some_0;
    proof {
        assert(sp_baseline(s) is Some);
        assert(es == pairs@.map_values(|q: (String, String)| (q.0@, q.1@)));
    }
    let ghost pv = es;
    let mut b = Baseline::new();
    let mut i: usize = 0;
    proof {
        assert(pv.take(0) =~= Seq::<(Seq<char>, Seq<char>)>::empty());
    }
    while i < pairs.len()
        invariant
            i <= pairs@.len(),
            pv == pairs@.map_values(|q: (String, String)| (q.0@, q.1@)),
            b.wf(),
            b@ =~= crate::assoc::map_of_pairs(pv.take(i as int)),
            distinct_keys(pv) ==> b.entries_view() =~= pv.take(i as int),
        decreases pairs@.len() - i,
    {
        let ghost bpre = b;
        b.set(&pairs[i].0, &pairs[i].1);
        proof {
            let t1 = pv.take(i + 1 as int);
            assert(t1.drop_last() =~= pv.take(i as int));
            assert(t1.last() == pv[i as int]);
            assert(pv[i as int].0 == pairs@[i as int].0@);
            assert(pv[i as int].1 == pairs@[i as int].1@);
            assert(crate::assoc::map_of_pairs(t1) == crate::assoc::map_of_pairs(
                pv.take(i as int),
            ).insert(pv[i as int].0, pv[i as int].1));
            assert(b@ =~= crate::assoc::map_of_pairs(t1));
            if distinct_keys(pv) {
                crate::assoc::lemma_map_of_pairs_contains(pv.take(i as int), pv[i as int].0);
                if bpre@.contains_key(pv[i as int].0) {
                    let ii = i as int;
                    let q = choose|q: int|
                        0 <= q < pv.take(ii).len() && pv.take(ii)[q].0 == pv[ii].0;
                    assert(pv[q].0 == pv[ii].0);
                    assert(false);
                }
                assert(b.entries_view() =~= pv.take(i as int).push(
                    (pv[i as int].0, pv[i as int].1),
                ));
                assert(pv.take(i as int).push((pv[i as int].0, pv[i as int].1)) =~= t1);
            }
        }
        i = i + 1;
    }
    proof {
        assert(pv.take(pairs@.len() as int) =~= pv);
    }
    Some(b)
}

/// `parse_baseline` on the `String` read from disk.
pub fn parse_baseline_string(text: &String) -> (r: Option<Baseline>)
    ensures
        match r {
            Some(b) => {
                &&& sp_baseline(text@) matches Some(es)
                &&& b.wf()
                &&& b@ == crate::assoc::map_of_pairs(sp_baseline(text@)->Some_0)
                &&& distinct_keys(sp_baseline(text@)->Some_0) ==> b.entries_view()
                    =~= sp_baseline(text@)->Some_0
            },
            None => sp_baseline(text@) is None,
        },
{
    let cs = str_to_chars(text.as_str());
    parse_baseline(&cs)
}

// ---------------------------------------------------------------------
// Round trip: parsing what was serialized returns the same entries.
// ---------------------------------------------------------------------

proof fn lemma_hex_digit_val(n: u8)
    requires
        n < 16,
    ensures
        hex_val(hex_digit(n)) == Some(n as u32),
{
    if n == 0 {
    } else if n == 1 {
    } else if n == 2 {
    } else if n == 3 {
    } else if n == 4 {
    } else if n == 5 {
    } else if n == 6 {
    } else if n == 7 {
    } else if n == 8 {
    } else if n == 9 {
    } else if n == 10 {
    } else if n == 11 {
    } else if n == 12 {
    } else if n == 13 {
    } else if n == 14 {
    } else {
    }
}

proof fn lemma_escape_round(c: char, pre: Seq<char>, post: Seq<char>)
    requires
        c == '"' || c == '\\' || (c as u32) < 32,
    ensures
        ({
            let s = pre + esc_char(c) + post;
            &&& s[pre.len() as int] == '\\'
            &&& sp_escape(s, pre.len() + 1 as int) == Some((c, pre.len() + esc_char(c).len() as int))
        }),
{
    let s = pre + esc_char(c) + post;
    let li = pre.len() as int;
    let ec = esc_char(c);
    assert forall|k: int| 0 <= k < ec.len() implies s[li + k] == ec[k] by {
        assert((pre + ec)[li + k] == ec[k]);
    }
    if c == '"' {
    } else if c == '\\' {
    } else if c == '\n' {
    } else if c == '\r' {
    } else if c == '\t' {
    } else {
        let hi = ((c as u32) / 16) as u8;
        let lo = ((c as u32) % 16) as u8;
        lemma_hex_digit_val(hi);
        lemma_hex_digit_val(lo);
        assert(s[li + 1] == 'u');
        assert(hex_val(s[li + 2]) == Some(0u32));
        assert(hex_val(s[li + 3]) == Some(0u32));
        assert(hex_val(s[li + 4]) == Some(hi as u32));
        assert(hex_val(s[li + 5]) == Some(lo as u32));
        assert(li + 1 + 5 <= s.len());
        let v = 0u32 * 4096 + 0u32 * 256 + (hi as u32) * 16 + (lo as u32);
        assert(v == c as u32);
        assert((v as u8) == ((c as u32) as u8));
        assert((((c as u32) as u8) as char) == c);
        assert(sp_escape(s, li + 1) == Some((c, li + 6)));
    }
}

proof fn lemma_string_body_round(t: Seq<char>, pre: Seq<char>, post: Seq<char>)
    ensures
        ({
            let s = pre + esc_str(t) + seq!['"'] + post;
            sp_string_body(s, pre.len() as int) == Some(
                (t, pre.len() + esc_str(t).len() + 1 as int),
            )
        }),
    decreases t.len(),
{
    let s = pre + esc_str(t) + seq!['"'] + post;
    let li = pre.len() as int;
    if t.len() == 0 {
        assert(esc_str(t) =~= Seq::<char>::empty());
        assert(s[li] == '"');
    } else {
        let c = t[0];
        let t2 = t.drop_first();
        let ec = esc_char(c);
        assert(esc_str(t) == ec + esc_str(t2));
        let pre2 = pre + ec;
        assert(s =~= pre2 + esc_str(t2) + seq!['"'] + post);
        lemma_string_body_round(t2, pre2, post);
        assert(sp_string_body(s, pre2.len() as int) == Some(
            (t2, pre2.len() + esc_str(t2).len() + 1 as int),
        ));
        assert(seq![c] + t2 =~= t);
        if c == '"' || c == '\\' || (c as u32) < 32 {
            let post2 = esc_str(t2) + seq!['"'] + post;
            assert(s =~= pre + ec + post2);
            lemma_escape_round(c, pre, post2);
            assert(sp_escape(s, li + 1) == Some((c, li + ec.len())));
            assert(pre2.len() == li + ec.len());
        } else {
            assert(ec == seq![c]);
            assert((pre + esc_str(t))[li] == esc_str(t)[0]);
            assert(s[li] == c);
            assert(s[li] != '"' && s[li] != '\\' && (s[li] as u32) >= 32);
        }
    }
}

#[verifier::rlimit(80)]
proof fn lemma_member_round(e: (Seq<char>, Seq<char>), pre: Seq<char>, post: Seq<char>)
    ensures
        ({
            let s = pre + item_text(e) + post;
            sp_member(s, pre.len() as int) == Some((e, pre.len() + item_text(e).len() as int))
        }),
{
    let s = pre + item_text(e) + post;
    let li = pre.len() as int;
    let it = item_text(e);
    assert forall|k: int| 0 <= k < it.len() implies s[li + k] == it[k] by {
        assert((pre + it)[li + k] == it[k]);
    }
    assert(s[li] == '\n' && s[li + 1] == ' ' && s[li + 2] == ' ');
    assert(it[3] == '"');
    assert(s[li + 3] == '"');
    assert(sp_skip_ws(s, li) == sp_skip_ws(s, li + 1));
    assert(sp_skip_ws(s, li + 1) == sp_skip_ws(s, li + 2));
    assert(sp_skip_ws(s, li + 2) == sp_skip_ws(s, li + 3));
    assert(sp_skip_ws(s, li + 3) == li + 3);
    let prek = pre + seq!['\n', ' ', ' ', '"'];
    let postk = seq![':', ' '] + quoted(e.1) + post;
    assert(s =~= prek + esc_str(e.0) + seq!['"'] + postk);
    lemma_string_body_round(e.0, prek, postk);
    let i1 = prek.len() + esc_str(e.0).len() + 1 as int;
    assert(sp_string_body(s, li + 4) == Some((e.0, i1)));
    let prec = pre + seq!['\n', ' ', ' '] + quoted(e.0);
    assert(i1 == prec.len());
    assert(s =~= prec + seq![':', ' '] + quoted(e.1) + post);
    assert(s[i1] == ':');
    assert(s[i1 + 1] == ' ');
    assert(s[i1 + 2] == '"');
    assert(sp_skip_ws(s, i1) == i1);
    assert(sp_skip_ws(s, i1 + 1) == sp_skip_ws(s, i1 + 2));
    assert(sp_skip_ws(s, i1 + 2) == i1 + 2);
    let prev = prec + seq![':', ' ', '"'];
    assert(s =~= prev + esc_str(e.1) + seq!['"'] + post);
    lemma_string_body_round(e.1, prev, post);
    let i4 = prev.len() + esc_str(e.1).len() + 1 as int;
    assert(sp_string_body(s, i1 + 3) == Some((e.1, i4)));
    assert(i4 == li + it.len());
    assert((e.0, e.1) == e);
}

#[verifier::rlimit(80)]
proof fn lemma_members_round(es: Seq<(Seq<char>, Seq<char>)>, pre: Seq<char>, post: Seq<char>)
    requires
        es.len() > 0,
    ensures
        ({
            let s = pre + items_text(es) + seq!['\n', '}'] + post;
            sp_members(s, pre.len() as int) == Some(
                (es, pre.len() + items_text(es).len() + 2 as int),
            )
        }),
    decreases es.len(),
{
    let s = pre + items_text(es) + seq!['\n', '}'] + post;
    let li = pre.len() as int;
    let it0 = item_text(es[0]);
    if es.len() == 1 {
        assert(items_text(es) == it0);
        let post2 = seq!['\n', '}'] + post;
        assert(s =~= pre + it0 + post2);
        lemma_member_round(es[0], pre, post2);
        let j = li + it0.len();
        assert(sp_member(s, li) == Some((es[0], j)));
        assert(s[j] == '\n');
        assert(s[j + 1] == '}');
        assert(sp_skip_ws(s, j) == sp_skip_ws(s, j + 1));
        assert(sp_skip_ws(s, j + 1) == j + 1);
        assert(seq![es[0]] =~= es);
    } else {
        let rest = es.drop_first();
        assert(items_text(es) == it0 + seq![','] + items_text(rest));
        let post2 = seq![','] + items_text(rest) + seq!['\n', '}'] + post;
        assert(s =~= pre + it0 + post2);
        lemma_member_round(es[0], pre, post2);
        let j = li + it0.len();
        assert(sp_member(s, li) == Some((es[0], j)));
        assert(s[j] == ',');
        assert(sp_skip_ws(s, j) == j);
        let pre2 = pre + it0 + seq![','];
        assert(s =~= pre2 + items_text(rest) + seq!['\n', '}'] + post);
        lemma_members_round(rest, pre2, post);
        assert(sp_members(s, j + 1) == Some(
            (rest, pre2.len() + items_text(rest).len() + 2 as int),
        ));
        assert(seq![es[0]] + rest =~= es);
        assert(pre2.len() + items_text(rest).len() + 2 == li + items_text(es).len() + 2);
    }
}

/// Law: the persisted text of any entry sequence parses back to exactly
/// that sequence — `parse(serialize(baseline)) == baseline`.
pub proof fn lemma_roundtrip(es: Seq<(Seq<char>, Seq<char>)>)
    ensures
        sp_baseline(serialized(es)) == Some(es),
{
    let s = serialized(es);
    if es.len() == 0 {
        assert(s[0] == '{' && s[1] == '}');
        assert(sp_skip_ws(s, 0) == 0);
        assert(sp_skip_ws(s, 1) == 1);
        assert(sp_object(s, 0) == Some((Seq::<(Seq<char>, Seq<char>)>::empty(), 2int)));
        assert(sp_skip_ws(s, 2) == 2);
        assert(Seq::<(Seq<char>, Seq<char>)>::empty() =~= es);
    } else {
        let items = items_text(es);
        assert(s == seq!['{'] + items + seq!['\n', '}']);
        let it0 = item_text(es[0]);
        assert forall|k: int| 0 <= k < it0.len() implies s[1 + k] == it0[k] by {
            assert(items[k] == it0[k]);
            assert((seq!['{'] + items)[1 + k] == items[k]);
        }
        assert(s[0] == '{');
        assert(sp_skip_ws(s, 0) == 0);
        assert(s[1] == '\n' && s[2] == ' ' && s[3] == ' ');
        assert(it0[3] == '"');
        assert(s[4] == '"');
        assert(sp_skip_ws(s, 1) == sp_skip_ws(s, 2));
        assert(sp_skip_ws(s, 2) == sp_skip_ws(s, 3));
        assert(sp_skip_ws(s, 3) == sp_skip_ws(s, 4));
        assert(sp_skip_ws(s, 4) == 4);
        assert(s =~= seq!['{'] + items + seq!['\n', '}'] + Seq::<char>::empty());
        lemma_members_round(es, seq!['{'], Seq::<char>::empty());
        assert(sp_members(s, 1) == Some((es, 1 + items.len() + 2 as int)));
        assert(1 + items.len() + 2 == s.len());
        assert(sp_object(s, 0) == Some((es, s.len() as int)));
        assert(sp_skip_ws(s, s.len() as int) == s.len());
    }
}

/// Law: for a well-formed baseline the round trip is exact at every level:
/// its keys are pairwise distinct, so the parsed entries — and with them
/// the parsed mapping — are the baseline's own.
pub proof fn lemma_baseline_roundtrip(b: Baseline)
    requires
        b.wf(),
    ensures
        sp_baseline(serialized(b.entries_view())) == Some(b.entries_view()),
        distinct_keys(b.entries_view()),
{
    lemma_roundtrip(b.entries_view());
    b.lemma_shape();
}

/// `serialize_baseline`, as the `String` written to disk.
pub fn serialize_baseline_string(b: &Baseline) -> (out: String)
    ensures
        out@ == serialized(b.entries_view()),
{
    let cs = serialize_baseline(b);
    chars_to_string(&cs)
}

} // verus!
