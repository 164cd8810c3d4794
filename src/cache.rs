//! The cache of the corpus: every extracted link with its title, as one JSON text
//! `[{"title":"..","link":".."},..]`. It is written compactly and read back whole, with
//! whitespace between tokens, either order of the two members and every string escape.
use vstd::prelude::*;

use crate::model::{Link, TwirLinkElement};
use crate::text::{chars_of, string_of};
use crate::twir_crawler::{views, CrawlerError};

verus! {

/// The lowercase hexadecimal digit of `n`, below sixteen.
pub open spec fn hex_digit(n: u32) -> char {
    if n < 10 {
        ((n + 48) as u8) as char
    } else {
        ((n + 87) as u8) as char
    }
}

/// How one character of a string is written between quotes: quote, backslash and control
/// characters are escaped, every other character stands for itself.
pub open spec fn escape_char(c: char) -> Seq<char> {
    if c == '"' {
        seq!['\\', '"']
    } else if c == '\\' {
        seq!['\\', '\\']
    } else if c == '\n' {
        seq!['\\', 'n']
    } else if c == '\r' {
        seq!['\\', 'r']
    } else if c == '\t' {
        seq!['\\', 't']
    } else if c == '\u{8}' {
        seq!['\\', 'b']
    } else if c == '\u{c}' {
        seq!['\\', 'f']
    } else if (c as u32) < 32 {
        seq!['\\', 'u', '0', '0', hex_digit((c as u32) / 16), hex_digit((c as u32) % 16)]
    } else {
        seq![c]
    }
}

/// How a string is written between quotes.
pub open spec fn escape(s: Seq<char>) -> Seq<char>
    decreases s.len(),
{
    if s.len() == 0 {
        Seq::empty()
    } else {
        escape_char(s[0]) + escape(s.drop_first())
    }
}

/// A string literal.
pub open spec fn quoted(s: Seq<char>) -> Seq<char> {
    seq!['"'] + escape(s) + seq!['"']
}

/// What opens a record, up to its title: `{"title":`.
pub open spec fn title_key() -> Seq<char> {
    seq!['{', '"', 't', 'i', 't', 'l', 'e', '"', ':']
}

/// What stands between the title and the link of a record: `,"link":`.
pub open spec fn link_key() -> Seq<char> {
    seq![',', '"', 'l', 'i', 'n', 'k', '"', ':']
}

/// How one (title, link) entry is written.
pub open spec fn record(e: (Seq<char>, Seq<char>)) -> Seq<char> {
    title_key() + quoted(e.0) + link_key() + quoted(e.1) + seq!['}']
}

/// The records of `xs`, each after a comma.
pub open spec fn sep_records(xs: Seq<(Seq<char>, Seq<char>)>) -> Seq<char>
    decreases xs.len(),
{
    if xs.len() == 0 {
        Seq::empty()
    } else {
        seq![','] + record(xs[0]) + sep_records(xs.drop_first())
    }
}

/// The records of `es`, separated by commas.
pub open spec fn records(es: Seq<(Seq<char>, Seq<char>)>) -> Seq<char> {
    if es.len() == 0 {
        Seq::empty()
    } else {
        record(es[0]) + sep_records(es.drop_first())
    }
}

/// The text of the cache for a corpus.
pub open spec fn encoding(es: Seq<(Seq<char>, Seq<char>)>) -> Seq<char> {
    seq!['['] + records(es) + seq![']']
}

/// `s` stands in `t` from position `p`.
pub open spec fn at(t: Seq<char>, p: int, s: Seq<char>) -> bool {
    0 <= p && p + s.len() <= t.len() && t.subrange(p, p + s.len()) == s
}

proof fn lemma_at_split(t: Seq<char>, p: int, x: Seq<char>, y: Seq<char>)
    requires
        at(t, p, x + y),
    ensures
        at(t, p, x),
        at(t, p + x.len(), y),
{
    let w = t.subrange(p, p + x.len() + y.len());
    assert(w == x + y);
    assert forall|j: int| 0 <= j < x.len() implies t.subrange(p, p + x.len())[j] == x[j] by {
        assert(w[j] == (x + y)[j]);
    }
    assert forall|j: int| 0 <= j < y.len() implies t.subrange(
        p + x.len(),
        p + x.len() + y.len(),
    )[j] == y[j] by {
        assert(w[x.len() + j] == (x + y)[x.len() + j]);
    }
    assert(t.subrange(p, p + x.len()) =~= x);
    assert(t.subrange(p + x.len(), p + x.len() + y.len()) =~= y);
}

proof fn lemma_hex_digit(n: u32)
    requires
        n < 16,
    ensures
        ('0' <= hex_digit(n) <= '9') || ('a' <= hex_digit(n) <= 'f'),
        '0' <= hex_digit(n) <= '9' ==> hex_digit(n) as u32 - 48 == n,
        'a' <= hex_digit(n) <= 'f' ==> hex_digit(n) as u32 - 87 == n,
{
}

proof fn lemma_char_code(a: char, b: char)
    requires
        a as u32 == b as u32,
    ensures
        a == b,
{
}

/// The name of the title member: `title`.
pub open spec fn title_name() -> Seq<char> {
    seq!['t', 'i', 't', 'l', 'e']
}

/// The name of the link member: `link`.
pub open spec fn link_name() -> Seq<char> {
    seq!['l', 'i', 'n', 'k']
}

/// Whitespace that may stand between the tokens of the cache.
pub open spec fn is_ws(c: char) -> bool {
    c == ' ' || c == '\t' || c == '\n' || c == '\r'
}

/// The position after the whitespace that starts at `p`.
pub open spec fn ws_end(t: Seq<char>, p: int) -> int
    decreases t.len() - p,
{
    if 0 <= p < t.len() && is_ws(t[p]) {
        ws_end(t, p + 1)
    } else {
        p
    }
}

/// The value of a hexadecimal digit, in either case.
pub open spec fn hex_val(c: char) -> Option<int> {
    if '0' <= c <= '9' {
        Some(c as u32 - 48)
    } else if 'a' <= c <= 'f' {
        Some(c as u32 - 87)
    } else if 'A' <= c <= 'F' {
        Some(c as u32 - 55)
    } else {
        None
    }
}

/// The value of the four hexadecimal digits that start at `i`.
pub open spec fn hex4(t: Seq<char>, i: int) -> Option<int> {
    if 0 <= i && i + 4 <= t.len() {
        match (hex_val(t[i]), hex_val(t[i + 1]), hex_val(t[i + 2]), hex_val(t[i + 3])) {
            (Some(a), Some(b), Some(c), Some(d)) => Some(a * 4096 + b * 256 + c * 16 + d),
            _ => None,
        }
    } else {
        None
    }
}

/// A code that some character has.
pub open spec fn is_scalar(v: int) -> bool {
    (0 <= v < 0xD800) || (0xE000 <= v < 0x110000)
}

/// The code of a character.
pub open spec fn code_of(c: char) -> int {
    c as u32 as int
}

/// The character whose code is `v`.
pub open spec fn char_of(v: int) -> char {
    choose|c: char| #[trigger] code_of(c) == v
}

/// The character written as `\u` escapes from `i`: one escape, or a surrogate pair of two.
pub open spec fn unicode_piece(t: Seq<char>, i: int) -> Option<(char, int)> {
    match hex4(t, i + 2) {
        Some(v) => if 0xD800 <= v < 0xDC00 {
            if i + 8 <= t.len() && t[i + 6] == '\\' && t[i + 7] == 'u' {
                match hex4(t, i + 8) {
                    Some(w) => if 0xDC00 <= w < 0xE000 {
                        Some((char_of(0x10000 + (v - 0xD800) * 1024 + (w - 0xDC00)), i + 12))
                    } else {
                        None
                    },
                    None => None,
                }
            } else {
                None
            }
        } else if 0xDC00 <= v < 0xE000 {
            None
        } else {
            Some((char_of(v), i + 6))
        },
        None => None,
    }
}

/// The character of a string literal written from `i`, and the position after it: a
/// character other than quote, backslash and control characters stands for itself, and a
/// backslash starts an escape.
pub open spec fn piece(t: Seq<char>, i: int) -> Option<(char, int)> {
    if i < 0 || i >= t.len() {
        None
    } else if t[i] == '\\' {
        if i + 1 >= t.len() {
            None
        } else {
            let d = t[i + 1];
            if d == '"' {
                Some(('"', i + 2))
            } else if d == '\\' {
                Some(('\\', i + 2))
            } else if d == '/' {
                Some(('/', i + 2))
            } else if d == 'b' {
                Some(('\u{8}', i + 2))
            } else if d == 'f' {
                Some(('\u{c}', i + 2))
            } else if d == 'n' {
                Some(('\n', i + 2))
            } else if d == 'r' {
                Some(('\r', i + 2))
            } else if d == 't' {
                Some(('\t', i + 2))
            } else if d == 'u' {
                unicode_piece(t, i)
            } else {
                None
            }
        }
    } else if t[i] == '"' || (t[i] as u32) < 32 {
        None
    } else {
        Some((t[i], i + 1))
    }
}

/// The rest of a string literal from `i`, up to and including its closing quote: the
/// characters it stands for and the position after it.
pub open spec fn string_body(t: Seq<char>, i: int) -> Option<(Seq<char>, int)>
    decreases t.len() - i,
{
    if i < 0 || i >= t.len() {
        None
    } else if t[i] == '"' {
        Some((Seq::empty(), i + 1))
    } else {
        match piece(t, i) {
            Some((c, j)) => if i < j <= t.len() {
                match string_body(t, j) {
                    Some((s, k)) => Some((seq![c] + s, k)),
                    None => None,
                }
            } else {
                None
            },
            None => None,
        }
    }
}

/// The string literal that starts at `p`: what it stands for and the position after it.
pub open spec fn string_at(t: Seq<char>, p: int) -> Option<(Seq<char>, int)> {
    if 0 <= p < t.len() && t[p] == '"' {
        string_body(t, p + 1)
    } else {
        None
    }
}

/// A member `"name" : "value"` after whitespace from `p`: its name, its value and the
/// position after it.
pub open spec fn member_at(t: Seq<char>, p: int) -> Option<(Seq<char>, Seq<char>, int)> {
    match string_at(t, ws_end(t, p)) {
        Some((k, q1)) => {
            let q2 = ws_end(t, q1);
            if 0 <= q2 < t.len() && t[q2] == ':' {
                match string_at(t, ws_end(t, q2 + 1)) {
                    Some((v, q3)) => Some((k, v, q3)),
                    None => None,
                }
            } else {
                None
            }
        },
        None => None,
    }
}

/// A record after whitespace from `p`: an object with a title and a link member, in either
/// order, as (title, link), and the position after it.
#[verifier::opaque]
pub open spec fn object_at(t: Seq<char>, p: int) -> Option<((Seq<char>, Seq<char>), int)> {
    let p0 = ws_end(t, p);
    if 0 <= p0 < t.len() && t[p0] == '{' {
        match member_at(t, p0 + 1) {
            Some((k1, v1, q1)) => {
                let p1 = ws_end(t, q1);
                if 0 <= p1 < t.len() && t[p1] == ',' {
                    match member_at(t, p1 + 1) {
                        Some((k2, v2, q2)) => {
                            let p2 = ws_end(t, q2);
                            if 0 <= p2 < t.len() && t[p2] == '}' {
                                if k1 == title_name() && k2 == link_name() {
                                    Some(((v1, v2), p2 + 1))
                                } else if k1 == link_name() && k2 == title_name() {
                                    Some(((v2, v1), p2 + 1))
                                } else {
                                    None
                                }
                            } else {
                                None
                            }
                        },
                        None => None,
                    }
                } else {
                    None
                }
            },
            None => None,
        }
    } else {
        None
    }
}

/// The records that follow a record, each after a comma, up to the closing bracket and
/// the end of the text.
pub open spec fn objects_after(t: Seq<char>, p: int) -> Option<Seq<(Seq<char>, Seq<char>)>>
    decreases t.len() - p,
{
    let q = ws_end(t, p);
    if !(0 <= q < t.len()) {
        None
    } else if t[q] == ']' {
        if ws_end(t, q + 1) == t.len() {
            Some(Seq::empty())
        } else {
            None
        }
    } else if t[q] == ',' {
        match object_at(t, q + 1) {
            Some((e, r)) => if p < r <= t.len() {
                match objects_after(t, r) {
                    Some(es) => Some(seq![e] + es),
                    None => None,
                }
            } else {
                None
            },
            None => None,
        }
    } else {
        None
    }
}

/// The corpus that a cache text holds: a bracketed list of records separated by commas,
/// with whitespace allowed between tokens; `None` where the text is no such list.
pub open spec fn corpus_of(t: Seq<char>) -> Option<Seq<(Seq<char>, Seq<char>)>> {
    let p = ws_end(t, 0);
    if !(0 <= p < t.len()) || t[p] != '[' {
        None
    } else {
        let q = ws_end(t, p + 1);
        if 0 <= q < t.len() && t[q] == ']' {
            if ws_end(t, q + 1) == t.len() {
                Some(Seq::empty())
            } else {
                None
            }
        } else {
            match object_at(t, p + 1) {
                Some((e, r)) => match objects_after(t, r) {
                    Some(es) => Some(seq![e] + es),
                    None => None,
                },
                None => None,
            }
        }
    }
}

/// A part of what stands from `p` stands from its offset.
proof fn lemma_at_part(t: Seq<char>, p: int, whole: Seq<char>, off: int, part: Seq<char>)
    requires
        at(t, p, whole),
        0 <= off,
        off + part.len() <= whole.len(),
        whole.subrange(off, off + part.len()) == part,
    ensures
        at(t, p + off, part),
{
    let w = t.subrange(p, p + whole.len());
    assert forall|j: int| 0 <= j < part.len() implies t.subrange(p + off, p + off + part.len())[j]
        == part[j] by {
        assert(w[off + j] == whole[off + j]);
        assert(whole.subrange(off, off + part.len())[j] == whole[off + j]);
    }
    assert(t.subrange(p + off, p + off + part.len()) =~= part);
}

proof fn lemma_escape_plain(s: Seq<char>)
    requires
        forall|i: int| 0 <= i < s.len() ==> 'a' <= #[trigger] s[i] <= 'z',
    ensures
        escape(s) == s,
    decreases s.len(),
{
    if s.len() > 0 {
        lemma_escape_plain(s.drop_first());
        assert(escape_char(s[0]) =~= seq![s[0]]);
        assert(seq![s[0]] + s.drop_first() =~= s);
    }
}

/// The character that `escape_char` writes is read back by `piece`.
proof fn lemma_piece_canonical(t: Seq<char>, i: int, c: char)
    requires
        at(t, i, escape_char(c)),
    ensures
        piece(t, i) == Some((c, i + escape_char(c).len())),
{
    let e = escape_char(c);
    assert(e[0] == t.subrange(i, i + e.len())[0]);
    if e.len() >= 2 {
        assert(e[1] == t.subrange(i, i + e.len())[1]);
    }
    if e.len() == 6 {
        let v = c as u32;
        assert(e[2] == t.subrange(i, i + 6)[2] && e[3] == t.subrange(i, i + 6)[3]);
        assert(e[4] == t.subrange(i, i + 6)[4] && e[5] == t.subrange(i, i + 6)[5]);
        lemma_hex_digit(v / 16);
        lemma_hex_digit(v % 16);
        assert(hex_val(t[i + 4]) == Some((v / 16) as int));
        assert(hex_val(t[i + 5]) == Some((v % 16) as int));
        assert(hex4(t, i + 2) == Some(v as int));
        lemma_char_of(c);
    }
}

proof fn lemma_escape_char_head(c: char)
    ensures
        escape_char(c).len() >= 1,
        escape_char(c)[0] != '"',
{
}

/// Escaped text and a closing quote are read back as the text.
proof fn lemma_body_canonical(t: Seq<char>, i: int, s: Seq<char>)
    requires
        at(t, i, escape(s) + seq!['"']),
    ensures
        string_body(t, i) == Some((s, i + escape(s).len() + 1)),
    decreases s.len(),
{
    if s.len() == 0 {
        assert(t.subrange(i, i + 1)[0] == (escape(s) + seq!['"'])[0]);
    } else {
        let h = escape_char(s[0]);
        let rest = escape(s.drop_first()) + seq!['"'];
        assert(escape(s) + seq!['"'] =~= h + rest);
        lemma_at_split(t, i, h, rest);
        lemma_escape_char_head(s[0]);
        assert(t.subrange(i, i + h.len())[0] == h[0]);
        lemma_piece_canonical(t, i, s[0]);
        lemma_body_canonical(t, i + h.len(), s.drop_first());
        assert(seq![s[0]] + s.drop_first() =~= s);
    }
}

proof fn lemma_string_canonical(t: Seq<char>, p: int, s: Seq<char>)
    requires
        at(t, p, quoted(s)),
    ensures
        string_at(t, p) == Some((s, p + quoted(s).len())),
{
    assert(quoted(s) =~= seq!['"'] + (escape(s) + seq!['"']));
    lemma_at_split(t, p, seq!['"'], escape(s) + seq!['"']);
    assert(t.subrange(p, p + 1)[0] == '"');
    lemma_body_canonical(t, p + 1, s);
}

proof fn lemma_char_at(t: Seq<char>, p: int, c: char)
    requires
        at(t, p, seq![c]),
        !is_ws(c),
    ensures
        0 <= p < t.len(),
        t[p] == c,
        ws_end(t, p) == p,
{
    assert(t.subrange(p, p + 1)[0] == c);
}

/// A member written as a quoted name, a colon and a quoted value is read back.
proof fn lemma_member_canonical(t: Seq<char>, p: int, k: Seq<char>, v: Seq<char>)
    requires
        at(t, p, quoted(k) + seq![':'] + quoted(v)),
    ensures
        member_at(t, p) == Some((k, v, p + quoted(k).len() + 1 + quoted(v).len())),
{
    let a = p + quoted(k).len();
    lemma_at_split(t, p, quoted(k) + seq![':'], quoted(v));
    lemma_at_split(t, p, quoted(k), seq![':']);
    assert(quoted(k)[0] == '"');
    assert(quoted(k).subrange(0, 1) =~= seq!['"']);
    lemma_at_part(t, p, quoted(k), 0, seq!['"']);
    lemma_char_at(t, p, '"');
    lemma_string_canonical(t, p, k);
    lemma_char_at(t, a, ':');
    assert(quoted(v)[0] == '"');
    assert(quoted(v).subrange(0, 1) =~= seq!['"']);
    lemma_at_part(t, a + 1, quoted(v), 0, seq!['"']);
    lemma_char_at(t, a + 1, '"');
    lemma_string_canonical(t, a + 1, v);
}

/// A record written by `record` is read back by `object_at`.
#[verifier::rlimit(40)]
proof fn lemma_object_canonical(t: Seq<char>, p: int, e: (Seq<char>, Seq<char>))
    requires
        at(t, p, record(e)),
    ensures
        object_at(t, p) == Some((e, p + record(e).len())),
{
    reveal(object_at);
    let tn = title_name();
    let ln = link_name();
    lemma_escape_plain(tn);
    lemma_escape_plain(ln);
    let m1 = quoted(tn) + seq![':'] + quoted(e.0);
    let m2 = quoted(ln) + seq![':'] + quoted(e.1);
    let w = record(e);
    assert(title_key() =~= seq!['{'] + quoted(tn) + seq![':']);
    assert(link_key() =~= seq![','] + quoted(ln) + seq![':']);
    assert(w =~= seq!['{'] + m1 + seq![','] + m2 + seq!['}']);
    let a1: int = 1 + m1.len() as int;
    let a2: int = a1 + 1 + m2.len() as int;
    lemma_at_split(t, p, seq!['{'] + m1 + seq![','] + m2, seq!['}']);
    lemma_at_split(t, p, seq!['{'] + m1 + seq![','], m2);
    lemma_at_split(t, p, seq!['{'] + m1, seq![',']);
    lemma_at_split(t, p, seq!['{'], m1);
    lemma_char_at(t, p, '{');
    lemma_member_canonical(t, p + 1, tn, e.0);
    lemma_char_at(t, p + a1, ',');
    lemma_member_canonical(t, p + a1 + 1, ln, e.1);
    lemma_char_at(t, p + a2, '}');
    assert(tn != ln) by {
        assert(tn.len() != ln.len());
    }
}

/// The records after commas and the closing bracket, ending the text, are read back.
proof fn lemma_objects_canonical(t: Seq<char>, p: int, xs: Seq<(Seq<char>, Seq<char>)>)
    requires
        at(t, p, sep_records(xs) + seq![']']),
        p + sep_records(xs).len() + 1 == t.len(),
    ensures
        objects_after(t, p) == Some(xs),
    decreases xs.len(),
{
    if xs.len() == 0 {
        assert(t.subrange(p, p + 1)[0] == (sep_records(xs) + seq![']'])[0]);
        assert(ws_end(t, p) == p);
        assert(ws_end(t, p + 1) == p + 1);
    } else {
        let r = record(xs[0]);
        let rest = sep_records(xs.drop_first()) + seq![']'];
        assert(sep_records(xs) + seq![']'] =~= seq![','] + (r + rest));
        lemma_at_split(t, p, seq![','], r + rest);
        lemma_at_split(t, p + 1, r, rest);
        assert(t.subrange(p, p + 1)[0] == ',');
        assert(ws_end(t, p) == p);
        lemma_object_canonical(t, p + 1, xs[0]);
        lemma_objects_canonical(t, p + 1 + r.len() as int, xs.drop_first());
        assert(seq![xs[0]] + xs.drop_first() =~= xs);
    }
}

/// Loading what was saved gives back the saved corpus, with the same entries in the same
/// order.
#[verifier::rlimit(40)]
pub proof fn lemma_load_inverts_save(es: Seq<(Seq<char>, Seq<char>)>)
    ensures
        corpus_of(encoding(es)) == Some(es),
{
    let t = encoding(es);
    assert(t.subrange(0, t.len() as int) =~= t);
    assert(t[0] == '[');
    assert(ws_end(t, 0) == 0);
    if es.len() == 0 {
        assert(t =~= seq!['[', ']']);
        assert(ws_end(t, 1) == 1);
        assert(ws_end(t, 2) == 2);
    } else {
        let r = record(es[0]);
        let rest = sep_records(es.drop_first()) + seq![']'];
        assert(t =~= seq!['['] + (r + rest));
        lemma_at_split(t, 0, seq!['['], r + rest);
        lemma_at_split(t, 1, r, rest);
        assert(r[0] == '{');
        assert(t.subrange(1, 1 + r.len() as int)[0] == '{');
        assert(ws_end(t, 1) == 1);
        lemma_object_canonical(t, 1, es[0]);
        lemma_objects_canonical(t, 1 + r.len() as int, es.drop_first());
        assert(seq![es[0]] + es.drop_first() =~= es);
    }
}

fn push_all(out: &mut Vec<char>, s: &Vec<char>)
    ensures
        final(out)@ == old(out)@ + s@,
{
    let mut i: usize = 0;
    while i < s.len()
        invariant
            i <= s.len(),
            out@ == old(out)@ + s@.take(i as int),
        decreases s.len() - i,
    {
        out.push(s[i]);
        assert(out@ =~= old(out)@ + s@.take(i + 1));
        i = i + 1;
    }
    assert(s@.take(s.len() as int) =~= s@);
}

fn hex_digit_of(n: u32) -> (c: char)
    requires
        n < 16,
    ensures
        c == hex_digit(n),
{
    if n < 10 {
        ((n + 48) as u8) as char
    } else {
        ((n + 87) as u8) as char
    }
}

fn push_escaped_char(out: &mut Vec<char>, c: char)
    ensures
        final(out)@ == old(out)@ + escape_char(c),
{
    let ghost start = out@;
    if c == '"' || c == '\\' {
        out.push('\\');
        out.push(c);
    } else if c == '\n' {
        out.push('\\');
        out.push('n');
    } else if c == '\r' {
        out.push('\\');
        out.push('r');
    } else if c == '\t' {
        out.push('\\');
        out.push('t');
    } else if c == '\u{8}' {
        out.push('\\');
        out.push('b');
    } else if c == '\u{c}' {
        out.push('\\');
        out.push('f');
    } else if (c as u32) < 32 {
        let v = c as u32;
        out.push('\\');
        out.push('u');
        out.push('0');
        out.push('0');
        out.push(hex_digit_of(v / 16));
        out.push(hex_digit_of(v % 16));
    } else {
        out.push(c);
    }
    assert(out@ =~= start + escape_char(c));
}

fn push_quoted(out: &mut Vec<char>, s: &Vec<char>)
    ensures
        final(out)@ == old(out)@ + quoted(s@),
{
    let ghost start = out@;
    out.push('"');
    let mut i: usize = 0;
    assert(s@.skip(0) =~= s@);
    while i < s.len()
        invariant
            i <= s.len(),
            out@ + escape(s@.skip(i as int)) == start + seq!['"'] + escape(s@),
        decreases s.len() - i,
    {
        let ghost before = out@;
        assert(s@.skip(i as int).drop_first() =~= s@.skip(i + 1));
        push_escaped_char(out, s[i]);
        assert(out@ + escape(s@.skip(i + 1)) =~= before + escape(s@.skip(i as int)));
        i = i + 1;
    }
    assert(s@.skip(s.len() as int) =~= Seq::<char>::empty());
    out.push('"');
    assert(out@ =~= start + quoted(s@));
}

fn push_record(out: &mut Vec<char>, e: &TwirLinkElement)
    ensures
        final(out)@ == old(out)@ + record(e@),
{
    let ghost start = out@;
    let title_key_chars = vec!['{', '"', 't', 'i', 't', 'l', 'e', '"', ':'];
    let link_key_chars = vec![',', '"', 'l', 'i', 'n', 'k', '"', ':'];
    assert(title_key_chars@ =~= title_key());
    assert(link_key_chars@ =~= link_key());
    push_all(out, &title_key_chars);
    push_quoted(out, &chars_of(e.title.as_str()));
    push_all(out, &link_key_chars);
    push_quoted(out, &chars_of(e.link.0.as_str()));
    out.push('}');
    assert(out@ =~= start + record(e@));
}

/// The text that the cache holds for a corpus.
pub fn encode_corpus(entries: &Vec<TwirLinkElement>) -> (r: String)
    ensures
        r@ == encoding(views(entries@)),
{
    let ghost es = views(entries@);
    let mut out: Vec<char> = Vec::new();
    out.push('[');
    if entries.len() > 0 {
        push_record(&mut out, &entries[0]);
        let mut i: usize = 1;
        assert(es.skip(1) =~= es.drop_first());
        while i < entries.len()
            invariant
                1 <= i <= entries.len(),
                es == views(entries@),
                out@ + sep_records(es.skip(i as int)) == seq!['['] + records(es),
            decreases entries.len() - i,
        {
            let ghost before = out@;
            assert(es.skip(i as int).drop_first() =~= es.skip(i + 1));
            out.push(',');
            push_record(&mut out, &entries[i]);
            assert(out@ + sep_records(es.skip(i + 1)) =~= before + sep_records(es.skip(i as int)));
            i = i + 1;
        }
        assert(es.skip(entries.len() as int) =~= Seq::<(Seq<char>, Seq<char>)>::empty());
    }
    out.push(']');
    assert(out@ =~= encoding(es));
    string_of(&out)
}

/// Relies on char::from_u32: the character whose code is `v` where `v` is a Unicode scalar
/// value, and `None` otherwise.
#[verifier::external_body]
fn char_from_code(v: u32) -> (r: Option<char>)
    ensures
        r is Some <==> is_scalar(v as int),
        r matches Some(c) ==> c as u32 == v,
{
    char::from_u32(v)
}

proof fn lemma_char_of(c: char)
    ensures
        char_of(c as u32 as int) == c,
{
    assert(code_of(c) == c as u32 as int);
    lemma_char_code(char_of(c as u32 as int), c);
}

fn skip_ws(t: &Vec<char>, p: usize) -> (q: usize)
    requires
        p <= t.len(),
    ensures
        p <= q <= t.len(),
        q as int == ws_end(t@, p as int),
{
    let mut q = p;
    while q < t.len() && (t[q] == ' ' || t[q] == '\t' || t[q] == '\n' || t[q] == '\r')
        invariant
            p <= q <= t.len(),
            ws_end(t@, p as int) == ws_end(t@, q as int),
        decreases t.len() - q,
    {
        q = q + 1;
    }
    q
}

fn hex_value(c: char) -> (r: Option<u32>)
    ensures
        match r {
            Some(v) => v < 16 && hex_val(c) == Some(v as int),
            None => hex_val(c) is None,
        },
{
    if '0' <= c && c <= '9' {
        Some(c as u32 - 48)
    } else if 'a' <= c && c <= 'f' {
        Some(c as u32 - 87)
    } else if 'A' <= c && c <= 'F' {
        Some(c as u32 - 55)
    } else {
        None
    }
}

fn hex4_value(t: &Vec<char>, i: usize) -> (r: Option<u32>)
    ensures
        match r {
            Some(v) => v < 65536 && hex4(t@, i as int) == Some(v as int),
            None => hex4(t@, i as int) is None,
        },
{
    if i > t.len() || t.len() - i < 4 {
        return None;
    }
    match (hex_value(t[i]), hex_value(t[i + 1]), hex_value(t[i + 2]), hex_value(t[i + 3])) {
        (Some(a), Some(b), Some(c), Some(d)) => Some(a * 4096 + b * 256 + c * 16 + d),
        _ => None,
    }
}

fn unicode_piece_exec(t: &Vec<char>, i: usize) -> (r: Option<(char, usize)>)
    requires
        i + 1 < t.len(),
    ensures
        match r {
            Some((c, j)) => unicode_piece(t@, i as int) == Some((c, j as int)) && i < j
                <= t.len(),
            None => unicode_piece(t@, i as int) is None,
        },
{
    let v = match hex4_value(t, i + 2) {
        Some(v) => v,
        None => return None,
    };
    if 0xD800 <= v && v < 0xDC00 {
        if t.len() - i >= 8 && t[i + 6] == '\\' && t[i + 7] == 'u' {
            let w = match hex4_value(t, i + 8) {
                Some(w) => w,
                None => return None,
            };
            if 0xDC00 <= w && w < 0xE000 {
                let code = 0x10000 + (v - 0xD800) * 1024 + (w - 0xDC00);
                match char_from_code(code) {
                    Some(c) => {
                        proof {
                            lemma_char_of(c);
                        }
                        return Some((c, i + 12));
                    },
                    None => {
                        return None;
                    },
                }
            }
        }
        return None;
    }
    if 0xDC00 <= v && v < 0xE000 {
        return None;
    }
    match char_from_code(v) {
        Some(c) => {
            proof {
                lemma_char_of(c);
            }
            Some((c, i + 6))
        },
        None => None,
    }
}

fn piece_exec(t: &Vec<char>, i: usize) -> (r: Option<(char, usize)>)
    requires
        i < t.len(),
    ensures
        match r {
            Some((c, j)) => piece(t@, i as int) == Some((c, j as int)) && i < j <= t.len(),
            None => piece(t@, i as int) is None,
        },
{
    let c = t[i];
    if c == '\\' {
        if i + 1 >= t.len() {
            return None;
        }
        let d = t[i + 1];
        if d == '"' {
            Some(('"', i + 2))
        } else if d == '\\' {
            Some(('\\', i + 2))
        } else if d == '/' {
            Some(('/', i + 2))
        } else if d == 'b' {
            Some(('\u{8}', i + 2))
        } else if d == 'f' {
            Some(('\u{c}', i + 2))
        } else if d == 'n' {
            Some(('\n', i + 2))
        } else if d == 'r' {
            Some(('\r', i + 2))
        } else if d == 't' {
            Some(('\t', i + 2))
        } else if d == 'u' {
            unicode_piece_exec(t, i)
        } else {
            None
        }
    } else if c == '"' || (c as u32) < 32 {
        None
    } else {
        Some((c, i + 1))
    }
}

/// `a` put before the text that a parse found.
pub open spec fn prepend(a: Seq<char>, r: Option<(Seq<char>, int)>) -> Option<(Seq<char>, int)> {
    match r {
        Some((s, k)) => Some((a + s, k)),
        None => None,
    }
}

fn string_exec(t: &Vec<char>, p: usize) -> (r: Option<(Vec<char>, usize)>)
    requires
        p <= t.len(),
    ensures
        match r {
            Some((s, q)) => string_at(t@, p as int) == Some((s@, q as int)) && p < q <= t.len(),
            None => string_at(t@, p as int) is None,
        },
{
    if p >= t.len() || t[p] != '"' {
        return None;
    }
    let mut acc: Vec<char> = Vec::new();
    let mut i: usize = p + 1;
    assert(prepend(acc@, string_body(t@, i as int)) == string_body(t@, i as int)) by {
        match string_body(t@, i as int) {
            Some((s, k)) => {
                assert(acc@ + s =~= s);
            },
            None => {},
        }
    }
    while i < t.len()
        invariant
            p < i <= t.len(),
            string_at(t@, p as int) == prepend(acc@, string_body(t@, i as int)),
        decreases t.len() - i,
    {
        if t[i] == '"' {
            assert(acc@ + Seq::<char>::empty() =~= acc@);
            return Some((acc, i + 1));
        }
        match piece_exec(t, i) {
            Some((c, j)) => {
                let ghost before = acc@;
                proof {
                    match string_body(t@, j as int) {
                        Some((s, k)) => {
                            assert(before + (seq![c] + s) =~= before.push(c) + s);
                        },
                        None => {},
                    }
                }
                acc.push(c);
                i = j;
            },
            None => {
                return None;
            },
        }
    }
    None
}

fn member_exec(t: &Vec<char>, p: usize) -> (r: Option<(Vec<char>, Vec<char>, usize)>)
    requires
        p <= t.len(),
    ensures
        match r {
            Some((k, v, q)) => member_at(t@, p as int) == Some((k@, v@, q as int)) && p < q
                <= t.len(),
            None => member_at(t@, p as int) is None,
        },
{
    let q0 = skip_ws(t, p);
    let (k, q1) = match string_exec(t, q0) {
        Some(found) => found,
        None => return None,
    };
    let q2 = skip_ws(t, q1);
    if q2 >= t.len() || t[q2] != ':' {
        return None;
    }
    let q3 = skip_ws(t, q2 + 1);
    match string_exec(t, q3) {
        Some((v, q4)) => Some((k, v, q4)),
        None => None,
    }
}

fn same_chars(a: &Vec<char>, b: &Vec<char>) -> (r: bool)
    ensures
        r == (a@ == b@),
{
    if a.len() != b.len() {
        return false;
    }
    let mut i: usize = 0;
    while i < a.len()
        invariant
            i <= a.len(),
            a.len() == b.len(),
            forall|j: int| 0 <= j < i ==> a@[j] == b@[j],
        decreases a.len() - i,
    {
        if a[i] != b[i] {
            return false;
        }
        i = i + 1;
    }
    assert(a@ =~= b@);
    true
}

fn object_exec(t: &Vec<char>, p: usize) -> (r: Option<(TwirLinkElement, usize)>)
    requires
        p <= t.len(),
    ensures
        match r {
            Some((e, q)) => object_at(t@, p as int) == Some((e@, q as int)) && p < q <= t.len(),
            None => object_at(t@, p as int) is None,
        },
{
    proof {
        reveal(object_at);
    }
    let title = vec!['t', 'i', 't', 'l', 'e'];
    let link = vec!['l', 'i', 'n', 'k'];
    assert(title@ =~= title_name());
    assert(link@ =~= link_name());
    let p0 = skip_ws(t, p);
    if p0 >= t.len() || t[p0] != '{' {
        return None;
    }
    let (k1, v1, q1) = match member_exec(t, p0 + 1) {
        Some(found) => found,
        None => return None,
    };
    let p1 = skip_ws(t, q1);
    if p1 >= t.len() || t[p1] != ',' {
        return None;
    }
    let (k2, v2, q2) = match member_exec(t, p1 + 1) {
        Some(found) => found,
        None => return None,
    };
    let p2 = skip_ws(t, q2);
    if p2 >= t.len() || t[p2] != '}' {
        return None;
    }
    if same_chars(&k1, &title) && same_chars(&k2, &link) {
        Some((TwirLinkElement::new(Link(string_of(&v2)), string_of(&v1)), p2 + 1))
    } else if same_chars(&k1, &link) && same_chars(&k2, &title) {
        Some((TwirLinkElement::new(Link(string_of(&v1)), string_of(&v2)), p2 + 1))
    } else {
        None
    }
}

/// Reads the corpus that a cache text holds. It fails, with `Deserialize`, exactly when the
/// text holds none.
pub fn decode_corpus(text: &str) -> (r: Result<Vec<TwirLinkElement>, CrawlerError>)
    ensures
        match r {
            Ok(v) => corpus_of(text@) == Some(views(v@)),
            Err(e) => e is Deserialize && corpus_of(text@) is None,
        },
{
    let t = chars_of(text);
    let n = t.len();
    let p = skip_ws(&t, 0);
    if p >= n || t[p] != '[' {
        return Err(CrawlerError::Deserialize);
    }
    let q = skip_ws(&t, p + 1);
    if q < n && t[q] == ']' {
        if skip_ws(&t, q + 1) == n {
            let v: Vec<TwirLinkElement> = Vec::new();
            assert(views(v@) =~= Seq::<(Seq<char>, Seq<char>)>::empty());
            return Ok(v);
        }
        return Err(CrawlerError::Deserialize);
    }
    let (first, r0) = match object_exec(&t, p + 1) {
        Some(found) => found,
        None => return Err(CrawlerError::Deserialize),
    };
    let mut acc: Vec<TwirLinkElement> = Vec::new();
    acc.push(first);
    let mut pos: usize = r0;
    assert(views(acc@) =~= seq![first@]);
    loop
        invariant
            pos <= n,
            n == t.len(),
            t@ == text@,
            acc.len() >= 1,
            corpus_of(t@) == (match objects_after(t@, pos as int) {
                Some(es) => Some(views(acc@) + es),
                None => None::<Seq<(Seq<char>, Seq<char>)>>,
            }),
        decreases n - pos,
    {
        let q = skip_ws(&t, pos);
        if q >= n {
            return Err(CrawlerError::Deserialize);
        }
        if t[q] == ']' {
            if skip_ws(&t, q + 1) == n {
                assert(views(acc@) + Seq::<(Seq<char>, Seq<char>)>::empty() =~= views(acc@));
                return Ok(acc);
            }
            return Err(CrawlerError::Deserialize);
        }
        if t[q] != ',' {
            return Err(CrawlerError::Deserialize);
        }
        match object_exec(&t, q + 1) {
            Some((e, r)) => {
                let ghost before = views(acc@);
                proof {
                    match objects_after(t@, r as int) {
                        Some(es) => {
                            assert(before + (seq![e@] + es) =~= before.push(e@) + es);
                        },
                        None => {},
                    }
                }
                acc.push(e);
                assert(views(acc@) =~= before.push(e@));
                pos = r;
            },
            None => {
                return Err(CrawlerError::Deserialize);
            },
        }
    }
}

} // verus!
