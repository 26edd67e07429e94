use vstd::prelude::*;
use vstd::string::StrSliceExecFns;

use crate::model::{views_of, Lookup, LookupV};
use crate::text::{chars_to_string, push_chars};

verus! {

/// The lowercase hexadecimal digit of a value below sixteen.
pub open spec fn hex_digit(n: int) -> char {
    if n == 0 {
        '0'
    } else if n == 1 {
        '1'
    } else if n == 2 {
        '2'
    } else if n == 3 {
        '3'
    } else if n == 4 {
        '4'
    } else if n == 5 {
        '5'
    } else if n == 6 {
        '6'
    } else if n == 7 {
        '7'
    } else if n == 8 {
        '8'
    } else if n == 9 {
        '9'
    } else if n == 10 {
        'a'
    } else if n == 11 {
        'b'
    } else if n == 12 {
        'c'
    } else if n == 13 {
        'd'
    } else if n == 14 {
        'e'
    } else {
        'f'
    }
}

/// How one character appears inside a JSON string literal: the named short
/// escapes, a `\u00XX` escape for the other control characters, and the
/// character itself for everything else.
pub open spec fn escape_char(c: char) -> Seq<char> {
    if c == '"' {
        seq!['\\', '"']
    } else if c == '\\' {
        seq!['\\', '\\']
    } else if c == '\u{0008}' {
        seq!['\\', 'b']
    } else if c == '\u{000C}' {
        seq!['\\', 'f']
    } else if c == '\n' {
        seq!['\\', 'n']
    } else if c == '\r' {
        seq!['\\', 'r']
    } else if c == '\t' {
        seq!['\\', 't']
    } else if (c as u32) < 0x20 {
        seq!['\\', 'u', '0', '0', hex_digit(c as int / 16), hex_digit(c as int % 16)]
    } else {
        seq![c]
    }
}

/// A whole string escaped, character by character, in order.
pub open spec fn escape_str(s: Seq<char>) -> Seq<char>
    decreases s.len(),
{
    if s.len() == 0 {
        Seq::empty()
    } else {
        escape_char(s[0]) + escape_str(s.skip(1))
    }
}

/// A JSON string literal: quotes around the escaped characters.
pub open spec fn quoted(s: Seq<char>) -> Seq<char> {
    seq!['"'] + escape_str(s) + seq!['"']
}

/// One entry as a JSON object, its four fields in fixed order.
pub open spec fn json_of_lookup(l: LookupV) -> Seq<char> {
    "{\"kind\":"@ + quoted(l.kind) + ",\"name\":"@ + quoted(l.name) + ",\"value\":"@ + quoted(
        l.value,
    ) + ",\"state\":"@ + quoted(l.state) + "}"@
}

/// The entries as JSON objects joined with commas, in order.
pub open spec fn json_items(ls: Seq<LookupV>) -> Seq<char>
    decreases ls.len(),
{
    if ls.len() == 0 {
        Seq::empty()
    } else if ls.len() == 1 {
        json_of_lookup(ls[0])
    } else {
        json_of_lookup(ls[0]) + seq![','] + json_items(ls.skip(1))
    }
}

/// The whole rendering: one JSON array of the entries, in order.
pub open spec fn json_of(ls: Seq<LookupV>) -> Seq<char> {
    seq!['['] + json_items(ls) + seq![']']
}

fn hex_digit_exec(n: u32) -> (c: char)
    requires
        n < 16,
    ensures
        c == hex_digit(n as int),
{
    if n == 0 {
        '0'
    } else if n == 1 {
        '1'
    } else if n == 2 {
        '2'
    } else if n == 3 {
        '3'
    } else if n == 4 {
        '4'
    } else if n == 5 {
        '5'
    } else if n == 6 {
        '6'
    } else if n == 7 {
        '7'
    } else if n == 8 {
        '8'
    } else if n == 9 {
        '9'
    } else if n == 10 {
        'a'
    } else if n == 11 {
        'b'
    } else if n == 12 {
        'c'
    } else if n == 13 {
        'd'
    } else if n == 14 {
        'e'
    } else {
        'f'
    }
}

fn push_escaped_char(out: &mut Vec<char>, c: char)
    ensures
        final(out)@ == old(out)@ + escape_char(c),
{
    if c == '"' {
        out.push('\\');
        out.push('"');
        proof {
            assert(out@ =~= old(out)@ + escape_char(c));
        }
    } else if c == '\\' {
        out.push('\\');
        out.push('\\');
        proof {
            assert(out@ =~= old(out)@ + escape_char(c));
        }
    } else if c == '\u{0008}' {
        out.push('\\');
        out.push('b');
        proof {
            assert(out@ =~= old(out)@ + escape_char(c));
        }
    } else if c == '\u{000C}' {
        out.push('\\');
        out.push('f');
        proof {
            assert(out@ =~= old(out)@ + escape_char(c));
        }
    } else if c == '\n' {
        out.push('\\');
        out.push('n');
        proof {
            assert(out@ =~= old(out)@ + escape_char(c));
        }
    } else if c == '\r' {
        out.push('\\');
        out.push('r');
        proof {
            assert(out@ =~= old(out)@ + escape_char(c));
        }
    } else if c == '\t' {
        out.push('\\');
        out.push('t');
        proof {
            assert(out@ =~= old(out)@ + escape_char(c));
        }
    } else if (c as u32) < 0x20 {
        out.push('\\');
        out.push('u');
        out.push('0');
        out.push('0');
        let d1 = hex_digit_exec((c as u32) / 16);
        let d2 = hex_digit_exec((c as u32) % 16);
        out.push(d1);
        out.push(d2);
        proof {
            assert(out@ =~= old(out)@ + escape_char(c));
        }
    } else {
        out.push(c);
        proof {
            assert(out@ =~= old(out)@ + escape_char(c));
        }
    }
}

/// Escaping one more character appends exactly its escape.
proof fn lemma_escape_snoc(s: Seq<char>, i: int)
    requires
        0 <= i < s.len(),
    ensures
        escape_str(s.take(i + 1)) == escape_str(s.take(i)) + escape_char(s[i]),
    decreases i,
{
    if i == 0 {
        assert(s.take(1).skip(1) =~= Seq::<char>::empty());
        assert(escape_str(Seq::<char>::empty()) =~= Seq::<char>::empty());
        assert(escape_str(s.take(0)) =~= Seq::<char>::empty());
        assert(escape_str(s.take(1)) == escape_char(s.take(1)[0]) + escape_str(s.take(1).skip(1)));
        assert(escape_str(s.take(1)) =~= escape_str(s.take(0)) + escape_char(s[0]));
    } else {
        lemma_escape_snoc(s.skip(1), i - 1);
        assert(s.take(i + 1).skip(1) =~= s.skip(1).take(i));
        assert(s.take(i).skip(1) =~= s.skip(1).take(i - 1));
        assert(s.skip(1)[i - 1] == s[i]);
        assert(escape_str(s.take(i + 1)) =~= escape_str(s.take(i)) + escape_char(s[i]));
    }
}

fn push_escaped(out: &mut Vec<char>, s: &str)
    ensures
        final(out)@ == old(out)@ + escape_str(s@),
{
    let n = s.unicode_len();
    let mut i: usize = 0;
    while i < n
        invariant
            n == s@.len(),
            i <= n,
            out@ == old(out)@ + escape_str(s@.take(i as int)),
        decreases n - i,
    {
        let c = s.get_char(i);
        push_escaped_char(out, c);
        proof {
            lemma_escape_snoc(s@, i as int);
        }
        i += 1;
    }
    proof {
        assert(s@.take(s@.len() as int) =~= s@);
    }
}

fn push_quoted(out: &mut Vec<char>, s: &str)
    ensures
        final(out)@ == old(out)@ + quoted(s@),
{
    out.push('"');
    push_escaped(out, s);
    out.push('"');
    proof {
        assert(out@ =~= old(out)@ + quoted(s@));
    }
}

fn push_lookup_json(out: &mut Vec<char>, l: &Lookup)
    ensures
        final(out)@ == old(out)@ + json_of_lookup(l@),
{
    push_chars(out, "{\"kind\":");
    push_quoted(out, l.kind.as_str());
    push_chars(out, ",\"name\":");
    push_quoted(out, l.name.as_str());
    push_chars(out, ",\"value\":");
    push_quoted(out, l.value.as_str());
    push_chars(out, ",\"state\":");
    push_quoted(out, l.state.as_str());
    push_chars(out, "}");
    proof {
        assert(out@ =~= old(out)@ + json_of_lookup(l@));
    }
}

/// Joining one more entry appends a separating comma first, except before
/// the first entry.
proof fn lemma_json_items_snoc(ls: Seq<LookupV>, i: int)
    requires
        0 <= i < ls.len(),
    ensures
        i == 0 ==> json_items(ls.take(1)) == json_of_lookup(ls[0]),
        i >= 1 ==> json_items(ls.take(i + 1)) == json_items(ls.take(i)) + seq![',']
            + json_of_lookup(ls[i]),
    decreases i,
{
    if i == 0 {
        assert(json_items(ls.take(1)) == json_of_lookup(ls.take(1)[0]));
    } else if i == 1 {
        assert(ls.take(2).skip(1) =~= ls.skip(1).take(1));
        assert(json_items(ls.take(2)) == json_of_lookup(ls.take(2)[0]) + seq![','] + json_items(
            ls.take(2).skip(1),
        ));
        assert(json_items(ls.skip(1).take(1)) == json_of_lookup(ls.skip(1).take(1)[0]));
        assert(json_items(ls.take(1)) == json_of_lookup(ls.take(1)[0]));
        assert(ls.skip(1).take(1)[0] == ls[1]);
        assert(json_items(ls.take(2)) =~= json_items(ls.take(1)) + seq![','] + json_of_lookup(
            ls[1],
        ));
    } else {
        lemma_json_items_snoc(ls.skip(1), i - 1);
        assert(ls.take(i + 1).skip(1) =~= ls.skip(1).take(i));
        assert(ls.take(i).skip(1) =~= ls.skip(1).take(i - 1));
        assert(ls.skip(1)[i - 1] == ls[i]);
        assert(json_items(ls.take(i + 1)) == json_of_lookup(ls.take(i + 1)[0]) + seq![',']
            + json_items(ls.take(i + 1).skip(1)));
        assert(json_items(ls.take(i)) == json_of_lookup(ls.take(i)[0]) + seq![','] + json_items(
            ls.take(i).skip(1),
        ));
        assert(json_items(ls.take(i + 1)) =~= json_items(ls.take(i)) + seq![','] + json_of_lookup(
            ls[i],
        ));
    }
}

/// Render the entries as one JSON array, written as a single line.
pub fn render_json(lookups: &Vec<Lookup>) -> (r: String)
    ensures
        r@ == json_of(views_of(lookups@)),
{
    let ghost vs = views_of(lookups@);
    let mut buf: Vec<char> = Vec::new();
    buf.push('[');
    let mut i: usize = 0;
    while i < lookups.len()
        invariant
            i <= lookups.len(),
            vs == views_of(lookups@),
            vs.len() == lookups@.len(),
            buf@ == seq!['['] + json_items(vs.take(i as int)),
        decreases lookups.len() - i,
    {
        if i > 0 {
            buf.push(',');
        }
        push_lookup_json(&mut buf, &lookups[i]);
        proof {
            lemma_json_items_snoc(vs, i as int);
            assert(vs[i as int] == lookups@[i as int]@);
            assert(buf@ =~= seq!['['] + json_items(vs.take(i + 1)));
        }
        i += 1;
    }
    buf.push(']');
    proof {
        assert(vs.take(vs.len() as int) =~= vs);
        assert(buf@ =~= json_of(vs));
    }
    chars_to_string(&buf)
}


/// The numeric value of a lowercase hexadecimal digit, or sixteen for any
/// other character.
pub open spec fn hex_val(c: char) -> int {
    if c == '0' {
        0
    } else if c == '1' {
        1
    } else if c == '2' {
        2
    } else if c == '3' {
        3
    } else if c == '4' {
        4
    } else if c == '5' {
        5
    } else if c == '6' {
        6
    } else if c == '7' {
        7
    } else if c == '8' {
        8
    } else if c == '9' {
        9
    } else if c == 'a' {
        10
    } else if c == 'b' {
        11
    } else if c == 'c' {
        12
    } else if c == 'd' {
        13
    } else if c == 'e' {
        14
    } else if c == 'f' {
        15
    } else {
        16
    }
}

/// Read one escape code, starting after the backslash: the character it
/// stands for, and how many characters the code took.
pub open spec fn parse_escape(s: Seq<char>) -> Option<(char, int)> {
    if s.len() == 0 {
        None
    } else if s[0] == '"' {
        Some(('"', 1))
    } else if s[0] == '\\' {
        Some(('\\', 1))
    } else if s[0] == 'b' {
        Some(('\u{0008}', 1))
    } else if s[0] == 'f' {
        Some(('\u{000C}', 1))
    } else if s[0] == 'n' {
        Some(('\n', 1))
    } else if s[0] == 'r' {
        Some(('\r', 1))
    } else if s[0] == 't' {
        Some(('\t', 1))
    } else if s[0] == 'u' {
        if s.len() >= 5 && s[1] == '0' && s[2] == '0' && hex_val(s[3]) < 16 && hex_val(s[4]) < 16 {
            Some((((hex_val(s[3]) * 16 + hex_val(s[4])) as u8) as char, 5))
        } else {
            None
        }
    } else {
        None
    }
}

/// Read a JSON string body up to its closing quote, undoing the escapes:
/// the content, and what follows the closing quote.
pub open spec fn parse_string_body(s: Seq<char>) -> Option<(Seq<char>, Seq<char>)>
    decreases s.len(),
{
    if s.len() == 0 {
        None
    } else if s[0] == '"' {
        Some((Seq::empty(), s.skip(1)))
    } else if s[0] == '\\' {
        match parse_escape(s.skip(1)) {
            None => None,
            Some((c, n)) => {
                if 0 <= n && 1 + n <= s.len() {
                    match parse_string_body(s.skip(1 + n)) {
                        None => None,
                        Some((v, rest)) => Some((seq![c] + v, rest)),
                    }
                } else {
                    None
                }
            },
        }
    } else {
        match parse_string_body(s.skip(1)) {
            None => None,
            Some((v, rest)) => Some((seq![s[0]] + v, rest)),
        }
    }
}

/// Expect a fixed token at the head; yield what follows it.
pub open spec fn expect(s: Seq<char>, tok: Seq<char>) -> Option<Seq<char>> {
    if tok.len() <= s.len() && s.take(tok.len() as int) == tok {
        Some(s.skip(tok.len() as int))
    } else {
        None
    }
}

/// Read `key` followed by a JSON string literal: the literal's content, and
/// what follows it.
pub open spec fn parse_field(s: Seq<char>, key: Seq<char>) -> Option<(Seq<char>, Seq<char>)> {
    match expect(s, key) {
        None => None,
        Some(r) => {
            if r.len() >= 1 && r[0] == '"' {
                parse_string_body(r.skip(1))
            } else {
                None
            }
        },
    }
}

/// Read one entry's JSON object: the entry, and what follows it.
pub open spec fn parse_lookup(s: Seq<char>) -> Option<(LookupV, Seq<char>)> {
    match parse_field(s, "{\"kind\":"@) {
        None => None,
        Some((kind, r1)) => match parse_field(r1, ",\"name\":"@) {
            None => None,
            Some((name, r2)) => match parse_field(r2, ",\"value\":"@) {
                None => None,
                Some((value, r3)) => match parse_field(r3, ",\"state\":"@) {
                    None => None,
                    Some((state, r4)) => match expect(r4, "}"@) {
                        None => None,
                        Some(r5) => Some((LookupV { kind, name, value, state }, r5)),
                    },
                },
            },
        },
    }
}

/// Read one or more comma-separated entries: the entries, and what follows
/// them.
pub open spec fn parse_items(s: Seq<char>) -> Option<(Seq<LookupV>, Seq<char>)>
    decreases s.len(),
{
    match parse_lookup(s) {
        None => None,
        Some((l, rest)) => {
            if rest.len() >= 1 && rest[0] == ',' && rest.len() < s.len() {
                match parse_items(rest.skip(1)) {
                    None => None,
                    Some((ls, rest2)) => Some((seq![l] + ls, rest2)),
                }
            } else {
                Some((seq![l], rest))
            }
        },
    }
}

/// Read a whole rendered batch back: the JSON array of entries, with
/// nothing before or after it.
pub open spec fn parse_json_spec(s: Seq<char>) -> Option<Seq<LookupV>> {
    if s.len() >= 2 && s[0] == '[' {
        if s == seq!['[', ']'] {
            Some(Seq::empty())
        } else {
            match parse_items(s.skip(1)) {
                None => None,
                Some((ls, rest)) => {
                    if rest == seq![']'] {
                        Some(ls)
                    } else {
                        None
                    }
                },
            }
        }
    } else {
        None
    }
}

/// Reading a hexadecimal digit back yields the value it was written from.
proof fn lemma_hex_inverse(n: int)
    requires
        0 <= n < 16,
    ensures
        hex_val(hex_digit(n)) == n,
{
}

/// Reading an escape code back yields the character it was written from.
proof fn lemma_parse_escape_char(c: char, tail: Seq<char>)
    requires
        escape_char(c).len() >= 2,
    ensures
        escape_char(c)[0] == '\\',
        parse_escape(escape_char(c).skip(1) + tail) == Some((c, escape_char(c).len() - 1)),
{
    let e = escape_char(c).skip(1) + tail;
    if c == '"' {
        assert(e[0] == '"');
        assert(parse_escape(e) == Some(('"', 1int)));
    } else if c == '\\' {
        assert(e[0] == '\\');
        assert(parse_escape(e) == Some(('\\', 1int)));
    } else if c == '\u{0008}' {
        assert(e[0] == 'b');
        assert(parse_escape(e) == Some(('\u{0008}', 1int)));
    } else if c == '\u{000C}' {
        assert(e[0] == 'f');
        assert(parse_escape(e) == Some(('\u{000C}', 1int)));
    } else if c == '\n' {
        assert(e[0] == 'n');
        assert(parse_escape(e) == Some(('\n', 1int)));
    } else if c == '\r' {
        assert(e[0] == 'r');
        assert(parse_escape(e) == Some(('\r', 1int)));
    } else if c == '\t' {
        assert(e[0] == 't');
        assert(parse_escape(e) == Some(('\t', 1int)));
    } else {
        assert((c as u32) < 0x20);
        let hi = c as int / 16;
        let lo = c as int % 16;
        lemma_hex_inverse(hi);
        lemma_hex_inverse(lo);
        assert(e.len() >= 5);
        assert(e[0] == 'u' && e[1] == '0' && e[2] == '0');
        assert(e[3] == hex_digit(hi) && e[4] == hex_digit(lo));
        assert(hex_val(e[3]) == hi && hex_val(e[4]) == lo);
        assert(hi * 16 + lo == c as int);
        assert((((hex_val(e[3]) * 16 + hex_val(e[4])) as u8) as char) == c) by {
            vstd::utf8::char_u32_cast(c, c as u32);
        }
        assert(parse_escape(e) == Some((c, 5int)));
    }
}

/// Reading a string body back yields the string it was escaped from.
proof fn lemma_parse_string_body(v: Seq<char>, rest: Seq<char>)
    ensures
        parse_string_body(escape_str(v) + seq!['"'] + rest) == Some((v, rest)),
    decreases v.len(),
{
    let s = escape_str(v) + seq!['"'] + rest;
    if v.len() == 0 {
        assert(escape_str(v) == Seq::<char>::empty());
        assert(s[0] == '"');
        assert(s.skip(1) =~= rest);
        assert(parse_string_body(s) == Some((Seq::<char>::empty(), rest)));
        assert(Seq::<char>::empty() =~= v);
    } else {
        let c = v[0];
        lemma_parse_string_body(v.skip(1), rest);
        let tail = escape_str(v.skip(1)) + seq!['"'] + rest;
        assert(escape_str(v) == escape_char(c) + escape_str(v.skip(1)));
        assert(s =~= escape_char(c) + tail);
        if escape_char(c).len() >= 2 {
            let n = escape_char(c).len() - 1;
            lemma_parse_escape_char(c, tail);
            assert(s[0] == '\\');
            assert(s.skip(1) =~= escape_char(c).skip(1) + tail);
            assert(parse_escape(s.skip(1)) == Some((c, n)));
            assert(1 + n <= s.len());
            assert(s.skip(1 + n) =~= tail);
            assert(parse_string_body(s) == Some((seq![c] + v.skip(1), rest)));
            assert(seq![c] + v.skip(1) =~= v);
        } else {
            assert(escape_char(c) == seq![c]);
            assert(c != '"' && c != '\\');
            assert(s[0] == c);
            assert(s.skip(1) =~= tail);
            assert(parse_string_body(s) == Some((seq![c] + v.skip(1), rest)));
            assert(seq![c] + v.skip(1) =~= v);
        }
    }
}

/// Reading a fixed token back consumes exactly that token.
proof fn lemma_expect(tok: Seq<char>, rest: Seq<char>)
    ensures
        expect(tok + rest, tok) == Some(rest),
{
    assert((tok + rest).take(tok.len() as int) =~= tok);
    assert((tok + rest).skip(tok.len() as int) =~= rest);
}

/// Reading a keyed field back yields the value it was rendered from.
proof fn lemma_parse_field(key: Seq<char>, v: Seq<char>, rest: Seq<char>)
    ensures
        parse_field(key + quoted(v) + rest, key) == Some((v, rest)),
{
    let s = key + quoted(v) + rest;
    let r = quoted(v) + rest;
    assert(s =~= key + r);
    lemma_expect(key, r);
    assert(expect(s, key) == Some(r));
    assert(r[0] == '"');
    assert(r.len() >= 1);
    assert(r.skip(1) =~= escape_str(v) + seq!['"'] + rest);
    lemma_parse_string_body(v, rest);
    assert(parse_field(s, key) == Some((v, rest)));
}

/// Reading one rendered entry back yields that entry.
proof fn lemma_parse_lookup(l: LookupV, rest: Seq<char>)
    ensures
        parse_lookup(json_of_lookup(l) + rest) == Some((l, rest)),
{
    let s = json_of_lookup(l) + rest;
    let r4 = "}"@ + rest;
    let r3 = ",\"state\":"@ + quoted(l.state) + r4;
    let r2 = ",\"value\":"@ + quoted(l.value) + r3;
    let r1 = ",\"name\":"@ + quoted(l.name) + r2;
    assert(s =~= "{\"kind\":"@ + quoted(l.kind) + r1);
    lemma_parse_field("{\"kind\":"@, l.kind, r1);
    assert(parse_field(s, "{\"kind\":"@) == Some((l.kind, r1)));
    lemma_parse_field(",\"name\":"@, l.name, r2);
    assert(parse_field(r1, ",\"name\":"@) == Some((l.name, r2)));
    lemma_parse_field(",\"value\":"@, l.value, r3);
    assert(parse_field(r2, ",\"value\":"@) == Some((l.value, r3)));
    lemma_parse_field(",\"state\":"@, l.state, r4);
    assert(parse_field(r3, ",\"state\":"@) == Some((l.state, r4)));
    lemma_expect("}"@, rest);
    assert(expect(r4, "}"@) == Some(rest));
    assert(parse_lookup(s) == Some((LookupV { kind: l.kind, name: l.name, value: l.value, state: l.state }, rest)));
    assert(LookupV { kind: l.kind, name: l.name, value: l.value, state: l.state } == l);
}

/// Reading the joined entries back yields all of them, in order.
#[verifier::rlimit(50)]
proof fn lemma_parse_items(ls: Seq<LookupV>)
    requires
        ls.len() >= 1,
    ensures
        parse_items(json_items(ls) + seq![']']) == Some((ls, seq![']'])),
    decreases ls.len(),
{
    let s = json_items(ls) + seq![']'];
    if ls.len() == 1 {
        assert(json_items(ls) == json_of_lookup(ls[0]));
        lemma_parse_lookup(ls[0], seq![']']);
        assert(parse_lookup(s) == Some((ls[0], seq![']'])));
        assert(seq![ls[0]] =~= ls);
        assert(parse_items(s) == Some((ls, seq![']'])));
    } else {
        assert(json_items(ls) == json_of_lookup(ls[0]) + seq![','] + json_items(ls.skip(1)));
        let rest0 = seq![','] + json_items(ls.skip(1)) + seq![']'];
        assert(s =~= json_of_lookup(ls[0]) + rest0);
        lemma_parse_lookup(ls[0], rest0);
        assert(parse_lookup(s) == Some((ls[0], rest0)));
        assert(rest0[0] == ',');
        assert(quoted(ls[0].kind).len() >= 2);
        assert(json_of_lookup(ls[0]).len() >= 2);
        assert(rest0.len() < s.len());
        assert(rest0.skip(1) =~= json_items(ls.skip(1)) + seq![']']);
        lemma_parse_items(ls.skip(1));
        assert(parse_items(rest0.skip(1)) == Some((ls.skip(1), seq![']'])));
        assert(seq![ls[0]] + ls.skip(1) =~= ls);
        assert(parse_items(s) == Some((ls, seq![']'])));
    }
}

/// Law: the rendered JSON round-trips. Reading the rendered array back
/// yields exactly the entries it was rendered from — the same
/// kind, name, value and state tuples that fill the table's body rows.
pub proof fn lemma_json_round_trip(ls: Seq<LookupV>)
    ensures
        parse_json_spec(json_of(ls)) == Some(ls),
{
    let s = json_of(ls);
    if ls.len() == 0 {
        assert(json_items(ls) == Seq::<char>::empty());
        assert(s =~= seq!['[', ']']);
        assert(parse_json_spec(s) == Some(Seq::<LookupV>::empty()));
        assert(Seq::<LookupV>::empty() =~= ls);
    } else {
        assert(s[0] == '[');
        assert(quoted(ls[0].kind).len() >= 2);
        assert(json_of_lookup(ls[0]).len() >= 2);
        assert(json_items(ls).len() >= 2);
        assert(s.len() >= 4);
        assert(s != seq!['[', ']']) by {
            assert(seq!['[', ']'].len() == 2);
        }
        assert(s.skip(1) =~= json_items(ls) + seq![']']);
        lemma_parse_items(ls);
        assert(parse_items(s.skip(1)) == Some((ls, seq![']'])));
        assert(parse_json_spec(s) == Some(ls));
    }
}


/// The numeric value of a lowercase hexadecimal digit, or sixteen for any
/// other character.
fn hex_val_exec(c: char) -> (n: u32)
    ensures
        n as int == hex_val(c),
{
    if c == '0' {
        0
    } else if c == '1' {
        1
    } else if c == '2' {
        2
    } else if c == '3' {
        3
    } else if c == '4' {
        4
    } else if c == '5' {
        5
    } else if c == '6' {
        6
    } else if c == '7' {
        7
    } else if c == '8' {
        8
    } else if c == '9' {
        9
    } else if c == 'a' {
        10
    } else if c == 'b' {
        11
    } else if c == 'c' {
        12
    } else if c == 'd' {
        13
    } else if c == 'e' {
        14
    } else if c == 'f' {
        15
    } else {
        16
    }
}

fn str_to_chars(s: &str) -> (r: Vec<char>)
    ensures
        r@ == s@,
{
    let mut v: Vec<char> = Vec::new();
    push_chars(&mut v, s);
    proof {
        assert(Seq::<char>::empty() + s@ =~= s@);
    }
    v
}

fn expect_exec(s: &Vec<char>, pos: usize, tok: &str) -> (r: Option<usize>)
    requires
        pos <= s@.len(),
    ensures
        match r {
            Some(p2) => pos <= p2 <= s@.len() && expect(s@.skip(pos as int), tok@) == Some(
                s@.skip(p2 as int),
            ),
            None => expect(s@.skip(pos as int), tok@) is None,
        },
{
    let n = tok.unicode_len();
    let slen = s.len();
    if n > slen - pos {
        return None;
    }
    let mut i: usize = 0;
    while i < n
        invariant
            n == tok@.len(),
            slen == s@.len(),
            pos + n <= slen,
            i <= n,
            forall|k: int| 0 <= k < i ==> s@[pos + k] == tok@[k],
        decreases n - i,
    {
        let c = tok.get_char(i);
        if s[pos + i] != c {
            proof {
                assert(s@.skip(pos as int).take(n as int)[i as int] == s@[pos + i]);
                assert(s@.skip(pos as int).take(n as int) != tok@);
            }
            return None;
        }
        i += 1;
    }
    proof {
        assert(s@.skip(pos as int).take(n as int) =~= tok@);
        assert(s@.skip(pos as int).skip(n as int) =~= s@.skip(pos + n));
    }
    Some(pos + n)
}

/// How an accumulated prefix relates an inner string-body parse to the one
/// it continues.
spec fn body_cont(scur: Seq<char>, whole: Seq<char>, acc: Seq<char>) -> bool {
    match parse_string_body(scur) {
        None => parse_string_body(whole) is None,
        Some((v, rest)) => parse_string_body(whole) == Some((acc + v, rest)),
    }
}

fn parse_string_body_exec(s: &Vec<char>, pos: usize) -> (r: Option<(Vec<char>, usize)>)
    requires
        pos <= s@.len(),
    ensures
        match r {
            Some(pair) => pos <= pair.1 <= s@.len() && parse_string_body(s@.skip(pos as int))
                == Some((pair.0@, s@.skip(pair.1 as int))),
            None => parse_string_body(s@.skip(pos as int)) is None,
        },
{
    let mut acc: Vec<char> = Vec::new();
    let mut cur: usize = pos;
    loop
        invariant
            pos <= cur <= s@.len(),
            body_cont(s@.skip(cur as int), s@.skip(pos as int), acc@),
        decreases s@.len() - cur,
    {
        if cur >= s.len() {
            proof {
                assert(s@.skip(cur as int).len() == 0);
            }
            return None;
        }
        let c = s[cur];
        proof {
            assert(s@.skip(cur as int)[0] == c);
        }
        if c == '"' {
            proof {
                assert(s@.skip(cur as int).skip(1) =~= s@.skip(cur + 1));
                assert(parse_string_body(s@.skip(cur as int)) == Some((
                    Seq::<char>::empty(),
                    s@.skip(cur + 1),
                )));
                assert(acc@ + Seq::<char>::empty() =~= acc@);
            }
            return Some((acc, cur + 1));
        } else if c == '\\' {
            let ghost scur = s@.skip(cur as int);
            let ghost snext = s@.skip(cur + 1);
            proof {
                assert(scur.skip(1) =~= snext);
            }
            if cur + 1 >= s.len() {
                proof {
                    assert(snext.len() == 0);
                    assert(parse_escape(snext) is None);
                    assert(parse_string_body(scur) is None);
                }
                return None;
            }
            let e = s[cur + 1];
            proof {
                assert(snext[0] == e);
            }
            let step: usize;
            let unescaped: char;
            if e == '"' {
                unescaped = '"';
                step = 2;
            } else if e == '\\' {
                unescaped = '\\';
                step = 2;
            } else if e == 'b' {
                unescaped = '\u{0008}';
                step = 2;
            } else if e == 'f' {
                unescaped = '\u{000C}';
                step = 2;
            } else if e == 'n' {
                unescaped = '\n';
                step = 2;
            } else if e == 'r' {
                unescaped = '\r';
                step = 2;
            } else if e == 't' {
                unescaped = '\t';
                step = 2;
            } else if e == 'u' {
                if s.len() - cur < 6 {
                    proof {
                        assert(snext.len() < 5);
                        assert(parse_escape(snext) is None);
                        assert(parse_string_body(scur) is None);
                    }
                    return None;
                }
                let z1 = s[cur + 2];
                let z2 = s[cur + 3];
                let h1 = hex_val_exec(s[cur + 4]);
                let h2 = hex_val_exec(s[cur + 5]);
                proof {
                    assert(snext[1] == s@[cur + 2]);
                    assert(snext[2] == s@[cur + 3]);
                    assert(snext[3] == s@[cur + 4]);
                    assert(snext[4] == s@[cur + 5]);
                }
                if z1 != '0' || z2 != '0' || h1 >= 16 || h2 >= 16 {
                    proof {
                        assert(parse_escape(snext) is None);
                        assert(parse_string_body(scur) is None);
                    }
                    return None;
                }
                unescaped = ((h1 * 16 + h2) as u8) as char;
                step = 6;
                proof {
                    assert(parse_escape(snext) == Some((unescaped, 5int)));
                }
            } else {
                proof {
                    assert(parse_escape(snext) is None);
                    assert(parse_string_body(scur) is None);
                }
                return None;
            }
            let ghost n = (step - 1) as int;
            proof {
                assert(parse_escape(snext) == Some((unescaped, n)));
                assert(1 + n <= scur.len());
                assert(scur.skip(1 + n) =~= s@.skip(cur + step));
            }
            let ghost acc_old = acc@;
            acc.push(unescaped);
            proof {
                if let Some((v, rest)) = parse_string_body(s@.skip(cur + step)) {
                    assert(parse_string_body(scur) == Some((seq![unescaped] + v, rest)));
                    assert(acc_old + (seq![unescaped] + v) =~= acc@ + v);
                }
            }
            cur += step;
        } else {
            let ghost scur = s@.skip(cur as int);
            let ghost acc_old = acc@;
            proof {
                assert(scur.skip(1) =~= s@.skip(cur + 1));
            }
            acc.push(c);
            proof {
                if let Some((v, rest)) = parse_string_body(s@.skip(cur + 1)) {
                    assert(parse_string_body(scur) == Some((seq![c] + v, rest)));
                    assert(acc_old + (seq![c] + v) =~= acc@ + v);
                }
            }
            cur += 1;
        }
    }
}

fn parse_field_exec(s: &Vec<char>, pos: usize, key: &str) -> (r: Option<(Vec<char>, usize)>)
    requires
        pos <= s@.len(),
    ensures
        match r {
            Some(pair) => pos <= pair.1 <= s@.len() && parse_field(s@.skip(pos as int), key@)
                == Some((pair.0@, s@.skip(pair.1 as int))),
            None => parse_field(s@.skip(pos as int), key@) is None,
        },
{
    let p = match expect_exec(s, pos, key) {
        Some(p) => p,
        None => {
            return None;
        },
    };
    if p >= s.len() {
        proof {
            assert(s@.skip(p as int).len() == 0);
        }
        return None;
    }
    if s[p] != '"' {
        proof {
            assert(s@.skip(p as int)[0] == s@[p as int]);
        }
        return None;
    }
    proof {
        assert(s@.skip(p as int)[0] == '"');
        assert(s@.skip(p as int).skip(1) =~= s@.skip(p + 1));
    }
    parse_string_body_exec(s, p + 1)
}

fn parse_lookup_exec(s: &Vec<char>, pos: usize) -> (r: Option<(Lookup, usize)>)
    requires
        pos <= s@.len(),
    ensures
        match r {
            Some(pair) => pos <= pair.1 <= s@.len() && parse_lookup(s@.skip(pos as int)) == Some(
                (pair.0@, s@.skip(pair.1 as int)),
            ),
            None => parse_lookup(s@.skip(pos as int)) is None,
        },
{
    let (kind, p1) = match parse_field_exec(s, pos, "{\"kind\":") {
        Some(pair) => pair,
        None => {
            return None;
        },
    };
    let (name, p2) = match parse_field_exec(s, p1, ",\"name\":") {
        Some(pair) => pair,
        None => {
            return None;
        },
    };
    let (value, p3) = match parse_field_exec(s, p2, ",\"value\":") {
        Some(pair) => pair,
        None => {
            return None;
        },
    };
    let (state, p4) = match parse_field_exec(s, p3, ",\"state\":") {
        Some(pair) => pair,
        None => {
            return None;
        },
    };
    let p5 = match expect_exec(s, p4, "}") {
        Some(p5) => p5,
        None => {
            return None;
        },
    };
    let l = Lookup {
        kind: chars_to_string(&kind),
        name: chars_to_string(&name),
        value: chars_to_string(&value),
        state: chars_to_string(&state),
    };
    Some((l, p5))
}

/// How an accumulated prefix relates an inner items parse to the one it
/// continues.
spec fn items_cont(scur: Seq<char>, whole: Seq<char>, acc: Seq<LookupV>) -> bool {
    match parse_items(scur) {
        None => parse_items(whole) is None,
        Some((ls, rest)) => parse_items(whole) == Some((acc + ls, rest)),
    }
}

fn parse_items_exec(s: &Vec<char>, pos: usize) -> (r: Option<(Vec<Lookup>, usize)>)
    requires
        pos <= s@.len(),
    ensures
        match r {
            Some(pair) => pos <= pair.1 <= s@.len() && parse_items(s@.skip(pos as int)) == Some((
                views_of(pair.0@),
                s@.skip(pair.1 as int),
            )),
            None => parse_items(s@.skip(pos as int)) is None,
        },
{
    let mut acc: Vec<Lookup> = Vec::new();
    let mut cur: usize = pos;
    loop
        invariant
            pos <= cur <= s@.len(),
            items_cont(s@.skip(cur as int), s@.skip(pos as int), views_of(acc@)),
        decreases s@.len() - cur,
    {
        let ghost scur = s@.skip(cur as int);
        let (l, p2) = match parse_lookup_exec(s, cur) {
            Some(pair) => pair,
            None => {
                return None;
            },
        };
        let ghost acc_old = views_of(acc@);
        acc.push(l);
        proof {
            assert(views_of(acc@) =~= acc_old.push(l@));
        }
        if p2 < s.len() && s[p2] == ',' && p2 > cur {
            proof {
                let rest = s@.skip(p2 as int);
                assert(rest[0] == ',');
                assert(rest.len() < scur.len());
                assert(rest.skip(1) =~= s@.skip(p2 + 1));
                if let Some((ls, r2)) = parse_items(s@.skip(p2 + 1)) {
                    assert(parse_items(scur) == Some((seq![l@] + ls, r2)));
                    assert(acc_old + (seq![l@] + ls) =~= views_of(acc@) + ls);
                }
            }
            cur = p2 + 1;
        } else {
            proof {
                let rest = s@.skip(p2 as int);
                assert(!(rest.len() >= 1 && rest[0] == ',' && rest.len() < scur.len()));
                assert(parse_items(scur) == Some((seq![l@], rest)));
                assert(acc_old + seq![l@] =~= views_of(acc@));
            }
            return Some((acc, p2));
        }
    }
}

/// Read a rendered batch back from its JSON text: the entries of the
/// array, or nothing when the text is not one whole well-formed array of
/// entry objects.
pub fn parse_json(s: &str) -> (r: Option<Vec<Lookup>>)
    ensures
        match r {
            Some(v) => parse_json_spec(s@) == Some(views_of(v@)),
            None => parse_json_spec(s@) is None,
        },
{
    let cs = str_to_chars(s);
    let n = cs.len();
    if n < 2 {
        return None;
    }
    if cs[0] != '[' {
        return None;
    }
    if n == 2 && cs[1] == ']' {
        proof {
            assert(s@ =~= seq!['[', ']']);
            assert(views_of(Seq::<Lookup>::empty()) =~= Seq::<LookupV>::empty());
        }
        let empty: Vec<Lookup> = Vec::new();
        proof {
            assert(views_of(empty@) =~= Seq::<LookupV>::empty());
        }
        return Some(empty);
    }
    proof {
        if s@ == seq!['[', ']'] {
            assert(s@.len() == 2);
            assert(s@[1] == ']');
        }
        assert(s@ != seq!['[', ']']);
    }
    let (v, p2) = match parse_items_exec(&cs, 1) {
        Some(pair) => pair,
        None => {
            return None;
        },
    };
    if p2 == n - 1 && cs[p2] == ']' {
        proof {
            assert(s@.skip(p2 as int) =~= seq![']']);
        }
        Some(v)
    } else {
        proof {
            let rest = s@.skip(p2 as int);
            if rest == seq![']'] {
                assert(rest.len() == 1);
                assert(rest[0] == ']');
                assert(s@[p2 as int] == ']');
            }
            assert(rest != seq![']']);
        }
        None
    }
}

} // verus!
