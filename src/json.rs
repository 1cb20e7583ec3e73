//! Canonical JSON text for flat objects whose values are strings or lists of strings.
use vstd::prelude::*;
use crate::address::hex_digit;

verus! {

/// Whether `c` is a lowercase hex digit.
pub open spec fn is_hex(c: char) -> bool {
    ('0' <= c && c <= '9') || ('a' <= c && c <= 'f')
}

/// The value of a lowercase hex digit.
pub open spec fn hex_val(c: char) -> u32 {
    if c <= '9' {
        (c as u32 - 48) as u32
    } else {
        (c as u32 - 87) as u32
    }
}

/// How `c` is written inside a JSON string.
pub open spec fn escape_char(c: char) -> Seq<char> {
    if c == '"' {
        seq!['\\', '"']
    } else if c == '\\' {
        seq!['\\', '\\']
    } else if c == '\n' {
        seq!['\\', 'n']
    } else if c == '\r' {
        seq!['\\', 'r']
    } else if c == '\t' {
        seq!['\\', 't']
    } else if (c as u32) < 32 {
        seq!['\\', 'u', '0', '0', hex_digit(((c as u32) / 16) as u8), hex_digit(((c as u32) % 16) as u8)]
    } else {
        seq![c]
    }
}

/// The characters of `s`, each written as inside a JSON string.
pub open spec fn escaped(s: Seq<char>) -> Seq<char>
    decreases s.len(),
{
    if s.len() == 0 {
        Seq::empty()
    } else {
        escape_char(s[0]) + escaped(s.drop_first())
    }
}

/// `s` as a JSON string.
pub open spec fn json_str(s: Seq<char>) -> Seq<char> {
    seq!['"'] + escaped(s) + seq!['"']
}

/// The character that the text `t` opens with, read as inside a JSON string, and how
/// many characters it takes; `None` when `t` does not open with a canonical form.
pub open spec fn unescape_one(t: Seq<char>) -> Option<(char, int)> {
    if t.len() == 0 || t[0] == '"' {
        None
    } else if t[0] == '\\' {
        if t.len() < 2 {
            None
        } else if t[1] == '"' {
            Some(('"', 2))
        } else if t[1] == '\\' {
            Some(('\\', 2))
        } else if t[1] == 'n' {
            Some(('\n', 2))
        } else if t[1] == 'r' {
            Some(('\r', 2))
        } else if t[1] == 't' {
            Some(('\t', 2))
        } else if t[1] == 'u' && t.len() >= 6 && t[2] == '0' && t[3] == '0' && (t[4] == '0'
            || t[4] == '1') && is_hex(t[5]) {
            let code = hex_val(t[4]) * 16 + hex_val(t[5]);
            if code == 9 || code == 10 || code == 13 {
                None
            } else {
                Some(((code as u8) as char, 6))
            }
        } else {
            None
        }
    } else if (t[0] as u32) < 32 {
        None
    } else {
        Some((t[0], 1))
    }
}

/// Reads the inside of a JSON string up to its closing quote: the characters it stands
/// for, and the text after the quote.
pub open spec fn parse_body(t: Seq<char>) -> Option<(Seq<char>, Seq<char>)>
    decreases t.len(),
{
    if t.len() == 0 {
        None
    } else if t[0] == '"' {
        Some((Seq::empty(), t.drop_first()))
    } else {
        match unescape_one(t) {
            None => None,
            Some((c, n)) => match parse_body(t.subrange(n, t.len() as int)) {
                None => None,
                Some((s, r)) => Some((seq![c] + s, r)),
            },
        }
    }
}

/// Reads a JSON string that opens `t`: what it stands for, and the text after it.
pub open spec fn parse_str(t: Seq<char>) -> Option<(Seq<char>, Seq<char>)> {
    if t.len() > 0 && t[0] == '"' {
        parse_body(t.drop_first())
    } else {
        None
    }
}

proof fn lemma_unescape_escape(c: char, x: Seq<char>)
    ensures
        unescape_one(escape_char(c) + x) == Some((c, escape_char(c).len() as int)),
        escape_char(c).len() >= 1,
{
    let t = escape_char(c) + x;
    if (c as u32) < 32 && c != '\n' && c != '\r' && c != '\t' {
        let code = c as u32;
        let hi = (code / 16) as u8;
        let lo = (code % 16) as u8;
        assert(t[4] == hex_digit(hi) && t[5] == hex_digit(lo));
        assert(hi < 2 && lo < 16);
        assert(hex_val(hex_digit(hi)) == hi as u32);
        assert(hex_val(hex_digit(lo)) == lo as u32);
        assert(hex_val(t[4]) * 16 + hex_val(t[5]) == code);
        assert(((code as u8) as char) == c);
    }
}

/// Reading the inside of a written string gives back its characters and what follows.
pub proof fn lemma_parse_body_escaped(s: Seq<char>, rest: Seq<char>)
    ensures
        parse_body(escaped(s) + seq!['"'] + rest) == Some((s, rest)),
    decreases s.len(),
{
    let t = escaped(s) + seq!['"'] + rest;
    if s.len() == 0 {
        assert(t =~= seq!['"'] + rest);
        assert(t.drop_first() =~= rest);
    } else {
        let c = s[0];
        let tail = escaped(s.drop_first()) + seq!['"'] + rest;
        assert(t =~= escape_char(c) + tail);
        lemma_unescape_escape(c, tail);
        let n = escape_char(c).len() as int;
        assert(t[0] == escape_char(c)[0]);
        assert(t.subrange(n, t.len() as int) =~= tail);
        lemma_parse_body_escaped(s.drop_first(), rest);
        assert(seq![c] + s.drop_first() =~= s);
    }
}

/// A written string reads back as what was written, followed by the same rest.
pub proof fn lemma_parse_str_json(s: Seq<char>, rest: Seq<char>)
    ensures
        parse_str(json_str(s) + rest) == Some((s, rest)),
{
    let t = json_str(s) + rest;
    assert(t.drop_first() =~= escaped(s) + seq!['"'] + rest);
    lemma_parse_body_escaped(s, rest);
}


/// Relies on String::push: appends one character.
#[verifier::external_body]
pub(crate) fn push_char(s: &mut String, c: char)
    ensures
        final(s)@ == old(s)@.push(c),
{
    s.push(c)
}

proof fn lemma_escaped_append(a: Seq<char>, b: Seq<char>)
    ensures
        escaped(a + b) == escaped(a) + escaped(b),
    decreases a.len(),
{
    if a.len() == 0 {
        assert(a + b =~= b);
    } else {
        assert((a + b).drop_first() =~= a.drop_first() + b);
        lemma_escaped_append(a.drop_first(), b);
    }
}

fn hex_digit_char(n: u32) -> (r: char)
    requires
        n < 16,
    ensures
        r == hex_digit(n as u8),
{
    if n < 10 {
        ((n + 48) as u8) as char
    } else {
        ((n + 87) as u8) as char
    }
}

/// Appends `c` as written inside a JSON string.
fn push_escaped_char(out: &mut String, c: char)
    ensures
        final(out)@ == old(out)@ + escape_char(c),
{
    let ghost start = out@;
    if c == '"' {
        push_char(out, '\\');
        push_char(out, '"');
    } else if c == '\\' {
        push_char(out, '\\');
        push_char(out, '\\');
    } else if c == '\n' {
        push_char(out, '\\');
        push_char(out, 'n');
    } else if c == '\r' {
        push_char(out, '\\');
        push_char(out, 'r');
    } else if c == '\t' {
        push_char(out, '\\');
        push_char(out, 't');
    } else if (c as u32) < 32 {
        push_char(out, '\\');
        push_char(out, 'u');
        push_char(out, '0');
        push_char(out, '0');
        push_char(out, hex_digit_char((c as u32) / 16));
        push_char(out, hex_digit_char((c as u32) % 16));
    } else {
        push_char(out, c);
    }
    assert(out@ =~= start + escape_char(c));
}

/// Appends `s` as a JSON string.
pub fn push_json_str(out: &mut String, s: &str)
    ensures
        final(out)@ == old(out)@ + json_str(s@),
{
    let ghost start = out@;
    push_char(out, '"');
    let n = s.unicode_len();
    let mut i: usize = 0;
    while i < n
        invariant
            n == s@.len(),
            i <= n,
            out@ == start + seq!['"'] + escaped(s@.take(i as int)),
        decreases n - i,
    {
        let c = s.get_char(i);
        push_escaped_char(out, c);
        proof {
            assert(s@.take(i + 1) =~= s@.take(i as int) + seq![c]);
            lemma_escaped_append(s@.take(i as int), seq![c]);
            assert(seq![c].drop_first() =~= Seq::<char>::empty());
            assert(seq![c][0] == c);
            assert(escaped(seq![c]) =~= escape_char(c) + escaped(Seq::<char>::empty()));
        }
        i = i + 1;
    }
    push_char(out, '"');
    assert(s@.take(n as int) =~= s@);
    assert(out@ =~= start + json_str(s@));
}

/// The characters of `s`.
pub fn chars_of(s: &str) -> (r: Vec<char>)
    ensures
        r@ == s@,
{
    let n = s.unicode_len();
    let mut r: Vec<char> = Vec::new();
    let mut i: usize = 0;
    while i < n
        invariant
            n == s@.len(),
            i <= n,
            r@ == s@.take(i as int),
        decreases n - i,
    {
        r.push(s.get_char(i));
        assert(s@.take(i + 1) =~= s@.take(i as int).push(s@[i as int]));
        i = i + 1;
    }
    assert(s@.take(n as int) =~= s@);
    r
}

fn hex_value(c: char) -> (r: u32)
    requires
        is_hex(c),
    ensures
        r == hex_val(c),
{
    if c <= '9' {
        (c as u32) - 48
    } else {
        (c as u32) - 87
    }
}

fn is_hex_char(c: char) -> (r: bool)
    ensures
        r == is_hex(c),
{
    ('0' <= c && c <= '9') || ('a' <= c && c <= 'f')
}

/// Reads one character as written inside a JSON string, at `i`.
fn read_one(t: &Vec<char>, i: usize) -> (r: Option<(char, usize)>)
    requires
        i <= t@.len(),
    ensures
        match unescape_one(t@.subrange(i as int, t@.len() as int)) {
            None => r is None,
            Some((c, n)) => r == Some((c, (i + n) as usize)),
        },
{
    let ghost u = t@.subrange(i as int, t@.len() as int);
    let len = t.len();
    if i >= len || t[i] == '"' {
        return None;
    }
    let c = t[i];
    if c == '\\' {
        if len - i < 2 {
            return None;
        }
        let e = t[i + 1];
        if e == '"' {
            Some(('"', i + 2))
        } else if e == '\\' {
            Some(('\\', i + 2))
        } else if e == 'n' {
            Some(('\n', i + 2))
        } else if e == 'r' {
            Some(('\r', i + 2))
        } else if e == 't' {
            Some(('\t', i + 2))
        } else if e == 'u' && len - i >= 6 && t[i + 2] == '0' && t[i + 3] == '0' && (t[i + 4]
            == '0' || t[i + 4] == '1') && is_hex_char(t[i + 5]) {
            let code = hex_value(t[i + 4]) * 16 + hex_value(t[i + 5]);
            if code == 9 || code == 10 || code == 13 {
                None
            } else {
                Some(((code as u8) as char, i + 6))
            }
        } else {
            None
        }
    } else if (c as u32) < 32 {
        None
    } else {
        Some((c, i + 1))
    }
}

/// Reads the JSON string that starts at `pos`: what it stands for, and where the text
/// after it starts.
pub fn read_str(t: &Vec<char>, pos: usize) -> (r: Option<(String, usize)>)
    requires
        pos <= t@.len(),
    ensures
        match parse_str(t@.subrange(pos as int, t@.len() as int)) {
            None => r is None,
            Some((s, rest)) => r is Some && r->Some_0.0@ == s && pos < r->Some_0.1 <= t@.len()
                && t@.subrange(r->Some_0.1 as int, t@.len() as int) == rest,
        },
{
    let len = t.len();
    if pos >= len || t[pos] != '"' {
        return None;
    }
    let ghost whole = t@.subrange(pos as int, len as int);
    assert(whole.drop_first() =~= t@.subrange(pos + 1, len as int));
    let mut out = String::new();
    let mut i: usize = pos + 1;
    while i < len
        invariant
            len == t@.len(),
            pos < i <= len,
            parse_str(t@.subrange(pos as int, len as int)) == parse_body(
                t@.subrange(pos + 1, len as int),
            ),
            parse_body(t@.subrange(pos + 1, len as int)) == match parse_body(
                t@.subrange(i as int, len as int),
            ) {
                None => None,
                Some((s, r)) => Some((out@ + s, r)),
            },
        decreases len - i,
    {
        let ghost u = t@.subrange(i as int, len as int);
        assert(u.len() > 0 && u[0] == t@[i as int]);
        if t[i] == '"' {
            assert(u.drop_first() =~= t@.subrange(i + 1, len as int));
            assert(out@ + Seq::<char>::empty() =~= out@);
            return Some((out, i + 1));
        }
        match read_one(t, i) {
            None => {
                return None;
            },
            Some((c, j)) => {
                proof {
                    assert(u.subrange((j - i) as int, u.len() as int) =~= t@.subrange(j as int, len as int));
                    if let Some((s, r)) = parse_body(t@.subrange(j as int, len as int)) {
                        assert(out@ + (seq![c] + s) =~= out@.push(c) + s);
                    }
                }
                push_char(&mut out, c);
                i = j;
            },
        }
    }
    None
}


/// A value of a flat object: a string or a list of strings.
pub enum JVal {
    Str(Seq<char>),
    List(Seq<Seq<char>>),
    /// Strings each wrapped as `{"@value": …}`.
    Values(Seq<Seq<char>>),
}

/// What opens a wrapped value: `{"@value":`.
pub open spec fn value_open() -> Seq<char> {
    seq!['{', '"', '@', 'v', 'a', 'l', 'u', 'e', '"', ':']
}

pub open spec fn item_text(s: Seq<char>) -> Seq<char> {
    value_open() + json_str(s) + seq!['}']
}

/// A wrapped value written after a comma, for each string of `l`.
pub open spec fn values_rest_text(l: Seq<Seq<char>>) -> Seq<char>
    decreases l.len(),
{
    if l.len() == 0 {
        Seq::empty()
    } else {
        seq![','] + item_text(l[0]) + values_rest_text(l.drop_first())
    }
}

pub open spec fn values_text(l: Seq<Seq<char>>) -> Seq<char> {
    if l.len() == 0 {
        seq!['[', ']']
    } else {
        seq!['['] + item_text(l[0]) + values_rest_text(l.drop_first()) + seq![']']
    }
}

pub open spec fn parse_item(t: Seq<char>) -> Option<(Seq<char>, Seq<char>)> {
    if t.len() >= 10 && t.subrange(0, 10) == value_open() {
        match parse_str(t.subrange(10, t.len() as int)) {
            Some((s, r)) => if r.len() > 0 && r[0] == '}' {
                Some((s, r.drop_first()))
            } else {
                None
            },
            None => None,
        }
    } else {
        None
    }
}

/// Reads `,{"@value":"s"}` repeatedly up to `]`.
pub open spec fn parse_values_rest(t: Seq<char>) -> Option<(Seq<Seq<char>>, Seq<char>)>
    decreases t.len(),
{
    if t.len() > 0 && t[0] == ']' {
        Some((Seq::empty(), t.drop_first()))
    } else if t.len() > 0 && t[0] == ',' {
        match parse_item(t.drop_first()) {
            None => None,
            Some((s, r)) => if r.len() < t.len() {
                match parse_values_rest(r) {
                    None => None,
                    Some((l, r2)) => Some((seq![s] + l, r2)),
                }
            } else {
                None
            },
        }
    } else {
        None
    }
}

pub open spec fn parse_values(t: Seq<char>) -> Option<(Seq<Seq<char>>, Seq<char>)> {
    if t.len() > 0 && t[0] == '[' {
        match parse_item(t.drop_first()) {
            None => None,
            Some((s, r)) => match parse_values_rest(r) {
                None => None,
                Some((l, r2)) => Some((seq![s] + l, r2)),
            },
        }
    } else {
        None
    }
}

proof fn lemma_parse_item_text(s: Seq<char>, rest: Seq<char>)
    ensures
        parse_item(item_text(s) + rest) == Some((s, rest)),
        (item_text(s) + rest).len() > rest.len(),
        (item_text(s) + rest)[0] == '{',
{
    let t = item_text(s) + rest;
    let after = json_str(s) + (seq!['}'] + rest);
    assert(t.subrange(0, 10) =~= value_open());
    assert(t.subrange(10, t.len() as int) =~= after);
    lemma_parse_str_json(s, seq!['}'] + rest);
    assert((seq!['}'] + rest).drop_first() =~= rest);
}

proof fn lemma_parse_values_rest_text(l: Seq<Seq<char>>, rest: Seq<char>)
    ensures
        parse_values_rest(values_rest_text(l) + seq![']'] + rest) == Some((l, rest)),
    decreases l.len(),
{
    let t = values_rest_text(l) + seq![']'] + rest;
    if l.len() == 0 {
        assert(t =~= seq![']'] + rest);
        assert(t.drop_first() =~= rest);
    } else {
        let tail = values_rest_text(l.drop_first()) + seq![']'] + rest;
        assert(t =~= seq![','] + (item_text(l[0]) + tail));
        assert(t.drop_first() =~= item_text(l[0]) + tail);
        lemma_parse_item_text(l[0], tail);
        lemma_parse_values_rest_text(l.drop_first(), rest);
        assert(seq![l[0]] + l.drop_first() =~= l);
    }
}

proof fn lemma_parse_values_text(l: Seq<Seq<char>>, rest: Seq<char>)
    requires
        l.len() > 0,
    ensures
        parse_values(values_text(l) + rest) == Some((l, rest)),
        (values_text(l) + rest)[0] == '[',
        (values_text(l) + rest)[1] == '{',
{
    let t = values_text(l) + rest;
    let tail = values_rest_text(l.drop_first()) + seq![']'] + rest;
    assert(t =~= seq!['['] + (item_text(l[0]) + tail));
    assert(t.drop_first() =~= item_text(l[0]) + tail);
    lemma_parse_item_text(l[0], tail);
    lemma_parse_values_rest_text(l.drop_first(), rest);
    assert(seq![l[0]] + l.drop_first() =~= l);
}

/// A string written after a comma, for each string of `l`.
pub open spec fn list_rest_text(l: Seq<Seq<char>>) -> Seq<char>
    decreases l.len(),
{
    if l.len() == 0 {
        Seq::empty()
    } else {
        seq![','] + json_str(l[0]) + list_rest_text(l.drop_first())
    }
}

pub open spec fn list_text(l: Seq<Seq<char>>) -> Seq<char> {
    if l.len() == 0 {
        seq!['[', ']']
    } else {
        seq!['['] + json_str(l[0]) + list_rest_text(l.drop_first()) + seq![']']
    }
}

pub open spec fn value_text(v: JVal) -> Seq<char> {
    match v {
        JVal::Str(s) => json_str(s),
        JVal::List(l) => list_text(l),
        JVal::Values(l) => values_text(l),
    }
}

pub open spec fn field_text(f: (Seq<char>, JVal)) -> Seq<char> {
    json_str(f.0) + seq![':'] + value_text(f.1)
}

/// A field written after a comma, for each field of `fs`.
pub open spec fn fields_rest_text(fs: Seq<(Seq<char>, JVal)>) -> Seq<char>
    decreases fs.len(),
{
    if fs.len() == 0 {
        Seq::empty()
    } else {
        seq![','] + field_text(fs[0]) + fields_rest_text(fs.drop_first())
    }
}

/// The canonical text of an object with the fields `fs`, in their order.
pub open spec fn object_text(fs: Seq<(Seq<char>, JVal)>) -> Seq<char> {
    if fs.len() == 0 {
        seq!['{', '}']
    } else {
        seq!['{'] + field_text(fs[0]) + fields_rest_text(fs.drop_first()) + seq!['}']
    }
}

/// Reads `,"s"` repeatedly up to `]`.
pub open spec fn parse_list_rest(t: Seq<char>) -> Option<(Seq<Seq<char>>, Seq<char>)>
    decreases t.len(),
{
    if t.len() > 0 && t[0] == ']' {
        Some((Seq::empty(), t.drop_first()))
    } else if t.len() > 0 && t[0] == ',' {
        match parse_str(t.drop_first()) {
            None => None,
            Some((s, r)) => if r.len() < t.len() {
                match parse_list_rest(r) {
                    None => None,
                    Some((l, r2)) => Some((seq![s] + l, r2)),
                }
            } else {
                None
            },
        }
    } else {
        None
    }
}

pub open spec fn parse_list(t: Seq<char>) -> Option<(Seq<Seq<char>>, Seq<char>)> {
    if t.len() > 1 && t[0] == '[' && t[1] == ']' {
        Some((Seq::empty(), t.subrange(2, t.len() as int)))
    } else if t.len() > 0 && t[0] == '[' {
        match parse_str(t.drop_first()) {
            None => None,
            Some((s, r)) => match parse_list_rest(r) {
                None => None,
                Some((l, r2)) => Some((seq![s] + l, r2)),
            },
        }
    } else {
        None
    }
}

pub open spec fn parse_value(t: Seq<char>) -> Option<(JVal, Seq<char>)> {
    if t.len() > 0 && t[0] == '"' {
        match parse_str(t) {
            None => None,
            Some((s, r)) => Some((JVal::Str(s), r)),
        }
    } else if t.len() > 1 && t[0] == '[' && t[1] == '{' {
        match parse_values(t) {
            None => None,
            Some((l, r)) => Some((JVal::Values(l), r)),
        }
    } else {
        match parse_list(t) {
            None => None,
            Some((l, r)) => Some((JVal::List(l), r)),
        }
    }
}

pub open spec fn parse_field(t: Seq<char>) -> Option<((Seq<char>, JVal), Seq<char>)> {
    match parse_str(t) {
        None => None,
        Some((k, r)) => if r.len() > 0 && r[0] == ':' {
            match parse_value(r.drop_first()) {
                None => None,
                Some((v, r2)) => Some(((k, v), r2)),
            }
        } else {
            None
        },
    }
}

/// Reads `,field` repeatedly up to `}`.
pub open spec fn parse_fields_rest(t: Seq<char>) -> Option<(Seq<(Seq<char>, JVal)>, Seq<char>)>
    decreases t.len(),
{
    if t.len() > 0 && t[0] == '}' {
        Some((Seq::empty(), t.drop_first()))
    } else if t.len() > 0 && t[0] == ',' {
        match parse_field(t.drop_first()) {
            None => None,
            Some((f, r)) => if r.len() < t.len() {
                match parse_fields_rest(r) {
                    None => None,
                    Some((fs, r2)) => Some((seq![f] + fs, r2)),
                }
            } else {
                None
            },
        }
    } else {
        None
    }
}

pub open spec fn parse_object(t: Seq<char>) -> Option<(Seq<(Seq<char>, JVal)>, Seq<char>)> {
    if t.len() > 1 && t[0] == '{' && t[1] == '}' {
        Some((Seq::empty(), t.subrange(2, t.len() as int)))
    } else if t.len() > 0 && t[0] == '{' {
        match parse_field(t.drop_first()) {
            None => None,
            Some((f, r)) => match parse_fields_rest(r) {
                None => None,
                Some((fs, r2)) => Some((seq![f] + fs, r2)),
            },
        }
    } else {
        None
    }
}

proof fn lemma_json_str_head(s: Seq<char>, rest: Seq<char>)
    ensures
        (json_str(s) + rest).len() > 0,
        (json_str(s) + rest)[0] == '"',
        (json_str(s) + rest).len() > rest.len(),
{
}

proof fn lemma_parse_list_rest_text(l: Seq<Seq<char>>, rest: Seq<char>)
    ensures
        parse_list_rest(list_rest_text(l) + seq![']'] + rest) == Some((l, rest)),
    decreases l.len(),
{
    let t = list_rest_text(l) + seq![']'] + rest;
    if l.len() == 0 {
        assert(t =~= seq![']'] + rest);
        assert(t.drop_first() =~= rest);
    } else {
        let tail = list_rest_text(l.drop_first()) + seq![']'] + rest;
        assert(t =~= seq![','] + (json_str(l[0]) + tail));
        assert(t.drop_first() =~= json_str(l[0]) + tail);
        lemma_parse_str_json(l[0], tail);
        lemma_json_str_head(l[0], tail);
        lemma_parse_list_rest_text(l.drop_first(), rest);
        assert(seq![l[0]] + l.drop_first() =~= l);
    }
}

proof fn lemma_parse_list_text(l: Seq<Seq<char>>, rest: Seq<char>)
    ensures
        parse_list(list_text(l) + rest) == Some((l, rest)),
{
    let t = list_text(l) + rest;
    if l.len() == 0 {
        assert(t.subrange(2, t.len() as int) =~= rest);
    } else {
        let tail = list_rest_text(l.drop_first()) + seq![']'] + rest;
        assert(t =~= seq!['['] + (json_str(l[0]) + tail));
        assert(t.drop_first() =~= json_str(l[0]) + tail);
        lemma_json_str_head(l[0], tail);
        lemma_parse_str_json(l[0], tail);
        lemma_parse_list_rest_text(l.drop_first(), rest);
        assert(seq![l[0]] + l.drop_first() =~= l);
    }
}

/// A wrapped-value list is never empty: an empty one would read as a plain list.
pub open spec fn value_wf(v: JVal) -> bool {
    match v {
        JVal::Values(l) => l.len() > 0,
        _ => true,
    }
}

pub open spec fn fields_wf(fs: Seq<(Seq<char>, JVal)>) -> bool {
    forall|i: int| 0 <= i < fs.len() ==> value_wf(#[trigger] fs[i].1)
}

proof fn lemma_parse_value_text(v: JVal, rest: Seq<char>)
    requires
        value_wf(v),
    ensures
        parse_value(value_text(v) + rest) == Some((v, rest)),
{
    match v {
        JVal::Str(s) => {
            lemma_json_str_head(s, rest);
            lemma_parse_str_json(s, rest);
        },
        JVal::List(l) => {
            lemma_parse_list_text(l, rest);
            let t = value_text(v) + rest;
            assert(t[0] == '[');
            if l.len() > 0 {
                assert(t[1] == '"');
            } else {
                assert(t[1] == ']');
            }
        },
        JVal::Values(l) => {
            lemma_parse_values_text(l, rest);
        },
    }
}

proof fn lemma_parse_field_text(f: (Seq<char>, JVal), rest: Seq<char>)
    requires
        value_wf(f.1),
    ensures
        parse_field(field_text(f) + rest) == Some((f, rest)),
        (field_text(f) + rest).len() > rest.len(),
{
    let after = seq![':'] + value_text(f.1) + rest;
    assert(field_text(f) + rest =~= json_str(f.0) + after);
    lemma_parse_str_json(f.0, after);
    lemma_json_str_head(f.0, after);
    assert(after.drop_first() =~= value_text(f.1) + rest);
    lemma_parse_value_text(f.1, rest);
}

proof fn lemma_parse_fields_rest_text(fs: Seq<(Seq<char>, JVal)>, rest: Seq<char>)
    requires
        fields_wf(fs),
    ensures
        parse_fields_rest(fields_rest_text(fs) + seq!['}'] + rest) == Some((fs, rest)),
    decreases fs.len(),
{
    let t = fields_rest_text(fs) + seq!['}'] + rest;
    if fs.len() == 0 {
        assert(t =~= seq!['}'] + rest);
        assert(t.drop_first() =~= rest);
    } else {
        let tail = fields_rest_text(fs.drop_first()) + seq!['}'] + rest;
        assert(t =~= seq![','] + (field_text(fs[0]) + tail));
        assert(t.drop_first() =~= field_text(fs[0]) + tail);
        assert(value_wf(fs[0].1));
        assert(fields_wf(fs.drop_first())) by {
            assert forall|i: int| 0 <= i < fs.drop_first().len() implies value_wf(#[trigger] fs.drop_first()[i].1) by {
                assert(fs.drop_first()[i] == fs[i + 1]);
            }
        }
        lemma_parse_field_text(fs[0], tail);
        lemma_parse_fields_rest_text(fs.drop_first(), rest);
        assert(seq![fs[0]] + fs.drop_first() =~= fs);
    }
}

/// The text of an object reads back as its fields, followed by the same rest.
#[verifier::rlimit(50)]
pub proof fn lemma_parse_object_text(fs: Seq<(Seq<char>, JVal)>, rest: Seq<char>)
    requires
        fields_wf(fs),
    ensures
        parse_object(object_text(fs) + rest) == Some((fs, rest)),
{
    let t = object_text(fs) + rest;
    if fs.len() == 0 {
        assert(t.subrange(2, t.len() as int) =~= rest);
    } else {
        let tail = fields_rest_text(fs.drop_first()) + seq!['}'] + rest;
        assert(t =~= seq!['{'] + (field_text(fs[0]) + tail));
        assert(t.drop_first() =~= field_text(fs[0]) + tail);
        lemma_parse_field_text(fs[0], tail);
        assert((field_text(fs[0]) + tail)[0] == '"');
        lemma_parse_fields_rest_text(fs.drop_first(), rest);
        assert(seq![fs[0]] + fs.drop_first() =~= fs);
    }
}


/// A value of a flat object.
#[derive(Debug, Clone, PartialEq, Eq)]
pub enum JsonValue {
    Str(String),
    List(Vec<String>),
    /// Strings each written as `{"@value": …}`.
    Values(Vec<String>),
}

/// One field of a flat object.
#[derive(Debug, Clone, PartialEq, Eq)]
pub struct Field {
    pub key: String,
    pub value: JsonValue,
}

pub open spec fn strings_view(v: Seq<String>) -> Seq<Seq<char>> {
    v.map_values(|s: String| s@)
}

impl View for JsonValue {
    type V = JVal;

    open spec fn view(&self) -> JVal {
        match self {
            JsonValue::Str(s) => JVal::Str(s@),
            JsonValue::List(l) => JVal::List(strings_view(l@)),
            JsonValue::Values(l) => JVal::Values(strings_view(l@)),
        }
    }
}

impl View for Field {
    type V = (Seq<char>, JVal);

    open spec fn view(&self) -> (Seq<char>, JVal) {
        (self.key@, self.value@)
    }
}

pub open spec fn fields_view(v: Seq<Field>) -> Seq<(Seq<char>, JVal)> {
    v.map_values(|f: Field| f@)
}

/// The text after position `i` of `t`.
pub open spec fn suffix(t: Seq<char>, i: int) -> Seq<char> {
    t.subrange(i, t.len() as int)
}

fn read_list(t: &Vec<char>, pos: usize) -> (r: Option<(Vec<String>, usize)>)
    requires
        pos <= t@.len(),
    ensures
        match parse_list(suffix(t@, pos as int)) {
            None => r is None,
            Some((l, rest)) => r is Some && strings_view(r->Some_0.0@) == l && pos
                <= r->Some_0.1 <= t@.len() && suffix(t@, r->Some_0.1 as int) == rest,
        },
{
    let len = t.len();
    let ghost u = suffix(t@, pos as int);
    if len - pos > 1 && t[pos] == '[' && t[pos + 1] == ']' {
        assert(u.subrange(2, u.len() as int) =~= suffix(t@, pos + 2));
        let v: Vec<String> = Vec::new();
        assert(strings_view(v@) =~= Seq::<Seq<char>>::empty());
        return Some((v, pos + 2));
    }
    if pos >= len || t[pos] != '[' {
        return None;
    }
    assert(u.drop_first() =~= suffix(t@, pos + 1));
    let (first, mut i) = match read_str(t, pos + 1) {
        None => {
            return None;
        },
        Some(x) => x,
    };
    let mut items: Vec<String> = Vec::new();
    items.push(first);
    assert(strings_view(items@) =~= seq![items@[0]@]);
    while i < len
        invariant
            len == t@.len(),
            pos < i <= len,
            items@.len() >= 1,
            parse_list(u) == match parse_list_rest(suffix(t@, i as int)) {
                None => None,
                Some((l, r)) => Some((strings_view(items@) + l, r)),
            },
            u == suffix(t@, pos as int),
        decreases len - i,
    {
        let ghost w = suffix(t@, i as int);
        assert(w.len() > 0 && w[0] == t@[i as int]);
        if t[i] == ']' {
            assert(w.drop_first() =~= suffix(t@, i + 1));
            assert(strings_view(items@) + Seq::<Seq<char>>::empty() =~= strings_view(items@));
            return Some((items, i + 1));
        }
        if t[i] != ',' {
            return None;
        }
        assert(w.drop_first() =~= suffix(t@, i + 1));
        match read_str(t, i + 1) {
            None => {
                return None;
            },
            Some((s, j)) => {
                proof {
                    if let Some((l, r2)) = parse_list_rest(suffix(t@, j as int)) {
                        assert(strings_view(items@.push(s)) =~= strings_view(items@).push(s@));
                        assert(strings_view(items@) + (seq![s@] + l) =~= strings_view(items@).push(s@) + l);
                    }
                }
                items.push(s);
                i = j;
            },
        }
    }
    proof {
        assert(suffix(t@, i as int).len() == 0);
    }
    None
}

fn read_value(t: &Vec<char>, pos: usize) -> (r: Option<(JsonValue, usize)>)
    requires
        pos <= t@.len(),
    ensures
        match parse_value(suffix(t@, pos as int)) {
            None => r is None,
            Some((v, rest)) => r is Some && r->Some_0.0@ == v && pos <= r->Some_0.1 <= t@.len()
                && suffix(t@, r->Some_0.1 as int) == rest,
        },
{
    let ghost u = suffix(t@, pos as int);
    if pos < t.len() && t[pos] == '"' {
        assert(u[0] == t@[pos as int]);
        match read_str(t, pos) {
            None => None,
            Some((s, j)) => Some((JsonValue::Str(s), j)),
        }
    } else if t.len() - pos > 1 && t[pos] == '[' && t[pos + 1] == '{' {
        assert(u[0] == t@[pos as int] && u[1] == t@[pos + 1]);
        match read_values(t, pos) {
            None => None,
            Some((l, j)) => Some((JsonValue::Values(l), j)),
        }
    } else {
        assert(pos < t@.len() ==> u[0] == t@[pos as int]);
        assert(pos + 1 < t@.len() ==> u[1] == t@[pos + 1]);
        match read_list(t, pos) {
            None => None,
            Some((l, j)) => Some((JsonValue::List(l), j)),
        }
    }
}

fn read_field(t: &Vec<char>, pos: usize) -> (r: Option<(Field, usize)>)
    requires
        pos <= t@.len(),
    ensures
        match parse_field(suffix(t@, pos as int)) {
            None => r is None,
            Some((f, rest)) => r is Some && r->Some_0.0@ == f && pos < r->Some_0.1 <= t@.len()
                && suffix(t@, r->Some_0.1 as int) == rest,
        },
{
    let (key, i) = match read_str(t, pos) {
        None => {
            return None;
        },
        Some(x) => x,
    };
    let ghost w = suffix(t@, i as int);
    if i >= t.len() || t[i] != ':' {
        assert(i < t@.len() ==> w[0] == t@[i as int]);
        return None;
    }
    assert(w[0] == t@[i as int]);
    assert(w.drop_first() =~= suffix(t@, i + 1));
    match read_value(t, i + 1) {
        None => None,
        Some((value, j)) => Some((Field { key, value }, j)),
    }
}

/// Reads the flat object that starts at `pos`: its fields, and where the text after it
/// starts.
pub fn read_object(t: &Vec<char>, pos: usize) -> (r: Option<(Vec<Field>, usize)>)
    requires
        pos <= t@.len(),
    ensures
        match parse_object(suffix(t@, pos as int)) {
            None => r is None,
            Some((fs, rest)) => r is Some && fields_view(r->Some_0.0@) == fs && pos
                <= r->Some_0.1 <= t@.len() && suffix(t@, r->Some_0.1 as int) == rest,
        },
{
    let len = t.len();
    let ghost u = suffix(t@, pos as int);
    if len - pos > 1 && t[pos] == '{' && t[pos + 1] == '}' {
        assert(u.subrange(2, u.len() as int) =~= suffix(t@, pos + 2));
        let v: Vec<Field> = Vec::new();
        assert(fields_view(v@) =~= Seq::<(Seq<char>, JVal)>::empty());
        return Some((v, pos + 2));
    }
    if pos >= len || t[pos] != '{' {
        return None;
    }
    assert(u.drop_first() =~= suffix(t@, pos + 1));
    let (first, mut i) = match read_field(t, pos + 1) {
        None => {
            return None;
        },
        Some(x) => x,
    };
    let mut fields: Vec<Field> = Vec::new();
    fields.push(first);
    assert(fields_view(fields@) =~= seq![fields@[0]@]);
    while i < len
        invariant
            len == t@.len(),
            pos < i <= len,
            parse_object(u) == match parse_fields_rest(suffix(t@, i as int)) {
                None => None,
                Some((fs, r)) => Some((fields_view(fields@) + fs, r)),
            },
            u == suffix(t@, pos as int),
        decreases len - i,
    {
        let ghost w = suffix(t@, i as int);
        assert(w.len() > 0 && w[0] == t@[i as int]);
        if t[i] == '}' {
            assert(w.drop_first() =~= suffix(t@, i + 1));
            assert(fields_view(fields@) + Seq::<(Seq<char>, JVal)>::empty() =~= fields_view(fields@));
            return Some((fields, i + 1));
        }
        if t[i] != ',' {
            return None;
        }
        assert(w.drop_first() =~= suffix(t@, i + 1));
        match read_field(t, i + 1) {
            None => {
                return None;
            },
            Some((f, j)) => {
                proof {
                    if let Some((fs, r2)) = parse_fields_rest(suffix(t@, j as int)) {
                        assert(fields_view(fields@.push(f)) =~= fields_view(fields@).push(f@));
                        assert(fields_view(fields@) + (seq![f@] + fs) =~= fields_view(fields@).push(f@) + fs);
                    }
                }
                fields.push(f);
                i = j;
            },
        }
    }
    proof {
        assert(suffix(t@, i as int).len() == 0);
    }
    None
}

fn push_list(out: &mut String, l: &Vec<String>)
    ensures
        final(out)@ == old(out)@ + list_text(strings_view(l@)),
{
    let ghost start = out@;
    let ghost lv = strings_view(l@);
    push_char(out, '[');
    let mut i: usize = 0;
    while i < l.len()
        invariant
            lv == strings_view(l@),
            i <= l@.len(),
            i == 0 ==> out@ == start + seq!['['],
            i > 0 ==> out@ == start + seq!['['] + json_str(lv[0]) + list_rest_text(
                lv.subrange(1, i as int),
            ),
        decreases l@.len() - i,
    {
        if i > 0 {
            push_char(out, ',');
        }
        push_json_str(out, l[i].as_str());
        proof {
            if i > 0 {
                lemma_list_rest_push(lv.subrange(1, i as int), lv[i as int]);
                assert(lv.subrange(1, i + 1) =~= lv.subrange(1, i as int).push(lv[i as int]));
            } else {
                assert(lv.subrange(1, 1) =~= Seq::<Seq<char>>::empty());
            }
        }
        i = i + 1;
    }
    push_char(out, ']');
    proof {
        if lv.len() > 0 {
            assert(lv.subrange(1, lv.len() as int) =~= lv.drop_first());
        }
    }
    assert(out@ =~= start + list_text(lv));
}

proof fn lemma_list_rest_push(l: Seq<Seq<char>>, s: Seq<char>)
    ensures
        list_rest_text(l.push(s)) == list_rest_text(l) + seq![','] + json_str(s),
    decreases l.len(),
{
    if l.len() == 0 {
        assert(l.push(s).drop_first() =~= Seq::<Seq<char>>::empty());
        assert(list_rest_text(Seq::<Seq<char>>::empty()) == Seq::<char>::empty());
        assert(l.push(s)[0] == s);
        assert(list_rest_text(l) == Seq::<char>::empty());
        assert(list_rest_text(l.push(s)) =~= seq![','] + json_str(s));
    } else {
        assert(l.push(s).drop_first() =~= l.drop_first().push(s));
        lemma_list_rest_push(l.drop_first(), s);
        assert(list_rest_text(l.push(s)) =~= list_rest_text(l) + seq![','] + json_str(s));
    }
}

proof fn lemma_fields_rest_push(fs: Seq<(Seq<char>, JVal)>, f: (Seq<char>, JVal))
    ensures
        fields_rest_text(fs.push(f)) == fields_rest_text(fs) + seq![','] + field_text(f),
    decreases fs.len(),
{
    if fs.len() == 0 {
        assert(fs.push(f).drop_first() =~= Seq::<(Seq<char>, JVal)>::empty());
        assert(fields_rest_text(Seq::<(Seq<char>, JVal)>::empty()) == Seq::<char>::empty());
        assert(fs.push(f)[0] == f);
        assert(fields_rest_text(fs) == Seq::<char>::empty());
        assert(fields_rest_text(fs.push(f)) =~= seq![','] + field_text(f));
    } else {
        assert(fs.push(f).drop_first() =~= fs.drop_first().push(f));
        lemma_fields_rest_push(fs.drop_first(), f);
        assert(fields_rest_text(fs.push(f)) =~= fields_rest_text(fs) + seq![','] + field_text(f));
    }
}

fn push_field(out: &mut String, f: &Field)
    ensures
        final(out)@ == old(out)@ + field_text(f@),
{
    let ghost start = out@;
    push_json_str(out, f.key.as_str());
    push_char(out, ':');
    match &f.value {
        JsonValue::Str(s) => push_json_str(out, s.as_str()),
        JsonValue::List(l) => push_list(out, l),
        JsonValue::Values(l) => push_values(out, l),
    }
    assert(out@ =~= start + field_text(f@));
}

/// Appends the canonical text of the object with the fields `fs`.
pub fn push_object(out: &mut String, fs: &Vec<Field>)
    ensures
        final(out)@ == old(out)@ + object_text(fields_view(fs@)),
{
    let ghost start = out@;
    let ghost fv = fields_view(fs@);
    push_char(out, '{');
    let mut i: usize = 0;
    while i < fs.len()
        invariant
            fv == fields_view(fs@),
            i <= fs@.len(),
            i == 0 ==> out@ == start + seq!['{'],
            i > 0 ==> out@ == start + seq!['{'] + field_text(fv[0]) + fields_rest_text(
                fv.subrange(1, i as int),
            ),
        decreases fs@.len() - i,
    {
        if i > 0 {
            push_char(out, ',');
        }
        push_field(out, &fs[i]);
        proof {
            if i > 0 {
                lemma_fields_rest_push(fv.subrange(1, i as int), fv[i as int]);
                assert(fv.subrange(1, i + 1) =~= fv.subrange(1, i as int).push(fv[i as int]));
            } else {
                assert(fv.subrange(1, 1) =~= Seq::<(Seq<char>, JVal)>::empty());
            }
        }
        i = i + 1;
    }
    push_char(out, '}');
    proof {
        if fv.len() > 0 {
            assert(fv.subrange(1, fv.len() as int) =~= fv.drop_first());
        }
    }
    assert(out@ =~= start + object_text(fv));
}


fn read_item(t: &Vec<char>, pos: usize) -> (r: Option<(String, usize)>)
    requires
        pos <= t@.len(),
    ensures
        match parse_item(suffix(t@, pos as int)) {
            None => r is None,
            Some((s, rest)) => r is Some && r->Some_0.0@ == s && pos < r->Some_0.1 <= t@.len()
                && suffix(t@, r->Some_0.1 as int) == rest,
        },
{
    let ghost u = suffix(t@, pos as int);
    if t.len() - pos < 10 {
        return None;
    }
    let open = t[pos] == '{' && t[pos + 1] == '"' && t[pos + 2] == '@' && t[pos + 3] == 'v' && t[pos + 4] == 'a'
        && t[pos + 5] == 'l' && t[pos + 6] == 'u' && t[pos + 7] == 'e' && t[pos + 8] == '"' && t[pos + 9] == ':';
    assert(open == (u.subrange(0, 10) =~= value_open())) by {
        if u.subrange(0, 10) =~= value_open() {
            assert(u.subrange(0, 10)[0] == u[0]);
        }
        assert(forall|x: int| 0 <= x < 10 ==> u.subrange(0, 10)[x] == t@[pos + x]);
    }
    if !open {
        return None;
    }
    assert(u.subrange(10, u.len() as int) =~= suffix(t@, pos + 10));
    match read_str(t, pos + 10) {
        None => None,
        Some((s, j)) => {
            let ghost w = suffix(t@, j as int);
            if j < t.len() && t[j] == '}' {
                assert(w[0] == t@[j as int]);
                assert(w.drop_first() =~= suffix(t@, j + 1));
                Some((s, j + 1))
            } else {
                assert(j < t@.len() ==> w[0] == t@[j as int]);
                None
            }
        },
    }
}

fn read_values(t: &Vec<char>, pos: usize) -> (r: Option<(Vec<String>, usize)>)
    requires
        pos <= t@.len(),
    ensures
        match parse_values(suffix(t@, pos as int)) {
            None => r is None,
            Some((l, rest)) => r is Some && strings_view(r->Some_0.0@) == l && pos
                <= r->Some_0.1 <= t@.len() && suffix(t@, r->Some_0.1 as int) == rest,
        },
{
    let len = t.len();
    let ghost u = suffix(t@, pos as int);
    if pos >= len || t[pos] != '[' {
        assert(pos < len ==> u[0] == t@[pos as int]);
        return None;
    }
    assert(u[0] == t@[pos as int]);
    assert(u.drop_first() =~= suffix(t@, pos + 1));
    let (first, mut i) = match read_item(t, pos + 1) {
        None => {
            return None;
        },
        Some(x) => x,
    };
    let mut items: Vec<String> = Vec::new();
    items.push(first);
    assert(strings_view(items@) =~= seq![items@[0]@]);
    while i < len
        invariant
            len == t@.len(),
            pos < i <= len,
            items@.len() >= 1,
            parse_values(u) == match parse_values_rest(suffix(t@, i as int)) {
                None => None,
                Some((l, r)) => Some((strings_view(items@) + l, r)),
            },
            u == suffix(t@, pos as int),
        decreases len - i,
    {
        let ghost w = suffix(t@, i as int);
        assert(w.len() > 0 && w[0] == t@[i as int]);
        if t[i] == ']' {
            assert(w.drop_first() =~= suffix(t@, i + 1));
            assert(strings_view(items@) + Seq::<Seq<char>>::empty() =~= strings_view(items@));
            return Some((items, i + 1));
        }
        if t[i] != ',' {
            return None;
        }
        assert(w.drop_first() =~= suffix(t@, i + 1));
        match read_item(t, i + 1) {
            None => {
                return None;
            },
            Some((s, j)) => {
                proof {
                    if let Some((l, r2)) = parse_values_rest(suffix(t@, j as int)) {
                        assert(strings_view(items@.push(s)) =~= strings_view(items@).push(s@));
                        assert(strings_view(items@) + (seq![s@] + l) =~= strings_view(items@).push(s@) + l);
                    }
                }
                items.push(s);
                i = j;
            },
        }
    }
    proof {
        assert(suffix(t@, i as int).len() == 0);
    }
    None
}

proof fn lemma_values_rest_push(l: Seq<Seq<char>>, s: Seq<char>)
    ensures
        values_rest_text(l.push(s)) == values_rest_text(l) + seq![','] + item_text(s),
    decreases l.len(),
{
    if l.len() == 0 {
        assert(l.push(s).drop_first() =~= Seq::<Seq<char>>::empty());
        assert(values_rest_text(Seq::<Seq<char>>::empty()) == Seq::<char>::empty());
        assert(l.push(s)[0] == s);
        assert(values_rest_text(l.push(s)) =~= seq![','] + item_text(s));
    } else {
        assert(l.push(s).drop_first() =~= l.drop_first().push(s));
        lemma_values_rest_push(l.drop_first(), s);
        assert(values_rest_text(l.push(s)) =~= values_rest_text(l) + seq![','] + item_text(s));
    }
}

fn push_item(out: &mut String, s: &str)
    ensures
        final(out)@ == old(out)@ + item_text(s@),
{
    let ghost start = out@;
    push_char(out, '{');
    push_char(out, '"');
    push_char(out, '@');
    push_char(out, 'v');
    push_char(out, 'a');
    push_char(out, 'l');
    push_char(out, 'u');
    push_char(out, 'e');
    push_char(out, '"');
    push_char(out, ':');
    push_json_str(out, s);
    push_char(out, '}');
    assert(out@ =~= start + item_text(s@));
}

fn push_values(out: &mut String, l: &Vec<String>)
    ensures
        final(out)@ == old(out)@ + values_text(strings_view(l@)),
{
    let ghost start = out@;
    let ghost lv = strings_view(l@);
    push_char(out, '[');
    let mut i: usize = 0;
    while i < l.len()
        invariant
            lv == strings_view(l@),
            i <= l@.len(),
            i == 0 ==> out@ == start + seq!['['],
            i > 0 ==> out@ == start + seq!['['] + item_text(lv[0]) + values_rest_text(
                lv.subrange(1, i as int),
            ),
        decreases l@.len() - i,
    {
        if i > 0 {
            push_char(out, ',');
        }
        push_item(out, l[i].as_str());
        proof {
            if i > 0 {
                lemma_values_rest_push(lv.subrange(1, i as int), lv[i as int]);
                assert(lv.subrange(1, i + 1) =~= lv.subrange(1, i as int).push(lv[i as int]));
            } else {
                assert(lv.subrange(1, 1) =~= Seq::<Seq<char>>::empty());
            }
        }
        i = i + 1;
    }
    push_char(out, ']');
    proof {
        if lv.len() > 0 {
            assert(lv.subrange(1, lv.len() as int) =~= lv.drop_first());
        }
    }
    assert(out@ =~= start + values_text(lv));
}

} // verus!
