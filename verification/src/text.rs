//! Character-sequence helpers shared by the parser, the emitter and the
//! incremental writer: splitting and joining dotted names, lexicographic
//! ordering of names, decimal rendering, and padding.

use vstd::prelude::*;

verus! {

/// Relies on `String::push`: appends exactly one character at the end.
#[verifier::external_body]
pub fn push_char(s: &mut String, c: char)
    ensures
        final(s)@ == old(s)@.push(c),
{
    s.push(c);
}

/// Splitting a character sequence at every occurrence of `sep`.
/// Always yields at least one part; separators are not kept.
pub open spec fn spec_split(s: Seq<char>, sep: char) -> Seq<Seq<char>>
    decreases s.len(),
{
    if s.len() == 0 {
        seq![Seq::<char>::empty()]
    } else if s[0] == sep {
        seq![Seq::<char>::empty()] + spec_split(s.skip(1), sep)
    } else {
        let rest = spec_split(s.skip(1), sep);
        seq![seq![s[0]] + rest[0]] + rest.skip(1)
    }
}

pub proof fn lemma_split_len(s: Seq<char>, sep: char)
    ensures
        spec_split(s, sep).len() >= 1,
    decreases s.len(),
{
    if s.len() > 0 {
        lemma_split_len(s.skip(1), sep);
    }
}

/// Joining parts with `sep` between them.
pub open spec fn spec_join(parts: Seq<Seq<char>>, sep: char) -> Seq<char>
    decreases parts.len(),
{
    if parts.len() == 0 {
        Seq::<char>::empty()
    } else if parts.len() == 1 {
        parts[0]
    } else {
        parts[0] + seq![sep] + spec_join(parts.skip(1), sep)
    }
}

/// Joining what splitting produced gives the original sequence back:
/// splitting loses no characters.
pub proof fn lemma_join_split(s: Seq<char>, sep: char)
    ensures
        spec_join(spec_split(s, sep), sep) == s,
    decreases s.len(),
{
    if s.len() == 0 {
        assert(spec_join(spec_split(s, sep), sep) =~= s);
    } else if s[0] == sep {
        lemma_join_split(s.skip(1), sep);
        lemma_split_len(s.skip(1), sep);
        let r = spec_split(s.skip(1), sep);
        assert(spec_split(s, sep) == seq![Seq::<char>::empty()] + r);
        assert((seq![Seq::<char>::empty()] + r).skip(1) =~= r);
        assert(spec_join(spec_split(s, sep), sep) =~= s);
    } else {
        lemma_join_split(s.skip(1), sep);
        lemma_split_len(s.skip(1), sep);
        let r = spec_split(s.skip(1), sep);
        let joined = spec_split(s, sep);
        assert(joined == seq![seq![s[0]] + r[0]] + r.skip(1));
        if r.len() == 1 {
            assert(joined.len() == 1);
            assert(spec_join(joined, sep) == joined[0]);
            assert(spec_join(r, sep) == r[0]);
            assert(spec_join(joined, sep) =~= s);
        } else {
            assert(joined.len() == r.len() >= 2);
            assert(joined[0] == seq![s[0]] + r[0]);
            assert(joined.skip(1) =~= r.skip(1));
            assert(spec_join(joined, sep) == joined[0] + seq![sep] + spec_join(r.skip(1), sep));
            assert(spec_join(r, sep) == r[0] + seq![sep] + spec_join(r.skip(1), sep));
            assert(spec_join(joined, sep) =~= seq![s[0]] + spec_join(r, sep));
            assert(seq![s[0]] + s.skip(1) =~= s);
        }
    }
}

/// Splits `s` at every `sep`, in declaration order.
pub fn split_char(s: &str, sep: char) -> (parts: Vec<String>)
    ensures
        parts@.map_values(|p: String| p@) == spec_split(s@, sep),
        parts@.len() >= 1,
    decreases s@.len(),
{
    let n = s.unicode_len();
    if n == 0 {
        let mut parts: Vec<String> = Vec::new();
        parts.push(String::new());
        assert(parts@.map_values(|p: String| p@) =~= spec_split(s@, sep));
        parts
    } else {
        let c0 = s.get_char(0);
        let rest = s.substring_char(1, n);
        assert(rest@ == s@.skip(1));
        let mut parts = split_char(rest, sep);
        let ghost r = spec_split(s@.skip(1), sep);
        if c0 == sep {
            parts.insert(0, String::new());
            assert(parts@.map_values(|p: String| p@) =~= spec_split(s@, sep));
            parts
        } else {
            let old0 = parts.remove(0);
            let mut head = String::new();
            push_char(&mut head, c0);
            let head2 = head.concat(old0.as_str());
            assert(head2@ =~= seq![s@[0]] + r[0]);
            parts.insert(0, head2);
            assert(parts@.map_values(|p: String| p@) =~= spec_split(s@, sep));
            parts
        }
    }
}

pub proof fn lemma_join_push(parts: Seq<Seq<char>>, sep: char, x: Seq<char>)
    ensures
        spec_join(parts.push(x), sep) == if parts.len() == 0 {
            x
        } else {
            spec_join(parts, sep) + seq![sep] + x
        },
    decreases parts.len(),
{
    if parts.len() == 0 {
        assert(parts.push(x) =~= seq![x]);
        assert(spec_join(parts.push(x), sep) == x);
    } else if parts.len() == 1 {
        let p2 = parts.push(x);
        assert(p2.len() == 2);
        assert(p2[0] == parts[0]);
        assert(p2.skip(1) =~= seq![x]);
        assert(spec_join(seq![x], sep) == x);
        assert(spec_join(p2, sep) == p2[0] + seq![sep] + spec_join(p2.skip(1), sep));
    } else {
        lemma_join_push(parts.skip(1), sep, x);
        assert(parts.push(x).skip(1) =~= parts.skip(1).push(x));
        assert(spec_join(parts.push(x), sep) == parts[0] + seq![sep] + spec_join(
            parts.skip(1).push(x),
            sep,
        ));
        assert(parts.skip(1).len() >= 1);
        assert(spec_join(parts.skip(1).push(x), sep) == spec_join(parts.skip(1), sep) + seq![sep]
            + x);
        assert(spec_join(parts.push(x), sep) =~= spec_join(parts, sep) + seq![sep] + x);
    }
}

/// Joins `parts` with `sep` between successive parts.
pub fn join_char(parts: &Vec<String>, sep: char) -> (out: String)
    ensures
        out@ == spec_join(parts@.map_values(|p: String| p@), sep),
{
    let ghost view = parts@.map_values(|p: String| p@);
    let mut out = String::new();
    let mut i: usize = 0;
    while i < parts.len()
        invariant
            i <= parts.len(),
            view == parts@.map_values(|p: String| p@),
            out@ == spec_join(view.take(i as int), sep),
        decreases parts.len() - i,
    {
        if i > 0 {
            push_char(&mut out, sep);
        }
        let mut out2 = out.concat(parts[i].as_str());
        proof {
            lemma_join_push(view.take(i as int), sep, view[i as int]);
            assert(view.take(i as int).push(view[i as int]) =~= view.take(i + 1));
        }
        out = out2;
        i = i + 1;
    }
    assert(view.take(parts@.len() as int) =~= view);
    out
}

/// Two characters with the same code point are the same character.
pub proof fn lemma_char_code_inj(x: char, y: char)
    ensures
        x as int == y as int ==> x == y,
{
}

/// A character's code point fits in `u32` unchanged.
pub proof fn lemma_char_u32_code(c: char)
    ensures
        c as u32 as int == c as int,
{
}

/// Casting a character's code point back to a character gives it back.
pub proof fn lemma_char_roundtrip(c: char)
    ensures
        (c as u32) as char == c,
{
}

/// Strict lexicographic order on character sequences, by code point.
pub open spec fn lex_lt(a: Seq<char>, b: Seq<char>) -> bool
    decreases a.len(),
{
    if b.len() == 0 {
        false
    } else if a.len() == 0 {
        true
    } else if (a[0] as int) != (b[0] as int) {
        (a[0] as int) < (b[0] as int)
    } else {
        lex_lt(a.skip(1), b.skip(1))
    }
}

pub proof fn lemma_lex_connex(a: Seq<char>, b: Seq<char>)
    ensures
        !lex_lt(a, b) && !lex_lt(b, a) ==> a == b,
    decreases a.len(),
{
    if !lex_lt(a, b) && !lex_lt(b, a) {
        if a.len() == 0 || b.len() == 0 {
            assert(a =~= b);
        } else {
            lemma_char_code_inj(a[0], b[0]);
            assert(a[0] == b[0]);
            lemma_lex_connex(a.skip(1), b.skip(1));
            assert(a.skip(1) == b.skip(1));
            assert(a =~= seq![a[0]] + a.skip(1));
            assert(b =~= seq![b[0]] + b.skip(1));
        }
    }
}

pub proof fn lemma_lex_trans(a: Seq<char>, b: Seq<char>, c: Seq<char>)
    ensures
        lex_lt(a, b) && lex_lt(b, c) ==> lex_lt(a, c),
    decreases a.len() + b.len() + c.len(),
{
    if lex_lt(a, b) && lex_lt(b, c) {
        if a.len() == 0 {
        } else if b.len() == 0 {
        } else if c.len() == 0 {
        } else {
            if (a[0] as int) == (b[0] as int) && (b[0] as int) == (c[0] as int) {
                lemma_lex_trans(a.skip(1), b.skip(1), c.skip(1));
            }
        }
    }
}

/// Compares two strings in strict lexicographic (code point) order.
pub fn str_lt(a: &str, b: &str) -> (r: bool)
    ensures
        r == lex_lt(a@, b@),
{
    let na = a.unicode_len();
    let nb = b.unicode_len();
    let mut i: usize = 0;
    proof {
        assert(a@.skip(0) =~= a@);
        assert(b@.skip(0) =~= b@);
    }
    loop
        invariant
            i <= na,
            i <= nb,
            na == a@.len(),
            nb == b@.len(),
            lex_lt(a@, b@) == lex_lt(a@.skip(i as int), b@.skip(i as int)),
        decreases na - i,
    {
        if i >= nb {
            return false;
        }
        if i >= na {
            return true;
        }
        let ca = a.get_char(i);
        let cb = b.get_char(i);
        proof {
            lemma_char_u32_code(ca);
            lemma_char_u32_code(cb);
            lemma_char_code_inj(ca, cb);
        }
        if ca != cb {
            return (ca as u32) < (cb as u32);
        }
        proof {
            assert(a@.skip(i as int).skip(1) =~= a@.skip(i + 1));
            assert(b@.skip(i as int).skip(1) =~= b@.skip(i + 1));
        }
        i = i + 1;
    }
}

/// One decimal digit as a character.
pub open spec fn spec_digit(d: int) -> char {
    if d == 0 {
        '0'
    } else if d == 1 {
        '1'
    } else if d == 2 {
        '2'
    } else if d == 3 {
        '3'
    } else if d == 4 {
        '4'
    } else if d == 5 {
        '5'
    } else if d == 6 {
        '6'
    } else if d == 7 {
        '7'
    } else if d == 8 {
        '8'
    } else {
        '9'
    }
}

/// The usual decimal rendering of a non-negative integer, no leading zeros.
pub open spec fn spec_dec(n: int) -> Seq<char>
    decreases n,
{
    if n < 10 {
        seq![spec_digit(n)]
    } else {
        spec_dec(n / 10) + seq![spec_digit(n % 10)]
    }
}

fn digit_char(d: u64) -> (c: char)
    requires
        d < 10,
    ensures
        c == spec_digit(d as int),
{
    match d {
        0 => '0',
        1 => '1',
        2 => '2',
        3 => '3',
        4 => '4',
        5 => '5',
        6 => '6',
        7 => '7',
        8 => '8',
        _ => '9',
    }
}

/// Renders `n` in decimal.
pub fn dec_string(n: u64) -> (s: String)
    ensures
        s@ == spec_dec(n as int),
    decreases n,
{
    if n < 10 {
        let mut s = String::new();
        push_char(&mut s, digit_char(n));
        assert(s@ =~= spec_dec(n as int));
        s
    } else {
        let mut s = dec_string(n / 10);
        push_char(&mut s, digit_char(n % 10));
        assert(s@ =~= spec_dec(n as int));
        s
    }
}

/// One lower-case hexadecimal digit as a character.
pub open spec fn spec_hex_digit(d: int) -> char {
    if d < 10 {
        spec_digit(d)
    } else if d == 10 {
        'a'
    } else if d == 11 {
        'b'
    } else if d == 12 {
        'c'
    } else if d == 13 {
        'd'
    } else if d == 14 {
        'e'
    } else {
        'f'
    }
}

/// The lower-case hexadecimal rendering of a non-negative integer.
pub open spec fn spec_hex(n: int) -> Seq<char>
    decreases n,
{
    if n < 16 {
        seq![spec_hex_digit(n)]
    } else {
        spec_hex(n / 16) + seq![spec_hex_digit(n % 16)]
    }
}

fn hex_digit_char(d: u32) -> (c: char)
    requires
        d < 16,
    ensures
        c == spec_hex_digit(d as int),
{
    match d {
        0 => '0',
        1 => '1',
        2 => '2',
        3 => '3',
        4 => '4',
        5 => '5',
        6 => '6',
        7 => '7',
        8 => '8',
        9 => '9',
        10 => 'a',
        11 => 'b',
        12 => 'c',
        13 => 'd',
        14 => 'e',
        _ => 'f',
    }
}

/// Renders `n` in lower-case hexadecimal.
pub fn hex_string(n: u32) -> (s: String)
    ensures
        s@ == spec_hex(n as int),
    decreases n,
{
    if n < 16 {
        let mut s = String::new();
        push_char(&mut s, hex_digit_char(n));
        assert(s@ =~= spec_hex(n as int));
        s
    } else {
        let mut s = hex_string(n / 16);
        push_char(&mut s, hex_digit_char(n % 16));
        assert(s@ =~= spec_hex(n as int));
        s
    }
}

/// The decimal rendering of a signed integer: a minus sign, then the digits.
pub open spec fn spec_dec_i64(n: int) -> Seq<char> {
    if n < 0 {
        seq!['-'] + spec_dec(-n)
    } else {
        spec_dec(n)
    }
}

pub fn dec_string_i32(n: i32) -> (s: String)
    ensures
        s@ == spec_dec_i64(n as int),
{
    if n >= 0 {
        dec_string(n as u64)
    } else {
        let m: u64 = (-(n as i64)) as u64;
        let mut s = String::new();
        push_char(&mut s, '-');
        let digits = dec_string(m);
        let r = s.concat(digits.as_str());
        assert(r@ =~= spec_dec_i64(n as int));
        r
    }
}

/// `s` padded on the right with spaces up to `width` characters.
pub open spec fn spec_pad_right(s: Seq<char>, width: int) -> Seq<char> {
    if s.len() >= width {
        s
    } else {
        s + Seq::new((width - s.len()) as nat, |i: int| ' ')
    }
}

pub fn pad_right(s: String, width: usize) -> (r: String)
    ensures
        r@ == spec_pad_right(s@, width as int),
{
    let mut r = s;
    let ghost orig = r@;
    let mut l = r.as_str().unicode_len();
    if l >= width {
        return r;
    }
    while l < width
        invariant
            l == r@.len(),
            l <= width,
            orig.len() <= l,
            r@ == orig + Seq::new((l - orig.len()) as nat, |i: int| ' '),
        decreases width - l,
    {
        push_char(&mut r, ' ');
        proof {
            assert(r@ =~= orig + Seq::new((l + 1 - orig.len()) as nat, |i: int| ' '));
        }
        l = l + 1;
    }
    r
}

/// Whether `s` ends with `suffix`.
pub open spec fn spec_ends_with(s: Seq<char>, suffix: Seq<char>) -> bool {
    s.len() >= suffix.len() && s.skip(s.len() - suffix.len()) == suffix
}

pub fn ends_with(s: &str, suffix: &str) -> (r: bool)
    ensures
        r == spec_ends_with(s@, suffix@),
{
    let n = s.unicode_len();
    let m = suffix.unicode_len();
    if n < m {
        return false;
    }
    let base = n - m;
    let mut i: usize = 0;
    while i < m
        invariant
            i <= m,
            n == s@.len(),
            m == suffix@.len(),
            base == n - m,
            forall|j: int| 0 <= j < i ==> s@[base + j] == suffix@[j],
        decreases m - i,
    {
        if s.get_char(base + i) != suffix.get_char(i) {
            assert(s@.skip(base as int)[i as int] != suffix@[i as int]);
            return false;
        }
        i = i + 1;
    }
    assert(s@.skip(base as int) =~= suffix@);
    true
}

/// The ASCII lower-case code of a character's code point.
pub open spec fn spec_lower_code(c: char) -> int {
    if 0x41 <= c as int <= 0x5A {
        c as int + 0x20
    } else {
        c as int
    }
}

/// Equality up to ASCII case.
pub open spec fn spec_eq_ignore_ascii_case(a: Seq<char>, b: Seq<char>) -> bool {
    a.len() == b.len() && forall|i: int| 0 <= i < a.len() ==> spec_lower_code(a[i]) == spec_lower_code(b[i])
}

pub fn eq_ignore_ascii_case(a: &str, b: &str) -> (r: bool)
    ensures
        r == spec_eq_ignore_ascii_case(a@, b@),
{
    let na = a.unicode_len();
    let nb = b.unicode_len();
    if na != nb {
        return false;
    }
    let mut i: usize = 0;
    while i < na
        invariant
            i <= na,
            na == a@.len(),
            na == b@.len(),
            forall|j: int| 0 <= j < i ==> spec_lower_code(a@[j]) == spec_lower_code(b@[j]),
        decreases na - i,
    {
        let ca = a.get_char(i) as u32;
        let cb = b.get_char(i) as u32;
        let la = if 0x41 <= ca && ca <= 0x5A { ca + 0x20 } else { ca };
        let lb = if 0x41 <= cb && cb <= 0x5A { cb + 0x20 } else { cb };
        if la != lb {
            return false;
        }
        i = i + 1;
    }
    true
}

} // verus!
