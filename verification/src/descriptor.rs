//! Type descriptors: the compact string encoding of field and method
//! signatures, decoded into a semantic type model and printable back,
//! reproducing the original text exactly.

use vstd::prelude::*;

use crate::text::push_char;

verus! {

/// A decoded type signature: a primitive, an object by internal
/// (slash-separated) class name, or an array of a decoded type.
pub enum JavaType {
    Byte,
    Char,
    Double,
    Float,
    Int,
    Long,
    Short,
    Boolean,
    Object(String),
    Array(Box<JavaType>),
}

/// The mathematical model of a decoded type.
pub enum SpecJavaType {
    Byte,
    Char,
    Double,
    Float,
    Int,
    Long,
    Short,
    Boolean,
    Object(Seq<char>),
    Array(Box<SpecJavaType>),
}

/// The model of an executable `JavaType` value.
pub open spec fn view_type(t: JavaType) -> SpecJavaType
    decreases t,
{
    match t {
        JavaType::Byte => SpecJavaType::Byte,
        JavaType::Char => SpecJavaType::Char,
        JavaType::Double => SpecJavaType::Double,
        JavaType::Float => SpecJavaType::Float,
        JavaType::Int => SpecJavaType::Int,
        JavaType::Long => SpecJavaType::Long,
        JavaType::Short => SpecJavaType::Short,
        JavaType::Boolean => SpecJavaType::Boolean,
        JavaType::Object(n) => SpecJavaType::Object(n@),
        JavaType::Array(e) => SpecJavaType::Array(Box::new(view_type(*e))),
    }
}

/// The descriptor text of a decoded type.
pub open spec fn spec_unparse(t: SpecJavaType) -> Seq<char>
    decreases t,
{
    match t {
        SpecJavaType::Byte => "B"@,
        SpecJavaType::Char => "C"@,
        SpecJavaType::Double => "D"@,
        SpecJavaType::Float => "F"@,
        SpecJavaType::Int => "I"@,
        SpecJavaType::Long => "J"@,
        SpecJavaType::Short => "S"@,
        SpecJavaType::Boolean => "Z"@,
        SpecJavaType::Object(n) => "L"@ + n + ";"@,
        SpecJavaType::Array(e) => "["@ + spec_unparse(*e),
    }
}

/// First position of `ch` at or after `i`, or the length if absent.
pub open spec fn find_from(s: Seq<char>, i: int, ch: char) -> int
    decreases s.len() - i,
{
    if i < 0 || i >= s.len() {
        s.len() as int
    } else if s[i] == ch {
        i
    } else {
        find_from(s, i + 1, ch)
    }
}

pub proof fn lemma_find_from(s: Seq<char>, i: int, ch: char)
    requires
        0 <= i <= s.len(),
    ensures
        i <= find_from(s, i, ch) <= s.len(),
        find_from(s, i, ch) < s.len() ==> s[find_from(s, i, ch)] == ch,
        forall|j: int| i <= j < find_from(s, i, ch) ==> s[j] != ch,
    decreases s.len() - i,
{
    if i < s.len() && s[i] != ch {
        lemma_find_from(s, i + 1, ch);
    }
}

/// The decoder: one type descriptor starting at `pos`, with the position
/// just past it.  `None` on malformed input (unknown tag, unterminated or
/// empty object name, or a position out of range).
pub open spec fn spec_parse_type(s: Seq<char>, pos: int) -> Option<(SpecJavaType, int)>
    decreases s.len() - pos,
{
    if pos < 0 || pos >= s.len() {
        Option::None
    } else {
        let c = s[pos];
        if c == 'B' {
            Option::Some((SpecJavaType::Byte, pos + 1))
        } else if c == 'C' {
            Option::Some((SpecJavaType::Char, pos + 1))
        } else if c == 'D' {
            Option::Some((SpecJavaType::Double, pos + 1))
        } else if c == 'F' {
            Option::Some((SpecJavaType::Float, pos + 1))
        } else if c == 'I' {
            Option::Some((SpecJavaType::Int, pos + 1))
        } else if c == 'J' {
            Option::Some((SpecJavaType::Long, pos + 1))
        } else if c == 'S' {
            Option::Some((SpecJavaType::Short, pos + 1))
        } else if c == 'Z' {
            Option::Some((SpecJavaType::Boolean, pos + 1))
        } else if c == '[' {
            match spec_parse_type(s, pos + 1) {
                Option::Some((t, e)) => Option::Some((SpecJavaType::Array(Box::new(t)), e)),
                Option::None => Option::None,
            }
        } else if c == 'L' {
            let e = find_from(s, pos + 1, ';');
            if e >= s.len() || e == pos + 1 {
                Option::None
            } else {
                Option::Some((SpecJavaType::Object(s.subrange(pos + 1, e)), e + 1))
            }
        } else {
            Option::None
        }
    }
}

/// Bounds of a successful parse: it consumes at least one character and
/// stays within the text.
pub proof fn lemma_parse_type_bounds(s: Seq<char>, pos: int)
    ensures
        spec_parse_type(s, pos) matches Option::Some(r) ==> pos + 1 <= r.1 <= s.len(),
    decreases s.len() - pos,
{
    if 0 <= pos < s.len() {
        if s[pos] == '[' {
            lemma_parse_type_bounds(s, pos + 1);
        } else if s[pos] == 'L' {
            lemma_find_from(s, pos + 1, ';');
        }
    }
}

/// Printing what the decoder produced gives back exactly the consumed
/// substring: nothing is lost or reshaped by decoding.
pub proof fn lemma_parse_unparse(s: Seq<char>, pos: int)
    ensures
        spec_parse_type(s, pos) matches Option::Some(r) ==> {
            &&& pos + 1 <= r.1 <= s.len()
            &&& spec_unparse(r.0) == s.subrange(pos, r.1)
        },
    decreases s.len() - pos,
{
    lemma_parse_type_bounds(s, pos);
    if 0 <= pos < s.len() {
        let c = s[pos];
        reveal_strlit("B");
        reveal_strlit("C");
        reveal_strlit("D");
        reveal_strlit("F");
        reveal_strlit("I");
        reveal_strlit("J");
        reveal_strlit("S");
        reveal_strlit("Z");
        reveal_strlit("L");
        reveal_strlit(";");
        reveal_strlit("[");
        if c == '[' {
            lemma_parse_unparse(s, pos + 1);
            if spec_parse_type(s, pos + 1) is Some {
                let t = spec_parse_type(s, pos + 1)->Some_0.0;
                let e = spec_parse_type(s, pos + 1)->Some_0.1;
                assert(spec_unparse(SpecJavaType::Array(Box::new(t))) == "["@ + spec_unparse(t));
                assert("["@ + s.subrange(pos + 1, e) =~= s.subrange(pos, e));
            }
        } else if c == 'L' {
            let e = find_from(s, pos + 1, ';');
            lemma_find_from(s, pos + 1, ';');
            if e < s.len() && e != pos + 1 {
                let name = s.subrange(pos + 1, e);
                assert(s[e] == ';');
                assert("L"@ + name + ";"@ =~= s.subrange(pos, e + 1));
            }
        } else if c == 'B' || c == 'C' || c == 'D' || c == 'F' || c == 'I' || c == 'J' || c == 'S'
            || c == 'Z' {
            assert(spec_unparse(spec_parse_type(s, pos)->Some_0.0) =~= s.subrange(pos, pos + 1));
        }
    }
}

/// A whole field descriptor is one type consuming the full text.
pub open spec fn valid_field_descriptor(s: Seq<char>) -> bool {
    spec_parse_type(s, 0) matches Option::Some(r) && r.1 == s.len()
}

/// Round trip for field descriptors: decoding a valid descriptor and
/// printing the decoded type reproduces the original string exactly.
pub proof fn lemma_descriptor_round_trip(s: Seq<char>)
    requires
        valid_field_descriptor(s),
    ensures
        spec_unparse(spec_parse_type(s, 0)->Some_0.0) == s,
{
    lemma_parse_unparse(s, 0);
    assert(s.subrange(0, s.len() as int) =~= s);
}

/// Decodes one type descriptor starting at `pos`.
pub fn parse_type(s: &str, pos: usize) -> (r: Option<(JavaType, usize)>)
    requires
        pos <= s@.len(),
    ensures
        match r {
            Option::Some((t, e)) => spec_parse_type(s@, pos as int) == Option::Some(
                (view_type(t), e as int),
            ) && pos < e <= s@.len(),
            Option::None => spec_parse_type(s@, pos as int) is None,
        },
    decreases s@.len() - pos,
{
    proof {
        lemma_parse_type_bounds(s@, pos as int);
    }
    let n = s.unicode_len();
    if pos >= n {
        return None;
    }
    let c = s.get_char(pos);
    if c == 'B' {
        Some((JavaType::Byte, pos + 1))
    } else if c == 'C' {
        Some((JavaType::Char, pos + 1))
    } else if c == 'D' {
        Some((JavaType::Double, pos + 1))
    } else if c == 'F' {
        Some((JavaType::Float, pos + 1))
    } else if c == 'I' {
        Some((JavaType::Int, pos + 1))
    } else if c == 'J' {
        Some((JavaType::Long, pos + 1))
    } else if c == 'S' {
        Some((JavaType::Short, pos + 1))
    } else if c == 'Z' {
        Some((JavaType::Boolean, pos + 1))
    } else if c == '[' {
        match parse_type(s, pos + 1) {
            Option::Some((t, e)) => Some((JavaType::Array(Box::new(t)), e)),
            Option::None => None,
        }
    } else if c == 'L' {
        // scan for the terminating semicolon
        let mut e: usize = pos + 1;
        while e < n && s.get_char(e) != ';'
            invariant
                pos + 1 <= e <= n,
                n == s@.len(),
                forall|j: int| pos + 1 <= j < e ==> s@[j] != ';',
            decreases n - e,
        {
            e = e + 1;
        }
        proof {
            lemma_find_from(s@, pos + 1, ';');
            assert(find_from(s@, pos + 1, ';') == e) by {
                if find_from(s@, pos + 1, ';') < e {
                    assert(s@[find_from(s@, pos + 1, ';')] != ';');
                }
                if find_from(s@, pos + 1, ';') > e {
                    assert(e < s@.len());
                }
            }
        }
        if e >= n || e == pos + 1 {
            return None;
        }
        let name = String::from_str(s.substring_char(pos + 1, e));
        Some((JavaType::Object(name), e + 1))
    } else {
        None
    }
}

/// Prints a decoded type back to its descriptor text.
pub fn unparse_type(t: &JavaType) -> (out: String)
    ensures
        out@ == spec_unparse(view_type(*t)),
    decreases t,
{
    match t {
        JavaType::Byte => String::from_str("B"),
        JavaType::Char => String::from_str("C"),
        JavaType::Double => String::from_str("D"),
        JavaType::Float => String::from_str("F"),
        JavaType::Int => String::from_str("I"),
        JavaType::Long => String::from_str("J"),
        JavaType::Short => String::from_str("S"),
        JavaType::Boolean => String::from_str("Z"),
        JavaType::Object(n) => {
            let mut out = String::from_str("L");
            let out2 = out.concat(n.as_str());
            out2.concat(";")
        },
        JavaType::Array(e) => {
            let rest = unparse_type(e);
            String::from_str("[").concat(rest.as_str())
        },
    }
}

/// The parameter list of a method descriptor, from just after the opening
/// parenthesis up to and past the closing one.
pub open spec fn spec_parse_params(s: Seq<char>, pos: int) -> Option<(Seq<SpecJavaType>, int)>
    decreases s.len() - pos,
    via spec_parse_params_decreases
{
    if pos < 0 || pos >= s.len() {
        Option::None
    } else if s[pos] == ')' {
        Option::Some((Seq::<SpecJavaType>::empty(), pos + 1))
    } else {
        match spec_parse_type(s, pos) {
            Option::Some((t, e)) => match spec_parse_params(s, e) {
                Option::Some((rest, e2)) => Option::Some((seq![t] + rest, e2)),
                Option::None => Option::None,
            },
            Option::None => Option::None,
        }
    }
}

#[via_fn]
proof fn spec_parse_params_decreases(s: Seq<char>, pos: int) {
    lemma_parse_type_bounds(s, pos);
}

/// A whole method descriptor: parenthesized parameters, then a return
/// type or `V` for void, consuming the full text.
pub open spec fn spec_parse_method(s: Seq<char>) -> Option<(Seq<SpecJavaType>, Option<
    SpecJavaType,
>, int)> {
    if s.len() == 0 || s[0] != '(' {
        Option::None
    } else {
        match spec_parse_params(s, 1) {
            Option::Some((params, e)) => {
                if e < s.len() && s[e] == 'V' {
                    Option::Some((params, Option::None, e + 1))
                } else {
                    match spec_parse_type(s, e) {
                        Option::Some((t, e2)) => Option::Some((params, Option::Some(t), e2)),
                        Option::None => Option::None,
                    }
                }
            },
            Option::None => Option::None,
        }
    }
}

pub open spec fn valid_method_descriptor(s: Seq<char>) -> bool {
    spec_parse_method(s) matches Option::Some(r) && r.2 == s.len()
}

/// Decodes the parameter list of a method descriptor.
fn parse_params(s: &str, pos: usize) -> (r: Option<(Vec<JavaType>, usize)>)
    requires
        pos <= s@.len(),
    ensures
        match r {
            Option::Some((ts, e)) => spec_parse_params(s@, pos as int) == Option::Some(
                (ts@.map_values(|t: JavaType| view_type(t)), e as int),
            ) && pos < e <= s@.len(),
            Option::None => spec_parse_params(s@, pos as int) is None,
        },
    decreases s@.len() - pos,
{
    let n = s.unicode_len();
    if pos >= n {
        return None;
    }
    if s.get_char(pos) == ')' {
        let v: Vec<JavaType> = Vec::new();
        proof {
            assert(v@.map_values(|t: JavaType| view_type(t)) =~= Seq::<SpecJavaType>::empty());
        }
        return Some((v, pos + 1));
    }
    match parse_type(s, pos) {
        Option::Some((t, e)) => {
            match parse_params(s, e) {
                Option::Some((mut rest, e2)) => {
                    let ghost prev = rest@;
                    rest.insert(0, t);
                    proof {
                        assert(rest@.map_values(|t0: JavaType| view_type(t0)) =~= seq![
                            view_type(t),
                        ] + prev.map_values(|t0: JavaType| view_type(t0)));
                    }
                    Some((rest, e2))
                },
                Option::None => None,
            }
        },
        Option::None => None,
    }
}

/// Decodes a whole method descriptor into its parameter types and return
/// type (`None` for void); fails unless the full text is consumed.
pub fn parse_method_descriptor(s: &str) -> (r: Option<(Vec<JavaType>, Option<JavaType>)>)
    ensures
        r.is_some() <==> valid_method_descriptor(s@),
        r matches Option::Some((params, ret)) ==> {
            let m = spec_parse_method(s@)->Some_0;
            &&& params@.map_values(|t: JavaType| view_type(t)) == m.0
            &&& match ret {
                Option::Some(t) => m.1 == Option::Some(view_type(t)),
                Option::None => m.1 is None,
            }
        },
{
    let n = s.unicode_len();
    if n == 0 {
        return None;
    }
    if s.get_char(0) != '(' {
        return None;
    }
    match parse_params(s, 1) {
        Option::Some((params, e)) => {
            if e < n && s.get_char(e) == 'V' {
                if e + 1 == n {
                    Some((params, None))
                } else {
                    None
                }
            } else {
                match parse_type(s, e) {
                    Option::Some((t, e2)) => {
                        if e2 == n {
                            Some((params, Some(t)))
                        } else {
                            None
                        }
                    },
                    Option::None => None,
                }
            }
        },
        Option::None => None,
    }
}


/// The concatenated descriptor text of a parameter list.
pub open spec fn spec_unparse_params(ps: Seq<SpecJavaType>) -> Seq<char>
    decreases ps.len(),
{
    if ps.len() == 0 {
        Seq::<char>::empty()
    } else {
        spec_unparse(ps[0]) + spec_unparse_params(ps.skip(1))
    }
}

/// Printing a decoded parameter list (with its closing parenthesis)
/// reproduces exactly the consumed text.
pub proof fn lemma_params_unparse(s: Seq<char>, pos: int)
    ensures
        spec_parse_params(s, pos) matches Option::Some(r) ==> {
            &&& pos + 1 <= r.1 <= s.len()
            &&& spec_unparse_params(r.0) + ")"@ == s.subrange(pos, r.1)
        },
    decreases s.len() - pos,
{
    reveal_strlit(")");
    if 0 <= pos < s.len() {
        if s[pos] == ')' {
            if spec_parse_params(s, pos) is Some {
                assert(spec_unparse_params(Seq::<SpecJavaType>::empty()) + ")"@ =~= s.subrange(
                    pos,
                    pos + 1,
                ));
            }
        } else {
            lemma_parse_unparse(s, pos);
            if spec_parse_type(s, pos) is Some {
                let t = spec_parse_type(s, pos)->Some_0.0;
                let e1 = spec_parse_type(s, pos)->Some_0.1;
                lemma_params_unparse(s, e1);
                if spec_parse_params(s, e1) is Some {
                    let rest = spec_parse_params(s, e1)->Some_0.0;
                    let e2 = spec_parse_params(s, e1)->Some_0.1;
                    assert((seq![t] + rest).skip(1) =~= rest);
                    assert((seq![t] + rest)[0] == t);
                    assert(spec_unparse_params(seq![t] + rest) == spec_unparse(t)
                        + spec_unparse_params(rest));
                    assert(spec_unparse(t) + (spec_unparse_params(rest) + ")"@) =~= s.subrange(
                        pos,
                        e2,
                    ));
                    assert(spec_unparse_params(seq![t] + rest) + ")"@ =~= s.subrange(pos, e2));
                }
            }
        }
    }
}

/// Round trip for method descriptors: decoding a valid descriptor and
/// printing the decoded parameter and result types reproduces the
/// original string exactly.
pub proof fn lemma_method_descriptor_round_trip(s: Seq<char>)
    requires
        valid_method_descriptor(s),
    ensures
        ({
            let m = spec_parse_method(s)->Some_0;
            let ret = match m.1 {
                Option::Some(t) => spec_unparse(t),
                Option::None => "V"@,
            };
            "("@ + spec_unparse_params(m.0) + ")"@ + ret == s
        }),
{
    reveal_strlit("(");
    reveal_strlit(")");
    reveal_strlit("V");
    let params = spec_parse_params(s, 1)->Some_0.0;
    let e = spec_parse_params(s, 1)->Some_0.1;
    lemma_params_unparse(s, 1);
    let m = spec_parse_method(s)->Some_0;
    let mid = spec_unparse_params(params) + ")"@;
    assert(mid == s.subrange(1, e));
    assert(s[0] == '(');
    if e < s.len() && s[e] == 'V' {
        assert(m.2 == e + 1 == s.len());
        assert(s.subrange(e, s.len() as int) =~= "V"@);
        assert("("@ + mid + s.subrange(e, s.len() as int) =~= s);
        assert("("@ + spec_unparse_params(params) + ")"@ + "V"@ =~= "("@ + mid + s.subrange(
            e,
            s.len() as int,
        ));
    } else {
        lemma_parse_unparse(s, e);
        let t = spec_parse_type(s, e)->Some_0.0;
        let e2 = spec_parse_type(s, e)->Some_0.1;
        assert(m.2 == e2 == s.len());
        assert(spec_unparse(t) == s.subrange(e, e2));
        assert("("@ + mid + s.subrange(e, s.len() as int) =~= s);
        assert("("@ + spec_unparse_params(params) + ")"@ + spec_unparse(t) =~= "("@ + mid
            + s.subrange(e, s.len() as int));
    }
}

} // verus!
