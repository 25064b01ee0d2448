//! The classfile parser: decodes one class's binary metadata (constant
//! pool and structural data) into a semantic model.  Every constant-pool
//! index is resolved into its final string before the model is returned,
//! and declaration order of fields and methods is preserved.

use vstd::prelude::*;

use crate::descriptor::{valid_field_descriptor, valid_method_descriptor};
use crate::error::GenError;
use crate::text::push_char;

verus! {

/// Big-endian 16-bit read at `i` (only used where bounds are checked).
pub open spec fn be_u16(b: Seq<u8>, i: int) -> int {
    b[i] * 0x100 + b[i + 1]
}

/// Big-endian 32-bit read at `i`.
pub open spec fn be_u32(b: Seq<u8>, i: int) -> int {
    ((b[i] * 0x100 + b[i + 1]) * 0x100 + b[i + 2]) * 0x100 + b[i + 3]
}

/// The UTF-16 code units a text entry's modified UTF-8 bytes encode:
/// one byte for U+0001..U+007F, two bytes for U+0000 and the rest of the
/// two-byte range, three bytes up to U+FFFF (supplementary characters
/// arrive as surrogate pairs of three-byte groups).  Overlong forms are
/// accepted, as the host runtime's own lenient decoder accepts them; a
/// zero byte, a four-byte lead or a stray continuation byte is not
/// decodable.
pub open spec fn spec_mutf8_units(b: Seq<u8>) -> Option<Seq<u16>>
    decreases b.len(),
{
    if b.len() == 0 {
        Option::Some(Seq::<u16>::empty())
    } else if 0x01 <= b[0] <= 0x7F {
        match spec_mutf8_units(b.skip(1)) {
            Option::Some(rest) => Option::Some(seq![b[0] as u16] + rest),
            Option::None => Option::None,
        }
    } else if 0xC0 <= b[0] <= 0xDF {
        if b.len() >= 2 && 0x80 <= b[1] <= 0xBF {
            let u = (b[0] - 0xC0) * 0x40 + (b[1] - 0x80);
            match spec_mutf8_units(b.skip(2)) {
                Option::Some(rest) => Option::Some(seq![u as u16] + rest),
                Option::None => Option::None,
            }
        } else {
            Option::None
        }
    } else if 0xE0 <= b[0] <= 0xEF {
        if b.len() >= 3 && 0x80 <= b[1] <= 0xBF && 0x80 <= b[2] <= 0xBF {
            let u = (b[0] - 0xE0) * 0x1000 + (b[1] - 0x80) * 0x40 + (b[2] - 0x80);
            match spec_mutf8_units(b.skip(3)) {
                Option::Some(rest) => Option::Some(seq![u as u16] + rest),
                Option::None => Option::None,
            }
        } else {
            Option::None
        }
    } else {
        Option::None
    }
}

/// One text entry decoded to characters: modified UTF-8 to UTF-16 code
/// units, then strict UTF-16 to characters (`None` on an unpaired
/// surrogate, as characters cannot carry one).
pub open spec fn spec_cp_text(b: Seq<u8>) -> Option<Seq<char>> {
    match spec_mutf8_units(b) {
        Option::Some(units) => match crate::utf16::spec_decode_utf16(units) {
            Option::Some(cps) => Option::Some(cps.map_values(|x: u32| x as char)),
            Option::None => Option::None,
        },
        Option::None => Option::None,
    }
}

/// A constant-pool entry, as far as the semantic model needs it: text
/// entries and class references are kept, the second slot of an 8-byte
/// constant is a filler, everything else is opaque.  A text entry whose
/// bytes do not decode stays in the pool as `Undecodable`: it fails a
/// run only where something references it as a name or descriptor, so an
/// unreferenced string literal never aborts anything.
pub enum SpecCpEntry {
    Utf8(Seq<char>),
    ClassRef(int),
    Undecodable,
    Other,
    Wide,
}

/// An executable constant-pool entry.
pub enum CpEntry {
    Utf8(String),
    ClassRef(u16),
    Undecodable,
    Other,
    Wide,
}

pub open spec fn view_cp_entry(e: CpEntry) -> SpecCpEntry {
    match e {
        CpEntry::Utf8(s) => SpecCpEntry::Utf8(s@),
        CpEntry::ClassRef(i) => SpecCpEntry::ClassRef(i as int),
        CpEntry::Undecodable => SpecCpEntry::Undecodable,
        CpEntry::Other => SpecCpEntry::Other,
        CpEntry::Wide => SpecCpEntry::Wide,
    }
}

/// The byte size of a fixed-size constant-pool entry for `tag`, or `0`
/// for an unknown tag (a decode failure).
pub open spec fn misc_entry_size(tag: u8) -> int {
    if tag == 3 || tag == 4 {
        5
    } else if tag == 8 {
        3
    } else if tag == 9 || tag == 10 || tag == 11 {
        5
    } else if tag == 12 {
        5
    } else if tag == 15 {
        4
    } else if tag == 16 {
        3
    } else if tag == 17 || tag == 18 {
        5
    } else if tag == 19 || tag == 20 {
        3
    } else {
        0
    }
}

/// Parses `n` constant-pool slots starting at `pos`; an 8-byte constant
/// takes two slots.  `None` on truncation or an unknown tag; text that
/// does not decode is kept as an opaque `Undecodable` entry.
pub open spec fn spec_parse_cp(b: Seq<u8>, pos: int, n: int) -> Option<(Seq<SpecCpEntry>, int)>
    decreases n,
{
    if n <= 0 {
        Option::Some((Seq::<SpecCpEntry>::empty(), pos))
    } else if pos < 0 || pos >= b.len() {
        Option::None
    } else {
        let tag = b[pos];
        if tag == 1 {
            if pos + 3 > b.len() {
                Option::None
            } else {
                let len = be_u16(b, pos + 1);
                if pos + 3 + len > b.len() {
                    Option::None
                } else {
                    let entry = match spec_cp_text(b.subrange(pos + 3, pos + 3 + len)) {
                        Option::Some(text) => SpecCpEntry::Utf8(text),
                        Option::None => SpecCpEntry::Undecodable,
                    };
                    match spec_parse_cp(b, pos + 3 + len, n - 1) {
                        Option::Some((rest, e)) => Option::Some((seq![entry] + rest, e)),
                        Option::None => Option::None,
                    }
                }
            }
        } else if tag == 7 {
            if pos + 3 > b.len() {
                Option::None
            } else {
                match spec_parse_cp(b, pos + 3, n - 1) {
                    Option::Some((rest, e)) => Option::Some(
                        (seq![SpecCpEntry::ClassRef(be_u16(b, pos + 1))] + rest, e),
                    ),
                    Option::None => Option::None,
                }
            }
        } else if tag == 5 || tag == 6 {
            if pos + 9 > b.len() || n < 2 {
                Option::None
            } else {
                match spec_parse_cp(b, pos + 9, n - 2) {
                    Option::Some((rest, e)) => Option::Some(
                        (seq![SpecCpEntry::Other, SpecCpEntry::Wide] + rest, e),
                    ),
                    Option::None => Option::None,
                }
            }
        } else {
            let sz = misc_entry_size(tag);
            if sz == 0 || pos + sz > b.len() {
                Option::None
            } else {
                match spec_parse_cp(b, pos + sz, n - 1) {
                    Option::Some((rest, e)) => Option::Some((seq![SpecCpEntry::Other] + rest, e)),
                    Option::None => Option::None,
                }
            }
        }
    }
}

/// Resolves a constant-pool index to its text.
pub open spec fn cp_utf8(cp: Seq<SpecCpEntry>, i: int) -> Option<Seq<char>> {
    if 0 <= i < cp.len() {
        match cp[i] {
            SpecCpEntry::Utf8(text) => Option::Some(text),
            _ => Option::None,
        }
    } else {
        Option::None
    }
}

/// Resolves a class-reference index to the referenced class's text.
pub open spec fn cp_class(cp: Seq<SpecCpEntry>, i: int) -> Option<Seq<char>> {
    if 0 <= i < cp.len() {
        match cp[i] {
            SpecCpEntry::ClassRef(u) => cp_utf8(cp, u),
            _ => Option::None,
        }
    } else {
        Option::None
    }
}

/// Skips `n` length-prefixed attributes; the position just past them.
pub open spec fn spec_skip_attrs(b: Seq<u8>, pos: int, n: int) -> Option<int>
    decreases n,
{
    if n <= 0 {
        Option::Some(pos)
    } else if pos < 0 || pos + 6 > b.len() {
        Option::None
    } else {
        let alen = be_u32(b, pos + 2);
        if pos + 6 + alen > b.len() {
            Option::None
        } else {
            spec_skip_attrs(b, pos + 6 + alen, n - 1)
        }
    }
}

/// One declared member: name, decoded-to-text descriptor, access flags.
pub struct SpecMember {
    pub name: Seq<char>,
    pub descriptor: Seq<char>,
    pub flags: int,
}

/// Parses `n` field or method declarations; every name and descriptor
/// index is resolved, and each descriptor must be valid for its kind.
pub open spec fn spec_parse_members(
    b: Seq<u8>,
    cp: Seq<SpecCpEntry>,
    pos: int,
    n: int,
    methods: bool,
) -> Option<(Seq<SpecMember>, int)>
    decreases n,
{
    if n <= 0 {
        Option::Some((Seq::<SpecMember>::empty(), pos))
    } else if pos < 0 || pos + 8 > b.len() {
        Option::None
    } else {
        let flags = be_u16(b, pos);
        let name_idx = be_u16(b, pos + 2);
        let desc_idx = be_u16(b, pos + 4);
        let attr_count = be_u16(b, pos + 6);
        match (cp_utf8(cp, name_idx), cp_utf8(cp, desc_idx)) {
            (Option::Some(name), Option::Some(descriptor)) => {
                if methods && !valid_method_descriptor(descriptor) {
                    Option::None
                } else if !methods && !valid_field_descriptor(descriptor) {
                    Option::None
                } else {
                    match spec_skip_attrs(b, pos + 8, attr_count) {
                        Option::Some(e) => match spec_parse_members(b, cp, e, n - 1, methods) {
                            Option::Some((rest, e2)) => Option::Some(
                                (seq![SpecMember { name, descriptor, flags }] + rest, e2),
                            ),
                            Option::None => Option::None,
                        },
                        Option::None => Option::None,
                    }
                }
            },
            _ => Option::None,
        }
    }
}

/// Parses `n` interface references.
pub open spec fn spec_parse_ifaces(b: Seq<u8>, cp: Seq<SpecCpEntry>, pos: int, n: int) -> Option<
    (Seq<Seq<char>>, int),
>
    decreases n,
{
    if n <= 0 {
        Option::Some((Seq::<Seq<char>>::empty(), pos))
    } else if pos < 0 || pos + 2 > b.len() {
        Option::None
    } else {
        match cp_class(cp, be_u16(b, pos)) {
            Option::Some(name) => match spec_parse_ifaces(b, cp, pos + 2, n - 1) {
                Option::Some((rest, e)) => Option::Some((seq![name] + rest, e)),
                Option::None => Option::None,
            },
            Option::None => Option::None,
        }
    }
}

/// Internal (slash-separated) name turned into the dotted form.
pub open spec fn dotted(name: Seq<char>) -> Seq<char> {
    name.map_values(
        |c: char|
            if c == '/' {
                '.'
            } else {
                c
            },
    )
}

/// The semantic model of one parsed class, all indices resolved.
pub struct SpecClass {
    pub name: Seq<char>,
    pub super_name: Option<Seq<char>>,
    pub interfaces: Seq<Seq<char>>,
    pub flags: int,
    pub fields: Seq<SpecMember>,
    pub methods: Seq<SpecMember>,
}

/// The whole classfile decoder: magic and version, constant pool, the
/// class header, interfaces, fields and methods.  `None` is a decode
/// failure; trailing class attributes are tolerated.  (Opaque: callers
/// treat the decoding as a value; only the decoder itself unfolds it.)
#[verifier::opaque]
pub open spec fn spec_parse_class(b: Seq<u8>) -> Option<SpecClass> {
    if b.len() < 10 {
        Option::None
    } else if !(b[0] == 0xCA && b[1] == 0xFE && b[2] == 0xBA && b[3] == 0xBE) {
        Option::None
    } else if be_u16(b, 6) < 45 {
        Option::None
    } else {
        let cpc = be_u16(b, 8);
        match spec_parse_cp(b, 10, cpc - 1) {
            Option::Some((entries, pos)) => {
                let cp = seq![SpecCpEntry::Other] + entries;
                if pos + 8 > b.len() {
                    Option::None
                } else {
                    let flags = be_u16(b, pos);
                    let this_idx = be_u16(b, pos + 2);
                    let super_idx = be_u16(b, pos + 4);
                    let ifc = be_u16(b, pos + 6);
                    match cp_class(cp, this_idx) {
                        Option::Some(this_name) => {
                            let super_name = if super_idx == 0 {
                                Option::Some(Option::<Seq<char>>::None)
                            } else {
                                match cp_class(cp, super_idx) {
                                    Option::Some(sn) => Option::Some(
                                        Option::Some(dotted(sn)),
                                    ),
                                    Option::None => Option::None,
                                }
                            };
                            match super_name {
                                Option::Some(super_name) => {
                                    match spec_parse_ifaces(b, cp, pos + 8, ifc) {
                                        Option::Some((ifaces, p2)) => {
                                            if p2 + 2 > b.len() {
                                                Option::None
                                            } else {
                                                let fc = be_u16(b, p2);
                                                match spec_parse_members(
                                                    b,
                                                    cp,
                                                    p2 + 2,
                                                    fc,
                                                    false,
                                                ) {
                                                    Option::Some((fields, p3)) => {
                                                        if p3 + 2 > b.len() {
                                                            Option::None
                                                        } else {
                                                            let mc = be_u16(b, p3);
                                                            match spec_parse_members(
                                                                b,
                                                                cp,
                                                                p3 + 2,
                                                                mc,
                                                                true,
                                                            ) {
                                                                Option::Some((methods, _p4)) => Option::Some(
                                                                    SpecClass {
                                                                        name: dotted(this_name),
                                                                        super_name,
                                                                        interfaces: ifaces.map_values(
                                                                            |s: Seq<char>| dotted(s),
                                                                        ),
                                                                        flags,
                                                                        fields,
                                                                        methods,
                                                                    },
                                                                ),
                                                                Option::None => Option::None,
                                                            }
                                                        }
                                                    },
                                                    Option::None => Option::None,
                                                }
                                            }
                                        },
                                        Option::None => Option::None,
                                    }
                                },
                                Option::None => Option::None,
                            }
                        },
                        Option::None => Option::None,
                    }
                }
            },
            Option::None => Option::None,
        }
    }
}


/// One declared field of the semantic model.
pub struct SemanticField {
    pub name: String,
    pub descriptor: String,
    pub flags: u16,
}

/// One declared method of the semantic model.
pub struct SemanticMethod {
    pub name: String,
    pub descriptor: String,
    pub flags: u16,
}

pub open spec fn view_field(f: SemanticField) -> SpecMember {
    SpecMember { name: f.name@, descriptor: f.descriptor@, flags: f.flags as int }
}

pub open spec fn view_method(m: SemanticMethod) -> SpecMember {
    SpecMember { name: m.name@, descriptor: m.descriptor@, flags: m.flags as int }
}

/// One class's semantic model: fully-qualified dotted name, resolved
/// supertype names, modifiers, and ordered member lists.  Immutable once
/// parsed.
pub struct SemanticClass {
    pub name: String,
    pub super_name: Option<String>,
    pub interfaces: Vec<String>,
    pub flags: u16,
    pub fields: Vec<SemanticField>,
    pub methods: Vec<SemanticMethod>,
}

pub open spec fn view_class(c: SemanticClass) -> SpecClass {
    SpecClass {
        name: c.name@,
        super_name: match c.super_name {
            Option::Some(s) => Option::Some(s@),
            Option::None => Option::None,
        },
        interfaces: c.interfaces@.map_values(|s: String| s@),
        flags: c.flags as int,
        fields: c.fields@.map_values(|f: SemanticField| view_field(f)),
        methods: c.methods@.map_values(|m: SemanticMethod| view_method(m)),
    }
}

impl SemanticClass {
    /// A class is public when its access flags carry the lowest bit.
    pub fn is_public(&self) -> (r: bool)
        ensures
            r == (view_class(*self).flags % 2 == 1),
    {
        self.flags % 2 == 1
    }
}

fn rd_u16(b: &Vec<u8>, pos: usize) -> (r: Option<u16>)
    ensures
        match r {
            Option::Some(v) => pos + 2 <= b@.len() && v as int == be_u16(b@, pos as int),
            Option::None => pos + 2 > b@.len(),
        },
{
    if pos < b.len() && b.len() - pos >= 2 {
        Some((b[pos] as u16) * 0x100 + (b[pos + 1] as u16))
    } else {
        None
    }
}

fn rd_u32(b: &Vec<u8>, pos: usize) -> (r: Option<u32>)
    ensures
        match r {
            Option::Some(v) => pos + 4 <= b@.len() && v as int == be_u32(b@, pos as int),
            Option::None => pos + 4 > b@.len(),
        },
{
    if pos < b.len() && b.len() - pos >= 4 {
        Some(
            (((b[pos] as u32) * 0x100 + (b[pos + 1] as u32)) * 0x100 + (b[pos + 2] as u32)) * 0x100
                + (b[pos + 3] as u32),
        )
    } else {
        None
    }
}

/// Decodes the modified UTF-8 bytes in `[start, end)` to code units.
fn mutf8_units(b: &Vec<u8>, start: usize, end: usize) -> (r: Option<Vec<u16>>)
    requires
        start <= end <= b@.len(),
    ensures
        ({
            let sub = b@.subrange(start as int, end as int);
            match r {
                Option::Some(units) => spec_mutf8_units(sub) == Option::Some(units@),
                Option::None => spec_mutf8_units(sub) is None,
            }
        }),
{
    let ghost sub = b@.subrange(start as int, end as int);
    let mut units: Vec<u16> = Vec::new();
    let mut i: usize = start;
    proof {
        assert(sub.skip(0) =~= sub);
    }
    while i < end
        invariant
            start <= i <= end <= b@.len(),
            sub == b@.subrange(start as int, end as int),
            spec_mutf8_units(sub) == match spec_mutf8_units(sub.skip(i - start)) {
                Option::Some(rest) => Option::Some(units@ + rest),
                Option::None => Option::<Seq<u16>>::None,
            },
        decreases end - i,
    {
        let ghost k = i - start;
        let ghost rest = sub.skip(k);
        proof {
            assert(rest[0] == sub[k]);
            assert(sub[k] == b@[i as int]);
        }
        let b0 = b[i];
        if 0x01 <= b0 && b0 <= 0x7F {
            let ghost prev = units@;
            units.push(b0 as u16);
            proof {
                assert(rest.skip(1) =~= sub.skip(k + 1));
                match spec_mutf8_units(sub.skip(k + 1)) {
                    Option::Some(r2) => {
                        assert(prev + (seq![b0 as u16] + r2) =~= units@ + r2);
                    },
                    Option::None => {},
                }
            }
            i = i + 1;
        } else if 0xC0 <= b0 && b0 <= 0xDF {
            if end - i < 2 {
                proof {
                    assert(rest.len() < 2);
                }
                return None;
            }
            let b1 = b[i + 1];
            proof {
                assert(rest[1] == sub[k + 1]);
                assert(sub[k + 1] == b@[i + 1]);
            }
            if !(0x80 <= b1 && b1 <= 0xBF) {
                return None;
            }
            let u: u16 = ((b0 - 0xC0) as u16) * 0x40 + ((b1 - 0x80) as u16);
            let ghost prev = units@;
            units.push(u);
            proof {
                assert(rest.skip(2) =~= sub.skip(k + 2));
                match spec_mutf8_units(sub.skip(k + 2)) {
                    Option::Some(r2) => {
                        assert(prev + (seq![u] + r2) =~= units@ + r2);
                    },
                    Option::None => {},
                }
            }
            i = i + 2;
        } else if 0xE0 <= b0 && b0 <= 0xEF {
            if end - i < 3 {
                proof {
                    assert(rest.len() < 3);
                }
                return None;
            }
            let b1 = b[i + 1];
            let b2 = b[i + 2];
            proof {
                assert(rest[1] == sub[k + 1] && sub[k + 1] == b@[i + 1]);
                assert(rest[2] == sub[k + 2] && sub[k + 2] == b@[i + 2]);
            }
            if !(0x80 <= b1 && b1 <= 0xBF) || !(0x80 <= b2 && b2 <= 0xBF) {
                return None;
            }
            let u: u16 = ((b0 - 0xE0) as u16) * 0x1000 + ((b1 - 0x80) as u16) * 0x40 + ((b2
                - 0x80) as u16);
            let ghost prev = units@;
            units.push(u);
            proof {
                assert(rest.skip(3) =~= sub.skip(k + 3));
                match spec_mutf8_units(sub.skip(k + 3)) {
                    Option::Some(r2) => {
                        assert(prev + (seq![u] + r2) =~= units@ + r2);
                    },
                    Option::None => {},
                }
            }
            i = i + 3;
        } else {
            return None;
        }
    }
    proof {
        assert(sub.skip(end - start) =~= Seq::<u8>::empty());
        assert(units@ + Seq::<u16>::empty() =~= units@);
    }
    Some(units)
}

/// Decodes one text entry to host text, or reports it undecodable.
fn cp_text(b: &Vec<u8>, start: usize, end: usize) -> (r: Option<String>)
    requires
        start <= end <= b@.len(),
    ensures
        ({
            let sub = b@.subrange(start as int, end as int);
            match r {
                Option::Some(s) => spec_cp_text(sub) == Option::Some(s@),
                Option::None => spec_cp_text(sub) is None,
            }
        }),
{
    let units = match mutf8_units(b, start, end) {
        Option::Some(u) => u,
        Option::None => {
            return None;
        },
    };
    let js = crate::utf16::JString { units };
    match js.to_string() {
        Result::Ok(s) => {
            proof {
                let cps = crate::utf16::spec_decode_utf16(js.units@)->Some_0;
                assert(s@.map_values(|c: char| c as u32) == cps);
                assert(s@.map_values(|c: char| c as u32).len() == s@.len());
                assert forall|j: int| 0 <= j < cps.len() implies cps.map_values(
                    |x: u32| x as char,
                )[j] == s@[j] by {
                    assert(s@.map_values(|c: char| c as u32)[j] == s@[j] as u32);
                    assert(cps[j] == s@[j] as u32);
                    crate::text::lemma_char_roundtrip(s@[j]);
                }
                assert(cps.map_values(|x: u32| x as char) =~= s@);
            }
            Some(s)
        },
        Result::Err(_) => None,
    }
}

/// Composition of already-parsed entries with a parse of the remainder.
pub open spec fn compose_cp(a: Seq<SpecCpEntry>, r: Option<(Seq<SpecCpEntry>, int)>) -> Option<
    (Seq<SpecCpEntry>, int),
> {
    match r {
        Option::Some((rest, e)) => Option::Some((a + rest, e)),
        Option::None => Option::None,
    }
}

/// One unfolding of the composed invariant: if the parse at `pos` yields
/// exactly `step` entries and continues at `pos2`, the accumulated
/// composition moves along with it.
proof fn cp_compose_step(
    b: Seq<u8>,
    start: int,
    n: int,
    acc: Seq<SpecCpEntry>,
    step: Seq<SpecCpEntry>,
    pos: int,
    rem: int,
    pos2: int,
    rem2: int,
)
    requires
        spec_parse_cp(b, start, n) == compose_cp(acc, spec_parse_cp(b, pos, rem)),
        spec_parse_cp(b, pos, rem) == compose_cp(step, spec_parse_cp(b, pos2, rem2)),
    ensures
        spec_parse_cp(b, start, n) == compose_cp(acc + step, spec_parse_cp(b, pos2, rem2)),
{
    match spec_parse_cp(b, pos2, rem2) {
        Option::Some((rest, e)) => {
            assert(acc + (step + rest) =~= (acc + step) + rest);
        },
        Option::None => {},
    }
}

/// Parses `n` constant-pool slots starting at `pos`.
fn parse_cp(b: &Vec<u8>, start: usize, n: u16) -> (r: Option<(Vec<CpEntry>, usize)>)
    requires
        start <= b@.len(),
    ensures
        match r {
            Option::Some((v, e)) => spec_parse_cp(b@, start as int, n as int) == Option::Some(
                (v@.map_values(|x: CpEntry| view_cp_entry(x)), e as int),
            ) && e <= b@.len(),
            Option::None => spec_parse_cp(b@, start as int, n as int) is None,
        },
{
    let mut entries: Vec<CpEntry> = Vec::new();
    let mut pos: usize = start;
    let mut i: u16 = 0;
    proof {
        assert(entries@.map_values(|x: CpEntry| view_cp_entry(x)) =~= Seq::<SpecCpEntry>::empty());
    }
    while i < n
        invariant
            i <= n,
            pos <= b@.len(),
            spec_parse_cp(b@, start as int, n as int) == compose_cp(
                entries@.map_values(|x: CpEntry| view_cp_entry(x)),
                spec_parse_cp(b@, pos as int, (n - i) as int),
            ),
        decreases n - i,
    {
        let ghost acc = entries@.map_values(|x: CpEntry| view_cp_entry(x));
        let ghost rem = (n - i) as int;
        if pos >= b.len() {
            return None;
        }
        let tag = b[pos];
        if tag == 1 {
            let ulen = match rd_u16(b, pos + 1) {
                Option::Some(v) => v as usize,
                Option::None => {
                    return None;
                },
            };
            if b.len() - (pos + 3) < ulen {
                return None;
            }
            let entry = match cp_text(b, pos + 3, pos + 3 + ulen) {
                Option::Some(t) => CpEntry::Utf8(t),
                Option::None => CpEntry::Undecodable,
            };
            let ghost stepv = seq![view_cp_entry(entry)];
            entries.push(entry);
            proof {
                assert(entries@.map_values(|x: CpEntry| view_cp_entry(x)) =~= acc + stepv);
                cp_compose_step(
                    b@, start as int, n as int, acc, stepv, pos as int, rem,
                    pos + 3 + ulen, rem - 1,
                );
            }
            pos = pos + 3 + ulen;
            i = i + 1;
        } else if tag == 7 {
            let idx = match rd_u16(b, pos + 1) {
                Option::Some(v) => v,
                Option::None => {
                    return None;
                },
            };
            entries.push(CpEntry::ClassRef(idx));
            proof {
                assert(entries@.map_values(|x: CpEntry| view_cp_entry(x)) =~= acc + seq![
                    view_cp_entry(CpEntry::ClassRef(idx)),
                ]);
                cp_compose_step(
                    b@, start as int, n as int, acc,
                    seq![view_cp_entry(CpEntry::ClassRef(idx))],
                    pos as int, rem, pos + 3, rem - 1,
                );
            }
            pos = pos + 3;
            i = i + 1;
        } else if tag == 5 || tag == 6 {
            if b.len() - pos < 9 || n - i < 2 {
                return None;
            }
            entries.push(CpEntry::Other);
            entries.push(CpEntry::Wide);
            proof {
                assert(entries@.map_values(|x: CpEntry| view_cp_entry(x)) =~= acc + seq![
                    SpecCpEntry::Other,
                    SpecCpEntry::Wide,
                ]);
                cp_compose_step(
                    b@, start as int, n as int, acc,
                    seq![SpecCpEntry::Other, SpecCpEntry::Wide],
                    pos as int, rem, pos + 9, rem - 2,
                );
            }
            pos = pos + 9;
            i = i + 2;
        } else {
            let sz: usize = if tag == 3 || tag == 4 {
                5
            } else if tag == 8 {
                3
            } else if tag == 9 || tag == 10 || tag == 11 {
                5
            } else if tag == 12 {
                5
            } else if tag == 15 {
                4
            } else if tag == 16 {
                3
            } else if tag == 17 || tag == 18 {
                5
            } else if tag == 19 || tag == 20 {
                3
            } else {
                0
            };
            assert(sz as int == misc_entry_size(tag));
            if sz == 0 || b.len() - pos < sz {
                return None;
            }
            entries.push(CpEntry::Other);
            proof {
                assert(entries@.map_values(|x: CpEntry| view_cp_entry(x)) =~= acc + seq![
                    SpecCpEntry::Other,
                ]);
                cp_compose_step(
                    b@, start as int, n as int, acc, seq![SpecCpEntry::Other],
                    pos as int, rem, pos + sz, rem - 1,
                );
            }
            pos = pos + sz;
            i = i + 1;
        }
    }
    proof {
        assert(spec_parse_cp(b@, pos as int, 0) == Option::Some(
            (Seq::<SpecCpEntry>::empty(), pos as int),
        ));
        assert(entries@.map_values(|x: CpEntry| view_cp_entry(x)) + Seq::<SpecCpEntry>::empty()
            =~= entries@.map_values(|x: CpEntry| view_cp_entry(x)));
    }
    Some((entries, pos))
}

fn lookup_utf8(cp: &Vec<CpEntry>, i: u16) -> (r: Option<String>)
    ensures
        match r {
            Option::Some(s) => cp_utf8(cp@.map_values(|x: CpEntry| view_cp_entry(x)), i as int)
                == Option::Some(s@),
            Option::None => cp_utf8(cp@.map_values(|x: CpEntry| view_cp_entry(x)), i as int)
                is None,
        },
{
    if (i as usize) < cp.len() {
        match &cp[i as usize] {
            CpEntry::Utf8(s) => Some(s.clone()),
            _ => None,
        }
    } else {
        None
    }
}

fn lookup_class(cp: &Vec<CpEntry>, i: u16) -> (r: Option<String>)
    ensures
        match r {
            Option::Some(s) => cp_class(cp@.map_values(|x: CpEntry| view_cp_entry(x)), i as int)
                == Option::Some(s@),
            Option::None => cp_class(cp@.map_values(|x: CpEntry| view_cp_entry(x)), i as int)
                is None,
        },
{
    if (i as usize) < cp.len() {
        let u = match &cp[i as usize] {
            CpEntry::ClassRef(u) => *u,
            _ => {
                return None;
            },
        };
        lookup_utf8(cp, u)
    } else {
        None
    }
}

/// The dotted form of an internal name.
pub fn to_dotted(s: &str) -> (r: String)
    ensures
        r@ == dotted(s@),
{
    let n = s.unicode_len();
    let mut r = String::new();
    let mut i: usize = 0;
    proof {
        assert(r@ =~= dotted(s@.take(0)));
    }
    while i < n
        invariant
            i <= n,
            n == s@.len(),
            r@ == dotted(s@.take(i as int)),
        decreases n - i,
    {
        let c = s.get_char(i);
        if c == '/' {
            push_char(&mut r, '.');
        } else {
            push_char(&mut r, c);
        }
        proof {
            assert(r@ =~= dotted(s@.take(i + 1)));
        }
        i = i + 1;
    }
    proof {
        assert(s@.take(n as int) =~= s@);
    }
    r
}

fn skip_attrs(b: &Vec<u8>, start: usize, n: u16) -> (r: Option<usize>)
    requires
        start <= b@.len(),
    ensures
        match r {
            Option::Some(e) => spec_skip_attrs(b@, start as int, n as int) == Option::Some(
                e as int,
            ) && e <= b@.len(),
            Option::None => spec_skip_attrs(b@, start as int, n as int) is None,
        },
{
    let mut pos: usize = start;
    let mut i: u16 = 0;
    while i < n
        invariant
            i <= n,
            pos <= b@.len(),
            spec_skip_attrs(b@, start as int, n as int) == spec_skip_attrs(
                b@,
                pos as int,
                (n - i) as int,
            ),
        decreases n - i,
    {
        if b.len() - pos < 6 {
            return None;
        }
        let alen = match rd_u32(b, pos + 2) {
            Option::Some(v) => v as usize,
            Option::None => {
                return None;
            },
        };
        if b.len() - (pos + 6) < alen {
            return None;
        }
        pos = pos + 6 + alen;
        i = i + 1;
    }
    Some(pos)
}

pub open spec fn compose_members(a: Seq<SpecMember>, r: Option<(Seq<SpecMember>, int)>) -> Option<
    (Seq<SpecMember>, int),
> {
    match r {
        Option::Some((rest, e)) => Option::Some((a + rest, e)),
        Option::None => Option::None,
    }
}

proof fn members_compose_step(
    b: Seq<u8>,
    cp: Seq<SpecCpEntry>,
    start: int,
    n: int,
    methods: bool,
    acc: Seq<SpecMember>,
    step: SpecMember,
    pos: int,
    rem: int,
    pos2: int,
)
    requires
        spec_parse_members(b, cp, start, n, methods) == compose_members(
            acc,
            spec_parse_members(b, cp, pos, rem, methods),
        ),
        spec_parse_members(b, cp, pos, rem, methods) == compose_members(
            seq![step],
            spec_parse_members(b, cp, pos2, rem - 1, methods),
        ),
    ensures
        spec_parse_members(b, cp, start, n, methods) == compose_members(
            acc.push(step),
            spec_parse_members(b, cp, pos2, rem - 1, methods),
        ),
{
    match spec_parse_members(b, cp, pos2, rem - 1, methods) {
        Option::Some((rest, e)) => {
            assert(acc + (seq![step] + rest) =~= acc.push(step) + rest);
        },
        Option::None => {},
    }
}

/// Parses `n` member declarations (fields or methods by `methods`).
fn parse_members(b: &Vec<u8>, cp: &Vec<CpEntry>, start: usize, n: u16, methods: bool) -> (r:
    Option<(Vec<SemanticField>, usize)>)
    requires
        start <= b@.len(),
    ensures
        match r {
            Option::Some((v, e)) => spec_parse_members(
                b@,
                cp@.map_values(|x: CpEntry| view_cp_entry(x)),
                start as int,
                n as int,
                methods,
            ) == Option::Some((v@.map_values(|f: SemanticField| view_field(f)), e as int)) && e
                <= b@.len(),
            Option::None => spec_parse_members(
                b@,
                cp@.map_values(|x: CpEntry| view_cp_entry(x)),
                start as int,
                n as int,
                methods,
            ) is None,
        },
{
    let ghost cpv = cp@.map_values(|x: CpEntry| view_cp_entry(x));
    let mut out: Vec<SemanticField> = Vec::new();
    let mut pos: usize = start;
    let mut i: u16 = 0;
    proof {
        assert(out@.map_values(|f: SemanticField| view_field(f)) =~= Seq::<SpecMember>::empty());
    }
    while i < n
        invariant
            i <= n,
            pos <= b@.len(),
            cpv == cp@.map_values(|x: CpEntry| view_cp_entry(x)),
            spec_parse_members(b@, cpv, start as int, n as int, methods) == compose_members(
                out@.map_values(|f: SemanticField| view_field(f)),
                spec_parse_members(b@, cpv, pos as int, (n - i) as int, methods),
            ),
        decreases n - i,
    {
        let ghost acc = out@.map_values(|f: SemanticField| view_field(f));
        let ghost rem = (n - i) as int;
        if b.len() - pos < 8 {
            return None;
        }
        let flags = match rd_u16(b, pos) {
            Option::Some(v) => v,
            Option::None => {
                return None;
            },
        };
        let name_idx = match rd_u16(b, pos + 2) {
            Option::Some(v) => v,
            Option::None => {
                return None;
            },
        };
        let desc_idx = match rd_u16(b, pos + 4) {
            Option::Some(v) => v,
            Option::None => {
                return None;
            },
        };
        let attr_count = match rd_u16(b, pos + 6) {
            Option::Some(v) => v,
            Option::None => {
                return None;
            },
        };
        let name = match lookup_utf8(cp, name_idx) {
            Option::Some(s) => s,
            Option::None => {
                return None;
            },
        };
        let descriptor = match lookup_utf8(cp, desc_idx) {
            Option::Some(s) => s,
            Option::None => {
                return None;
            },
        };
        let desc_ok: bool = if methods {
            crate::descriptor::parse_method_descriptor(descriptor.as_str()).is_some()
        } else {
            match crate::descriptor::parse_type(descriptor.as_str(), 0) {
                Option::Some((_t, e)) => e == descriptor.as_str().unicode_len(),
                Option::None => false,
            }
        };
        if !desc_ok {
            return None;
        }
        let pos2 = match skip_attrs(b, pos + 8, attr_count) {
            Option::Some(e) => e,
            Option::None => {
                return None;
            },
        };
        let member = SemanticField { name, descriptor, flags };
        let ghost stepv = view_field(member);
        out.push(member);
        proof {
            assert(out@.map_values(|f: SemanticField| view_field(f)) =~= acc.push(stepv));
            members_compose_step(
                b@, cpv, start as int, n as int, methods, acc, stepv,
                pos as int, rem, pos2 as int,
            );
        }
        pos = pos2;
        i = i + 1;
    }
    proof {
        assert(out@.map_values(|f: SemanticField| view_field(f)) + Seq::<SpecMember>::empty()
            =~= out@.map_values(|f: SemanticField| view_field(f)));
    }
    Some((out, pos))
}

fn parse_ifaces(b: &Vec<u8>, cp: &Vec<CpEntry>, start: usize, n: u16) -> (r: Option<
    (Vec<String>, usize),
>)
    requires
        start <= b@.len(),
    ensures
        match r {
            Option::Some((v, e)) => spec_parse_ifaces(
                b@,
                cp@.map_values(|x: CpEntry| view_cp_entry(x)),
                start as int,
                n as int,
            ) == Option::Some((v@.map_values(|s: String| s@), e as int)) && e <= b@.len(),
            Option::None => spec_parse_ifaces(
                b@,
                cp@.map_values(|x: CpEntry| view_cp_entry(x)),
                start as int,
                n as int,
            ) is None,
        },
{
    let ghost cpv = cp@.map_values(|x: CpEntry| view_cp_entry(x));
    let mut out: Vec<String> = Vec::new();
    let mut pos: usize = start;
    let mut i: u16 = 0;
    proof {
        assert(out@.map_values(|s: String| s@) =~= Seq::<Seq<char>>::empty());
    }
    while i < n
        invariant
            i <= n,
            pos <= b@.len(),
            cpv == cp@.map_values(|x: CpEntry| view_cp_entry(x)),
            spec_parse_ifaces(b@, cpv, start as int, n as int) == compose_ifaces(
                out@.map_values(|s: String| s@),
                spec_parse_ifaces(b@, cpv, pos as int, (n - i) as int),
            ),
        decreases n - i,
    {
        let ghost acc = out@.map_values(|s: String| s@);
        let ghost rem = (n - i) as int;
        if b.len() - pos < 2 {
            return None;
        }
        let idx = match rd_u16(b, pos) {
            Option::Some(v) => v,
            Option::None => {
                return None;
            },
        };
        let name = match lookup_class(cp, idx) {
            Option::Some(s) => s,
            Option::None => {
                return None;
            },
        };
        let ghost namev = name@;
        out.push(name);
        proof {
            assert(out@.map_values(|s: String| s@) =~= acc.push(namev));
            match spec_parse_ifaces(b@, cpv, pos + 2, rem - 1) {
                Option::Some((rest, e)) => {
                    assert(acc + (seq![namev] + rest) =~= acc.push(namev) + rest);
                },
                Option::None => {},
            }
        }
        pos = pos + 2;
        i = i + 1;
    }
    proof {
        assert(out@.map_values(|s: String| s@) + Seq::<Seq<char>>::empty() =~= out@.map_values(
            |s: String| s@,
        ));
    }
    Some((out, pos))
}

pub open spec fn compose_ifaces(a: Seq<Seq<char>>, r: Option<(Seq<Seq<char>>, int)>) -> Option<
    (Seq<Seq<char>>, int),
> {
    match r {
        Option::Some((rest, e)) => Option::Some((a + rest, e)),
        Option::None => Option::None,
    }
}


pub open spec fn method_views(v: Seq<SemanticMethod>) -> Seq<SpecMember> {
    v.map_values(|m: SemanticMethod| view_method(m))
}

pub open spec fn field_views(v: Seq<SemanticField>) -> Seq<SpecMember> {
    v.map_values(|f: SemanticField| view_field(f))
}

pub open spec fn string_views(v: Seq<String>) -> Seq<Seq<char>> {
    v.map_values(|s: String| s@)
}

pub open spec fn dotted_views(v: Seq<Seq<char>>) -> Seq<Seq<char>> {
    v.map_values(|s: Seq<char>| dotted(s))
}

/// Decodes one class's bytes into its semantic model, or reports the
/// input as malformed.  On success the model is exactly what the
/// specification-level decoder yields for these bytes.
pub fn parse_class(b: &Vec<u8>) -> (r: Result<SemanticClass, GenError>)
    ensures
        r.is_ok() <==> spec_parse_class(b@).is_some(),
        r.is_ok() ==> view_class(r->Ok_0) == spec_parse_class(b@)->Some_0,
        r.is_err() ==> r->Err_0 is MalformedInput,
{
    proof {
        reveal(spec_parse_class);
    }
    if b.len() < 10 {
        return Err(GenError::MalformedInput(String::from_str("truncated classfile")));
    }
    if !(b[0] == 0xCA && b[1] == 0xFE && b[2] == 0xBA && b[3] == 0xBE) {
        return Err(GenError::MalformedInput(String::from_str("bad magic")));
    }
    let major = match rd_u16(b, 6) {
        Option::Some(v) => v,
        Option::None => {
            return Err(GenError::MalformedInput(String::from_str("truncated classfile")));
        },
    };
    if major < 45 {
        return Err(GenError::MalformedInput(String::from_str("bad version")));
    }
    let cpc = match rd_u16(b, 8) {
        Option::Some(v) => v,
        Option::None => {
            return Err(GenError::MalformedInput(String::from_str("truncated classfile")));
        },
    };
    let n_entries: u16 = if cpc == 0 {
        0
    } else {
        cpc - 1
    };
    let (cp_entries, pos) = match parse_cp(b, 10, n_entries) {
        Option::Some(v) => v,
        Option::None => {
            return Err(GenError::MalformedInput(String::from_str("bad constant pool")));
        },
    };
    let ghost cev = cp_entries@.map_values(|x: CpEntry| view_cp_entry(x));
    let mut cp = cp_entries;
    cp.insert(0, CpEntry::Other);
    let ghost cpv = cp@.map_values(|x: CpEntry| view_cp_entry(x));
    proof {
        assert(cpv =~= seq![SpecCpEntry::Other] + cev);
    }
    let flags = match rd_u16(b, pos) {
        Option::Some(v) => v,
        Option::None => {
            return Err(GenError::MalformedInput(String::from_str("truncated classfile")));
        },
    };
    let this_idx = match rd_u16(b, pos + 2) {
        Option::Some(v) => v,
        Option::None => {
            return Err(GenError::MalformedInput(String::from_str("truncated classfile")));
        },
    };
    let super_idx = match rd_u16(b, pos + 4) {
        Option::Some(v) => v,
        Option::None => {
            return Err(GenError::MalformedInput(String::from_str("truncated classfile")));
        },
    };
    let ifc = match rd_u16(b, pos + 6) {
        Option::Some(v) => v,
        Option::None => {
            return Err(GenError::MalformedInput(String::from_str("truncated classfile")));
        },
    };
    let this_name = match lookup_class(&cp, this_idx) {
        Option::Some(s) => s,
        Option::None => {
            return Err(
                GenError::MalformedInput(String::from_str("unresolved constant-pool entry")),
            );
        },
    };
    let super_name: Option<String> = if super_idx == 0 {
        None
    } else {
        match lookup_class(&cp, super_idx) {
            Option::Some(s) => Some(to_dotted(s.as_str())),
            Option::None => {
                return Err(
                    GenError::MalformedInput(String::from_str("unresolved constant-pool entry")),
                );
            },
        }
    };
    let (ifaces_raw, p2) = match parse_ifaces(b, &cp, pos + 8, ifc) {
        Option::Some(v) => v,
        Option::None => {
            return Err(GenError::MalformedInput(String::from_str("bad interface table")));
        },
    };
    let fc = match rd_u16(b, p2) {
        Option::Some(v) => v,
        Option::None => {
            return Err(GenError::MalformedInput(String::from_str("truncated classfile")));
        },
    };
    let (fields, p3) = match parse_members(b, &cp, p2 + 2, fc, false) {
        Option::Some(v) => v,
        Option::None => {
            return Err(GenError::MalformedInput(String::from_str("bad field table")));
        },
    };
    let mc = match rd_u16(b, p3) {
        Option::Some(v) => v,
        Option::None => {
            return Err(GenError::MalformedInput(String::from_str("truncated classfile")));
        },
    };
    let (methods_raw, _p4) = match parse_members(b, &cp, p3 + 2, mc, true) {
        Option::Some(v) => v,
        Option::None => {
            return Err(GenError::MalformedInput(String::from_str("bad method table")));
        },
    };
    // convert member records into methods, preserving order
    let mut methods: Vec<SemanticMethod> = Vec::new();
    let mut mi: usize = 0;
    while mi < methods_raw.len()
        invariant
            mi <= methods_raw@.len(),
            method_views(methods@) == field_views(methods_raw@).take(mi as int),
        decreases methods_raw@.len() - mi,
    {
        let f = &methods_raw[mi];
        let nm = f.name.clone();
        let ds = f.descriptor.clone();
        let m_new = SemanticMethod { name: nm, descriptor: ds, flags: f.flags };
        proof {
            assert(view_method(m_new) == view_field(methods_raw@[mi as int]));
        }
        let ghost prevm = methods@;
        methods.push(m_new);
        proof {
            assert(methods@ == prevm.push(m_new));
            assert(method_views(prevm) == field_views(methods_raw@).take(mi as int));
            assert(method_views(prevm).len() == prevm.len());
            assert(field_views(methods_raw@).len() == methods_raw@.len());
            assert(field_views(methods_raw@).take(mi as int).len() == mi);
            assert(prevm.len() == mi);
            assert(method_views(methods@).len() == mi + 1);
            assert forall|j: int| 0 <= j < mi + 1 implies method_views(methods@)[j] == field_views(
                methods_raw@,
            ).take(mi + 1)[j] by {
                assert(method_views(methods@)[j] == view_method(methods@[j]));
                if j < mi {
                    assert(methods@[j] == prevm[j]);
                    assert(method_views(prevm)[j] == view_method(prevm[j]));
                    assert(method_views(prevm)[j] == field_views(methods_raw@)[j]);
                } else {
                    assert(methods@[j] == m_new);
                    assert(field_views(methods_raw@)[j] == view_field(methods_raw@[j]));
                }
            }
            assert(method_views(methods@) =~= field_views(methods_raw@).take(mi + 1));
        }
        mi = mi + 1;
    }
    proof {
        assert(field_views(methods_raw@).take(methods_raw@.len() as int) =~= field_views(
            methods_raw@,
        ));
        assert(method_views(methods@) == methods@.map_values(|m: SemanticMethod| view_method(m)));
    }
    // the interface names, dotted
    let mut interfaces: Vec<String> = Vec::new();
    let mut ii: usize = 0;
    while ii < ifaces_raw.len()
        invariant
            ii <= ifaces_raw@.len(),
            string_views(interfaces@) == dotted_views(string_views(ifaces_raw@)).take(ii as int),
        decreases ifaces_raw@.len() - ii,
    {
        let d = to_dotted(ifaces_raw[ii].as_str());
        let ghost previ = interfaces@;
        proof {
            assert(string_views(ifaces_raw@)[ii as int] == ifaces_raw@[ii as int]@);
            assert(d@ == dotted_views(string_views(ifaces_raw@))[ii as int]);
        }
        interfaces.push(d);
        proof {
            assert(interfaces@ == previ.push(d));
            assert(string_views(previ) == dotted_views(string_views(ifaces_raw@)).take(ii as int));
            assert(string_views(previ).len() == previ.len());
            assert(string_views(ifaces_raw@).len() == ifaces_raw@.len());
            assert(dotted_views(string_views(ifaces_raw@)).len() == ifaces_raw@.len());
            assert(dotted_views(string_views(ifaces_raw@)).take(ii as int).len() == ii);
            assert(previ.len() == ii);
            assert forall|j: int| 0 <= j < ii + 1 implies string_views(interfaces@)[j]
                == dotted_views(string_views(ifaces_raw@)).take(ii + 1)[j] by {
                assert(string_views(interfaces@)[j] == interfaces@[j]@);
                if j < ii {
                    assert(interfaces@[j] == previ[j]);
                    assert(string_views(previ)[j] == previ[j]@);
                    assert(string_views(previ)[j] == dotted_views(string_views(ifaces_raw@))[j]);
                } else {
                    assert(interfaces@[j] == d);
                }
            }
            assert(string_views(interfaces@) =~= dotted_views(string_views(ifaces_raw@)).take(
                ii + 1,
            ));
        }
        ii = ii + 1;
    }
    proof {
        let full = dotted_views(string_views(ifaces_raw@));
        assert(full.take(ifaces_raw@.len() as int) =~= full);
        assert(string_views(interfaces@) == interfaces@.map_values(|s: String| s@));
    }
    let name = to_dotted(this_name.as_str());
    let out = SemanticClass { name, super_name, interfaces, flags, fields, methods };
    proof {
        assert(view_class(out) =~= spec_parse_class(b@)->Some_0);
    }
    Ok(out)
}

} // verus!
