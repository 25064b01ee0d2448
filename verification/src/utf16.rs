//! String marshaling: native strings cross the boundary as UTF-16 code
//! units.  Decoding either fails explicitly on unpaired surrogates or
//! substitutes the replacement character in the explicit lossy mode.

use vstd::prelude::*;

use crate::runtime::{Env, Local, Ref, VmState};
use crate::text::push_char;

verus! {

pub open spec fn is_high_surrogate(u: u16) -> bool {
    0xD800 <= u <= 0xDBFF
}

pub open spec fn is_low_surrogate(u: u16) -> bool {
    0xDC00 <= u <= 0xDFFF
}

/// The code point of a surrogate pair.
pub open spec fn pair_code(hi: u16, lo: u16) -> int {
    0x10000 + (hi - 0xD800) * 0x400 + (lo - 0xDC00)
}

/// Strict UTF-16 decoding to code points; `None` on any unpaired
/// surrogate.
pub open spec fn spec_decode_utf16(u: Seq<u16>) -> Option<Seq<u32>>
    decreases u.len(),
{
    if u.len() == 0 {
        Option::Some(Seq::<u32>::empty())
    } else if is_high_surrogate(u[0]) {
        if u.len() >= 2 && is_low_surrogate(u[1]) {
            match spec_decode_utf16(u.skip(2)) {
                Option::Some(rest) => Option::Some(seq![pair_code(u[0], u[1]) as u32] + rest),
                Option::None => Option::None,
            }
        } else {
            Option::None
        }
    } else if is_low_surrogate(u[0]) {
        Option::None
    } else {
        match spec_decode_utf16(u.skip(1)) {
            Option::Some(rest) => Option::Some(seq![u[0] as u32] + rest),
            Option::None => Option::None,
        }
    }
}

/// Lossy UTF-16 decoding: each unpaired surrogate becomes one replacement
/// character (U+FFFD).
pub open spec fn spec_decode_utf16_lossy(u: Seq<u16>) -> Seq<u32>
    decreases u.len(),
{
    if u.len() == 0 {
        Seq::<u32>::empty()
    } else if is_high_surrogate(u[0]) {
        if u.len() >= 2 && is_low_surrogate(u[1]) {
            seq![pair_code(u[0], u[1]) as u32] + spec_decode_utf16_lossy(u.skip(2))
        } else {
            seq![0xFFFDu32] + spec_decode_utf16_lossy(u.skip(1))
        }
    } else if is_low_surrogate(u[0]) {
        seq![0xFFFDu32] + spec_decode_utf16_lossy(u.skip(1))
    } else {
        seq![u[0] as u32] + spec_decode_utf16_lossy(u.skip(1))
    }
}

/// UTF-16 encoding of one character.
pub open spec fn spec_encode_one(c: char) -> Seq<u16> {
    if (c as int) < 0x10000 {
        seq![c as u16]
    } else {
        seq![
            (0xD800 + (((c as int) - 0x10000) / 0x400)) as u16,
            (0xDC00 + (((c as int) - 0x10000) % 0x400)) as u16,
        ]
    }
}

/// UTF-16 encoding of a character sequence.
pub open spec fn spec_encode_utf16(cs: Seq<char>) -> Seq<u16>
    decreases cs.len(),
{
    if cs.len() == 0 {
        Seq::<u16>::empty()
    } else {
        spec_encode_one(cs[0]) + spec_encode_utf16(cs.skip(1))
    }
}

pub proof fn lemma_encode_push(cs: Seq<char>, c: char)
    ensures
        spec_encode_utf16(cs.push(c)) == spec_encode_utf16(cs) + spec_encode_one(c),
    decreases cs.len(),
{
    if cs.len() == 0 {
        assert(cs.push(c).skip(1) =~= Seq::<char>::empty());
        assert(cs.push(c)[0] == c);
        assert(spec_encode_utf16(Seq::<char>::empty()) == Seq::<u16>::empty());
        assert(spec_encode_utf16(cs.push(c)) == spec_encode_one(c) + Seq::<u16>::empty());
        assert(spec_encode_one(c) + Seq::<u16>::empty() =~= spec_encode_one(c));
        assert(spec_encode_utf16(cs) + spec_encode_one(c) =~= spec_encode_one(c));
    } else {
        lemma_encode_push(cs.skip(1), c);
        assert(cs.push(c).skip(1) =~= cs.skip(1).push(c));
        assert(spec_encode_utf16(cs.push(c)) =~= spec_encode_utf16(cs) + spec_encode_one(c));
    }
}

/// Relies on `char::from_u32`: `Some` exactly for Unicode scalar values
/// (code points outside the surrogate range and at most U+10FFFF), and
/// the returned character has exactly that code point.
#[verifier::external_body]
fn char_from_u32(x: u32) -> (r: Option<char>)
    ensures
        r.is_some() <==> (x < 0xD800 || (0xE000 <= x && x <= 0x10FFFF)),
        r.is_some() ==> r->Some_0 as u32 == x,
{
    char::from_u32(x)
}

/// Encodes a string's characters as UTF-16 code units.
pub fn encode_utf16(s: &str) -> (units: Vec<u16>)
    ensures
        units@ == spec_encode_utf16(s@),
{
    let n = s.unicode_len();
    let mut units: Vec<u16> = Vec::new();
    let mut i: usize = 0;
    while i < n
        invariant
            i <= n,
            n == s@.len(),
            units@ == spec_encode_utf16(s@.take(i as int)),
        decreases n - i,
    {
        let c = s.get_char(i);
        let v = c as u32;
        if v < 0x10000 {
            units.push(v as u16);
        } else {
            units.push((0xD800 + ((v - 0x10000) / 0x400)) as u16);
            units.push((0xDC00 + ((v - 0x10000) % 0x400)) as u16);
        }
        proof {
            lemma_encode_push(s@.take(i as int), s@[i as int]);
            assert(s@.take(i as int).push(s@[i as int]) =~= s@.take(i + 1));
            assert(units@ =~= spec_encode_utf16(s@.take(i + 1)));
        }
        i = i + 1;
    }
    proof {
        assert(s@.take(n as int) =~= s@);
    }
    units
}

/// Decoding a native string failed: the units held an unpaired surrogate.
#[derive(Clone, Copy, PartialEq, Eq, Structural, Debug)]
pub struct DecodeUtf16Error;

/// A native string's UTF-16 code units, copied out of the registry.
pub struct JString {
    pub units: Vec<u16>,
}

impl JString {
    /// Creates a new local string object in the registry from host text,
    /// encoding it as UTF-16 code units.
    pub fn from_env_str(vm: &mut VmState, env: Env, string: &str, string_class: u64) -> (l:
        Local)
        requires
            old(vm).wf(),
            old(vm).headroom() >= 2,
            env.vm == old(vm).vm_of(),
            old(vm).class_map().contains_key(string_class),
        ensures
            final(vm).wf(),
            l.wf(final(vm)),
            l.spec_env() == env,
            l.spec_class() == string_class,
            final(vm).string_map().contains_key(final(vm).handle(l.spec_handle()).obj),
            final(vm).string_map()[final(vm).handle(l.spec_handle()).obj] == spec_encode_utf16(
                string@,
            ),
            final(vm).class_map() == old(vm).class_map(),
            final(vm).vm_of() == old(vm).vm_of(),
            final(vm).headroom() >= old(vm).headroom() - 2,
            final(vm).pending_exception() == old(vm).pending_exception(),
    {
        let units = encode_utf16(string);
        vm.new_string(env, units, string_class)
    }

    /// Copies the code units of the string object behind a borrowed
    /// reference.
    pub fn string_chars(vm: &VmState, r: Ref) -> (js: JString)
        requires
            vm.wf(),
            vm.live(r.handle),
            vm.string_map().contains_key(vm.handle(r.handle).obj),
        ensures
            js.units@ == vm.string_map()[vm.handle(r.handle).obj],
    {
        let info = vm.handle_info(r.handle);
        match vm.read_string(info.obj) {
            Option::Some(units) => JString { units },
            Option::None => {
                proof {
                    assert(false);
                }
                JString { units: Vec::new() }
            },
        }
    }

    /// Strict decoding: the host text, or an error if the units hold any
    /// unpaired surrogate.
    pub fn to_string(&self) -> (r: Result<String, DecodeUtf16Error>)
        ensures
            r.is_ok() <==> spec_decode_utf16(self.units@).is_some(),
            r.is_ok() ==> r->Ok_0@.map_values(|c: char| c as u32) == spec_decode_utf16(
                self.units@,
            )->Some_0,
    {
        let n = self.units.len();
        let mut out = String::new();
        let ghost mut cps = Seq::<u32>::empty();
        let mut i: usize = 0;
        proof {
            assert(self.units@.skip(0) =~= self.units@);
            assert(out@.map_values(|c: char| c as u32) =~= cps);
        }
        while i < n
            invariant
                i <= n,
                n == self.units@.len(),
                out@.map_values(|c: char| c as u32) == cps,
                spec_decode_utf16(self.units@) == match spec_decode_utf16(
                    self.units@.skip(i as int),
                ) {
                    Option::Some(rest) => Option::Some(cps + rest),
                    Option::None => Option::<Seq<u32>>::None,
                },
            decreases n - i,
        {
            let ghost rest = self.units@.skip(i as int);
            let u = self.units[i];
            if 0xD800 <= u && u <= 0xDBFF {
                if i + 1 < n {
                    let u2 = self.units[i + 1];
                    if 0xDC00 <= u2 && u2 <= 0xDFFF {
                        let cp: u32 = 0x10000 + ((u as u32) - 0xD800) * 0x400 + ((u2 as u32)
                            - 0xDC00);
                        match char_from_u32(cp) {
                            Option::Some(c) => {
                                push_char(&mut out, c);
                                proof {
                                    cps = cps + seq![cp];
                                    assert(out@.map_values(|c0: char| c0 as u32) =~= cps);
                                    assert(rest.skip(2) =~= self.units@.skip(i + 2));
                                    assert(rest[0] == u && rest[1] == u2);
                                }
                                i = i + 2;
                            },
                            Option::None => {
                                proof {
                                    assert(false);
                                }
                                return Err(DecodeUtf16Error);
                            },
                        }
                    } else {
                        assert(spec_decode_utf16(rest) is None);
                        return Err(DecodeUtf16Error);
                    }
                } else {
                    assert(spec_decode_utf16(rest) is None);
                    return Err(DecodeUtf16Error);
                }
            } else if 0xDC00 <= u && u <= 0xDFFF {
                assert(spec_decode_utf16(rest) is None);
                return Err(DecodeUtf16Error);
            } else {
                match char_from_u32(u as u32) {
                    Option::Some(c) => {
                        push_char(&mut out, c);
                        proof {
                            cps = cps + seq![u as u32];
                            assert(out@.map_values(|c0: char| c0 as u32) =~= cps);
                            assert(rest.skip(1) =~= self.units@.skip(i + 1));
                            assert(rest[0] == u);
                        }
                        i = i + 1;
                    },
                    Option::None => {
                        proof {
                            assert(false);
                        }
                        return Err(DecodeUtf16Error);
                    },
                }
            }
        }
        proof {
            assert(self.units@.skip(n as int) =~= Seq::<u16>::empty());
            assert(spec_decode_utf16(self.units@) == Option::Some(cps + Seq::<u32>::empty()));
            assert(cps + Seq::<u32>::empty() =~= cps);
        }
        Ok(out)
    }

    /// The debug rendering of the string: its lossy decoding, quoted and
    /// escaped.
    pub fn debug_string(&self) -> (r: String)
        ensures
            exists|t: Seq<char>|
                t.map_values(|c: char| c as u32) == spec_decode_utf16_lossy(self.units@) && r@
                    == crate::throwable::spec_quote(t),
    {
        let lossy = self.to_string_lossy();
        let r = crate::throwable::quote(lossy.as_str());
        proof {
            assert(lossy@.map_values(|c: char| c as u32) == spec_decode_utf16_lossy(self.units@)
                && r@ == crate::throwable::spec_quote(lossy@));
        }
        r
    }

    /// Lossy decoding: every unpaired surrogate becomes the replacement
    /// character.
    pub fn to_string_lossy(&self) -> (r: String)
        ensures
            r@.map_values(|c: char| c as u32) == spec_decode_utf16_lossy(self.units@),
    {
        let n = self.units.len();
        let mut out = String::new();
        let ghost mut cps = Seq::<u32>::empty();
        let mut i: usize = 0;
        proof {
            assert(self.units@.skip(0) =~= self.units@);
            assert(out@.map_values(|c: char| c as u32) =~= cps);
        }
        while i < n
            invariant
                i <= n,
                n == self.units@.len(),
                out@.map_values(|c: char| c as u32) == cps,
                spec_decode_utf16_lossy(self.units@) == cps + spec_decode_utf16_lossy(
                    self.units@.skip(i as int),
                ),
            decreases n - i,
        {
            let ghost rest = self.units@.skip(i as int);
            let u = self.units[i];
            if 0xD800 <= u && u <= 0xDBFF && i + 1 < n && 0xDC00 <= self.units[i + 1]
                && self.units[i + 1] <= 0xDFFF {
                let u2 = self.units[i + 1];
                let cp: u32 = 0x10000 + ((u as u32) - 0xD800) * 0x400 + ((u2 as u32) - 0xDC00);
                match char_from_u32(cp) {
                    Option::Some(c) => {
                        push_char(&mut out, c);
                        proof {
                            cps = cps + seq![cp];
                            assert(out@.map_values(|c0: char| c0 as u32) =~= cps);
                            assert(rest.skip(2) =~= self.units@.skip(i + 2));
                            assert(rest[0] == u && rest[1] == u2);
                            assert(spec_decode_utf16_lossy(self.units@) =~= cps
                                + spec_decode_utf16_lossy(self.units@.skip(i + 2)));
                        }
                        i = i + 2;
                    },
                    Option::None => {
                        proof {
                            assert(false);
                        }
                    },
                }
            } else if (0xD800 <= u && u <= 0xDBFF) || (0xDC00 <= u && u <= 0xDFFF) {
                push_char(&mut out, '\u{FFFD}');
                proof {
                    cps = cps + seq![0xFFFDu32];
                    assert('\u{FFFD}' as u32 == 0xFFFDu32);
                    assert(out@.map_values(|c0: char| c0 as u32) =~= cps);
                    assert(rest.skip(1) =~= self.units@.skip(i + 1));
                    assert(rest[0] == u);
                    assert(spec_decode_utf16_lossy(self.units@) =~= cps + spec_decode_utf16_lossy(
                        self.units@.skip(i + 1),
                    ));
                }
                i = i + 1;
            } else {
                match char_from_u32(u as u32) {
                    Option::Some(c) => {
                        push_char(&mut out, c);
                        proof {
                            cps = cps + seq![u as u32];
                            assert(out@.map_values(|c0: char| c0 as u32) =~= cps);
                            assert(rest.skip(1) =~= self.units@.skip(i + 1));
                            assert(rest[0] == u);
                            assert(spec_decode_utf16_lossy(self.units@) =~= cps
                                + spec_decode_utf16_lossy(self.units@.skip(i + 1)));
                        }
                        i = i + 1;
                    },
                    Option::None => {
                        proof {
                            assert(false);
                        }
                    },
                }
            }
        }
        proof {
            assert(self.units@.skip(n as int) =~= Seq::<u16>::empty());
            assert(cps + Seq::<u32>::empty() =~= cps);
        }
        out
    }
}

} // verus!
