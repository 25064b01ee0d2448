//! Debug rendering of a throwable: each getter's three-way outcome (an
//! exception, an explicit null, or a value) is printed without ever
//! conflating absence with error, and the stack trace is laid out in
//! aligned columns.

use vstd::prelude::*;

use crate::text::{dec_string_i32, hex_string, pad_right, push_char, spec_dec_i64, spec_hex, spec_pad_right};

verus! {

/// Outcome of a native call returning text (already decoded lossily).
pub enum StrOutcome {
    /// The native side raised an exception.
    Threw,
    /// The call returned a null reference.
    Null,
    /// The decoded text.
    Text(String),
}

/// Outcome of a native call returning a number.
pub enum IntOutcome {
    Threw,
    Num(i32),
}

/// One stack frame's getters.
pub struct FrameInfo {
    pub file: StrOutcome,
    pub line: IntOutcome,
    pub class_name: StrOutcome,
    pub method_name: StrOutcome,
}

/// Outcome of fetching the stack trace.
pub enum FramesOutcome {
    Threw,
    Null,
    Frames(Vec<Option<FrameInfo>>),
}

/// Everything the debug rendering reads from a throwable.
pub struct ThrowableInfo {
    pub message: StrOutcome,
    pub localized: StrOutcome,
    pub stack: FramesOutcome,
}

/// Text escaped for quoting, as a debug rendering prints it: named
/// escapes for backslash, quote, newline, carriage return and tab, and
/// `\u{..}` hexadecimal escapes for the remaining control characters
/// (other non-printable code points render verbatim).
pub open spec fn spec_escape(s: Seq<char>) -> Seq<char>
    decreases s.len(),
{
    if s.len() == 0 {
        Seq::<char>::empty()
    } else {
        (if s[0] == '\\' {
            "\\\\"@
        } else if s[0] == '"' {
            "\\\""@
        } else if s[0] == '\n' {
            "\\n"@
        } else if s[0] == '\r' {
            "\\r"@
        } else if s[0] == '\t' {
            "\\t"@
        } else if (s[0] as int) < 0x20 || s[0] as int == 0x7F {
            "\\u{"@ + spec_hex(s[0] as int) + "}"@
        } else {
            seq![s[0]]
        }) + spec_escape(s.skip(1))
    }
}

/// The quoted form of text, as a debug rendering prints it.
pub open spec fn spec_quote(s: Seq<char>) -> Seq<char> {
    seq!['"'] + spec_escape(s) + seq!['"']
}

pub fn quote(s: &str) -> (r: String)
    ensures
        r@ == spec_quote(s@),
{
    let n = s.unicode_len();
    let mut r = String::new();
    push_char(&mut r, '"');
    let mut i: usize = 0;
    proof {
        assert(s@.skip(0) =~= s@);
    }
    while i < n
        invariant
            i <= n,
            n == s@.len(),
            r@ == seq!['"'] + spec_escape(s@.take(i as int)),
        decreases n - i,
    {
        let c = s.get_char(i);
        if c == '\\' {
            r.append("\\\\");
        } else if c == '"' {
            r.append("\\\"");
        } else if c == '\n' {
            r.append("\\n");
        } else if c == '\r' {
            r.append("\\r");
        } else if c == '\t' {
            r.append("\\t");
        } else if (c as u32) < 0x20 || (c as u32) == 0x7F {
            let hex = hex_string(c as u32);
            let piece = String::from_str("\\u{").concat(hex.as_str()).concat("}");
            r.append(piece.as_str());
            proof {
                crate::text::lemma_char_u32_code(c);
            }
        } else {
            push_char(&mut r, c);
        }
        proof {
            lemma_escape_push(s@.take(i as int), s@[i as int]);
            assert(s@.take(i as int).push(s@[i as int]) =~= s@.take(i + 1));
            assert(seq![s@[i as int]].skip(1) =~= Seq::<char>::empty());
            assert(spec_escape(Seq::<char>::empty()) == Seq::<char>::empty());
            assert(seq![s@[i as int]][0] == s@[i as int]);
            assert(r@ =~= seq!['"'] + spec_escape(s@.take(i + 1)));
        }
        i = i + 1;
    }
    push_char(&mut r, '"');
    proof {
        assert(s@.take(n as int) =~= s@);
        assert(r@ =~= spec_quote(s@));
    }
    r
}

proof fn lemma_escape_push(s: Seq<char>, c: char)
    ensures
        spec_escape(s.push(c)) == spec_escape(s) + spec_escape(seq![c]),
    decreases s.len(),
{
    if s.len() == 0 {
        assert(s.push(c).skip(1) =~= Seq::<char>::empty());
        assert(s.push(c)[0] == c);
        assert(seq![c].skip(1) =~= Seq::<char>::empty());
        assert(spec_escape(s.push(c)) =~= spec_escape(s) + spec_escape(seq![c]));
    } else {
        lemma_escape_push(s.skip(1), c);
        assert(s.push(c).skip(1) =~= s.skip(1).push(c));
        assert(spec_escape(s.push(c)) =~= spec_escape(s) + spec_escape(seq![c]));
    }
}

/// One labeled getter line: the quoted text, or the explicit absence or
/// error marker.
pub open spec fn spec_str_line(label: Seq<char>, o: StrOutcome) -> Seq<char> {
    match o {
        StrOutcome::Text(s) => label + spec_quote(s@) + "\n"@,
        StrOutcome::Null => label + "N/A (returned null)\n"@,
        StrOutcome::Threw => label + "N/A (threw an exception!)\n"@,
    }
}

fn write_str_line(label: &str, o: &StrOutcome, out: &mut String)
    ensures
        final(out)@ == old(out)@ + spec_str_line(label@, *o),
{
    match o {
        StrOutcome::Text(s) => {
            let q = quote(s.as_str());
            let piece = String::from_str(label).concat(q.as_str()).concat("\n");
            out.append(piece.as_str());
            proof {
                assert(final(out)@ =~= old(out)@ + spec_str_line(label@, *o));
            }
        },
        StrOutcome::Null => {
            let piece = String::from_str(label).concat("N/A (returned null)\n");
            out.append(piece.as_str());
            proof {
                assert(final(out)@ =~= old(out)@ + spec_str_line(label@, *o));
            }
        },
        StrOutcome::Threw => {
            let piece = String::from_str(label).concat("N/A (threw an exception!)\n");
            out.append(piece.as_str());
            proof {
                assert(final(out)@ =~= old(out)@ + spec_str_line(label@, *o));
            }
        },
    }
}

/// The file/line column of one frame.
pub open spec fn spec_file_line(f: FrameInfo) -> Seq<char> {
    match f.file {
        StrOutcome::Text(file) => match f.line {
            IntOutcome::Num(l) => file@ + "("@ + spec_dec_i64(l as int) + "):"@,
            IntOutcome::Threw => file@ + ":"@,
        },
        _ => "N/A (getFileName threw an exception or returned null)"@,
    }
}

/// The class/method column of one frame.
pub open spec fn spec_class_method(f: FrameInfo) -> Seq<char> {
    match (f.class_name, f.method_name) {
        (StrOutcome::Text(c), StrOutcome::Text(m)) => c@ + "."@ + m@,
        (StrOutcome::Text(c), _) => c@,
        (_, StrOutcome::Text(m)) => m@,
        _ => "N/A (getClassName + getMethodName threw exceptions or returned null)"@,
    }
}

/// One stack-trace line: the file/line column padded to a fixed width,
/// then the class/method column.
pub open spec fn spec_frame_line(fr: Option<FrameInfo>) -> Seq<char> {
    match fr {
        Option::None => "        N/A (frame was null)\n"@,
        Option::Some(f) => "        "@ + spec_pad_right(spec_file_line(f), 120)
            + spec_class_method(f) + "\n"@,
    }
}

pub open spec fn spec_frame_lines(frames: Seq<Option<FrameInfo>>, i: int) -> Seq<char>
    decreases frames.len() - i,
{
    if i < 0 || i >= frames.len() {
        Seq::<char>::empty()
    } else {
        spec_frame_line(frames[i]) + spec_frame_lines(frames, i + 1)
    }
}

/// The stack-trace block.
pub open spec fn spec_stack_block(stack: FramesOutcome) -> Seq<char> {
    match stack {
        FramesOutcome::Threw => "    getStackTrace:         N/A (threw an exception!)\n"@,
        FramesOutcome::Null => "    getStackTrace:         N/A (returned null)\n"@,
        FramesOutcome::Frames(frames) => "    getStackTrace:\n"@ + spec_frame_lines(frames@, 0),
    }
}

/// The whole debug rendering of a throwable.
pub open spec fn spec_render_throwable(info: ThrowableInfo) -> Seq<char> {
    "java::lang::Throwable\n"@ + spec_str_line("    getMessage:            "@, info.message)
        + spec_str_line("    getLocalizedMessage:   "@, info.localized) + spec_stack_block(
        info.stack,
    )
}

fn file_line_text(f: &FrameInfo) -> (r: String)
    ensures
        r@ == spec_file_line(*f),
{
    match &f.file {
        StrOutcome::Text(file) => {
            match &f.line {
                IntOutcome::Num(l) => {
                    let num = dec_string_i32(*l);
                    let r = String::from_str(file.as_str()).concat("(").concat(num.as_str())
                        .concat("):");
                    proof {
                        assert(r@ =~= spec_file_line(*f));
                    }
                    r
                },
                IntOutcome::Threw => String::from_str(file.as_str()).concat(":"),
            }
        },
        _ => String::from_str("N/A (getFileName threw an exception or returned null)"),
    }
}

fn class_method_text(f: &FrameInfo) -> (r: String)
    ensures
        r@ == spec_class_method(*f),
{
    match (&f.class_name, &f.method_name) {
        (StrOutcome::Text(c), StrOutcome::Text(m)) => {
            let r = String::from_str(c.as_str()).concat(".").concat(m.as_str());
            proof {
                assert(r@ =~= spec_class_method(*f));
            }
            r
        },
        (StrOutcome::Text(c), _) => String::from_str(c.as_str()),
        (_, StrOutcome::Text(m)) => String::from_str(m.as_str()),
        _ => String::from_str("N/A (getClassName + getMethodName threw exceptions or returned null)"),
    }
}

impl ThrowableInfo {
    /// Renders the throwable for diagnostics, exactly as specified by
    /// `spec_render_throwable`.
    pub fn render(&self) -> (r: String)
        ensures
            r@ == spec_render_throwable(*self),
    {
        let mut out = String::from_str("java::lang::Throwable\n");
        write_str_line("    getMessage:            ", &self.message, &mut out);
        write_str_line("    getLocalizedMessage:   ", &self.localized, &mut out);
        match &self.stack {
            FramesOutcome::Threw => {
                out.append("    getStackTrace:         N/A (threw an exception!)\n");
            },
            FramesOutcome::Null => {
                out.append("    getStackTrace:         N/A (returned null)\n");
            },
            FramesOutcome::Frames(frames) => {
                out.append("    getStackTrace:\n");
                let ghost mid = out@;
                let mut i: usize = 0;
                while i < frames.len()
                    invariant
                        i <= frames@.len(),
                        out@ + spec_frame_lines(frames@, i as int) == mid + spec_frame_lines(
                            frames@,
                            0,
                        ),
                    decreases frames@.len() - i,
                {
                    let ghost pre = out@;
                    match &frames[i] {
                        Option::None => {
                            out.append("        N/A (frame was null)\n");
                        },
                        Option::Some(f) => {
                            let fl = file_line_text(f);
                            let padded = pad_right(fl, 120);
                            let cm = class_method_text(f);
                            let piece = String::from_str("        ").concat(padded.as_str())
                                .concat(cm.as_str()).concat("\n");
                            out.append(piece.as_str());
                        },
                    }
                    proof {
                        assert(out@ =~= pre + spec_frame_line(frames@[i as int]));
                        assert(out@ + spec_frame_lines(frames@, i + 1) =~= mid + spec_frame_lines(
                            frames@,
                            0,
                        ));
                    }
                    i = i + 1;
                }
            },
        }
        proof {
            assert(out@ =~= spec_render_throwable(*self));
        }
        out
    }
}

} // verus!
