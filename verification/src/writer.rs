//! The incremental output writer.  New output is buffered, compared
//! line-by-line (line-ending-normalized) against the prior file's text, and
//! only replaced on an actual difference.  A prior file is only eligible for
//! replacement when its first line is the exact sentinel marking it as
//! machine-generated.

use vstd::prelude::*;

use crate::error::GenError;

verus! {

/// The sentinel text: line 1 of every generated file carries it behind a
/// comment prefix, and an existing file without it is never overwritten.
pub open spec fn marker_text() -> Seq<char> {
    "WARNING:  This file was autogenerated by jni-bindgen.  Any changes to this file may be lost!!!"@
}

pub fn marker_comment() -> (s: &'static str)
    ensures
        s@ == marker_text(),
{
    "WARNING:  This file was autogenerated by jni-bindgen.  Any changes to this file may be lost!!!"
}

/// A first line gates overwriting when it is the sentinel behind one of the
/// two accepted comment prefixes.
pub open spec fn spec_is_sentinel(line: Seq<char>) -> bool {
    line == "// "@ + marker_text() || line == "# "@ + marker_text()
}

pub fn is_sentinel(line: &String) -> (r: bool)
    ensures
        r == spec_is_sentinel(line@),
{
    let slash = String::from_str("// ").concat(marker_comment());
    let hash = String::from_str("# ").concat(marker_comment());
    line.eq(&slash) || line.eq(&hash)
}

/// Index of the first newline in `s`, or `s.len()` if there is none.
pub open spec fn find_nl(s: Seq<char>) -> int
    decreases s.len(),
{
    if s.len() == 0 {
        0
    } else if s[0] == '\n' {
        0
    } else {
        1 + find_nl(s.skip(1))
    }
}

pub proof fn lemma_find_nl(s: Seq<char>)
    ensures
        0 <= find_nl(s) <= s.len(),
        find_nl(s) < s.len() ==> s[find_nl(s)] == '\n',
        forall|j: int| 0 <= j < find_nl(s) ==> s[j] != '\n',
    decreases s.len(),
{
    if s.len() > 0 && s[0] != '\n' {
        lemma_find_nl(s.skip(1));
        assert forall|j: int| 0 <= j < find_nl(s) implies s[j] != '\n' by {
            if j > 0 {
                assert(s.skip(1)[j - 1] != '\n');
            }
        }
    }
}

/// A line with every trailing carriage return or newline removed.
pub open spec fn spec_strip_eol(s: Seq<char>) -> Seq<char>
    decreases s.len(),
{
    if s.len() > 0 && (s.last() == '\r' || s.last() == '\n') {
        spec_strip_eol(s.drop_last())
    } else {
        s
    }
}

/// The text split into normalized lines: one line per newline-terminated
/// segment, plus a final unterminated segment if it is non-empty; each line
/// is stripped of trailing carriage returns.
pub open spec fn spec_lines(s: Seq<char>) -> Seq<Seq<char>>
    decreases s.len(),
    via spec_lines_decreases
{
    if s.len() == 0 {
        Seq::<Seq<char>>::empty()
    } else {
        let e = find_nl(s);
        let consumed = if e < s.len() {
            e + 1
        } else {
            s.len() as int
        };
        seq![spec_strip_eol(s.take(e))] + spec_lines(s.skip(consumed))
    }
}

#[via_fn]
proof fn spec_lines_decreases(s: Seq<char>) {
    lemma_find_nl(s);
}

/// There are never more lines than characters.
pub proof fn lemma_lines_count(s: Seq<char>)
    ensures
        spec_lines(s).len() <= s.len(),
    decreases s.len(),
{
    if s.len() > 0 {
        lemma_find_nl(s);
        let e = find_nl(s);
        let consumed = if e < s.len() {
            e + 1
        } else {
            s.len() as int
        };
        lemma_lines_count(s.skip(consumed));
    }
}

/// Reads one line of `content` starting at character position `pos`,
/// appending it to `buffer` without its end-of-line characters; returns how
/// many characters were consumed, newline included, `0` only at the end.
pub fn read_line_no_eol(content: &str, pos: usize, buffer: &mut String) -> (size: usize)
    requires
        pos <= content@.len(),
    ensures
        ({
            let rest = content@.skip(pos as int);
            &&& (size == 0 <==> rest.len() == 0)
            &&& rest.len() != 0 ==> {
                let e = find_nl(rest);
                &&& size == if e < rest.len() {
                    e + 1
                } else {
                    rest.len() as int
                }
                &&& final(buffer)@ == old(buffer)@ + spec_strip_eol(rest.take(e))
            }
            &&& rest.len() == 0 ==> final(buffer)@ == old(buffer)@
        }),
{
    let ghost rest = content@.skip(pos as int);
    proof {
        lemma_find_nl(rest);
    }
    let n = content.unicode_len();
    if pos >= n {
        assert(rest.len() == 0);
        return 0;
    }
    // find the first newline at or after pos
    let mut e: usize = pos;
    while e < n && content.get_char(e) != '\n'
        invariant
            pos <= e <= n,
            n == content@.len(),
            rest == content@.skip(pos as int),
            forall|j: int| pos <= j < e ==> content@[j] != '\n',
        decreases n - e,
    {
        e = e + 1;
    }
    proof {
        assert forall|j: int| 0 <= j < e - pos implies rest[j] != '\n' by {
            assert(rest[j] == content@[pos + j]);
        }
        if e < n {
            assert(rest[e - pos] == '\n');
        }
        // e - pos is exactly find_nl(rest)
        assert(find_nl(rest) == e - pos) by {
            if find_nl(rest) < e - pos {
                assert(rest[find_nl(rest)] != '\n');
            }
            if find_nl(rest) > e - pos {
                assert(e - pos < rest.len());
            }
        }
    }
    let ghost raw = rest.take(e - pos);
    proof {
        assert(raw.take(e - pos) =~= raw);
    }
    // strip trailing carriage returns (the newline itself is not included)
    let mut j: usize = e;
    while j > pos && content.get_char(j - 1) == '\r'
        invariant
            pos <= j <= e,
            n == content@.len(),
            e <= n,
            rest == content@.skip(pos as int),
            raw == rest.take(e - pos),
            forall|k: int| 0 <= k < e - pos ==> raw[k] == content@[pos + k],
            spec_strip_eol(raw) == spec_strip_eol(raw.take(j - pos)),
        decreases j,
    {
        proof {
            let cur = raw.take(j - pos);
            assert(cur.last() == content@[j - 1]);
            assert(cur.drop_last() =~= raw.take(j - 1 - pos));
        }
        j = j - 1;
    }
    proof {
        let cur = raw.take(j - pos);
        if j > pos {
            assert(cur.last() == content@[j - 1]);
            assert(cur.last() != '\r');
            assert(cur.last() != '\n') by {
                assert(raw[j - pos - 1] != '\n');
            }
        }
        assert(spec_strip_eol(cur) == cur);
        assert(raw.take(j - pos) =~= content@.subrange(pos as int, j as int));
    }
    let stripped = content.substring_char(pos, j);
    buffer.append(stripped);
    if e < n {
        e - pos + 1
    } else {
        e - pos
    }
}

/// Splits `content` into its normalized lines.
pub fn split_lines(content: &str) -> (lines: Vec<String>)
    ensures
        lines@.map_values(|l: String| l@) == spec_lines(content@),
{
    let n = content.unicode_len();
    let mut lines: Vec<String> = Vec::new();
    let mut pos: usize = 0;
    proof {
        assert(content@.skip(0) =~= content@);
        assert(lines@.map_values(|l: String| l@) =~= Seq::<Seq<char>>::empty());
        assert(Seq::<Seq<char>>::empty() + spec_lines(content@) =~= spec_lines(content@));
    }
    loop
        invariant
            pos <= n,
            n == content@.len(),
            spec_lines(content@) == lines@.map_values(|l: String| l@) + spec_lines(
                content@.skip(pos as int),
            ),
        decreases n - pos,
    {
        let mut buffer = String::new();
        let size = read_line_no_eol(content, pos, &mut buffer);
        if size == 0 {
            proof {
                assert(spec_lines(content@.skip(pos as int)) =~= Seq::<Seq<char>>::empty());
                assert(lines@.map_values(|l: String| l@) + Seq::<Seq<char>>::empty() =~= lines@.map_values(
                    |l: String| l@,
                ));
            }
            return lines;
        }
        let ghost rest = content@.skip(pos as int);
        proof {
            lemma_find_nl(rest);
            assert(rest.skip(size as int) =~= content@.skip(pos + size));
        }
        let ghost prev = lines@;
        lines.push(buffer);
        proof {
            assert(lines@.map_values(|l: String| l@) =~= prev.map_values(|l: String| l@)
                + seq![spec_strip_eol(rest.take(find_nl(rest)))]);
        }
        pos = pos + size;
    }
}

/// The `i`-th line of a line list, where a missing line reads as empty: a
/// file is compared as if padded with empty lines.
pub open spec fn line_at(ls: Seq<Seq<char>>, i: int) -> Seq<char> {
    if 0 <= i < ls.len() {
        ls[i]
    } else {
        Seq::<char>::empty()
    }
}

/// Two outputs are the same when every (padded) line matches.
pub open spec fn lines_equal(a: Seq<Seq<char>>, b: Seq<Seq<char>>) -> bool {
    forall|i: int| #![auto] line_at(a, i) == line_at(b, i)
}

/// The report of the first mismatching line: `line_no` is 1-based, `0`
/// meaning that there was no original file at all.
pub struct Difference {
    pub line_no: u32,
    pub original: String,
    pub rewrite: String,
}

impl Difference {
    /// The difference that stands for a missing original file.
    pub fn original_missing() -> (d: Self)
        ensures
            d.line_no == 0,
            d.original@ == Seq::<char>::empty(),
            d.rewrite@ == Seq::<char>::empty(),
    {
        Self { line_no: 0, original: String::new(), rewrite: String::new() }
    }
}

/// What `clobber` decided about the destination.
pub enum WriteOutcome {
    /// Prior output matches; the file is to be left completely untouched.
    Unchanged,
    /// There was no prior file.
    New,
    /// Prior output differs; the payload is the 1-based first difference line.
    Modified(u32),
}

/// A buffered generated file: the prior file's normalized lines (if the
/// file existed) and the newly generated text.
pub struct GeneratedFile {
    original: Option<Vec<String>>,
    rewrite: String,
}

impl GeneratedFile {
    /// The prior file's line count stays within the 32-bit line counter.
    pub open spec fn wf(&self) -> bool {
        match self.original_lines() {
            Option::Some(ls) => ls.len() < 0xFFFF_FFFF,
            Option::None => true,
        }
    }

    pub closed spec fn original_lines(&self) -> Option<Seq<Seq<char>>> {
        match self.original {
            Option::Some(ls) => Option::Some(ls@.map_values(|l: String| l@)),
            Option::None => Option::None,
        }
    }

    pub closed spec fn rewrite_text(&self) -> Seq<char> {
        self.rewrite@
    }

    /// Opens the destination for generation.  `prior` is the full prior text
    /// of the destination, `None` when the file does not exist.  Fails with
    /// `OutputConflict`, and the destination must then be left untouched,
    /// unless the prior first line is exactly the sentinel.
    pub fn new(prior: Option<String>) -> (r: Result<GeneratedFile, GenError>)
        requires
            match prior {
                Option::None => true,
                Option::Some(text) => text@.len() < 0xFFFF_FFFF,
            },
        ensures
            r.is_ok() ==> r->Ok_0.wf(),
            r.is_ok() <==> match prior {
                Option::None => true,
                Option::Some(text) => spec_lines(text@).len() > 0 && spec_is_sentinel(
                    spec_lines(text@)[0],
                ),
            },
            r.is_ok() ==> {
                let gf = r->Ok_0;
                &&& gf.original_lines() == match prior {
                    Option::None => Option::<Seq<Seq<char>>>::None,
                    Option::Some(text) => Option::Some(spec_lines(text@)),
                }
                &&& gf.rewrite_text() == Seq::<char>::empty()
            },
            r.is_err() ==> r->Err_0 is OutputConflict,
    {
        match prior {
            Option::None => Ok(GeneratedFile { original: None, rewrite: String::new() }),
            Option::Some(text) => {
                let lines = split_lines(text.as_str());
                proof {
                    lemma_lines_count(text@);
                }
                if lines.len() == 0 {
                    return Err(GenError::OutputConflict);
                }
                if !is_sentinel(&lines[0]) {
                    return Err(GenError::OutputConflict);
                }
                Ok(GeneratedFile { original: Some(lines), rewrite: String::new() })
            },
        }
    }

    /// Appends a piece of generated text to the buffered rewrite.
    pub fn write(&mut self, piece: &str)
        ensures
            final(self).rewrite_text() == old(self).rewrite_text() + piece@,
            final(self).original_lines() == old(self).original_lines(),
    {
        self.rewrite.append(piece);
    }

    /// Buffered output is not on disk; flushing changes nothing.
    pub fn flush(&mut self)
        ensures
            *final(self) == *old(self),
    {
    }

    /// Compares prior output and rewrite line by line.  `None` means no
    /// difference at all; `line_no == 0` means there was no original file;
    /// otherwise `line_no` is the 1-based number of the first difference.
    pub fn find_difference(&self) -> (r: Option<Difference>)
        requires
            self.rewrite_text().len() < 0xFFFF_FFFF,
            self.wf(),
        ensures
            match self.original_lines() {
                Option::None => r.is_some() && r->Some_0.line_no == 0,
                Option::Some(orig) => {
                    let new = spec_lines(self.rewrite_text());
                    &&& (r.is_none() <==> lines_equal(orig, new))
                    &&& r.is_some() ==> {
                        let d = r->Some_0;
                        let k = d.line_no - 1;
                        &&& 1 <= d.line_no < 0xFFFF_FFFF
                        &&& line_at(orig, k) != line_at(new, k)
                        &&& forall|j: int| 0 <= j < k ==> line_at(orig, j) == line_at(new, j)
                        &&& d.original@ == line_at(orig, k)
                        &&& d.rewrite@ == line_at(new, k)
                    }
                },
            },
    {
        let original = match &self.original {
            Option::None => {
                return Some(Difference::original_missing());
            },
            Option::Some(lines) => lines,
        };
        let new_lines = split_lines(self.rewrite.as_str());
        proof {
            lemma_lines_count(self.rewrite_text());
        }
        let ghost orig = original@.map_values(|l: String| l@);
        let ghost new = new_lines@.map_values(|l: String| l@);
        let na = original.len();
        let nb = new_lines.len();
        let m = if na > nb {
            na
        } else {
            nb
        };
        let mut i: usize = 0;
        while i < m
            invariant
                i <= m,
                na == orig.len(),
                nb == new.len(),
                nb < 0xFFFF_FFFF,
                m == if na > nb {
                    na
                } else {
                    nb
                },
                na < 0xFFFF_FFFF,
                orig == original@.map_values(|l: String| l@),
                new == new_lines@.map_values(|l: String| l@),
                original@.len() == na,
                new_lines@.len() == nb,
                self.original_lines() == Option::Some(orig),
                new == spec_lines(self.rewrite_text()),
                forall|j: int| 0 <= j < i ==> line_at(orig, j) == line_at(new, j),
            decreases m - i,
        {
            let la = if i < na {
                original[i].clone()
            } else {
                String::new()
            };
            let lb = if i < nb {
                new_lines[i].clone()
            } else {
                String::new()
            };
            if !la.eq(&lb) {
                assert(la@ == line_at(orig, i as int));
                assert(lb@ == line_at(new, i as int));
                return Some(
                    Difference { line_no: (i + 1) as u32, original: la, rewrite: lb },
                );
            }
            i = i + 1;
        }
        proof {
            assert forall|j: int| #![auto] line_at(orig, j) == line_at(new, j) by {
                if 0 <= j < m {
                } else {
                    assert(line_at(orig, j) =~= line_at(new, j));
                }
            }
        }
        None
    }

    /// The overwrite decision: `Unchanged` with no payload when the prior
    /// output matches (the destination must not be touched, not even its
    /// timestamp); otherwise the new text to write atomically, reported as
    /// `New` (no prior file) or `Modified` (first difference line).
    pub fn clobber(self) -> (r: (WriteOutcome, Option<String>))
        requires
            self.rewrite_text().len() < 0xFFFF_FFFF,
            self.wf(),
        ensures
            match self.original_lines() {
                Option::None => r.0 is New && r.1 is Some && r.1->Some_0@ == self.rewrite_text(),
                Option::Some(orig) => {
                    let new = spec_lines(self.rewrite_text());
                    if lines_equal(orig, new) {
                        r.0 is Unchanged && r.1 is None
                    } else {
                        &&& r.0 is Modified
                        &&& r.1 is Some
                        &&& r.1->Some_0@ == self.rewrite_text()
                        &&& {
                            let k = r.0->Modified_0 - 1;
                            &&& 1 <= r.0->Modified_0 < 0xFFFF_FFFF
                            &&& line_at(orig, k) != line_at(new, k)
                            &&& forall|j: int| 0 <= j < k ==> line_at(orig, j) == line_at(new, j)
                        }
                    }
                },
            },
    {
        let difference = self.find_difference();
        match difference {
            Option::None => (WriteOutcome::Unchanged, None),
            Option::Some(d) => {
                if d.line_no == 0 {
                    (WriteOutcome::New, Some(self.rewrite))
                } else {
                    (WriteOutcome::Modified(d.line_no), Some(self.rewrite))
                }
            },
        }
    }
}

/// The progress line reported for an overwrite decision.
pub fn progress_message(outcome: &WriteOutcome, path: &str) -> (s: String)
    ensures
        s@ == match outcome {
            WriteOutcome::Unchanged => "unchanged: "@ + path@ + "..."@,
            WriteOutcome::New => "NEW: "@ + path@,
            WriteOutcome::Modified(_) => "MODIFIED: "@ + path@,
        },
{
    match outcome {
        WriteOutcome::Unchanged => String::from_str("unchanged: ").concat(path).concat("..."),
        WriteOutcome::New => String::from_str("NEW: ").concat(path),
        WriteOutcome::Modified(_) => String::from_str("MODIFIED: ").concat(path),
    }
}

/// Idempotence of regeneration: an output compared against itself has no
/// differing line, so re-running generation over its own unchanged output
/// decides "unchanged" and the destination is left completely untouched.
pub proof fn lemma_regeneration_unchanged(s: Seq<char>)
    ensures
        lines_equal(spec_lines(s), spec_lines(s)),
{
}

/// If two outputs differ at exactly one line, any first-difference report
/// names that line.
pub proof fn lemma_first_diff_unique(a: Seq<Seq<char>>, b: Seq<Seq<char>>, k: int, k2: int)
    requires
        line_at(a, k) != line_at(b, k),
        forall|j: int| j != k ==> line_at(a, j) == line_at(b, j),
        line_at(a, k2) != line_at(b, k2),
        forall|j: int| 0 <= j < k2 ==> line_at(a, j) == line_at(b, j),
        0 <= k2,
    ensures
        k2 == k,
{
}

} // verus!
