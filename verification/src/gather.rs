//! The generator pass: classify each input by extension, decode classes
//! (from standalone metadata or archive entries), accumulate them in the
//! registry, emit the namespace tree, and decide the overwrite through
//! the incremental writer.

use vstd::prelude::*;

use crate::classfile::{parse_class, spec_parse_class, view_class, SemanticClass, SpecClass};
use crate::emit::{build_tree, spec_build_tree, spec_render_module, view_module};
use crate::error::GenError;
use crate::registry::{spec_add_class, spec_find, DuplicatePolicy, Registry};
use crate::text::{spec_ends_with, spec_eq_ignore_ascii_case};
use crate::writer::{marker_comment, marker_text, GeneratedFile, WriteOutcome};
use crate::zipwrap::{zip_contents, zip_entries_of, zip_entry, zip_len, zip_open};

verus! {

/// What an input file's extension says it holds.
#[derive(Clone, Copy, PartialEq, Eq, Structural, Debug)]
pub enum InputKind {
    /// One class's metadata.
    ClassFile,
    /// An archive of classfile entries.
    Archive,
}

/// Extension dispatch, case-insensitive; any other extension is a fatal
/// input error.
pub fn classify_extension(ext: &str) -> (r: Result<InputKind, GenError>)
    ensures
        r == Result::<InputKind, GenError>::Ok(InputKind::ClassFile) <==> spec_eq_ignore_ascii_case(
            ext@,
            "class"@,
        ),
        r == Result::<InputKind, GenError>::Ok(InputKind::Archive) <==> spec_eq_ignore_ascii_case(
            ext@,
            "jar"@,
        ),
        r.is_err() ==> r->Err_0 is InvalidInput,
{
    proof {
        reveal_strlit("class");
        reveal_strlit("jar");
    }
    if crate::text::eq_ignore_ascii_case(ext, "class") {
        Ok(InputKind::ClassFile)
    } else if crate::text::eq_ignore_ascii_case(ext, "jar") {
        Ok(InputKind::Archive)
    } else {
        let msg = String::from_str(
            "Input files must have a 'class' or 'jar' extension, not '",
        ).concat(ext).concat("'");
        Err(GenError::InvalidInput(msg))
    }
}

/// One input handed to the generator: a display name for diagnostics,
/// the file extension, and the raw bytes.
pub struct GenInput {
    pub name: String,
    pub ext: String,
    pub bytes: Vec<u8>,
}

/// What decoding and recording one classfile does to the registry:
/// `None` on a malformed classfile or a refused duplicate.
pub open spec fn spec_gather_class(
    v: Seq<SpecClass>,
    policy: DuplicatePolicy,
    bytes: Seq<u8>,
) -> Option<Seq<SpecClass>> {
    match spec_parse_class(bytes) {
        Option::Some(c) => spec_add_class(v, policy, c),
        Option::None => Option::None,
    }
}

/// The walk over an archive's entries, from index `i`: every entry is
/// read (an unreadable one aborts), and those whose names end in the
/// classfile extension are decoded and recorded; the rest are skipped.
pub open spec fn spec_gather_entries(
    v: Seq<SpecClass>,
    policy: DuplicatePolicy,
    entries: Seq<(Seq<char>, Option<Seq<u8>>)>,
    i: int,
) -> Option<Seq<SpecClass>>
    decreases entries.len() - i,
{
    if i < 0 || i >= entries.len() {
        Option::Some(v)
    } else {
        match entries[i].1 {
            Option::None => Option::None,
            Option::Some(data) => {
                let next = if spec_ends_with(entries[i].0, ".class"@) {
                    spec_gather_class(v, policy, data)
                } else {
                    Option::Some(v)
                };
                match next {
                    Option::Some(v2) => spec_gather_entries(v2, policy, entries, i + 1),
                    Option::None => Option::None,
                }
            },
        }
    }
}

/// What gathering one archive does to the registry: `None` unless the
/// bytes parse as an archive and the whole entry walk goes through.
pub open spec fn spec_gather_archive(
    v: Seq<SpecClass>,
    policy: DuplicatePolicy,
    bytes: Seq<u8>,
) -> Option<Seq<SpecClass>> {
    match zip_entries_of(bytes) {
        Option::Some(entries) => spec_gather_entries(v, policy, entries, 0),
        Option::None => Option::None,
    }
}

/// What gathering one input does: by its extension, a classfile, an
/// archive, or a refused input kind.
pub open spec fn spec_gather_input(
    v: Seq<SpecClass>,
    policy: DuplicatePolicy,
    ext: Seq<char>,
    bytes: Seq<u8>,
) -> Option<Seq<SpecClass>> {
    if spec_eq_ignore_ascii_case(ext, "class"@) {
        spec_gather_class(v, policy, bytes)
    } else if spec_eq_ignore_ascii_case(ext, "jar"@) {
        spec_gather_archive(v, policy, bytes)
    } else {
        Option::None
    }
}

/// The whole gathering pass over the inputs, from index `i`.
pub open spec fn spec_gather_inputs(
    v: Seq<SpecClass>,
    policy: DuplicatePolicy,
    inputs: Seq<GenInput>,
    i: int,
) -> Option<Seq<SpecClass>>
    decreases inputs.len() - i,
{
    if i < 0 || i >= inputs.len() {
        Option::Some(v)
    } else {
        match spec_gather_input(v, policy, inputs[i].ext@, inputs[i].bytes@) {
            Option::Some(v2) => spec_gather_inputs(v2, policy, inputs, i + 1),
            Option::None => Option::None,
        }
    }
}

/// The text a run generates from the recorded classes: the sentinel
/// line, then the rendered namespace tree.
pub open spec fn spec_generated_text(classes: Seq<SpecClass>) -> Seq<char> {
    "// "@ + marker_text() + "\n"@ + spec_render_module(spec_build_tree(classes), ""@)
}

/// The generation context: one explicit object threaded through a single
/// invocation, holding the accumulating symbol registry.
pub struct Context {
    registry: Registry,
}

impl Context {
    pub closed spec fn view_classes(&self) -> Seq<SpecClass> {
        self.registry.view_classes()
    }

    pub closed spec fn spec_policy(&self) -> DuplicatePolicy {
        self.registry.spec_policy()
    }

    pub closed spec fn wf(&self) -> bool {
        self.registry.wf()
    }

    pub fn new(policy: DuplicatePolicy) -> (c: Context)
        ensures
            c.wf(),
            c.view_classes() == Seq::<SpecClass>::empty(),
            c.spec_policy() == policy,
    {
        Context { registry: Registry::new(policy) }
    }

    /// Decodes one class's bytes and records it: exactly the step
    /// `spec_gather_class` describes.  A malformed input aborts; a
    /// duplicate name follows the registry's policy.
    pub fn gather_class(&mut self, bytes: &Vec<u8>) -> (r: Result<(), GenError>)
        requires
            old(self).wf(),
        ensures
            final(self).wf(),
            final(self).spec_policy() == old(self).spec_policy(),
            r.is_ok() <==> spec_gather_class(
                old(self).view_classes(),
                old(self).spec_policy(),
                bytes@,
            ) is Some,
            r.is_ok() ==> final(self).view_classes() == spec_gather_class(
                old(self).view_classes(),
                old(self).spec_policy(),
                bytes@,
            )->Some_0,
            r.is_err() ==> final(self).view_classes() == old(self).view_classes(),
            r.is_err() ==> if spec_parse_class(bytes@) is None {
                r->Err_0 is MalformedInput
            } else {
                &&& r->Err_0 is ConflictingDefinition
                &&& old(self).spec_policy() is HardError
                &&& spec_find(old(self).view_classes(), spec_parse_class(bytes@)->Some_0.name)
                    is Some
            },
    {
        let class = match parse_class(bytes) {
            Result::Ok(c) => c,
            Result::Err(e) => {
                return Err(e);
            },
        };
        self.registry.add_class(class)
    }

    /// Walks an archive's entries, decoding and recording every entry
    /// whose name ends in the classfile extension: exactly the walk
    /// `spec_gather_archive` describes.  Any archive, entry or recording
    /// failure aborts the run (the context is discarded with it).
    #[verifier::rlimit(100)]
    pub fn gather_archive(&mut self, bytes: Vec<u8>) -> (r: Result<(), GenError>)
        requires
            old(self).wf(),
        ensures
            final(self).wf(),
            final(self).spec_policy() == old(self).spec_policy(),
            r.is_ok() <==> spec_gather_archive(
                old(self).view_classes(),
                old(self).spec_policy(),
                bytes@,
            ) is Some,
            r.is_ok() ==> final(self).view_classes() == spec_gather_archive(
                old(self).view_classes(),
                old(self).spec_policy(),
                bytes@,
            )->Some_0,
            r.is_err() ==> r->Err_0 is MalformedInput || r->Err_0 is ConflictingDefinition,
    {
        let ghost v0 = old(self).view_classes();
        let ghost pol = old(self).spec_policy();
        let ghost input = bytes@;
        let mut archive = match zip_open(bytes) {
            Result::Ok(a) => a,
            Result::Err(_) => {
                return Err(GenError::MalformedInput(String::from_str("bad archive")));
            },
        };
        let n = zip_len(&archive);
        let ghost entries = zip_contents(&archive);
        let mut i: usize = 0;
        while i < n
            invariant
                self.wf(),
                self.spec_policy() == pol,
                pol == old(self).spec_policy(),
                v0 == old(self).view_classes(),
                input == bytes@,
                i <= n,
                n == entries.len(),
                zip_entries_of(input) is Some,
                entries == zip_entries_of(input)->Some_0,
                zip_contents(&archive) == entries,
                spec_gather_entries(v0, pol, entries, 0) == spec_gather_entries(
                    self.view_classes(),
                    pol,
                    entries,
                    i as int,
                ),
            decreases n - i,
        {
            let (name, data) = match zip_entry(&mut archive, i) {
                Result::Ok(e) => e,
                Result::Err(_) => {
                    proof {
                        assert(entries[i as int].1 is None);
                        assert(spec_gather_entries(self.view_classes(), pol, entries, i as int)
                            is None);
                    }
                    return Err(GenError::MalformedInput(String::from_str("bad archive entry")));
                },
            };
            proof {
                assert(name@ == entries[i as int].0);
                assert(entries[i as int].1 == Option::Some(data@));
            }
            let ghost vb = self.view_classes();
            if crate::text::ends_with(name.as_str(), ".class") {
                match self.gather_class(&data) {
                    Result::Ok(()) => {
                        proof {
                            assert(spec_gather_class(vb, pol, data@) == Option::Some(
                                self.view_classes(),
                            ));
                            assert(spec_gather_entries(vb, pol, entries, i as int)
                                == spec_gather_entries(self.view_classes(), pol, entries, i + 1));
                        }
                    },
                    Result::Err(e) => {
                        proof {
                            assert(spec_gather_class(vb, pol, data@) is None);
                            assert(spec_gather_entries(vb, pol, entries, i as int) is None);
                        }
                        return Err(e);
                    },
                }
            } else {
                proof {
                    assert(spec_gather_entries(vb, pol, entries, i as int) == spec_gather_entries(
                        vb,
                        pol,
                        entries,
                        i + 1,
                    ));
                }
            }
            i = i + 1;
        }
        proof {
            assert(spec_gather_entries(self.view_classes(), pol, entries, n as int)
                == Option::Some(self.view_classes()));
        }
        Ok(())
    }

    /// Takes the recorded classes, in name order.
    pub fn into_classes(self) -> (v: Vec<SemanticClass>)
        ensures
            v@.map_values(|c: SemanticClass| view_class(c)) == self.view_classes(),
    {
        self.registry.into_classes()
    }
}

/// The rebuild-if-changed lines directed at the invoking build tool, one
/// per consumed input.
pub open spec fn spec_rebuild_signals(names: Seq<Seq<char>>, i: int) -> Seq<Seq<char>>
    decreases names.len() - i,
{
    if i < 0 || i >= names.len() {
        Seq::<Seq<char>>::empty()
    } else {
        seq!["cargo:rerun-if-changed="@ + names[i]] + spec_rebuild_signals(names, i + 1)
    }
}

pub fn rebuild_signals(inputs: &Vec<GenInput>) -> (r: Vec<String>)
    ensures
        r@.map_values(|s: String| s@) == spec_rebuild_signals(
            inputs@.map_values(|g: GenInput| g.name@),
            0,
        ),
{
    let ghost names = inputs@.map_values(|g: GenInput| g.name@);
    let mut r: Vec<String> = Vec::new();
    let mut i: usize = 0;
    proof {
        assert(r@.map_values(|s: String| s@) + spec_rebuild_signals(names, 0)
            =~= spec_rebuild_signals(names, 0));
    }
    while i < inputs.len()
        invariant
            i <= inputs@.len(),
            i <= names.len(),
            names == inputs@.map_values(|g: GenInput| g.name@),
            r@.map_values(|s: String| s@) + spec_rebuild_signals(names, i as int)
                == spec_rebuild_signals(names, 0),
        decreases inputs@.len() - i,
    {
        let line = String::from_str("cargo:rerun-if-changed=").concat(inputs[i].name.as_str());
        let ghost prev = r@;
        r.push(line);
        proof {
            assert(line@ == "cargo:rerun-if-changed="@ + names[i as int]);
            assert(r@.map_values(|s: String| s@) =~= prev.map_values(|s: String| s@) + seq![
                line@,
            ]);
            assert((prev.map_values(|s: String| s@) + seq![line@]) + spec_rebuild_signals(
                names,
                i + 1,
            ) =~= prev.map_values(|s: String| s@) + spec_rebuild_signals(names, i as int));
        }
        i = i + 1;
    }
    r
}

/// The core of the library: gather every input, emit the namespace tree
/// behind the sentinel line, and decide the overwrite against the prior
/// output.  It succeeds exactly when every input gathers, the generated
/// text fits the line counter, and the prior file (if any) carries the
/// sentinel; the text returned is a function of the inputs alone, so an
/// unchanged rerun reproduces it and decides "unchanged".
#[verifier::rlimit(100)]
pub fn run(inputs: Vec<GenInput>, prior: Option<String>, policy: DuplicatePolicy) -> (r: Result<
    (WriteOutcome, String),
    GenError,
>)
    requires
        match prior {
            Option::Some(text) => text@.len() < 0xFFFF_FFFF,
            Option::None => true,
        },
    ensures
        r.is_ok() <==> ({
            let gathered = spec_gather_inputs(Seq::<SpecClass>::empty(), policy, inputs@, 0);
            &&& gathered is Some
            &&& spec_generated_text(gathered->Some_0).len() < 0xFFFF_FFFE
            &&& match prior {
                Option::None => true,
                Option::Some(text) => crate::writer::spec_lines(text@).len() > 0
                    && crate::writer::spec_is_sentinel(crate::writer::spec_lines(text@)[0]),
            }
        }),
        r.is_ok() ==> r->Ok_0.1@ == spec_generated_text(
            spec_gather_inputs(Seq::<SpecClass>::empty(), policy, inputs@, 0)->Some_0,
        ),
        r.is_ok() ==> match r->Ok_0 {
            (WriteOutcome::Unchanged, text) => {
                // regeneration reproduced the prior output line for line:
                // the destination must be left completely untouched
                &&& prior is Some
                &&& crate::writer::lines_equal(
                    crate::writer::spec_lines(prior->Some_0@),
                    crate::writer::spec_lines(text@),
                )
            },
            (WriteOutcome::New, _) => prior is None,
            (WriteOutcome::Modified(k), text) => {
                // the prior and the replacement differ first at line k
                &&& prior is Some
                &&& 1 <= k
                &&& {
                    let orig = crate::writer::spec_lines(prior->Some_0@);
                    let new = crate::writer::spec_lines(text@);
                    &&& crate::writer::line_at(orig, k - 1) != crate::writer::line_at(new, k - 1)
                    &&& forall|j: int|
                        0 <= j < k - 1 ==> crate::writer::line_at(orig, j) == crate::writer::line_at(
                            new,
                            j,
                        )
                }
            },
        },
        r.is_ok() && prior is Some ==> {
            let lines = crate::writer::spec_lines(prior->Some_0@);
            lines.len() > 0 && crate::writer::spec_is_sentinel(lines[0])
        },
        r.is_err() && r->Err_0 is OutputConflict ==> prior is Some && !{
            let lines = crate::writer::spec_lines(prior->Some_0@);
            lines.len() > 0 && crate::writer::spec_is_sentinel(lines[0])
        },
{
    let ghost iv = inputs@;
    let mut ctx = Context::new(policy);
    let mut rest = inputs;
    proof {
        assert(rest@.map_values(|g: GenInput| view_input(g)) =~= iv.map_values(
            |g: GenInput| view_input(g),
        ).skip(0));
        assert(iv.skip(0) =~= iv);
    }
    while rest.len() > 0
        invariant
            ctx.wf(),
            ctx.spec_policy() == policy,
            iv == inputs@,
            rest@.len() <= iv.len(),
            rest@ =~= iv.skip(iv.len() - rest@.len()),
            spec_gather_inputs(Seq::<SpecClass>::empty(), policy, iv, 0) == spec_gather_inputs(
                ctx.view_classes(),
                policy,
                iv,
                iv.len() - rest@.len(),
            ),
        decreases rest@.len(),
    {
        let ghost k = iv.len() - rest@.len();
        let ghost prev_rest = rest@;
        let input = rest.remove(0);
        proof {
            assert(prev_rest[0] == iv[k]);
            assert(input == iv[k]);
            assert(rest@ =~= iv.skip(k + 1));
        }
        let kind = match classify_extension(input.ext.as_str()) {
            Result::Ok(k0) => k0,
            Result::Err(e) => {
                proof {
                    assert(spec_gather_input(ctx.view_classes(), policy, iv[k].ext@, iv[k].bytes@)
                        is None);
                    assert(spec_gather_inputs(ctx.view_classes(), policy, iv, k) is None);
                    assert(spec_gather_inputs(Seq::<SpecClass>::empty(), policy, iv, 0) is None);
                }
                return Err(e);
            },
        };
        match kind {
            InputKind::ClassFile => {
                let ghost pre = ctx.view_classes();
                match ctx.gather_class(&input.bytes) {
                    Result::Ok(()) => {
                        proof {
                            assert(spec_gather_input(pre, policy, iv[k].ext@, iv[k].bytes@)
                                == spec_gather_class(pre, policy, iv[k].bytes@));
                            assert(spec_gather_inputs(pre, policy, iv, k) == spec_gather_inputs(
                                ctx.view_classes(),
                                policy,
                                iv,
                                k + 1,
                            ));
                        }
                    },
                    Result::Err(e) => {
                        proof {
                            assert(spec_gather_input(pre, policy, iv[k].ext@, iv[k].bytes@)
                                is None);
                            assert(spec_gather_inputs(pre, policy, iv, k) is None);
                            assert(spec_gather_inputs(Seq::<SpecClass>::empty(), policy, iv, 0)
                                is None);
                        }
                        return Err(e);
                    },
                }
            },
            InputKind::Archive => {
                let ghost pre = ctx.view_classes();
                let ghost bv = input.bytes@;
                match ctx.gather_archive(input.bytes) {
                    Result::Ok(()) => {
                        proof {
                            assert(spec_gather_input(pre, policy, iv[k].ext@, iv[k].bytes@)
                                == spec_gather_archive(pre, policy, bv));
                            assert(spec_gather_inputs(pre, policy, iv, k) == spec_gather_inputs(
                                ctx.view_classes(),
                                policy,
                                iv,
                                k + 1,
                            ));
                        }
                    },
                    Result::Err(e) => {
                        proof {
                            assert(spec_gather_input(pre, policy, iv[k].ext@, iv[k].bytes@)
                                is None);
                            assert(spec_gather_inputs(pre, policy, iv, k) is None);
                            assert(spec_gather_inputs(Seq::<SpecClass>::empty(), policy, iv, 0)
                                is None);
                        }
                        return Err(e);
                    },
                }
            },
        }
    }
    let ghost gathered = ctx.view_classes();
    proof {
        assert(iv.skip(iv.len() as int).len() == 0);
        assert(rest@.len() == 0);
        assert(spec_gather_inputs(gathered, policy, iv, iv.len() as int) == Option::Some(
            gathered,
        ));
        assert(spec_gather_inputs(Seq::<SpecClass>::empty(), policy, iv, 0) == Option::Some(
            gathered,
        ));
    }
    let classes = ctx.into_classes();
    let tree = build_tree(classes);
    let mut text = String::from_str("// ").concat(marker_comment()).concat("\n");
    let ghost head = text@;
    tree.write("", &mut text);
    proof {
        assert(head == "// "@ + marker_text() + "\n"@);
        assert(text@ == spec_generated_text(gathered));
    }
    if text.as_str().unicode_len() >= 0xFFFF_FFFE {
        return Err(GenError::MalformedInput(String::from_str("generated output too large")));
    }
    let mut out = match GeneratedFile::new(prior) {
        Result::Ok(f) => f,
        Result::Err(e) => {
            return Err(e);
        },
    };
    out.write(text.as_str());
    let (outcome, _replacement) = out.clobber();
    Ok((outcome, text))
}

/// Helper model of one input for sequence bookkeeping.
pub open spec fn view_input(g: GenInput) -> (Seq<char>, Seq<char>, Seq<u8>) {
    (g.name@, g.ext@, g.bytes@)
}

} // verus!
