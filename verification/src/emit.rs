//! The code emitter: a namespace tree of modules and projection types,
//! walked depth-first in lexicographic order, emitting one container per
//! package segment and one projection type per class.  Private classes are
//! deliberately emitted too: completeness over minimality.

use vstd::prelude::*;

use crate::classfile::{
    field_views, method_views, view_class, view_field, view_method, SemanticClass, SemanticField,
    SemanticMethod, SpecClass, SpecMember,
};
use crate::descriptor::{
    spec_parse_method, spec_parse_type, JavaType, SpecJavaType, parse_method_descriptor,
    parse_type, view_type,
};
use crate::text::{dec_string, lemma_lex_connex, lex_lt, push_char, spec_dec, str_lt};

verus! {

/// The namespace tree: ordered child modules and ordered projection
/// types, both keyed by emitted name.
pub struct Module {
    pub modules: Vec<(String, Module)>,
    pub structs: Vec<(String, SemanticClass)>,
}

/// Child-module keys strictly ascending.
pub open spec fn mod_keys_sorted(l: Seq<(String, Module)>) -> bool {
    forall|i: int| 0 <= i < l.len() - 1 ==> lex_lt(#[trigger] l[i].0@, l[i + 1].0@)
}

/// Struct keys strictly ascending.
pub open spec fn struct_keys_sorted(l: Seq<(String, SemanticClass)>) -> bool {
    forall|i: int| 0 <= i < l.len() - 1 ==> lex_lt(#[trigger] l[i].0@, l[i + 1].0@)
}

/// The whole tree is ordered at every level.
pub open spec fn module_wf(m: Module) -> bool
    decreases m,
{
    &&& mod_keys_sorted(m.modules@)
    &&& struct_keys_sorted(m.structs@)
    &&& mod_list_wf(m.modules@)
}

pub open spec fn mod_list_wf(l: Seq<(String, Module)>) -> bool
    decreases l,
{
    if l.len() == 0 {
        true
    } else {
        module_wf(l[0].1) && mod_list_wf(l.skip(1))
    }
}

pub proof fn lemma_mod_list_wf_index(l: Seq<(String, Module)>, i: int)
    requires
        mod_list_wf(l),
        0 <= i < l.len(),
    ensures
        module_wf(l[i].1),
    decreases i,
{
    if i > 0 {
        lemma_mod_list_wf_index(l.skip(1), i - 1);
    }
}

impl Module {
    /// An empty namespace level.
    pub fn new() -> (m: Module)
        ensures
            module_wf(m),
            m.modules@.len() == 0,
            m.structs@.len() == 0,
    {
        Module { modules: Vec::new(), structs: Vec::new() }
    }
}

/// The textual form of a decoded type in emitted code: primitives by
/// value, objects as local handles, arrays as length plus elements.
pub open spec fn spec_type_text(t: SpecJavaType) -> Seq<char>
    decreases t,
{
    match t {
        SpecJavaType::Byte => "i8"@,
        SpecJavaType::Char => "u16"@,
        SpecJavaType::Double => "f64"@,
        SpecJavaType::Float => "f32"@,
        SpecJavaType::Int => "i32"@,
        SpecJavaType::Long => "i64"@,
        SpecJavaType::Short => "i16"@,
        SpecJavaType::Boolean => "bool"@,
        SpecJavaType::Object(n) => "Local<crate::"@ + spec_path_of(n) + ">"@,
        SpecJavaType::Array(e) => "Vec<"@ + spec_type_text(*e) + ">"@,
    }
}

/// An internal (slash-separated) name as an emitted path: segments joined
/// by `::`, nesting separators flattened to underscores.
pub open spec fn spec_path_of(n: Seq<char>) -> Seq<char>
    decreases n.len(),
{
    if n.len() == 0 {
        Seq::<char>::empty()
    } else if n[0] == '/' {
        "::"@ + spec_path_of(n.skip(1))
    } else if n[0] == '$' {
        "_"@ + spec_path_of(n.skip(1))
    } else {
        seq![n[0]] + spec_path_of(n.skip(1))
    }
}

pub fn path_of(n: &str) -> (r: String)
    ensures
        r@ == spec_path_of(n@),
    decreases n@.len(),
{
    let len = n.unicode_len();
    if len == 0 {
        return String::new();
    }
    let c = n.get_char(0);
    let rest = path_of(n.substring_char(1, len));
    if c == '/' {
        String::from_str("::").concat(rest.as_str())
    } else if c == '$' {
        String::from_str("_").concat(rest.as_str())
    } else {
        let mut s = String::new();
        push_char(&mut s, c);
        s.concat(rest.as_str())
    }
}

pub fn type_text(t: &JavaType) -> (r: String)
    ensures
        r@ == spec_type_text(view_type(*t)),
    decreases t,
{
    match t {
        JavaType::Byte => String::from_str("i8"),
        JavaType::Char => String::from_str("u16"),
        JavaType::Double => String::from_str("f64"),
        JavaType::Float => String::from_str("f32"),
        JavaType::Int => String::from_str("i32"),
        JavaType::Long => String::from_str("i64"),
        JavaType::Short => String::from_str("i16"),
        JavaType::Boolean => String::from_str("bool"),
        JavaType::Object(n) => {
            let p = path_of(n.as_str());
            String::from_str("Local<crate::").concat(p.as_str()).concat(">")
        },
        JavaType::Array(e) => {
            let inner = type_text(e);
            String::from_str("Vec<").concat(inner.as_str()).concat(">")
        },
    }
}

/// The argument list text of a method's parameters, from index `i` on.
pub open spec fn spec_args_text(params: Seq<SpecJavaType>, i: int) -> Seq<char>
    decreases params.len() - i,
{
    if i < 0 || i >= params.len() {
        Seq::<char>::empty()
    } else {
        ", arg"@ + spec_dec(i) + ": "@ + spec_type_text(params[i]) + spec_args_text(params, i + 1)
    }
}

pub fn args_text(params: &Vec<JavaType>, i: usize) -> (r: String)
    requires
        i <= params@.len(),
    ensures
        r@ == spec_args_text(params@.map_values(|t: JavaType| view_type(t)), i as int),
    decreases params@.len() - i,
{
    if i >= params.len() {
        return String::new();
    }
    let tt = type_text(&params[i]);
    let num = dec_string(i as u64);
    let rest = args_text(params, i + 1);
    let r = String::from_str(", arg").concat(num.as_str()).concat(": ").concat(tt.as_str()).concat(
        rest.as_str(),
    );
    proof {
        assert(r@ =~= spec_args_text(params@.map_values(|t: JavaType| view_type(t)), i as int));
    }
    r
}

/// The three-way result text of a method: error, present value, or
/// explicit absence for object results; never conflating absence with
/// error.
pub open spec fn spec_ret_text(ret: Option<SpecJavaType>) -> Seq<char> {
    match ret {
        Option::None => "Result<(), Local<Throwable>>"@,
        Option::Some(t) => match t {
            SpecJavaType::Object(_) => "Result<Option<"@ + spec_type_text(t)
                + ">, Local<Throwable>>"@,
            SpecJavaType::Array(_) => "Result<Option<"@ + spec_type_text(t)
                + ">, Local<Throwable>>"@,
            _ => "Result<"@ + spec_type_text(t) + ", Local<Throwable>>"@,
        },
    }
}

pub fn ret_text(ret: &Option<JavaType>) -> (r: String)
    ensures
        r@ == spec_ret_text(
            match ret {
                Option::Some(t) => Option::Some(view_type(*t)),
                Option::None => Option::None,
            },
        ),
{
    match ret {
        Option::None => String::from_str("Result<(), Local<Throwable>>"),
        Option::Some(t) => {
            let tt = type_text(t);
            match t {
                JavaType::Object(_) | JavaType::Array(_) => String::from_str("Result<Option<")
                    .concat(tt.as_str())
                    .concat(">, Local<Throwable>>"),
                _ => String::from_str("Result<").concat(tt.as_str()).concat(
                    ", Local<Throwable>>",
                ),
            }
        },
    }
}

/// How many of the first `upto` methods share `name`: the
/// overload-disambiguation index.
pub open spec fn spec_count_name(ms: Seq<SpecMember>, name: Seq<char>, upto: int) -> int
    decreases upto,
{
    if upto <= 0 {
        0
    } else {
        spec_count_name(ms, name, upto - 1) + if ms[upto - 1].name == name {
            1int
        } else {
            0int
        }
    }
}

fn count_name(ms: &Vec<SemanticMethod>, name: &str, upto: usize) -> (r: u64)
    requires
        upto <= ms@.len(),
    ensures
        r == spec_count_name(method_views(ms@), name@, upto as int),
{
    let mut r: u64 = 0;
    let mut i: usize = 0;
    while i < upto
        invariant
            i <= upto <= ms@.len(),
            r == spec_count_name(method_views(ms@), name@, i as int),
            r <= i,
        decreases upto - i,
    {
        proof {
            assert(method_views(ms@)[i as int] == view_method(ms@[i as int]));
        }
        let a = ms[i].name.as_str();
        if !str_lt(a, name) && !str_lt(name, a) {
            proof {
                lemma_lex_connex(ms@[i as int].name@, name@);
            }
            r = r + 1;
        } else {
            proof {
                if ms@[i as int].name@ == name@ {
                    crate::registry::lemma_lex_irrefl(name@);
                }
            }
        }
        i = i + 1;
    }
    r
}

/// The emitted name of method `i`: `<init>` becomes `new`; an overloaded
/// name gets a deterministic index suffix.
pub open spec fn spec_emit_name(ms: Seq<SpecMember>, i: int) -> Seq<char> {
    let base = if ms[i].name == "<init>"@ {
        "new"@
    } else {
        ms[i].name
    };
    if spec_count_name(ms, ms[i].name, ms.len() as int) > 1 {
        base + "_"@ + spec_dec(spec_count_name(ms, ms[i].name, i))
    } else {
        base
    }
}

fn emit_name(ms: &Vec<SemanticMethod>, i: usize) -> (r: String)
    requires
        i < ms@.len(),
    ensures
        r@ == spec_emit_name(method_views(ms@), i as int),
{
    proof {
        assert(method_views(ms@)[i as int] == view_method(ms@[i as int]));
        assert(method_views(ms@).len() == ms@.len());
    }
    let name = ms[i].name.as_str();
    let is_init = {
        let lit = "<init>";
        !str_lt(name, lit) && !str_lt(lit, name)
    };
    proof {
        lemma_lex_connex(ms@[i as int].name@, "<init>"@);
        if ms@[i as int].name@ == "<init>"@ {
            crate::registry::lemma_lex_irrefl("<init>"@);
        }
    }
    let base = if is_init {
        String::from_str("new")
    } else {
        String::from_str(name)
    };
    let total = count_name(ms, name, ms.len());
    if total > 1 {
        let idx = count_name(ms, name, i);
        let num = dec_string(idx);
        base.concat("_").concat(num.as_str())
    } else {
        base
    }
}


/// Whether `s` holds the character `c`.
pub fn contains_char(s: &str, c: char) -> (r: bool)
    ensures
        r == s@.contains(c),
{
    let n = s.unicode_len();
    let mut i: usize = 0;
    while i < n
        invariant
            i <= n,
            n == s@.len(),
            forall|j: int| 0 <= j < i ==> s@[j] != c,
        decreases n - i,
    {
        if s.get_char(i) == c {
            assert(s@[i as int] == c);
            return true;
        }
        i = i + 1;
    }
    proof {
        if s@.contains(c) {
            let w = choose|j: int| 0 <= j < s@.len() && s@[j] == c;
            assert(s@[w] != c);
        }
    }
    false
}

/// The field accessor's result text: objects and arrays may be absent.
pub open spec fn spec_field_ret(t: SpecJavaType) -> Seq<char> {
    match t {
        SpecJavaType::Object(_) => "Option<"@ + spec_type_text(t) + ">"@,
        SpecJavaType::Array(_) => "Option<"@ + spec_type_text(t) + ">"@,
        _ => spec_type_text(t),
    }
}

fn field_ret(t: &JavaType) -> (r: String)
    ensures
        r@ == spec_field_ret(view_type(*t)),
{
    let tt = type_text(t);
    match t {
        JavaType::Object(_) | JavaType::Array(_) => String::from_str("Option<").concat(
            tt.as_str(),
        ).concat(">"),
        _ => tt,
    }
}

/// One field accessor, or nothing for an invalid descriptor.
pub open spec fn spec_render_field(f: SpecMember, indent: Seq<char>) -> Seq<char> {
    if crate::descriptor::valid_field_descriptor(f.descriptor) {
        let t = spec_parse_type(f.descriptor, 0)->Some_0.0;
        indent + "    /// "@ + f.name + " "@ + f.descriptor + "\n"@ + indent + "    pub fn "@
            + f.name + "(&self) -> "@ + spec_field_ret(t)
            + " { __jni_bindgen::native_field(self, \""@ + f.name + "\", \""@ + f.descriptor
            + "\") }\n"@
    } else {
        Seq::<char>::empty()
    }
}

pub open spec fn spec_render_fields(fs: Seq<SpecMember>, i: int, indent: Seq<char>) -> Seq<
    char,
>
    decreases fs.len() - i,
{
    if i < 0 || i >= fs.len() {
        Seq::<char>::empty()
    } else {
        spec_render_field(fs[i], indent) + spec_render_fields(fs, i + 1, indent)
    }
}

/// One method: the disambiguated name, marshaled arguments, and the
/// three-way result; a constructor surfaces as `new`.
pub open spec fn spec_render_method(
    key: Seq<char>,
    ms: Seq<SpecMember>,
    i: int,
    indent: Seq<char>,
) -> Seq<char> {
    let m = ms[i];
    if crate::descriptor::valid_method_descriptor(m.descriptor) {
        let params = spec_parse_method(m.descriptor)->Some_0.0;
        let ret = spec_parse_method(m.descriptor)->Some_0.1;
        let doc = indent + "    /// "@ + m.name + " "@ + m.descriptor + "\n"@;
        if m.name == "<init>"@ {
            doc + indent + "    pub fn "@ + spec_emit_name(ms, i) + "(env: Env"@ + spec_args_text(
                params,
                0,
            ) + ") -> Result<Local<"@ + key + ">, Local<Throwable>> { __jni_bindgen::native_new(env, \""@
                + m.descriptor + "\") }\n"@
        } else {
            doc + indent + "    pub fn "@ + spec_emit_name(ms, i) + "(&self"@ + spec_args_text(
                params,
                0,
            ) + ") -> "@ + spec_ret_text(ret) + " { __jni_bindgen::native_invoke(self, \""@
                + m.name + "\", \""@ + m.descriptor + "\") }\n"@
        }
    } else {
        Seq::<char>::empty()
    }
}

pub open spec fn spec_render_methods(
    key: Seq<char>,
    ms: Seq<SpecMember>,
    i: int,
    indent: Seq<char>,
) -> Seq<char>
    decreases ms.len() - i,
{
    if i < 0 || i >= ms.len() {
        Seq::<char>::empty()
    } else {
        spec_render_method(key, ms, i, indent) + spec_render_methods(key, ms, i + 1, indent)
    }
}

/// One projection type: the handle-carrying struct and an impl with one
/// accessor per declared field and method, in declaration order.
pub open spec fn spec_render_struct(key: Seq<char>, c: SpecClass, indent: Seq<char>) -> Seq<
    char,
> {
    indent + "pub struct "@ + key + "(pub(crate) __jni_bindgen::ObjectAndEnv);\n"@ + indent
        + "impl "@ + key + " {\n"@ + spec_render_fields(c.fields, 0, indent)
        + spec_render_methods(key, c.methods, 0, indent) + indent + "}\n"@
}

/// The lint waivers above a top-level module.
pub open spec fn spec_mod_allow_lines() -> Seq<char> {
    "#[allow(non_camel_case_types)]   // We map Java inner classes to Outer_Inner\n"@
        + "#[allow(dead_code)]              // We generate structs for private Java types too, just in case.\n"@
        + "#[allow(deprecated)]             // We're generating deprecated types/methods\n"@
        + "#[allow(non_upper_case_globals)] // We might be generating Java style fields/methods\n"@
        + "#[allow(non_snake_case)]         // We might be generating Java style fields/methods\n"@
}

/// The lint waivers above a top-level projection type.
pub open spec fn spec_struct_allow_lines(key: Seq<char>, c: SpecClass) -> Seq<char> {
    (if key.contains('_') {
        "#[allow(non_camel_case_types)] // We map Java inner classes to Outer_Inner\n"@
    } else {
        Seq::<char>::empty()
    }) + (if !(c.flags % 2 == 1) {
        "#[allow(dead_code)] // We generate structs for private Java types too, just in case.\n"@
    } else {
        Seq::<char>::empty()
    }) + "#[allow(deprecated)]             // We're generating deprecated types/methods\n"@
        + "#[allow(non_upper_case_globals)] // We might be generating Java style fields/methods\n"@
        + "#[allow(non_snake_case)]         // We might be generating Java style fields/methods\n"@
}

/// The mathematical model of a namespace tree level.
#[verifier::ext_equal]
pub struct SpecModule {
    pub modules: Seq<(Seq<char>, SpecModule)>,
    pub structs: Seq<(Seq<char>, SpecClass)>,
}

pub open spec fn empty_spec_module() -> SpecModule {
    SpecModule { modules: Seq::empty(), structs: Seq::empty() }
}

/// The model of an executable tree.
pub open spec fn view_module(m: Module) -> SpecModule
    decreases m, 1int,
{
    SpecModule { modules: view_mod_list(m.modules@), structs: view_struct_list(m.structs@) }
}

pub open spec fn view_mod_list(l: Seq<(String, Module)>) -> Seq<(Seq<char>, SpecModule)>
    decreases l, 0int,
{
    if l.len() == 0 {
        Seq::<(Seq<char>, SpecModule)>::empty()
    } else {
        seq![(l[0].0@, view_module(l[0].1))] + view_mod_list(l.skip(1))
    }
}

pub open spec fn view_struct_list(l: Seq<(String, SemanticClass)>) -> Seq<(Seq<char>, SpecClass)> {
    l.map_values(|p: (String, SemanticClass)| (p.0@, view_class(p.1)))
}

pub proof fn lemma_view_mod_list(l: Seq<(String, Module)>)
    ensures
        view_mod_list(l).len() == l.len(),
        forall|i: int|
            0 <= i < l.len() ==> #[trigger] view_mod_list(l)[i] == (l[i].0@, view_module(l[i].1)),
    decreases l.len(),
{
    if l.len() > 0 {
        lemma_view_mod_list(l.skip(1));
        assert forall|i: int|
            0 <= i < l.len() implies #[trigger] view_mod_list(l)[i] == (
            l[i].0@,
            view_module(l[i].1),
        ) by {
            if i > 0 {
                assert(view_mod_list(l.skip(1))[i - 1] == (
                    l.skip(1)[i - 1].0@,
                    view_module(l.skip(1)[i - 1].1),
                ));
            }
        }
    }
}

/// The whole rendering of a namespace level: child modules first, then
/// projection types, each list already in lexicographic order.
pub open spec fn spec_render_module(m: SpecModule, indent: Seq<char>) -> Seq<char>
    decreases m, 1int,
{
    spec_render_mods(m.modules, indent) + spec_render_structs(m.structs, indent)
}

pub open spec fn spec_render_mods(l: Seq<(Seq<char>, SpecModule)>, indent: Seq<char>) -> Seq<char>
    decreases l, 0int,
{
    if l.len() == 0 {
        Seq::<char>::empty()
    } else {
        spec_render_one_mod(l[0].0, l[0].1, indent) + spec_render_mods(l.skip(1), indent)
    }
}

pub open spec fn spec_render_one_mod(name: Seq<char>, child: SpecModule, indent: Seq<char>) -> Seq<
    char,
>
    decreases child, 2int,
{
    "\n"@ + (if indent.len() == 0 {
        spec_mod_allow_lines()
    } else {
        Seq::<char>::empty()
    }) + indent + "pub mod "@ + name + " {\n"@ + indent
        + "    #[allow(unused_imports)] use super::__jni_bindgen;\n"@ + spec_render_module(
        child,
        indent + "    "@,
    ) + indent + "}\n"@
}

pub open spec fn spec_render_structs(l: Seq<(Seq<char>, SpecClass)>, indent: Seq<char>) -> Seq<
    char,
>
    decreases l.len(),
{
    if l.len() == 0 {
        Seq::<char>::empty()
    } else {
        (if indent.len() == 0 {
            spec_struct_allow_lines(l[0].0, l[0].1)
        } else {
            Seq::<char>::empty()
        }) + spec_render_struct(l[0].0, l[0].1, indent) + spec_render_structs(l.skip(1), indent)
    }
}

/// Appends one field accessor.
fn write_field(f: &SemanticField, indent: &str, out: &mut String)
    ensures
        final(out)@ == old(out)@ + spec_render_field(view_field(*f), indent@),
{
    let parsed = parse_type(f.descriptor.as_str(), 0);
    match parsed {
        Option::Some((t, e)) => {
            if e == f.descriptor.as_str().unicode_len() {
                let fr = field_ret(&t);
                let piece = String::from_str(indent).concat("    /// ").concat(f.name.as_str())
                    .concat(" ").concat(f.descriptor.as_str()).concat("\n").concat(indent).concat(
                    "    pub fn ",
                ).concat(f.name.as_str()).concat("(&self) -> ").concat(fr.as_str()).concat(
                    " { __jni_bindgen::native_field(self, \"",
                ).concat(f.name.as_str()).concat("\", \"").concat(f.descriptor.as_str()).concat(
                    "\") }\n",
                );
                out.append(piece.as_str());
                proof {
                    assert(final(out)@ =~= old(out)@ + spec_render_field(view_field(*f), indent@));
                }
            } else {
            }
        },
        Option::None => {},
    }
}

/// Appends one method accessor.
fn write_method(key: &str, ms: &Vec<SemanticMethod>, i: usize, indent: &str, out: &mut String)
    requires
        i < ms@.len(),
    ensures
        final(out)@ == old(out)@ + spec_render_method(key@, method_views(ms@), i as int, indent@),
{
    proof {
        assert(method_views(ms@)[i as int] == view_method(ms@[i as int]));
        assert(method_views(ms@).len() == ms@.len());
    }
    let parsed = parse_method_descriptor(ms[i].descriptor.as_str());
    match parsed {
        Option::Some((params, ret)) => {
            let ename = emit_name(ms, i);
            let args = args_text(&params, 0);
            let doc = String::from_str(indent).concat("    /// ").concat(ms[i].name.as_str())
                .concat(" ").concat(ms[i].descriptor.as_str()).concat("\n");
            let name_str = ms[i].name.as_str();
            let is_init = {
                let lit = "<init>";
                !str_lt(name_str, lit) && !str_lt(lit, name_str)
            };
            proof {
                lemma_lex_connex(ms@[i as int].name@, "<init>"@);
                if ms@[i as int].name@ == "<init>"@ {
                    crate::registry::lemma_lex_irrefl("<init>"@);
                }
            }
            let piece = if is_init {
                doc.concat(indent).concat("    pub fn ").concat(ename.as_str()).concat("(env: Env")
                    .concat(args.as_str()).concat(") -> Result<Local<").concat(key).concat(
                    ">, Local<Throwable>> { __jni_bindgen::native_new(env, \"",
                ).concat(ms[i].descriptor.as_str()).concat("\") }\n")
            } else {
                let rt = ret_text(&ret);
                doc.concat(indent).concat("    pub fn ").concat(ename.as_str()).concat("(&self")
                    .concat(args.as_str()).concat(") -> ").concat(rt.as_str()).concat(
                    " { __jni_bindgen::native_invoke(self, \"",
                ).concat(ms[i].name.as_str()).concat("\", \"").concat(ms[i].descriptor.as_str())
                    .concat("\") }\n")
            };
            out.append(piece.as_str());
            proof {
                assert(final(out)@ =~= old(out)@ + spec_render_method(
                    key@,
                    method_views(ms@),
                    i as int,
                    indent@,
                ));
            }
        },
        Option::None => {},
    }
}

/// Appends one projection type.
fn write_struct(key: &String, c: &SemanticClass, indent: &str, out: &mut String)
    ensures
        final(out)@ == old(out)@ + spec_render_struct(key@, view_class(*c), indent@),
{
    proof {
        assert(view_class(*c).fields == field_views(c.fields@));
        assert(view_class(*c).methods == method_views(c.methods@));
    }
    let head = String::from_str(indent).concat("pub struct ").concat(key.as_str()).concat(
        "(pub(crate) __jni_bindgen::ObjectAndEnv);\n",
    ).concat(indent).concat("impl ").concat(key.as_str()).concat(" {\n");
    out.append(head.as_str());
    let ghost mid0 = out@;
    let mut i: usize = 0;
    while i < c.fields.len()
        invariant
            i <= c.fields@.len(),
            out@ + spec_render_fields(field_views(c.fields@), i as int, indent@) == mid0
                + spec_render_fields(field_views(c.fields@), 0, indent@),
        decreases c.fields@.len() - i,
    {
        proof {
            assert(field_views(c.fields@)[i as int] == view_field(c.fields@[i as int]));
            assert(field_views(c.fields@).len() == c.fields@.len());
        }
        write_field(&c.fields[i], indent, out);
        i = i + 1;
    }
    let ghost mid1 = out@;
    proof {
        assert(field_views(c.fields@).len() == c.fields@.len());
        assert(mid1 =~= mid0 + spec_render_fields(field_views(c.fields@), 0, indent@));
    }
    let mut j: usize = 0;
    while j < c.methods.len()
        invariant
            j <= c.methods@.len(),
            out@ + spec_render_methods(key@, method_views(c.methods@), j as int, indent@) == mid1
                + spec_render_methods(key@, method_views(c.methods@), 0, indent@),
        decreases c.methods@.len() - j,
    {
        proof {
            assert(method_views(c.methods@).len() == c.methods@.len());
        }
        write_method(key.as_str(), &c.methods, j, indent, out);
        j = j + 1;
    }
    let tail = String::from_str(indent).concat("}\n");
    out.append(tail.as_str());
    proof {
        assert(method_views(c.methods@).len() == c.methods@.len());
        assert(final(out)@ =~= old(out)@ + spec_render_struct(key@, view_class(*c), indent@));
    }
}

impl Module {
    /// Emits this namespace level: every child module (with its lint
    /// waivers at top level), then every projection type, in order.
    #[verifier::rlimit(80)]
    pub fn write(&self, indent: &str, out: &mut String)
        ensures
            final(out)@ == old(out)@ + spec_render_module(view_module(*self), indent@),
        decreases *self,
    {
        let ghost out0 = out@;
        let ghost mv = view_mod_list(self.modules@);
        let ghost sv = view_struct_list(self.structs@);
        let mut i: usize = 0;
        proof {
            lemma_view_mod_list(self.modules@);
            assert(mv.skip(0) =~= mv);
        }
        while i < self.modules.len()
            invariant
                i <= self.modules@.len(),
                mv == view_mod_list(self.modules@),
                mv.len() == self.modules@.len(),
                out@ + spec_render_mods(mv.skip(i as int), indent@) == out0 + spec_render_mods(
                    mv,
                    indent@,
                ),
            decreases self.modules@.len() - i,
        {
            let ghost pre = out@;
            out.append("\n");
            if indent.unicode_len() == 0 {
                out.append(
                    "#[allow(non_camel_case_types)]   // We map Java inner classes to Outer_Inner\n",
                );
                out.append(
                    "#[allow(dead_code)]              // We generate structs for private Java types too, just in case.\n",
                );
                out.append("#[allow(deprecated)]             // We're generating deprecated types/methods\n");
                out.append(
                    "#[allow(non_upper_case_globals)] // We might be generating Java style fields/methods\n",
                );
                out.append(
                    "#[allow(non_snake_case)]         // We might be generating Java style fields/methods\n",
                );
            }
            let line = String::from_str(indent).concat("pub mod ").concat(
                self.modules[i].0.as_str(),
            ).concat(" {\n").concat(indent).concat(
                "    #[allow(unused_imports)] use super::__jni_bindgen;\n",
            );
            out.append(line.as_str());
            let next_indent = String::from_str(indent).concat("    ");
            proof {
                assert(decreases_to!(*self => self.modules@[i as int].1));
                lemma_view_mod_list(self.modules@);
            }
            self.modules[i].1.write(next_indent.as_str(), out);
            let close = String::from_str(indent).concat("}\n");
            out.append(close.as_str());
            proof {
                assert(mv[i as int] == (
                    self.modules@[i as int].0@,
                    view_module(self.modules@[i as int].1),
                ));
                assert(out@ =~= pre + spec_render_one_mod(mv[i as int].0, mv[i as int].1, indent@));
                assert(mv.skip(i as int)[0] == mv[i as int]);
                assert(mv.skip(i as int).skip(1) =~= mv.skip(i + 1));
                assert(out@ + spec_render_mods(mv.skip(i + 1), indent@) =~= out0
                    + spec_render_mods(mv, indent@));
            }
            i = i + 1;
        }
        proof {
            assert(mv.skip(mv.len() as int) =~= Seq::<(Seq<char>, SpecModule)>::empty());
            assert(out@ =~= out0 + spec_render_mods(mv, indent@));
            assert(sv.skip(0) =~= sv);
            assert(sv.len() == self.structs@.len());
        }
        let ghost mid = out@;
        let mut j: usize = 0;
        while j < self.structs.len()
            invariant
                j <= self.structs@.len(),
                sv == view_struct_list(self.structs@),
                sv.len() == self.structs@.len(),
                out@ + spec_render_structs(sv.skip(j as int), indent@) == mid + spec_render_structs(
                    sv,
                    indent@,
                ),
            decreases self.structs@.len() - j,
        {
            let ghost pre = out@;
            if indent.unicode_len() == 0 {
                if contains_char(self.structs[j].0.as_str(), '_') {
                    out.append(
                        "#[allow(non_camel_case_types)] // We map Java inner classes to Outer_Inner\n",
                    );
                }
                if !self.structs[j].1.is_public() {
                    out.append(
                        "#[allow(dead_code)] // We generate structs for private Java types too, just in case.\n",
                    );
                }
                out.append("#[allow(deprecated)]             // We're generating deprecated types/methods\n");
                out.append(
                    "#[allow(non_upper_case_globals)] // We might be generating Java style fields/methods\n",
                );
                out.append(
                    "#[allow(non_snake_case)]         // We might be generating Java style fields/methods\n",
                );
            }
            write_struct(&self.structs[j].0, &self.structs[j].1, indent, out);
            proof {
                assert(sv[j as int] == (
                    self.structs@[j as int].0@,
                    view_class(self.structs@[j as int].1),
                ));
                assert(out@ =~= pre + (if indent@.len() == 0 {
                    spec_struct_allow_lines(sv[j as int].0, sv[j as int].1)
                } else {
                    Seq::<char>::empty()
                }) + spec_render_struct(sv[j as int].0, sv[j as int].1, indent@));
                assert(sv.skip(j as int)[0] == sv[j as int]);
                assert(sv.skip(j as int).skip(1) =~= sv.skip(j + 1));
                assert(out@ + spec_render_structs(sv.skip(j + 1), indent@) =~= mid
                    + spec_render_structs(sv, indent@));
            }
            j = j + 1;
        }
        proof {
            assert(sv.skip(sv.len() as int) =~= Seq::<(Seq<char>, SpecClass)>::empty());
            assert(out@ =~= out0 + spec_render_module(view_module(*self), indent@));
        }
    }
}

/// The nesting-flattened form of a class-name segment: nested classes
/// become a single-level name joined by an underscore.
pub open spec fn spec_flat(s: Seq<char>) -> Seq<char> {
    s.map_values(
        |c: char|
            if c == '$' {
                '_'
            } else {
                c
            },
    )
}

pub fn flat_name(s: &str) -> (r: String)
    ensures
        r@ == spec_flat(s@),
{
    let n = s.unicode_len();
    let mut r = String::new();
    let mut i: usize = 0;
    proof {
        assert(r@ =~= spec_flat(s@.take(0)));
    }
    while i < n
        invariant
            i <= n,
            n == s@.len(),
            r@ == spec_flat(s@.take(i as int)),
        decreases n - i,
    {
        let c = s.get_char(i);
        if c == '$' {
            push_char(&mut r, '_');
        } else {
            push_char(&mut r, c);
        }
        proof {
            assert(r@ =~= spec_flat(s@.take(i + 1)));
        }
        i = i + 1;
    }
    proof {
        assert(s@.take(n as int) =~= s@);
    }
    r
}

proof fn lemma_mod_list_wf_update(l: Seq<(String, Module)>, p: int, x: (String, Module))
    requires
        mod_list_wf(l),
        0 <= p < l.len(),
        module_wf(x.1),
    ensures
        mod_list_wf(l.update(p, x)),
    decreases p,
{
    if p == 0 {
        assert(l.update(0, x)[0] == x);
        assert(l.update(0, x).skip(1) =~= l.skip(1));
    } else {
        lemma_mod_list_wf_update(l.skip(1), p - 1, x);
        assert(l.update(p, x)[0] == l[0]);
        assert(l.update(p, x).skip(1) =~= l.skip(1).update(p - 1, x));
    }
}

proof fn lemma_mod_list_wf_insert(l: Seq<(String, Module)>, p: int, x: (String, Module))
    requires
        mod_list_wf(l),
        0 <= p <= l.len(),
        module_wf(x.1),
    ensures
        mod_list_wf(l.insert(p, x)),
    decreases p,
{
    if p == 0 {
        assert(l.insert(0, x)[0] == x);
        assert(l.insert(0, x).skip(1) =~= l);
    } else {
        lemma_mod_list_wf_insert(l.skip(1), p - 1, x);
        assert(l.insert(p, x)[0] == l[0]);
        assert(l.insert(p, x).skip(1) =~= l.skip(1).insert(p - 1, x));
    }
}

/// Ordered insertion of a projection type into a struct list: before the
/// first key that does not order below `key`, replacing an equal key.
pub open spec fn sm_insert_struct(
    l: Seq<(Seq<char>, SpecClass)>,
    key: Seq<char>,
    c: SpecClass,
) -> Seq<(Seq<char>, SpecClass)>
    decreases l.len(),
{
    if l.len() == 0 {
        seq![(key, c)]
    } else if lex_lt(l[0].0, key) {
        seq![l[0]] + sm_insert_struct(l.skip(1), key, c)
    } else if lex_lt(key, l[0].0) {
        seq![(key, c)] + l
    } else {
        seq![(key, c)] + l.skip(1)
    }
}

/// Ordered insertion of one class below child modules: walking the
/// remaining package segments `segs[idx..depth]`, opening fresh empty
/// levels where a segment is absent.
pub open spec fn sm_insert(
    m: SpecModule,
    segs: Seq<Seq<char>>,
    idx: int,
    depth: int,
    key: Seq<char>,
    c: SpecClass,
) -> SpecModule
    decreases depth - idx, 1int, 0int,
{
    if idx >= depth {
        SpecModule { modules: m.modules, structs: sm_insert_struct(m.structs, key, c) }
    } else {
        SpecModule { modules: sm_insert_child(m.modules, segs, idx, depth, key, c), structs: m.structs }
    }
}

pub open spec fn sm_insert_child(
    l: Seq<(Seq<char>, SpecModule)>,
    segs: Seq<Seq<char>>,
    idx: int,
    depth: int,
    key: Seq<char>,
    c: SpecClass,
) -> Seq<(Seq<char>, SpecModule)>
    decreases depth - idx, 0int, l.len(),
{
    let seg = segs[idx];
    if idx >= depth {
        l
    } else if l.len() == 0 {
        seq![(seg, sm_insert(empty_spec_module(), segs, idx + 1, depth, key, c))]
    } else if lex_lt(l[0].0, seg) {
        seq![l[0]] + sm_insert_child(l.skip(1), segs, idx, depth, key, c)
    } else if lex_lt(seg, l[0].0) {
        seq![(seg, sm_insert(empty_spec_module(), segs, idx + 1, depth, key, c))] + l
    } else {
        seq![(l[0].0, sm_insert(l[0].1, segs, idx + 1, depth, key, c))] + l.skip(1)
    }
}

/// Where the scan for the insertion point stops, the recursive insertion
/// lands: at `p`, replacing an equal struct key or opening a slot there.
proof fn lemma_sm_insert_struct_at(
    l: Seq<(Seq<char>, SpecClass)>,
    key: Seq<char>,
    c: SpecClass,
    p: int,
)
    requires
        0 <= p <= l.len(),
        forall|q: int| 0 <= q < p ==> lex_lt(#[trigger] l[q].0, key),
        p < l.len() ==> !lex_lt(l[p].0, key),
    ensures
        sm_insert_struct(l, key, c) == if p < l.len() && !lex_lt(key, l[p].0) {
            l.update(p, (key, c))
        } else {
            l.subrange(0, p).push((key, c)) + l.subrange(p, l.len() as int)
        },
    decreases p,
{
    if p == 0 {
        if l.len() == 0 {
            assert(sm_insert_struct(l, key, c) =~= l.subrange(0, 0).push((key, c)) + l.subrange(
                0,
                0,
            ));
        } else if !lex_lt(key, l[0].0) {
            lemma_lex_connex(l[0].0, key);
            assert(l[0].0 == key);
            assert(seq![(key, c)] + l.skip(1) =~= l.update(0, (key, c)));
        } else {
            assert(seq![(key, c)] + l =~= l.subrange(0, 0).push((key, c)) + l.subrange(
                0,
                l.len() as int,
            ));
        }
    } else {
        assert(lex_lt(l[0].0, key));
        assert forall|q: int| 0 <= q < p - 1 implies lex_lt(#[trigger] l.skip(1)[q].0, key) by {
            assert(l.skip(1)[q] == l[q + 1]);
        }
        if p - 1 < l.skip(1).len() {
            assert(l.skip(1)[p - 1] == l[p]);
        }
        lemma_sm_insert_struct_at(l.skip(1), key, c, p - 1);
        if p < l.len() && !lex_lt(key, l[p].0) {
            assert(seq![l[0]] + l.skip(1).update(p - 1, (key, c)) =~= l.update(p, (key, c)));
        } else {
            assert(seq![l[0]] + (l.skip(1).subrange(0, p - 1).push((key, c)) + l.skip(1).subrange(
                p - 1,
                l.skip(1).len() as int,
            )) =~= l.subrange(0, p).push((key, c)) + l.subrange(p, l.len() as int));
        }
    }
}

/// The child-module counterpart of the lemma above.
proof fn lemma_sm_insert_child_at(
    l: Seq<(Seq<char>, SpecModule)>,
    segs: Seq<Seq<char>>,
    idx: int,
    depth: int,
    key: Seq<char>,
    c: SpecClass,
    p: int,
)
    requires
        idx < depth,
        0 <= p <= l.len(),
        forall|q: int| 0 <= q < p ==> lex_lt(#[trigger] l[q].0, segs[idx]),
        p < l.len() ==> !lex_lt(l[p].0, segs[idx]),
    ensures
        sm_insert_child(l, segs, idx, depth, key, c) == if p < l.len() && !lex_lt(
            segs[idx],
            l[p].0,
        ) {
            l.update(p, (l[p].0, sm_insert(l[p].1, segs, idx + 1, depth, key, c)))
        } else {
            l.subrange(0, p).push((segs[idx], sm_insert(empty_spec_module(), segs, idx + 1, depth, key, c)))
                + l.subrange(p, l.len() as int)
        },
    decreases p,
{
    let seg = segs[idx];
    let fresh = sm_insert(empty_spec_module(), segs, idx + 1, depth, key, c);
    if p == 0 {
        if l.len() == 0 {
            assert(sm_insert_child(l, segs, idx, depth, key, c) =~= l.subrange(0, 0).push(
                (seg, fresh),
            ) + l.subrange(0, 0));
        } else if !lex_lt(seg, l[0].0) {
            lemma_lex_connex(l[0].0, seg);
            assert(l[0].0 == seg);
            assert(seq![(l[0].0, sm_insert(l[0].1, segs, idx + 1, depth, key, c))] + l.skip(1)
                =~= l.update(0, (l[0].0, sm_insert(l[0].1, segs, idx + 1, depth, key, c))));
        } else {
            assert(seq![(seg, fresh)] + l =~= l.subrange(0, 0).push((seg, fresh)) + l.subrange(
                0,
                l.len() as int,
            ));
        }
    } else {
        assert(lex_lt(l[0].0, seg));
        assert forall|q: int| 0 <= q < p - 1 implies lex_lt(#[trigger] l.skip(1)[q].0, seg) by {
            assert(l.skip(1)[q] == l[q + 1]);
        }
        if p - 1 < l.skip(1).len() {
            assert(l.skip(1)[p - 1] == l[p]);
        }
        lemma_sm_insert_child_at(l.skip(1), segs, idx, depth, key, c, p - 1);
        if p < l.len() && !lex_lt(seg, l[p].0) {
            assert(seq![l[0]] + l.skip(1).update(
                p - 1,
                (l[p].0, sm_insert(l[p].1, segs, idx + 1, depth, key, c)),
            ) =~= l.update(p, (l[p].0, sm_insert(l[p].1, segs, idx + 1, depth, key, c))));
        } else {
            assert(seq![l[0]] + (l.skip(1).subrange(0, p - 1).push((seg, fresh))
                + l.skip(1).subrange(p - 1, l.skip(1).len() as int)) =~= l.subrange(0, p).push(
                (seg, fresh),
            ) + l.subrange(p, l.len() as int));
        }
    }
}

/// Inserts one class at its namespace path: `segs[idx..depth]` are the
/// package segments still to walk, `key` the flattened type name.  Every
/// list stays in strict lexicographic order, so emission is
/// deterministic and diff-stable.
#[verifier::rlimit(100)]
pub fn insert_class(
    m: &mut Module,
    segs: &Vec<String>,
    idx: usize,
    depth: usize,
    key: String,
    c: SemanticClass,
)
    requires
        idx <= depth <= segs@.len(),
        module_wf(*old(m)),
    ensures
        module_wf(*final(m)),
        view_module(*final(m)) == sm_insert(
            view_module(*old(m)),
            segs@.map_values(|s: String| s@),
            idx as int,
            depth as int,
            key@,
            view_class(c),
        ),
    decreases depth - idx,
{
    let ghost segsv = segs@.map_values(|s: String| s@);
    let ghost keyv = key@;
    let ghost cv = view_class(c);
    let ghost old_mods = m.modules@;
    if idx >= depth {
        // place the projection type among the structs
        let ghost v = m.structs@;
        let ghost lv = view_struct_list(v);
        let n = m.structs.len();
        let mut p: usize = 0;
        while p < n && str_lt(m.structs[p].0.as_str(), key.as_str())
            invariant
                p <= n,
                n == v.len(),
                v == m.structs@,
                module_wf(*m),
                keyv == key@,
                forall|q: int| 0 <= q < p ==> lex_lt(#[trigger] v[q].0@, key@),
            decreases n - p,
        {
            p = p + 1;
        }
        proof {
            assert(lv.len() == v.len());
            assert forall|q: int| 0 <= q < p implies lex_lt(#[trigger] lv[q].0, keyv) by {
                assert(lv[q] == (v[q].0@, view_class(v[q].1)));
            }
            if p < n {
                assert(lv[p as int] == (v[p as int].0@, view_class(v[p as int].1)));
            }
            lemma_sm_insert_struct_at(lv, keyv, cv, p as int);
        }
        if p < n && !str_lt(key.as_str(), m.structs[p].0.as_str()) {
            proof {
                lemma_lex_connex(key@, v[p as int].0@);
            }
            m.structs.set(p, (key, c));
            proof {
                assert(m.structs@ =~= v.update(p as int, (m.structs@[p as int].0, m.structs@[p as int].1)));
                assert forall|i: int|
                    0 <= i < m.structs@.len() - 1 implies lex_lt(
                    #[trigger] m.structs@[i].0@,
                    m.structs@[i + 1].0@,
                ) by {
                    assert(lex_lt(v[i].0@, v[i + 1].0@));
                }
                assert(view_struct_list(m.structs@) =~= lv.update(p as int, (keyv, cv)));
                assert(view_module(*m) =~= sm_insert(
                    SpecModule { modules: view_mod_list(old_mods), structs: lv },
                    segsv,
                    idx as int,
                    depth as int,
                    keyv,
                    cv,
                ));
            }
        } else {
            proof {
                if p < n {
                    assert(lex_lt(key@, v[p as int].0@));
                }
            }
            m.structs.insert(p, (key, c));
            proof {
                assert forall|i: int|
                    0 <= i < m.structs@.len() - 1 implies lex_lt(
                    #[trigger] m.structs@[i].0@,
                    m.structs@[i + 1].0@,
                ) by {
                    if i + 1 < p {
                        assert(m.structs@[i] == v[i] && m.structs@[i + 1] == v[i + 1]);
                    } else if i + 1 == p {
                        assert(m.structs@[i] == v[i]);
                    } else if i == p {
                        assert(m.structs@[i + 1] == v[i]);
                    } else {
                        assert(m.structs@[i] == v[i - 1] && m.structs@[i + 1] == v[i]);
                    }
                }
                assert(view_struct_list(m.structs@) =~= lv.subrange(0, p as int).push((keyv, cv))
                    + lv.subrange(p as int, lv.len() as int));
                assert(view_module(*m) =~= sm_insert(
                    SpecModule { modules: view_mod_list(old_mods), structs: lv },
                    segsv,
                    idx as int,
                    depth as int,
                    keyv,
                    cv,
                ));
            }
        }
    } else {
        let seg = &segs[idx];
        let ghost segv = segs@[idx as int]@;
        let ghost v = m.modules@;
        let ghost lv = view_mod_list(v);
        let ghost old_structs = m.structs@;
        let n = m.modules.len();
        let mut p: usize = 0;
        while p < n && str_lt(m.modules[p].0.as_str(), seg.as_str())
            invariant
                p <= n,
                n == v.len(),
                v == m.modules@,
                module_wf(*m),
                seg@ == segv,
                forall|q: int| 0 <= q < p ==> lex_lt(#[trigger] v[q].0@, seg@),
            decreases n - p,
        {
            p = p + 1;
        }
        proof {
            lemma_view_mod_list(v);
            assert(segsv[idx as int] == segv);
            assert forall|q: int| 0 <= q < p implies lex_lt(#[trigger] lv[q].0, segv) by {
                assert(lv[q] == (v[q].0@, view_module(v[q].1)));
            }
            lemma_sm_insert_child_at(lv, segsv, idx as int, depth as int, keyv, cv, p as int);
        }
        if p < n && !str_lt(seg.as_str(), m.modules[p].0.as_str()) {
            proof {
                lemma_lex_connex(seg@, v[p as int].0@);
                lemma_mod_list_wf_index(v, p as int);
            }
            let (nm, mut child) = m.modules.remove(p);
            proof {
                assert(view_module(child) == lv[p as int].1);
            }
            insert_class(&mut child, segs, idx + 1, depth, key, c);
            m.modules.insert(p, (nm, child));
            proof {
                assert(m.modules@ =~= v.update(p as int, (m.modules@[p as int].0, m.modules@[p as int].1)));
                assert forall|i: int|
                    0 <= i < m.modules@.len() - 1 implies lex_lt(
                    #[trigger] m.modules@[i].0@,
                    m.modules@[i + 1].0@,
                ) by {
                    assert(m.modules@[i].0@ == v[i].0@ && m.modules@[i + 1].0@ == v[i + 1].0@);
                    assert(lex_lt(v[i].0@, v[i + 1].0@));
                }
                lemma_mod_list_wf_update(v, p as int, (m.modules@[p as int].0, m.modules@[p as int].1));
                lemma_view_mod_list(m.modules@);
                assert(view_mod_list(m.modules@) =~= lv.update(
                    p as int,
                    (lv[p as int].0, sm_insert(lv[p as int].1, segsv, idx + 1, depth as int, keyv, cv)),
                ));
                assert(view_module(*m) =~= sm_insert(
                    SpecModule { modules: lv, structs: view_struct_list(old_structs) },
                    segsv,
                    idx as int,
                    depth as int,
                    keyv,
                    cv,
                ));
            }
        } else {
            proof {
                if p < n {
                    assert(lex_lt(seg@, v[p as int].0@));
                }
            }
            let mut child = Module::new();
            proof {
                assert(view_module(child) =~= empty_spec_module());
            }
            insert_class(&mut child, segs, idx + 1, depth, key, c);
            let nm = String::from_str(seg.as_str());
            m.modules.insert(p, (nm, child));
            proof {
                assert forall|i: int|
                    0 <= i < m.modules@.len() - 1 implies lex_lt(
                    #[trigger] m.modules@[i].0@,
                    m.modules@[i + 1].0@,
                ) by {
                    if i + 1 < p {
                        assert(m.modules@[i] == v[i] && m.modules@[i + 1] == v[i + 1]);
                    } else if i + 1 == p {
                        assert(m.modules@[i] == v[i]);
                    } else if i == p {
                        assert(m.modules@[i + 1] == v[i]);
                    } else {
                        assert(m.modules@[i] == v[i - 1] && m.modules@[i + 1] == v[i]);
                    }
                }
                lemma_mod_list_wf_insert(v, p as int, (m.modules@[p as int].0, m.modules@[p as int].1));
                assert(m.modules@ =~= v.insert(p as int, m.modules@[p as int]));
                lemma_view_mod_list(m.modules@);
                assert(view_mod_list(m.modules@) =~= lv.subrange(0, p as int).push(
                    (segv, sm_insert(empty_spec_module(), segsv, idx + 1, depth as int, keyv, cv)),
                ) + lv.subrange(p as int, lv.len() as int));
                assert(view_module(*m) =~= sm_insert(
                    SpecModule { modules: lv, structs: view_struct_list(old_structs) },
                    segsv,
                    idx as int,
                    depth as int,
                    keyv,
                    cv,
                ));
            }
        }
    }
}

/// One class dropped into the tree at the path its dotted name encodes.
pub open spec fn sm_insert_one(m: SpecModule, c: SpecClass) -> SpecModule {
    let segs = crate::text::spec_split(c.name, '.');
    sm_insert(m, segs, 0, segs.len() - 1, spec_flat(segs.last()), c)
}

pub open spec fn sm_build_from(m: SpecModule, classes: Seq<SpecClass>, i: int) -> SpecModule
    decreases classes.len() - i,
{
    if i < 0 || i >= classes.len() {
        m
    } else {
        sm_build_from(sm_insert_one(m, classes[i]), classes, i + 1)
    }
}

/// The namespace tree the emitter walks, determined by the recorded
/// classes alone.
pub open spec fn spec_build_tree(classes: Seq<SpecClass>) -> SpecModule {
    sm_build_from(empty_spec_module(), classes, 0)
}

/// Splits every class's fully-qualified name into the namespace tree:
/// package segments become nested modules, the final segment (nested
/// names flattened) keys the projection type.
pub fn build_tree(classes: Vec<SemanticClass>) -> (m: Module)
    ensures
        module_wf(m),
        view_module(m) == spec_build_tree(classes@.map_values(|c: SemanticClass| view_class(c))),
{
    let ghost all = classes@.map_values(|c: SemanticClass| view_class(c));
    let mut root = Module::new();
    let mut rest = classes;
    proof {
        assert(view_module(root) =~= empty_spec_module());
        assert(rest@.map_values(|c: SemanticClass| view_class(c)) =~= all.skip(0));
    }
    while rest.len() > 0
        invariant
            module_wf(root),
            rest@.len() <= all.len(),
            rest@.map_values(|c: SemanticClass| view_class(c)) == all.skip(
                all.len() - rest@.len(),
            ),
            spec_build_tree(all) == sm_build_from(
                view_module(root),
                all,
                all.len() - rest@.len(),
            ),
        decreases rest@.len(),
    {
        let ghost k = all.len() - rest@.len();
        let ghost prev_rest = rest@;
        let c = rest.remove(0);
        proof {
            assert(prev_rest.map_values(|c: SemanticClass| view_class(c))[0] == view_class(
                prev_rest[0],
            ));
            assert(all.skip(k)[0] == all[k]);
            assert(view_class(c) == all[k]);
            assert forall|j: int| 0 <= j < rest@.len() implies rest@.map_values(
                |c: SemanticClass| view_class(c),
            )[j] == #[trigger] all.skip(k + 1)[j] by {
                assert(rest@[j] == prev_rest[j + 1]);
                assert(prev_rest.map_values(|c: SemanticClass| view_class(c))[j + 1] == view_class(
                    prev_rest[j + 1],
                ));
                assert(all.skip(k)[j + 1] == all[k + 1 + j]);
            }
            assert(rest@.map_values(|c: SemanticClass| view_class(c)) =~= all.skip(k + 1));
        }
        let segs = crate::text::split_char(c.name.as_str(), '.');
        let last = segs.len() - 1;
        let key = flat_name(segs[last].as_str());
        let ghost root0 = view_module(root);
        proof {
            assert(segs@.map_values(|s: String| s@) == crate::text::spec_split(c.name@, '.'));
            assert(segs@[last as int]@ == segs@.map_values(|s: String| s@)[last as int]);
            assert(segs@.map_values(|s: String| s@).last() == segs@[last as int]@);
        }
        insert_class(&mut root, &segs, 0, last, key, c);
        proof {
            assert(view_module(root) == sm_insert_one(root0, all[k]));
            assert(sm_build_from(root0, all, k) == sm_build_from(view_module(root), all, k + 1));
        }
    }
    proof {
        assert(all.skip(all.len() as int).len() == 0);
        assert(sm_build_from(view_module(root), all, all.len() as int) == view_module(root));
    }
    root
}

} // verus!
