use std::io::{Cursor, Write};

use jni_bindgen::error::GenError;
use jni_bindgen::gather::{classify_extension, rebuild_signals, run, Context, GenInput, InputKind};
use jni_bindgen::registry::DuplicatePolicy;
use jni_bindgen::writer::{marker_comment, WriteOutcome};

/// One class's metadata: a public type with one public no-argument
/// constructor and one `int getValue()` method.
fn widget_class_bytes() -> Vec<u8> {
    let name = "com/acme/Widget";
    let super_name = "java/lang/Object";
    let mut cp: Vec<Vec<u8>> = Vec::new();
    fn utf8(cp: &mut Vec<Vec<u8>>, s: &str) -> u16 {
        let mut e = vec![1u8];
        e.extend_from_slice(&(s.len() as u16).to_be_bytes());
        e.extend_from_slice(s.as_bytes());
        cp.push(e);
        cp.len() as u16
    }
    fn class_entry(cp: &mut Vec<Vec<u8>>, name_idx: u16) -> u16 {
        let mut e = vec![7u8];
        e.extend_from_slice(&name_idx.to_be_bytes());
        cp.push(e);
        cp.len() as u16
    }
    let this_utf = utf8(&mut cp, name);
    let this_class = class_entry(&mut cp, this_utf);
    let super_utf = utf8(&mut cp, super_name);
    let super_class = class_entry(&mut cp, super_utf);
    let init_name = utf8(&mut cp, "<init>");
    let init_desc = utf8(&mut cp, "()V");
    let get_name = utf8(&mut cp, "getValue");
    let get_desc = utf8(&mut cp, "()I");
    let mut out: Vec<u8> = Vec::new();
    out.extend_from_slice(&[0xCA, 0xFE, 0xBA, 0xBE]);
    out.extend_from_slice(&0u16.to_be_bytes());
    out.extend_from_slice(&52u16.to_be_bytes());
    out.extend_from_slice(&((cp.len() + 1) as u16).to_be_bytes());
    for e in &cp {
        out.extend_from_slice(e);
    }
    out.extend_from_slice(&0x0021u16.to_be_bytes()); // public
    out.extend_from_slice(&this_class.to_be_bytes());
    out.extend_from_slice(&super_class.to_be_bytes());
    out.extend_from_slice(&0u16.to_be_bytes()); // interfaces
    out.extend_from_slice(&0u16.to_be_bytes()); // fields
    out.extend_from_slice(&2u16.to_be_bytes()); // methods
    for (n, d) in [(init_name, init_desc), (get_name, get_desc)] {
        out.extend_from_slice(&1u16.to_be_bytes()); // public
        out.extend_from_slice(&n.to_be_bytes());
        out.extend_from_slice(&d.to_be_bytes());
        out.extend_from_slice(&0u16.to_be_bytes()); // attributes
    }
    out.extend_from_slice(&0u16.to_be_bytes()); // class attributes
    out
}

fn widget_archive() -> Vec<u8> {
    let mut zw = zip::ZipWriter::new(Cursor::new(Vec::new()));
    let options = zip::write::SimpleFileOptions::default()
        .compression_method(zip::CompressionMethod::Stored);
    zw.start_file("com/acme/Widget.class", options).unwrap();
    zw.write_all(&widget_class_bytes()).unwrap();
    zw.start_file("META-INF/MANIFEST.MF", options).unwrap();
    zw.write_all(b"Manifest-Version: 1.0\n").unwrap();
    zw.finish().unwrap().into_inner()
}

#[test]
fn extension_dispatch_is_case_insensitive() {
    assert_eq!(classify_extension("class").unwrap(), InputKind::ClassFile);
    assert_eq!(classify_extension("CLASS").unwrap(), InputKind::ClassFile);
    assert_eq!(classify_extension("jar").unwrap(), InputKind::Archive);
    assert_eq!(classify_extension("Jar").unwrap(), InputKind::Archive);
    match classify_extension("txt") {
        Err(GenError::InvalidInput(_)) => {}
        _ => panic!("expected an invalid-input error"),
    }
    assert!(classify_extension("").is_err());
}

#[test]
fn archive_generates_namespace_and_projection() {
    // the scenario: an archive holding com/acme/Widget.class yields a
    // namespace com::acme with a type Widget exposing a constructor and
    // a getValue accessor returning an integer result
    let input = GenInput {
        name: String::from("widget.jar"),
        ext: String::from("jar"),
        bytes: widget_archive(),
    };
    let (outcome, text) = run(vec![input], None, DuplicatePolicy::HardError).unwrap();
    assert!(matches!(outcome, WriteOutcome::New));
    let first_line = text.lines().next().unwrap();
    assert_eq!(first_line, format!("// {}", marker_comment()));
    assert!(text.contains("pub mod com {"));
    assert!(text.contains("pub mod acme {"));
    assert!(text.contains("pub struct Widget(pub(crate) __jni_bindgen::ObjectAndEnv);"));
    assert!(text.contains("pub fn new(env: Env) -> Result<Local<Widget>, Local<Throwable>>"));
    assert!(text.contains("pub fn getValue(&self) -> Result<i32, Local<Throwable>>"));

    // re-generation with no class changes reports "unchanged" and hands
    // nothing back to write
    let again = GenInput {
        name: String::from("widget.jar"),
        ext: String::from("jar"),
        bytes: widget_archive(),
    };
    let (outcome2, text2) =
        run(vec![again], Some(text.clone()), DuplicatePolicy::HardError).unwrap();
    assert!(matches!(outcome2, WriteOutcome::Unchanged));
    assert_eq!(text2, text);

    // prior output touched by hand at one line: a full replace, reported
    // with the first difference line
    let mut edited: Vec<String> = text.lines().map(|l| l.to_string()).collect();
    let k = edited.len(); // change the last line
    edited[k - 1] = String::from("// trailing edit");
    let prior = edited.join("\n");
    let third = GenInput {
        name: String::from("widget.jar"),
        ext: String::from("jar"),
        bytes: widget_archive(),
    };
    let (outcome3, text3) =
        run(vec![third], Some(prior), DuplicatePolicy::HardError).unwrap();
    match outcome3 {
        WriteOutcome::Modified(line) => assert_eq!(line as usize, k),
        _ => panic!("expected a modified outcome"),
    }
    assert_eq!(text3, text);
}

#[test]
fn generation_refuses_to_clobber_foreign_files() {
    // the destination exists but its first line is not the sentinel: the
    // run aborts and hands back nothing to write
    let input = GenInput {
        name: String::from("widget.jar"),
        ext: String::from("jar"),
        bytes: widget_archive(),
    };
    let r = run(
        vec![input],
        Some(String::from("fn hand_written() {}\n")),
        DuplicatePolicy::HardError,
    );
    assert!(matches!(r, Err(GenError::OutputConflict)));
}

#[test]
fn standalone_classfile_inputs_are_gathered() {
    let input = GenInput {
        name: String::from("Widget.class"),
        ext: String::from("class"),
        bytes: widget_class_bytes(),
    };
    let (outcome, text) = run(vec![input], None, DuplicatePolicy::HardError).unwrap();
    assert!(matches!(outcome, WriteOutcome::New));
    assert!(text.contains("pub struct Widget"));
}

#[test]
fn non_class_archive_entries_are_skipped() {
    let mut ctx = Context::new(DuplicatePolicy::HardError);
    ctx.gather_archive(widget_archive()).unwrap();
    let classes = ctx.into_classes();
    assert_eq!(classes.len(), 1);
    assert_eq!(classes[0].name, "com.acme.Widget");
}

#[test]
fn malformed_archive_aborts() {
    let mut ctx = Context::new(DuplicatePolicy::HardError);
    match ctx.gather_archive(vec![1, 2, 3, 4]) {
        Err(GenError::MalformedInput(_)) => {}
        _ => panic!("expected a malformed-input error"),
    }
}

#[test]
fn unknown_extension_aborts_generation() {
    let input = GenInput {
        name: String::from("notes.txt"),
        ext: String::from("txt"),
        bytes: Vec::new(),
    };
    match run(vec![input], None, DuplicatePolicy::HardError) {
        Err(GenError::InvalidInput(_)) => {}
        _ => panic!("expected an invalid-input error"),
    }
}

#[test]
fn rebuild_signals_name_each_input() {
    let inputs = vec![
        GenInput { name: String::from("a.jar"), ext: String::from("jar"), bytes: Vec::new() },
        GenInput { name: String::from("B.class"), ext: String::from("class"), bytes: Vec::new() },
    ];
    assert_eq!(
        rebuild_signals(&inputs),
        vec![
            String::from("cargo:rerun-if-changed=a.jar"),
            String::from("cargo:rerun-if-changed=B.class"),
        ]
    );
}

#[test]
fn overloaded_methods_get_index_suffixes() {
    // two methods named get: the emitted names carry the deterministic
    // disambiguation index
    let name = "P";
    let mut cp: Vec<Vec<u8>> = Vec::new();
    fn utf8(cp: &mut Vec<Vec<u8>>, s: &str) -> u16 {
        let mut e = vec![1u8];
        e.extend_from_slice(&(s.len() as u16).to_be_bytes());
        e.extend_from_slice(s.as_bytes());
        cp.push(e);
        cp.len() as u16
    }
    let this_utf = utf8(&mut cp, name);
    let mut e = vec![7u8];
    e.extend_from_slice(&this_utf.to_be_bytes());
    cp.push(e);
    let this_class = cp.len() as u16;
    let m_name = utf8(&mut cp, "get");
    let d1 = utf8(&mut cp, "()I");
    let d2 = utf8(&mut cp, "(I)I");
    let mut out: Vec<u8> = Vec::new();
    out.extend_from_slice(&[0xCA, 0xFE, 0xBA, 0xBE]);
    out.extend_from_slice(&0u16.to_be_bytes());
    out.extend_from_slice(&52u16.to_be_bytes());
    out.extend_from_slice(&((cp.len() + 1) as u16).to_be_bytes());
    for entry in &cp {
        out.extend_from_slice(entry);
    }
    out.extend_from_slice(&1u16.to_be_bytes());
    out.extend_from_slice(&this_class.to_be_bytes());
    out.extend_from_slice(&0u16.to_be_bytes());
    out.extend_from_slice(&0u16.to_be_bytes());
    out.extend_from_slice(&0u16.to_be_bytes());
    out.extend_from_slice(&2u16.to_be_bytes());
    for d in [d1, d2] {
        out.extend_from_slice(&1u16.to_be_bytes());
        out.extend_from_slice(&m_name.to_be_bytes());
        out.extend_from_slice(&d.to_be_bytes());
        out.extend_from_slice(&0u16.to_be_bytes());
    }
    out.extend_from_slice(&0u16.to_be_bytes());

    let input = GenInput { name: String::from("P.class"), ext: String::from("class"), bytes: out };
    let (_, text) = run(vec![input], None, DuplicatePolicy::HardError).unwrap();
    assert!(text.contains("pub fn get_0(&self) -> Result<i32, Local<Throwable>>"));
    assert!(text.contains("pub fn get_1(&self, arg0: i32) -> Result<i32, Local<Throwable>>"));
}

#[test]
fn emission_order_is_lexicographic_regardless_of_input_order() {
    fn tiny_class(name: &str) -> Vec<u8> {
        let mut cp: Vec<Vec<u8>> = Vec::new();
        let mut e = vec![1u8];
        e.extend_from_slice(&(name.len() as u16).to_be_bytes());
        e.extend_from_slice(name.as_bytes());
        cp.push(e);
        let mut c = vec![7u8];
        c.extend_from_slice(&1u16.to_be_bytes());
        cp.push(c);
        let mut out: Vec<u8> = Vec::new();
        out.extend_from_slice(&[0xCA, 0xFE, 0xBA, 0xBE]);
        out.extend_from_slice(&0u16.to_be_bytes());
        out.extend_from_slice(&52u16.to_be_bytes());
        out.extend_from_slice(&3u16.to_be_bytes());
        for entry in &cp {
            out.extend_from_slice(entry);
        }
        out.extend_from_slice(&1u16.to_be_bytes());
        out.extend_from_slice(&2u16.to_be_bytes());
        out.extend_from_slice(&0u16.to_be_bytes());
        out.extend_from_slice(&0u16.to_be_bytes());
        out.extend_from_slice(&0u16.to_be_bytes());
        out.extend_from_slice(&0u16.to_be_bytes());
        out.extend_from_slice(&0u16.to_be_bytes());
        out
    }
    let inputs = vec![
        GenInput {
            name: String::from("z.class"),
            ext: String::from("class"),
            bytes: tiny_class("zeta/Z"),
        },
        GenInput {
            name: String::from("a.class"),
            ext: String::from("class"),
            bytes: tiny_class("alpha/A"),
        },
    ];
    let (_, text) = run(inputs, None, DuplicatePolicy::HardError).unwrap();
    let alpha = text.find("pub mod alpha {").unwrap();
    let zeta = text.find("pub mod zeta {").unwrap();
    assert!(alpha < zeta);

    // handing the inputs over in the other order emits the same text
    let inputs2 = vec![
        GenInput {
            name: String::from("a.class"),
            ext: String::from("class"),
            bytes: tiny_class("alpha/A"),
        },
        GenInput {
            name: String::from("z.class"),
            ext: String::from("class"),
            bytes: tiny_class("zeta/Z"),
        },
    ];
    let (_, text2) = run(inputs2, None, DuplicatePolicy::HardError).unwrap();
    assert_eq!(text, text2);
}

#[test]
fn nested_classes_flatten_to_single_level_names() {
    fn named_class(name: &str) -> Vec<u8> {
        let mut cp: Vec<Vec<u8>> = Vec::new();
        let mut e = vec![1u8];
        e.extend_from_slice(&(name.len() as u16).to_be_bytes());
        e.extend_from_slice(name.as_bytes());
        cp.push(e);
        let mut c = vec![7u8];
        c.extend_from_slice(&1u16.to_be_bytes());
        cp.push(c);
        let mut out: Vec<u8> = Vec::new();
        out.extend_from_slice(&[0xCA, 0xFE, 0xBA, 0xBE]);
        out.extend_from_slice(&0u16.to_be_bytes());
        out.extend_from_slice(&52u16.to_be_bytes());
        out.extend_from_slice(&3u16.to_be_bytes());
        for entry in &cp {
            out.extend_from_slice(entry);
        }
        out.extend_from_slice(&0u16.to_be_bytes()); // not public: emitted anyway
        out.extend_from_slice(&2u16.to_be_bytes());
        out.extend_from_slice(&0u16.to_be_bytes());
        out.extend_from_slice(&0u16.to_be_bytes());
        out.extend_from_slice(&0u16.to_be_bytes());
        out.extend_from_slice(&0u16.to_be_bytes());
        out.extend_from_slice(&0u16.to_be_bytes());
        out
    }
    let input = GenInput {
        name: String::from("inner.class"),
        ext: String::from("class"),
        bytes: named_class("Outer$Inner"),
    };
    let (_, text) = run(vec![input], None, DuplicatePolicy::HardError).unwrap();
    // private classes are still emitted, nested names joined by an
    // underscore; at top level the lint waivers come with them
    assert!(text.contains("pub struct Outer_Inner"));
    assert!(text.contains(
        "#[allow(non_camel_case_types)] // We map Java inner classes to Outer_Inner"
    ));
    assert!(text.contains(
        "#[allow(dead_code)] // We generate structs for private Java types too, just in case."
    ));
}
