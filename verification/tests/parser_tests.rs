use jni_bindgen::classfile::{parse_class, to_dotted};
use jni_bindgen::descriptor::{parse_method_descriptor, parse_type, unparse_type, JavaType};
use jni_bindgen::error::GenError;
use jni_bindgen::utf16::JString;

/// Assembles one class's metadata: magic, version, constant pool, header,
/// interfaces, and the field/method tables (no attributes).
pub fn classfile_bytes(
    name: &str,
    super_name: Option<&str>,
    interfaces: &[&str],
    fields: &[(&str, &str, u16)],
    methods: &[(&str, &str, u16)],
    access: u16,
) -> Vec<u8> {
    let mut cp: Vec<Vec<u8>> = Vec::new();
    let mut utf8 = |cp: &mut Vec<Vec<u8>>, s: &str| -> u16 {
        let mut e = vec![1u8];
        e.extend_from_slice(&(s.len() as u16).to_be_bytes());
        e.extend_from_slice(s.as_bytes());
        cp.push(e);
        cp.len() as u16
    };
    let class_entry = |cp: &mut Vec<Vec<u8>>, name_idx: u16| -> u16 {
        let mut e = vec![7u8];
        e.extend_from_slice(&name_idx.to_be_bytes());
        cp.push(e);
        cp.len() as u16
    };
    let this_utf = utf8(&mut cp, name);
    let this_class = class_entry(&mut cp, this_utf);
    let super_class = match super_name {
        Some(s) => {
            let u = utf8(&mut cp, s);
            class_entry(&mut cp, u)
        }
        None => 0,
    };
    let iface_idx: Vec<u16> = interfaces
        .iter()
        .map(|s| {
            let u = utf8(&mut cp, s);
            class_entry(&mut cp, u)
        })
        .collect();
    let field_idx: Vec<(u16, u16, u16)> = fields
        .iter()
        .map(|(n, d, a)| (utf8(&mut cp, n), utf8(&mut cp, d), *a))
        .collect();
    let method_idx: Vec<(u16, u16, u16)> = methods
        .iter()
        .map(|(n, d, a)| (utf8(&mut cp, n), utf8(&mut cp, d), *a))
        .collect();

    let mut out: Vec<u8> = Vec::new();
    out.extend_from_slice(&[0xCA, 0xFE, 0xBA, 0xBE]);
    out.extend_from_slice(&0u16.to_be_bytes()); // minor
    out.extend_from_slice(&52u16.to_be_bytes()); // major
    out.extend_from_slice(&((cp.len() + 1) as u16).to_be_bytes());
    for e in &cp {
        out.extend_from_slice(e);
    }
    out.extend_from_slice(&access.to_be_bytes());
    out.extend_from_slice(&this_class.to_be_bytes());
    out.extend_from_slice(&super_class.to_be_bytes());
    out.extend_from_slice(&(iface_idx.len() as u16).to_be_bytes());
    for i in &iface_idx {
        out.extend_from_slice(&i.to_be_bytes());
    }
    out.extend_from_slice(&(field_idx.len() as u16).to_be_bytes());
    for (n, d, a) in &field_idx {
        out.extend_from_slice(&a.to_be_bytes());
        out.extend_from_slice(&n.to_be_bytes());
        out.extend_from_slice(&d.to_be_bytes());
        out.extend_from_slice(&0u16.to_be_bytes());
    }
    out.extend_from_slice(&(method_idx.len() as u16).to_be_bytes());
    for (n, d, a) in &method_idx {
        out.extend_from_slice(&a.to_be_bytes());
        out.extend_from_slice(&n.to_be_bytes());
        out.extend_from_slice(&d.to_be_bytes());
        out.extend_from_slice(&0u16.to_be_bytes());
    }
    out.extend_from_slice(&0u16.to_be_bytes()); // class attributes
    out
}

#[test]
fn parse_round_trip_reproduces_every_string() {
    let bytes = classfile_bytes(
        "com/acme/Widget",
        Some("java/lang/Object"),
        &["java/io/Serializable"],
        &[("value", "I", 2), ("label", "Ljava/lang/String;", 1)],
        &[("<init>", "()V", 1), ("getValue", "()I", 1)],
        0x0021,
    );
    let c = parse_class(&bytes).unwrap();
    // the fully-qualified dotted name is re-derived exactly
    assert_eq!(c.name, "com.acme.Widget");
    assert_eq!(c.super_name.as_deref(), Some("java.lang.Object"));
    assert_eq!(c.interfaces, vec!["java.io.Serializable".to_string()]);
    assert_eq!(c.flags, 0x0021);
    // declaration order of members is preserved, descriptors verbatim
    assert_eq!(c.fields.len(), 2);
    assert_eq!(c.fields[0].name, "value");
    assert_eq!(c.fields[0].descriptor, "I");
    assert_eq!(c.fields[1].name, "label");
    assert_eq!(c.fields[1].descriptor, "Ljava/lang/String;");
    assert_eq!(c.methods.len(), 2);
    assert_eq!(c.methods[0].name, "<init>");
    assert_eq!(c.methods[0].descriptor, "()V");
    assert_eq!(c.methods[1].name, "getValue");
    assert_eq!(c.methods[1].descriptor, "()I");
    // every field descriptor prints back to the original text
    for f in &c.fields {
        let (t, end) = parse_type(&f.descriptor, 0).unwrap();
        assert_eq!(end, f.descriptor.len());
        assert_eq!(unparse_type(&t), f.descriptor);
    }
}

#[test]
fn descriptor_round_trip_exact() {
    for d in ["I", "Z", "J", "[I", "[[D", "Ljava/lang/String;", "[Lcom/acme/Outer$Inner;"] {
        let (t, end) = parse_type(d, 0).unwrap();
        assert_eq!(end, d.len());
        assert_eq!(unparse_type(&t), d);
    }
}

#[test]
fn method_descriptors_decode_parameters_and_result() {
    let (params, ret) = parse_method_descriptor("(I[JLjava/lang/String;)V").unwrap();
    assert_eq!(params.len(), 3);
    assert!(matches!(params[0], JavaType::Int));
    assert!(matches!(params[1], JavaType::Array(_)));
    assert!(matches!(params[2], JavaType::Object(_)));
    assert!(ret.is_none());
    let (params2, ret2) = parse_method_descriptor("()I").unwrap();
    assert!(params2.is_empty());
    assert!(matches!(ret2, Some(JavaType::Int)));
}

#[test]
fn malformed_descriptors_are_rejected() {
    assert!(parse_type("Q", 0).is_none());
    assert!(parse_type("L;", 0).is_none());
    assert!(parse_type("Ljava/lang/String", 0).is_none());
    assert!(parse_method_descriptor("(I").is_none());
    assert!(parse_method_descriptor("()II").is_none());
    assert!(parse_method_descriptor("I").is_none());
}

#[test]
fn bad_magic_aborts_the_run() {
    let r = parse_class(&vec![0u8, 1, 2, 3, 4, 5, 6, 7, 8, 9]);
    match r {
        Err(GenError::MalformedInput(_)) => {}
        _ => panic!("expected a malformed-input error"),
    }
}

#[test]
fn truncated_classfile_is_malformed() {
    let mut bytes = classfile_bytes("A", None, &[], &[], &[], 1);
    bytes.truncate(bytes.len() - 6);
    assert!(parse_class(&bytes).is_err());
}

#[test]
fn unresolved_constant_pool_entry_is_malformed() {
    let mut bytes = classfile_bytes("A", None, &[], &[], &[], 1);
    // point this_class at a non-existent constant-pool slot; the tail is
    // access, this, super, and the four empty counts: 14 bytes in all
    let cp_count = u16::from_be_bytes([bytes[8], bytes[9]]);
    let this_pos = bytes.len() - 12;
    bytes[this_pos] = ((cp_count + 5) >> 8) as u8;
    bytes[this_pos + 1] = (cp_count + 5) as u8;
    assert!(parse_class(&bytes).is_err());
}

#[test]
fn dotted_names_replace_every_slash() {
    assert_eq!(to_dotted("java/lang/Object"), "java.lang.Object");
    assert_eq!(to_dotted("NoPackage"), "NoPackage");
}

#[test]
fn utf16_decoding_is_strict_or_lossy() {
    let ok = JString { units: vec![0x68, 0x69] };
    assert_eq!(ok.to_string().unwrap(), "hi");
    // a surrogate pair decodes to one supplementary character
    let pair = JString { units: vec![0xD834, 0xDD1E] };
    assert_eq!(pair.to_string().unwrap(), "\u{1d11e}");
    // an unpaired surrogate fails strict decoding ...
    let bad = JString { units: vec![0x68, 0xD834] };
    assert!(bad.to_string().is_err());
    // ... and becomes exactly one replacement character in lossy mode
    let lossy = JString { units: vec![0x68, 0xD834] };
    assert_eq!(lossy.to_string_lossy(), "h\u{fffd}");
}

#[test]
fn jstring_debug_rendering_quotes_the_lossy_text() {
    let js = JString { units: vec![0x68, 0x22, 0xD834] };
    assert_eq!(js.debug_string(), "\"h\\\"\u{fffd}\"");
}

/// A minimal class whose name entry holds exactly `name_bytes`, plus one
/// extra unreferenced text entry holding `literal_bytes`.
fn class_with_raw_text(name_bytes: &[u8], literal_bytes: &[u8]) -> Vec<u8> {
    let mut cp: Vec<Vec<u8>> = Vec::new();
    let mut e = vec![1u8];
    e.extend_from_slice(&(name_bytes.len() as u16).to_be_bytes());
    e.extend_from_slice(name_bytes);
    cp.push(e);
    let mut c = vec![7u8];
    c.extend_from_slice(&1u16.to_be_bytes());
    cp.push(c);
    let mut lit = vec![1u8];
    lit.extend_from_slice(&(literal_bytes.len() as u16).to_be_bytes());
    lit.extend_from_slice(literal_bytes);
    cp.push(lit);
    let mut out: Vec<u8> = Vec::new();
    out.extend_from_slice(&[0xCA, 0xFE, 0xBA, 0xBE]);
    out.extend_from_slice(&0u16.to_be_bytes());
    out.extend_from_slice(&52u16.to_be_bytes());
    out.extend_from_slice(&((cp.len() + 1) as u16).to_be_bytes());
    for entry in &cp {
        out.extend_from_slice(entry);
    }
    out.extend_from_slice(&1u16.to_be_bytes());
    out.extend_from_slice(&2u16.to_be_bytes()); // this = class(1)
    out.extend_from_slice(&0u16.to_be_bytes()); // no super
    out.extend_from_slice(&0u16.to_be_bytes());
    out.extend_from_slice(&0u16.to_be_bytes());
    out.extend_from_slice(&0u16.to_be_bytes());
    out.extend_from_slice(&0u16.to_be_bytes());
    out
}

#[test]
fn non_ascii_names_decode_as_modified_utf8() {
    // two-byte sequences (standard UTF-8 coincides with modified UTF-8)
    let bytes = classfile_bytes("caf\u{e9}/W\u{fc}rfel", None, &[], &[], &[], 1);
    let c = parse_class(&bytes).unwrap();
    assert_eq!(c.name, "caf\u{e9}.W\u{fc}rfel");
    // a supplementary character arrives as a surrogate pair of three-byte
    // groups and decodes to one character
    let pair = [0x41u8, 0xED, 0xA0, 0xB4, 0xED, 0xB4, 0x9E];
    let c2 = parse_class(&class_with_raw_text(&pair, b"x")).unwrap();
    assert_eq!(c2.name, "A\u{1d11e}");
    // the embedded-NUL form decodes to U+0000
    let nul = [0x41u8, 0xC0, 0x80];
    let c3 = parse_class(&class_with_raw_text(&nul, b"x")).unwrap();
    assert_eq!(c3.name, "A\u{0}");
}

#[test]
fn unreferenced_undecodable_literals_never_abort() {
    // the literal entry holds bytes no decoder accepts; nothing references
    // it, so the class still parses
    let c = parse_class(&class_with_raw_text(b"Fine", &[0xFF, 0x00, 0xF8])).unwrap();
    assert_eq!(c.name, "Fine");
}

#[test]
fn referenced_undecodable_name_is_malformed() {
    // the class's own name entry is undecodable: resolving it fails
    let r = parse_class(&class_with_raw_text(&[0xFF], b"x"));
    match r {
        Err(GenError::MalformedInput(_)) => {}
        _ => panic!("expected a malformed-input error"),
    }
}
