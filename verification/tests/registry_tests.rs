use jni_bindgen::classfile::{parse_class, SemanticClass};
use jni_bindgen::error::GenError;
use jni_bindgen::registry::{DuplicatePolicy, Registry};

/// Assembles one class's metadata with empty member tables.
fn reg_class_bytes(name: &str, super_name: Option<&str>, interfaces: &[&str]) -> Vec<u8> {
    let mut cp: Vec<Vec<u8>> = Vec::new();
    fn utf8(cp: &mut Vec<Vec<u8>>, s: &str) -> u16 {
        let mut e = vec![1u8];
        e.extend_from_slice(&(s.len() as u16).to_be_bytes());
        e.extend_from_slice(s.as_bytes());
        cp.push(e);
        cp.len() as u16
    }
    fn class_entry(cp: &mut Vec<Vec<u8>>, name_idx: u16) -> u16 {
        let mut e = vec![7u8];
        e.extend_from_slice(&name_idx.to_be_bytes());
        cp.push(e);
        cp.len() as u16
    }
    let this_utf = utf8(&mut cp, name);
    let this_class = class_entry(&mut cp, this_utf);
    let super_class = match super_name {
        Some(s) => {
            let u = utf8(&mut cp, s);
            class_entry(&mut cp, u)
        }
        None => 0,
    };
    let iface_idx: Vec<u16> = interfaces
        .iter()
        .map(|s| {
            let u = utf8(&mut cp, s);
            class_entry(&mut cp, u)
        })
        .collect();
    let mut out: Vec<u8> = Vec::new();
    out.extend_from_slice(&[0xCA, 0xFE, 0xBA, 0xBE]);
    out.extend_from_slice(&0u16.to_be_bytes());
    out.extend_from_slice(&52u16.to_be_bytes());
    out.extend_from_slice(&((cp.len() + 1) as u16).to_be_bytes());
    for e in &cp {
        out.extend_from_slice(e);
    }
    out.extend_from_slice(&1u16.to_be_bytes());
    out.extend_from_slice(&this_class.to_be_bytes());
    out.extend_from_slice(&super_class.to_be_bytes());
    out.extend_from_slice(&(iface_idx.len() as u16).to_be_bytes());
    for i in &iface_idx {
        out.extend_from_slice(&i.to_be_bytes());
    }
    out.extend_from_slice(&0u16.to_be_bytes());
    out.extend_from_slice(&0u16.to_be_bytes());
    out.extend_from_slice(&0u16.to_be_bytes());
    out
}

fn parsed(name: &str, super_name: Option<&str>, interfaces: &[&str]) -> SemanticClass {
    parse_class(&reg_class_bytes(name, super_name, interfaces)).unwrap()
}

#[test]
fn assignability_edges_permit_upcast_not_reverse() {
    // classes A (super: java.lang.Object) and B (super: A) permit a
    // statically-checked upcast from B to A, but not the reverse
    let mut reg = Registry::new(DuplicatePolicy::HardError);
    reg.add_class(parsed("A", Some("java/lang/Object"), &[])).unwrap();
    reg.add_class(parsed("B", Some("A"), &[])).unwrap();
    assert!(reg.is_assignable("B", "A"));
    assert!(!reg.is_assignable("A", "B"));
    assert!(reg.is_assignable("B", "B"));
    // the supertype java.lang.Object is absent from the registry: B still
    // reaches it through A's recorded edge
    assert!(reg.is_assignable("A", "java.lang.Object"));
    assert!(reg.is_assignable("B", "java.lang.Object"));
    // but nothing is known below an opaque class
    assert!(!reg.is_assignable("java.lang.Object", "A"));
}

#[test]
fn interface_edges_count_for_assignability() {
    let mut reg = Registry::new(DuplicatePolicy::HardError);
    reg.add_class(parsed("Impl", Some("java/lang/Object"), &["com/Face"])).unwrap();
    reg.add_class(parsed("com/Face", Some("java/lang/Object"), &[])).unwrap();
    assert!(reg.is_assignable("Impl", "com.Face"));
    assert!(!reg.is_assignable("com.Face", "Impl"));
}

#[test]
fn duplicate_names_follow_the_configured_policy() {
    // hard-error policy: the run fails on a duplicate
    let mut strict = Registry::new(DuplicatePolicy::HardError);
    strict.add_class(parsed("X", None, &[])).unwrap();
    match strict.add_class(parsed("X", None, &[])) {
        Err(GenError::ConflictingDefinition(_)) => {}
        _ => panic!("expected a conflicting-definition error"),
    }
    // last-wins policy: the later definition replaces the earlier one
    let mut lax = Registry::new(DuplicatePolicy::LastWins);
    lax.add_class(parsed("X", None, &[])).unwrap();
    lax.add_class(parsed("X", Some("A"), &[])).unwrap();
    assert_eq!(lax.len(), 1);
    assert_eq!(lax.get(0).super_name.as_deref(), Some("A"));
}

#[test]
fn registry_keeps_names_in_ascending_order() {
    let mut reg = Registry::new(DuplicatePolicy::HardError);
    for name in ["zeta/Z", "alpha/A", "mid/M"] {
        reg.add_class(parsed(name, None, &[])).unwrap();
    }
    let names: Vec<String> = (0..reg.len()).map(|i| reg.get(i).name.clone()).collect();
    assert_eq!(names, vec!["alpha.A".to_string(), "mid.M".to_string(), "zeta.Z".to_string()]);
}
