use jni_bindgen::runtime::{VmState, VM};
use jni_bindgen::utf16::JString;

#[test]
fn local_drop_releases_exactly_one_handle() {
    let mut vm = VmState::new(1);
    let object_class = vm.define_class(Vec::new());
    let obj = vm.new_object(object_class);
    let env = vm.attach(10);
    let a = vm.new_local_ref(env, obj, object_class);
    let b = a.clone_in(&mut vm);
    let ha = a.as_raw();
    let hb = b.as_raw();
    // a clone is a second, distinct native handle, not a refcount bump
    assert_ne!(ha, hb);
    assert!(vm.is_live(ha));
    assert!(vm.is_live(hb));
    // dropping the clone releases exactly the clone's handle
    b.delete(&mut vm);
    assert!(vm.is_live(ha));
    assert!(!vm.is_live(hb));
    // dropping the original releases the remaining handle
    a.delete(&mut vm);
    assert!(!vm.is_live(ha));
}

#[test]
fn cast_to_unrelated_class_fails_and_preserves_source() {
    let mut vm = VmState::new(1);
    let object_class = vm.define_class(Vec::new());
    let dog = vm.define_class(vec![object_class]);
    let cat = vm.define_class(vec![object_class]);
    let obj = vm.new_object(dog);
    let env = vm.attach(10);
    let local = vm.new_local_ref(env, obj, dog);
    // a Dog is not a Cat: the dynamic cast must refuse
    let refused = local.cast(&mut vm, cat);
    assert!(refused.is_err());
    // the source handle is untouched and still usable
    assert!(vm.is_live(local.as_raw()));
    let upcasted = local.cast(&mut vm, object_class).unwrap();
    assert!(vm.is_live(upcasted.as_raw()));
    assert_ne!(upcasted.as_raw(), local.as_raw());
    upcasted.delete(&mut vm);
    local.delete(&mut vm);
}

#[test]
fn upcast_along_recorded_edge_needs_no_runtime_check() {
    let mut vm = VmState::new(1);
    let object_class = vm.define_class(Vec::new());
    let dog = vm.define_class(vec![object_class]);
    let obj = vm.new_object(dog);
    let env = vm.attach(10);
    let local = vm.new_local_ref(env, obj, dog);
    let as_object = local.upcast(&mut vm, object_class);
    assert!(vm.is_live(as_object.as_raw()));
    as_object.delete(&mut vm);
    local.delete(&mut vm);
}

#[test]
fn global_sharing_releases_on_last_drop() {
    let mut vm = VmState::new(7);
    let object_class = vm.define_class(Vec::new());
    let obj = vm.new_object(object_class);
    let env = vm.attach(10);
    let local = vm.new_local_ref(env, obj, object_class);
    let g1 = local.as_global(&mut vm);
    assert_eq!(g1.vm(), VM { id: 7 });
    let g2 = g1.clone_in(&mut vm);
    let g3 = g2.clone_in(&mut vm);
    let h1 = g1.as_raw();
    // dropping all but one clone keeps the object reachable
    g1.delete(&mut vm);
    g2.delete(&mut vm);
    assert!(!vm.is_live(h1));
    let env2 = vm.attach(11);
    let r = g3.with(&vm, env2);
    assert!(vm.is_live(r.handle));
    // the last drop releases the registration
    let h3 = g3.as_raw();
    g3.delete(&mut vm);
    assert!(!vm.is_live(h3));
    local.delete(&mut vm);
}

#[test]
fn leak_and_into_raw_transfer_ownership() {
    let mut vm = VmState::new(1);
    let object_class = vm.define_class(Vec::new());
    let obj = vm.new_object(object_class);
    let env = vm.attach(10);
    let local = vm.new_local_ref(env, obj, object_class);
    let raw = local.as_raw();
    let leaked = local.leak();
    // leaking skips the per-scope release: the handle stays live
    assert!(vm.is_live(leaked.handle));
    assert_eq!(leaked.handle, raw);
    let rebuilt = jni_bindgen::runtime::Local::from_raw(&vm, env, leaked.handle, object_class);
    assert_eq!(rebuilt.into_raw(), raw);
    assert!(vm.is_live(raw));
}

#[test]
fn pending_exception_is_captured_and_cleared() {
    let mut vm = VmState::new(1);
    let object_class = vm.define_class(Vec::new());
    let boom = vm.new_object(object_class);
    vm.raise_exception(boom);
    // the wrapper captures the pending exception and clears it
    assert_eq!(vm.take_pending_exception(), Some(boom));
    // nothing is ever left pending for the next native call
    assert_eq!(vm.take_pending_exception(), None);
}

#[test]
fn string_objects_round_trip_through_the_registry() {
    let mut vm = VmState::new(1);
    let string_class = vm.define_class(Vec::new());
    let env = vm.attach(10);
    let local = JString::from_env_str(&mut vm, env, "gr\u{fc}\u{df} \u{1d11e}", string_class);
    let js = JString::string_chars(&vm, local.as_ref());
    assert_eq!(js.to_string().unwrap(), "gr\u{fc}\u{df} \u{1d11e}");
    assert_eq!(js.to_string_lossy(), "gr\u{fc}\u{df} \u{1d11e}");
    local.delete(&mut vm);
}
