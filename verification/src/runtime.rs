//! The reference runtime: a model of the host virtual machine's handle
//! registry, and the owned reference types (`Local`, `Global`) and borrowed
//! views (`Ref`) that the emitted projections use.  The registry tracks every
//! live native handle; the contracts here are the ownership discipline:
//! acquire on construction, release exactly once, never use after release.

use std::collections::HashMap;

use vstd::prelude::*;

verus! {

broadcast use vstd::std_specs::hash::group_hash_axioms;

/// Identity of one attached virtual machine instance; equality-comparable,
/// shared by every `Env` and `Global` that belongs to it.
#[derive(Clone, Copy, PartialEq, Eq, Structural, Debug)]
pub struct VM {
    pub id: u64,
}

/// A thread/stack-scoped capability pairing a `VM` with the thread that
/// entered native code.  It must never be moved to another thread; every
/// thread-affine operation takes the thread id from here.
#[derive(Clone, Copy, PartialEq, Eq, Structural, Debug)]
pub struct Env {
    pub vm: VM,
    pub thread: u64,
}

/// What one live handle in the host registry refers to.
#[derive(Clone, Copy)]
pub struct HandleInfo {
    /// The object the handle keeps reachable.
    pub obj: u64,
    /// Global handles are thread-independent; local ones are not.
    pub is_global: bool,
    /// The owning thread of a local handle (unused for global ones).
    pub thread: u64,
}

/// A class may stand in for itself and for each of its recorded supertypes.
pub open spec fn map_assignable(cm: Map<u64, Seq<u64>>, c: u64, t: u64) -> bool {
    c == t || (cm.contains_key(c) && cm[c].contains(t))
}

/// The class table lists only recorded classes as supertypes and is
/// transitively closed, as the host's assignability oracle is.
pub open spec fn classes_closed(cm: Map<u64, Seq<u64>>) -> bool {
    &&& forall|c: u64, t: u64|
        cm.contains_key(c) && #[trigger] cm[c].contains(t) ==> cm.contains_key(t)
    &&& forall|c: u64, t: u64, u: u64|
        cm.contains_key(c) && #[trigger] cm[c].contains(t) && #[trigger] cm[t].contains(u)
            ==> cm[c].contains(u)
}

/// Assignability is transitive over a closed class table.
pub proof fn lemma_assignable_trans(cm: Map<u64, Seq<u64>>, a: u64, b: u64, c: u64)
    requires
        classes_closed(cm),
        map_assignable(cm, a, b),
        map_assignable(cm, b, c),
    ensures
        map_assignable(cm, a, c),
{
}

/// The model of the host VM's native state: its class hierarchy (the
/// is-assignable oracle), its object table, and every live native handle.
pub struct VmState {
    vm: VM,
    next_handle: u64,
    next_obj: u64,
    next_class: u64,
    handles: HashMap<u64, HandleInfo>,
    objects: HashMap<u64, u64>,
    supers: HashMap<u64, Vec<u64>>,
    strings: HashMap<u64, Vec<u16>>,
    pending: Option<u64>,
}

impl VmState {
    /// The identity of the VM this registry belongs to.
    pub closed spec fn vm_of(&self) -> VM {
        self.vm
    }

    /// Every live handle.
    pub closed spec fn handle_map(&self) -> Map<u64, HandleInfo> {
        self.handles@
    }

    /// Every object, mapped to its actual runtime class.
    pub closed spec fn object_map(&self) -> Map<u64, u64> {
        self.objects@
    }

    /// The host's class table: each class mapped to all its supertypes.
    pub closed spec fn class_map(&self) -> Map<u64, Seq<u64>> {
        self.supers@.map_values(|v: Vec<u64>| v@)
    }

    /// String objects' UTF-16 code units.
    pub closed spec fn string_map(&self) -> Map<u64, Seq<u16>> {
        self.strings@.map_values(|v: Vec<u16>| v@)
    }

    /// The pending exception, if a native call raised one.
    pub closed spec fn pending_exception(&self) -> Option<u64> {
        self.pending
    }

    pub open spec fn live(&self, h: u64) -> bool {
        self.handle_map().contains_key(h)
    }

    pub open spec fn handle(&self, h: u64) -> HandleInfo {
        self.handle_map()[h]
    }

    /// The actual runtime class of the object behind handle `h`.
    pub open spec fn actual_class(&self, h: u64) -> u64 {
        self.object_map()[self.handle(h).obj]
    }

    /// The host's is-assignable relation.
    pub open spec fn class_assignable(&self, c: u64, t: u64) -> bool {
        map_assignable(self.class_map(), c, t)
    }

    /// Well-formedness of the registry: handles point at recorded objects,
    /// objects have recorded classes, string payloads belong to objects,
    /// counters dominate every issued id, and the class table is closed.
    pub closed spec fn wf(&self) -> bool {
        &&& forall|h: u64| #[trigger]
            self.handles@.contains_key(h) ==> h < self.next_handle && self.objects@.contains_key(
                self.handles@[h].obj,
            )
        &&& forall|o: u64| #[trigger]
            self.objects@.contains_key(o) ==> o < self.next_obj && self.supers@.contains_key(
                self.objects@[o],
            )
        &&& forall|c: u64| #[trigger] self.supers@.contains_key(c) ==> c < self.next_class
        &&& forall|o: u64| #[trigger] self.strings@.contains_key(o) ==> self.objects@.contains_key(o)
        &&& classes_closed(self.class_map())
    }

    /// How many more ids can certainly be issued before a counter caps out.
    pub closed spec fn headroom(&self) -> int {
        vstd::math::min(
            0xFFFF_FFFF_FFFF_FFFF - self.next_handle,
            vstd::math::min(
                0xFFFF_FFFF_FFFF_FFFF - self.next_obj,
                0xFFFF_FFFF_FFFF_FFFF - self.next_class,
            ),
        )
    }

    /// There is room for one more handle, object or class id.
    pub open spec fn can_alloc(&self) -> bool {
        self.headroom() > 0
    }

    /// A fresh, empty model of one attached VM.
    pub fn new(id: u64) -> (vm: VmState)
        ensures
            vm.wf(),
            vm.headroom() == 0xFFFF_FFFF_FFFF_FFFF,
            vm.vm_of() == (VM { id }),
            vm.handle_map() == Map::<u64, HandleInfo>::empty(),
            vm.object_map() == Map::<u64, u64>::empty(),
            vm.class_map() == Map::<u64, Seq<u64>>::empty(),
            vm.pending_exception() is None,
    {
        let vm = VmState {
            vm: VM { id },
            next_handle: 0,
            next_obj: 0,
            next_class: 0,
            handles: HashMap::new(),
            objects: HashMap::new(),
            supers: HashMap::new(),
            strings: HashMap::new(),
            pending: None,
        };
        proof {
            assert(vm.class_map() =~= Map::<u64, Seq<u64>>::empty());
        }
        vm
    }

    /// Obtains the calling thread's `Env`; models attaching the current
    /// thread to the VM.
    pub fn attach(&self, thread: u64) -> (env: Env)
        ensures
            env.vm == self.vm_of(),
            env.thread == thread,
    {
        Env { vm: self.vm, thread }
    }

    /// Records one host class together with all its supertypes (the host's
    /// oracle is transitive, so the list handed in must already be closed:
    /// every supertype of a listed supertype is listed too).
    pub fn define_class(&mut self, supertypes: Vec<u64>) -> (c: u64)
        requires
            old(self).wf(),
            old(self).can_alloc(),
            forall|t: u64| #[trigger]
                supertypes@.contains(t) ==> old(self).class_map().contains_key(t) && forall|u: u64|
                    old(self).class_map()[t].contains(u) ==> #[trigger] supertypes@.contains(u),
        ensures
            final(self).wf(),
            !old(self).class_map().contains_key(c),
            final(self).class_map() == old(self).class_map().insert(c, supertypes@),
            final(self).handle_map() == old(self).handle_map(),
            final(self).object_map() == old(self).object_map(),
            final(self).string_map() == old(self).string_map(),
            final(self).pending_exception() == old(self).pending_exception(),
            final(self).vm_of() == old(self).vm_of(),
            final(self).headroom() >= old(self).headroom() - 1,
    {
        let c = self.next_class;
        let ghost cm = self.supers@.map_values(|v: Vec<u64>| v@);
        self.supers.insert(c, supertypes);
        self.next_class = self.next_class + 1;
        proof {
            let cm2 = self.supers@.map_values(|v: Vec<u64>| v@);
            assert(cm2 =~= cm.insert(c, supertypes@));
            assert(!cm.contains_key(c));
            assert(classes_closed(cm2)) by {
                assert forall|c0: u64, t: u64|
                    cm2.contains_key(c0) && #[trigger] cm2[c0].contains(t) implies cm2.contains_key(
                    t,
                ) by {
                    if c0 == c {
                        assert(supertypes@.contains(t));
                        assert(cm.contains_key(t));
                    } else {
                        assert(cm[c0].contains(t));
                        assert(cm.contains_key(t));
                    }
                }
                assert forall|c0: u64, t: u64, u: u64|
                    cm2.contains_key(c0) && #[trigger] cm2[c0].contains(t) && #[trigger] cm2[t].contains(
                        u,
                    ) implies cm2[c0].contains(u) by {
                    if c0 == c {
                        assert(supertypes@.contains(t));
                        assert(cm.contains_key(t));
                        assert(t != c);
                        assert(cm[t].contains(u));
                        assert(supertypes@.contains(u));
                    } else {
                        assert(cm[c0].contains(t));
                        assert(cm.contains_key(t));
                        assert(t != c);
                        assert(cm[t].contains(u));
                        assert(cm[c0].contains(u));
                    }
                }
            }
        }
        c
    }

    /// Creates one host object of runtime class `class`.
    pub fn new_object(&mut self, class: u64) -> (o: u64)
        requires
            old(self).wf(),
            old(self).can_alloc(),
            old(self).class_map().contains_key(class),
        ensures
            final(self).wf(),
            !old(self).object_map().contains_key(o),
            final(self).object_map() == old(self).object_map().insert(o, class),
            final(self).handle_map() == old(self).handle_map(),
            final(self).class_map() == old(self).class_map(),
            final(self).string_map() == old(self).string_map(),
            final(self).pending_exception() == old(self).pending_exception(),
            final(self).vm_of() == old(self).vm_of(),
            final(self).headroom() >= old(self).headroom() - 1,
    {
        let o = self.next_obj;
        self.objects.insert(o, class);
        self.next_obj = self.next_obj + 1;
        o
    }

    /// Attaches UTF-16 code units to an object, making it a string object.
    pub fn set_string(&mut self, obj: u64, units: Vec<u16>)
        requires
            old(self).wf(),
            old(self).object_map().contains_key(obj),
        ensures
            final(self).wf(),
            final(self).string_map() == old(self).string_map().insert(obj, units@),
            final(self).handle_map() == old(self).handle_map(),
            final(self).object_map() == old(self).object_map(),
            final(self).class_map() == old(self).class_map(),
            final(self).pending_exception() == old(self).pending_exception(),
            final(self).headroom() == old(self).headroom(),
            final(self).vm_of() == old(self).vm_of(),
    {
        let ghost sm = self.strings@.map_values(|v: Vec<u16>| v@);
        self.strings.insert(obj, units);
        proof {
            assert(final(self).string_map() =~= sm.insert(obj, units@));
        }
    }

    /// Copies the UTF-16 code units of a string object out of the registry.
    pub fn read_string(&self, obj: u64) -> (r: Option<Vec<u16>>)
        requires
            self.wf(),
        ensures
            match r {
                Option::Some(units) => self.string_map().contains_key(obj) && units@
                    == self.string_map()[obj],
                Option::None => !self.string_map().contains_key(obj),
            },
    {
        match self.strings.get(&obj) {
            Option::Some(units) => {
                let mut out: Vec<u16> = Vec::new();
                let mut i: usize = 0;
                while i < units.len()
                    invariant
                        i <= units@.len(),
                        out@ == units@.subrange(0, i as int),
                    decreases units@.len() - i,
                {
                    out.push(units[i]);
                    proof {
                        assert(out@ =~= units@.subrange(0, i + 1));
                    }
                    i = i + 1;
                }
                proof {
                    assert(units@.subrange(0, units@.len() as int) =~= units@);
                }
                Some(out)
            },
            Option::None => None,
        }
    }


    /// Reads one live handle's registry entry.
    pub fn handle_info(&self, h: u64) -> (info: HandleInfo)
        requires
            self.wf(),
            self.live(h),
        ensures
            info == self.handle(h),
    {
        *self.handles.get(&h).unwrap()
    }

    /// Whether a handle is still live.
    pub fn is_live(&self, h: u64) -> (r: bool)
        requires
            self.wf(),
        ensures
            r == self.live(h),
    {
        self.handles.contains_key(&h)
    }

    /// The actual runtime class of a recorded object.
    pub fn object_class(&self, obj: u64) -> (c: u64)
        requires
            self.wf(),
            self.object_map().contains_key(obj),
        ensures
            c == self.object_map()[obj],
    {
        *self.objects.get(&obj).unwrap()
    }

    /// Issues a fresh local reference to `obj` for the calling thread, as
    /// a native call returning an object result does.
    pub fn new_local_ref(&mut self, env: Env, obj: u64, class: u64) -> (l: Local)
        requires
            old(self).wf(),
            old(self).can_alloc(),
            env.vm == old(self).vm_of(),
            old(self).object_map().contains_key(obj),
            old(self).class_assignable(old(self).object_map()[obj], class),
        ensures
            final(self).wf(),
            l.wf(final(self)),
            !old(self).live(l.spec_handle()),
            l.spec_env() == env,
            l.spec_class() == class,
            final(self).handle(l.spec_handle()).obj == obj,
            final(self).handle_map() == old(self).handle_map().insert(
                l.spec_handle(),
                HandleInfo { obj, is_global: false, thread: env.thread },
            ),
            final(self).object_map() == old(self).object_map(),
            final(self).class_map() == old(self).class_map(),
            final(self).string_map() == old(self).string_map(),
            final(self).pending_exception() == old(self).pending_exception(),
            final(self).vm_of() == old(self).vm_of(),
            final(self).headroom() >= old(self).headroom() - 1,
    {
        let h = self.alloc_handle(HandleInfo { obj, is_global: false, thread: env.thread });
        Local { handle: h, env, class }
    }

    /// Creates a fresh string object holding `units` and hands back a
    /// local reference to it, as interning a native string does.
    pub fn new_string(&mut self, env: Env, units: Vec<u16>, string_class: u64) -> (l: Local)
        requires
            old(self).wf(),
            old(self).headroom() >= 2,
            env.vm == old(self).vm_of(),
            old(self).class_map().contains_key(string_class),
        ensures
            final(self).wf(),
            l.wf(final(self)),
            l.spec_env() == env,
            l.spec_class() == string_class,
            !old(self).object_map().contains_key(final(self).handle(l.spec_handle()).obj),
            final(self).object_map() == old(self).object_map().insert(
                final(self).handle(l.spec_handle()).obj,
                string_class,
            ),
            final(self).string_map() == old(self).string_map().insert(
                final(self).handle(l.spec_handle()).obj,
                units@,
            ),
            final(self).class_map() == old(self).class_map(),
            final(self).pending_exception() == old(self).pending_exception(),
            final(self).vm_of() == old(self).vm_of(),
            final(self).headroom() >= old(self).headroom() - 2,
    {
        let obj = self.new_object(string_class);
        self.set_string(obj, units);
        let l = self.new_local_ref(env, obj, string_class);
        l
    }

    /// Issues a fresh live handle for `info`.
    fn alloc_handle(&mut self, info: HandleInfo) -> (h: u64)
        requires
            old(self).wf(),
            old(self).can_alloc(),
            old(self).object_map().contains_key(info.obj),
        ensures
            final(self).wf(),
            !old(self).live(h),
            final(self).handle_map() == old(self).handle_map().insert(h, info),
            final(self).object_map() == old(self).object_map(),
            final(self).class_map() == old(self).class_map(),
            final(self).string_map() == old(self).string_map(),
            final(self).pending_exception() == old(self).pending_exception(),
            final(self).vm_of() == old(self).vm_of(),
            final(self).headroom() >= old(self).headroom() - 1,
    {
        let h = self.next_handle;
        self.handles.insert(h, info);
        self.next_handle = self.next_handle + 1;
        h
    }

    /// Removes one live handle; exactly that handle, nothing else.
    fn release_handle(&mut self, h: u64)
        requires
            old(self).wf(),
            old(self).live(h),
        ensures
            final(self).wf(),
            final(self).handle_map() == old(self).handle_map().remove(h),
            final(self).object_map() == old(self).object_map(),
            final(self).class_map() == old(self).class_map(),
            final(self).string_map() == old(self).string_map(),
            final(self).pending_exception() == old(self).pending_exception(),
            final(self).headroom() == old(self).headroom(),
            final(self).vm_of() == old(self).vm_of(),
    {
        self.handles.remove(&h);
    }

    /// Captures and clears the pending exception, if any: after every
    /// wrapped native call the error branch surfaces it, never leaving it
    /// pending for the next call.
    pub fn take_pending_exception(&mut self) -> (r: Option<u64>)
        requires
            old(self).wf(),
        ensures
            final(self).wf(),
            r == old(self).pending_exception(),
            final(self).pending_exception() is None,
            final(self).handle_map() == old(self).handle_map(),
            final(self).object_map() == old(self).object_map(),
            final(self).class_map() == old(self).class_map(),
            final(self).string_map() == old(self).string_map(),
            final(self).headroom() == old(self).headroom(),
            final(self).vm_of() == old(self).vm_of(),
    {
        let r = self.pending.take();
        r
    }

    /// Records an exception raised by a native call (for driving scenarios
    /// against the wrapper above).
    pub fn raise_exception(&mut self, obj: u64)
        requires
            old(self).wf(),
            old(self).object_map().contains_key(obj),
        ensures
            final(self).wf(),
            final(self).pending_exception() == Option::Some(obj),
            final(self).handle_map() == old(self).handle_map(),
            final(self).object_map() == old(self).object_map(),
            final(self).class_map() == old(self).class_map(),
            final(self).string_map() == old(self).string_map(),
            final(self).headroom() == old(self).headroom(),
            final(self).vm_of() == old(self).vm_of(),
    {
        self.pending = Some(obj);
    }

    /// The host's is-assignable query, as the native call table answers it.
    pub fn is_assignable(&self, c: u64, t: u64) -> (r: bool)
        requires
            self.wf(),
        ensures
            r == self.class_assignable(c, t),
    {
        if c == t {
            return true;
        }
        match self.supers.get(&c) {
            Option::Some(list) => {
                let mut i: usize = 0;
                while i < list.len()
                    invariant
                        i <= list@.len(),
                        self.class_map().contains_key(c),
                        self.class_map()[c] == list@,
                        forall|j: int| 0 <= j < i ==> list@[j] != t,
                    decreases list@.len() - i,
                {
                    if list[i] == t {
                        return true;
                    }
                    i = i + 1;
                }
                assert(!list@.contains(t));
                false
            },
            Option::None => {
                assert(!self.class_map().contains_key(c));
                false
            },
        }
    }
}

/// A non-owning view of a live object handle paired with an `Env`:
/// borrowed from a `Local` or a `Global`, carrying no release obligation.
#[derive(Clone, Copy)]
pub struct Ref {
    pub handle: u64,
    pub env: Env,
    pub class: u64,
}

/// Validity of a borrowed reference against the registry.
pub open spec fn ref_wf(r: Ref, vm: &VmState) -> bool {
    &&& vm.live(r.handle)
    &&& r.env.vm == vm.vm_of()
    &&& vm.class_assignable(vm.actual_class(r.handle), r.class)
    &&& !vm.handle(r.handle).is_global ==> vm.handle(r.handle).thread == r.env.thread
}

/// The raw handle a native method returns to its caller; ownership has
/// left the creating scope and travels with this value.
#[derive(Clone, Copy)]
pub struct Return {
    pub handle: u64,
    pub class: u64,
}

/// A runtime cast was refused: the object's actual class is not
/// assignable to the requested one.  The source handle stays valid.
#[derive(Clone, Copy, PartialEq, Eq, Structural, Debug)]
pub struct CastError;

/// An owned, thread/stack-scoped reference: the exclusive owner of exactly
/// one live local handle, released exactly once by `delete` (or handed off
/// whole by `into_raw` / `leak` / `into_return`).
pub struct Local {
    handle: u64,
    env: Env,
    class: u64,
}

impl Local {
    pub closed spec fn spec_handle(&self) -> u64 {
        self.handle
    }

    pub closed spec fn spec_env(&self) -> Env {
        self.env
    }

    /// The statically declared class of the reference.
    pub closed spec fn spec_class(&self) -> u64 {
        self.class
    }

    /// Validity against the registry: the handle is live, local, owned by
    /// the thread of its `Env`, and its object's actual class is
    /// assignable to the declared class.
    pub open spec fn wf(&self, vm: &VmState) -> bool {
        &&& vm.live(self.spec_handle())
        &&& !vm.handle(self.spec_handle()).is_global
        &&& vm.handle(self.spec_handle()).thread == self.spec_env().thread
        &&& self.spec_env().vm == vm.vm_of()
        &&& vm.class_assignable(vm.actual_class(self.spec_handle()), self.spec_class())
    }

    /// Rebuilds a `Local` from a raw live handle.  The caller proves what
    /// would otherwise be an unchecked claim: that the handle is a live
    /// local one owned by this thread and compatible with `class`.
    pub fn from_raw(vm: &VmState, env: Env, object: u64, class: u64) -> (l: Local)
        requires
            vm.wf(),
            vm.live(object),
            !vm.handle(object).is_global,
            vm.handle(object).thread == env.thread,
            env.vm == vm.vm_of(),
            vm.class_assignable(vm.actual_class(object), class),
        ensures
            l.wf(vm),
            l.spec_handle() == object,
            l.spec_env() == env,
            l.spec_class() == class,
    {
        Local { handle: object, env, class }
    }

    pub fn env(&self) -> (e: Env)
        ensures
            e == self.spec_env(),
    {
        self.env
    }

    pub fn as_raw(&self) -> (h: u64)
        ensures
            h == self.spec_handle(),
    {
        self.handle
    }

    /// Gives the raw handle away without releasing it: the caller takes
    /// over the release obligation.
    pub fn into_raw(self) -> (h: u64)
        ensures
            h == self.spec_handle(),
    {
        self.handle
    }

    /// Converts ownership into a borrowed `Ref` whose lifetime is the
    /// caller's choice, skipping the automatic per-scope release.
    pub fn leak(self) -> (r: Ref)
        ensures
            r.handle == self.spec_handle(),
            r.env == self.spec_env(),
            r.class == self.spec_class(),
    {
        Ref { handle: self.handle, env: self.env, class: self.class }
    }

    pub fn as_ref(&self) -> (r: Ref)
        ensures
            r.handle == self.spec_handle(),
            r.env == self.spec_env(),
            r.class == self.spec_class(),
    {
        Ref { handle: self.handle, env: self.env, class: self.class }
    }

    /// Registers a new global handle for the same object: the object stays
    /// reachable across threads until that handle is released.
    pub fn as_global(&self, vm: &mut VmState) -> (g: Global)
        requires
            old(vm).wf(),
            old(vm).can_alloc(),
            self.wf(old(vm)),
        ensures
            final(vm).wf(),
            g.wf(final(vm)),
            self.wf(final(vm)),
            !old(vm).live(g.spec_handle()),
            g.spec_handle() != self.spec_handle(),
            g.spec_vm() == old(vm).vm_of(),
            g.spec_class() == self.spec_class(),
            final(vm).handle_map() == old(vm).handle_map().insert(
                g.spec_handle(),
                HandleInfo {
                    obj: old(vm).handle(self.spec_handle()).obj,
                    is_global: true,
                    thread: 0,
                },
            ),
            final(vm).handle(g.spec_handle()).obj == old(vm).handle(self.spec_handle()).obj,
            final(vm).object_map() == old(vm).object_map(),
            final(vm).class_map() == old(vm).class_map(),
            final(vm).string_map() == old(vm).string_map(),
            final(vm).pending_exception() == old(vm).pending_exception(),
            final(vm).vm_of() == old(vm).vm_of(),
            final(vm).headroom() >= old(vm).headroom() - 1,
    {
        let info = vm.handle_info(self.handle);
        let h = vm.alloc_handle(HandleInfo { obj: info.obj, is_global: true, thread: 0 });
        Global { handle: h, vm: self.env.vm, class: self.class }
    }

    /// Duplicates the handle for returning it across the native boundary;
    /// the `Local` itself remains owned by its scope.
    pub fn as_return(&self, vm: &mut VmState) -> (r: Return)
        requires
            old(vm).wf(),
            old(vm).can_alloc(),
            self.wf(old(vm)),
        ensures
            final(vm).wf(),
            self.wf(final(vm)),
            !old(vm).live(r.handle),
            r.class == self.spec_class(),
            final(vm).handle_map() == old(vm).handle_map().insert(
                r.handle,
                HandleInfo {
                    obj: old(vm).handle(self.spec_handle()).obj,
                    is_global: false,
                    thread: self.spec_env().thread,
                },
            ),
            final(vm).object_map() == old(vm).object_map(),
            final(vm).class_map() == old(vm).class_map(),
            final(vm).string_map() == old(vm).string_map(),
            final(vm).pending_exception() == old(vm).pending_exception(),
            final(vm).vm_of() == old(vm).vm_of(),
            final(vm).headroom() >= old(vm).headroom() - 1,
    {
        let info = vm.handle_info(self.handle);
        let h = vm.alloc_handle(
            HandleInfo { obj: info.obj, is_global: false, thread: self.env.thread },
        );
        Return { handle: h, class: self.class }
    }

    /// Hands the owned handle itself across the native boundary.
    pub fn into_return(self) -> (r: Return)
        ensures
            r.handle == self.spec_handle(),
            r.class == self.spec_class(),
    {
        Return { handle: self.handle, class: self.class }
    }

    /// The dynamic cast: queries the object's actual class against the
    /// host's is-assignable relation.  On refusal nothing changes and the
    /// source handle stays valid; on success a new, independently owned
    /// handle to the same object is issued, typed as `target`.
    pub fn cast(&self, vm: &mut VmState, target: u64) -> (r: Result<Local, CastError>)
        requires
            old(vm).wf(),
            old(vm).can_alloc(),
            self.wf(old(vm)),
        ensures
            final(vm).wf(),
            self.wf(final(vm)),
            r.is_ok() <==> old(vm).class_assignable(
                old(vm).actual_class(self.spec_handle()),
                target,
            ),
            r.is_err() ==> *final(vm) == *old(vm),
            r.is_ok() ==> {
                let l2 = r->Ok_0;
                &&& l2.wf(final(vm))
                &&& !old(vm).live(l2.spec_handle())
                &&& l2.spec_handle() != self.spec_handle()
                &&& l2.spec_env() == self.spec_env()
                &&& l2.spec_class() == target
                &&& final(vm).handle(l2.spec_handle()).obj == old(vm).handle(
                    self.spec_handle(),
                ).obj
                &&& final(vm).handle_map() == old(vm).handle_map().insert(
                    l2.spec_handle(),
                    HandleInfo {
                        obj: old(vm).handle(self.spec_handle()).obj,
                        is_global: false,
                        thread: self.spec_env().thread,
                    },
                )
            },
            final(vm).object_map() == old(vm).object_map(),
            final(vm).class_map() == old(vm).class_map(),
            final(vm).string_map() == old(vm).string_map(),
            final(vm).pending_exception() == old(vm).pending_exception(),
            final(vm).vm_of() == old(vm).vm_of(),
            final(vm).headroom() >= old(vm).headroom() - 1,
    {
        let info = vm.handle_info(self.handle);
        let actual = vm.object_class(info.obj);
        if !vm.is_assignable(actual, target) {
            return Err(CastError);
        }
        let h = vm.alloc_handle(
            HandleInfo { obj: info.obj, is_global: false, thread: self.env.thread },
        );
        Ok(Local { handle: h, env: self.env, class: target })
    }

    /// The static upcast: permitted only when the declared class is
    /// already assignable to `target`, so no runtime check is made and the
    /// cast always succeeds.
    pub fn upcast(&self, vm: &mut VmState, target: u64) -> (l2: Local)
        requires
            old(vm).wf(),
            old(vm).can_alloc(),
            self.wf(old(vm)),
            old(vm).class_assignable(self.spec_class(), target),
        ensures
            final(vm).wf(),
            self.wf(final(vm)),
            l2.wf(final(vm)),
            !old(vm).live(l2.spec_handle()),
            l2.spec_handle() != self.spec_handle(),
            l2.spec_env() == self.spec_env(),
            l2.spec_class() == target,
            final(vm).handle(l2.spec_handle()).obj == old(vm).handle(self.spec_handle()).obj,
            final(vm).handle_map() == old(vm).handle_map().insert(
                l2.spec_handle(),
                HandleInfo {
                    obj: old(vm).handle(self.spec_handle()).obj,
                    is_global: false,
                    thread: self.spec_env().thread,
                },
            ),
            final(vm).object_map() == old(vm).object_map(),
            final(vm).class_map() == old(vm).class_map(),
            final(vm).string_map() == old(vm).string_map(),
            final(vm).pending_exception() == old(vm).pending_exception(),
            final(vm).vm_of() == old(vm).vm_of(),
            final(vm).headroom() >= old(vm).headroom() - 1,
    {
        proof {
            lemma_assignable_trans(
                old(vm).class_map(),
                old(vm).actual_class(self.spec_handle()),
                self.spec_class(),
                target,
            );
        }
        let info = vm.handle_info(self.handle);
        let h = vm.alloc_handle(
            HandleInfo { obj: info.obj, is_global: false, thread: self.env.thread },
        );
        Local { handle: h, env: self.env, class: target }
    }

    /// Requests a new, distinct native handle to the same object (not a
    /// reference-count bump): dropping one of the two never invalidates
    /// the other.
    pub fn clone_in(&self, vm: &mut VmState) -> (l2: Local)
        requires
            old(vm).wf(),
            old(vm).can_alloc(),
            self.wf(old(vm)),
        ensures
            final(vm).wf(),
            self.wf(final(vm)),
            l2.wf(final(vm)),
            !old(vm).live(l2.spec_handle()),
            l2.spec_handle() != self.spec_handle(),
            l2.spec_env() == self.spec_env(),
            l2.spec_class() == self.spec_class(),
            final(vm).handle(l2.spec_handle()).obj == old(vm).handle(self.spec_handle()).obj,
            final(vm).handle_map() == old(vm).handle_map().insert(
                l2.spec_handle(),
                HandleInfo {
                    obj: old(vm).handle(self.spec_handle()).obj,
                    is_global: false,
                    thread: self.spec_env().thread,
                },
            ),
            final(vm).object_map() == old(vm).object_map(),
            final(vm).class_map() == old(vm).class_map(),
            final(vm).string_map() == old(vm).string_map(),
            final(vm).pending_exception() == old(vm).pending_exception(),
            final(vm).vm_of() == old(vm).vm_of(),
            final(vm).headroom() >= old(vm).headroom() - 1,
    {
        let info = vm.handle_info(self.handle);
        let h = vm.alloc_handle(
            HandleInfo { obj: info.obj, is_global: false, thread: self.env.thread },
        );
        Local { handle: h, env: self.env, class: self.class }
    }

    /// Releases the owned handle: exactly this one handle leaves the
    /// registry, every other stays as it was.
    pub fn delete(self, vm: &mut VmState)
        requires
            old(vm).wf(),
            self.wf(old(vm)),
        ensures
            final(vm).wf(),
            final(vm).handle_map() == old(vm).handle_map().remove(self.spec_handle()),
            final(vm).object_map() == old(vm).object_map(),
            final(vm).class_map() == old(vm).class_map(),
            final(vm).string_map() == old(vm).string_map(),
            final(vm).pending_exception() == old(vm).pending_exception(),
            final(vm).vm_of() == old(vm).vm_of(),
            final(vm).headroom() == old(vm).headroom(),
    {
        vm.release_handle(self.handle);
    }
}

/// An owned, thread-independent, shareable reference: one host-side
/// retention of its object, released exactly once by `delete`.
pub struct Global {
    handle: u64,
    vm: VM,
    class: u64,
}

impl Global {
    pub closed spec fn spec_handle(&self) -> u64 {
        self.handle
    }

    pub closed spec fn spec_vm(&self) -> VM {
        self.vm
    }

    pub closed spec fn spec_class(&self) -> u64 {
        self.class
    }

    pub open spec fn wf(&self, vm: &VmState) -> bool {
        &&& vm.live(self.spec_handle())
        &&& vm.handle(self.spec_handle()).is_global
        &&& self.spec_vm() == vm.vm_of()
        &&& vm.class_assignable(vm.actual_class(self.spec_handle()), self.spec_class())
    }

    /// Pairs the global with the calling thread's `Env`, yielding a
    /// transient borrowed reference valid only for the call.  The `Env`
    /// must belong to the same VM: a mismatch is caller logic error, not a
    /// recoverable condition, so it stands as a precondition.
    pub fn with(&self, vm: &VmState, env: Env) -> (r: Ref)
        requires
            vm.wf(),
            self.wf(vm),
            env.vm == self.spec_vm(),
        ensures
            ref_wf(r, vm),
            r.handle == self.spec_handle(),
            r.env == env,
            r.class == self.spec_class(),
    {
        Ref { handle: self.handle, env, class: self.class }
    }

    /// The variant for callers that have already proven the VM match; the
    /// obligation is the same, there is just no registry to consult.
    pub fn with_unchecked(&self, env: Env) -> (r: Ref)
        requires
            env.vm == self.spec_vm(),
        ensures
            r.handle == self.spec_handle(),
            r.env == env,
            r.class == self.spec_class(),
    {
        Ref { handle: self.handle, env, class: self.class }
    }

    pub fn vm(&self) -> (v: VM)
        ensures
            v == self.spec_vm(),
    {
        self.vm
    }

    pub fn as_raw(&self) -> (h: u64)
        ensures
            h == self.spec_handle(),
    {
        self.handle
    }

    /// Registers one more host-side retention of the object: a new,
    /// distinct global handle.  Dropping all but one clone keeps the
    /// object reachable.
    pub fn clone_in(&self, vm: &mut VmState) -> (g2: Global)
        requires
            old(vm).wf(),
            old(vm).can_alloc(),
            self.wf(old(vm)),
        ensures
            final(vm).wf(),
            self.wf(final(vm)),
            g2.wf(final(vm)),
            !old(vm).live(g2.spec_handle()),
            g2.spec_handle() != self.spec_handle(),
            g2.spec_vm() == self.spec_vm(),
            g2.spec_class() == self.spec_class(),
            final(vm).handle(g2.spec_handle()).obj == old(vm).handle(self.spec_handle()).obj,
            final(vm).handle_map() == old(vm).handle_map().insert(
                g2.spec_handle(),
                HandleInfo {
                    obj: old(vm).handle(self.spec_handle()).obj,
                    is_global: true,
                    thread: 0,
                },
            ),
            final(vm).object_map() == old(vm).object_map(),
            final(vm).class_map() == old(vm).class_map(),
            final(vm).string_map() == old(vm).string_map(),
            final(vm).pending_exception() == old(vm).pending_exception(),
            final(vm).vm_of() == old(vm).vm_of(),
            final(vm).headroom() >= old(vm).headroom() - 1,
    {
        let info = vm.handle_info(self.handle);
        let h = vm.alloc_handle(HandleInfo { obj: info.obj, is_global: true, thread: 0 });
        Global { handle: h, vm: self.vm, class: self.class }
    }

    /// Releases one retention: exactly this handle leaves the registry.
    pub fn delete(self, vm: &mut VmState)
        requires
            old(vm).wf(),
            self.wf(old(vm)),
        ensures
            final(vm).wf(),
            final(vm).handle_map() == old(vm).handle_map().remove(self.spec_handle()),
            final(vm).object_map() == old(vm).object_map(),
            final(vm).class_map() == old(vm).class_map(),
            final(vm).string_map() == old(vm).string_map(),
            final(vm).pending_exception() == old(vm).pending_exception(),
            final(vm).vm_of() == old(vm).vm_of(),
            final(vm).headroom() == old(vm).headroom(),
    {
        vm.release_handle(self.handle);
    }
}

/// The object behind `obj` is still retained by some live global handle.
pub open spec fn retains(m: Map<u64, HandleInfo>, obj: u64) -> bool {
    exists|h: u64| #[trigger] m.contains_key(h) && m[h].is_global && m[h].obj == obj
}

/// Dropping a handle releases exactly that handle: a clone is independent,
/// and dropping the clone restores the registry exactly as it was, with
/// the original handle still live.
pub proof fn lemma_clone_drop_independent(
    m: Map<u64, HandleInfo>,
    h1: u64,
    h2: u64,
    info: HandleInfo,
)
    requires
        m.contains_key(h1),
        !m.contains_key(h2),
    ensures
        h1 != h2,
        m.insert(h2, info).contains_key(h1),
        m.insert(h2, info).contains_key(h2),
        m.insert(h2, info).remove(h2) == m,
        m.insert(h2, info).remove(h2).contains_key(h1),
{
    assert(m.insert(h2, info).remove(h2) =~= m);
}

/// Global retention: while any other live global handle refers to the same
/// object, dropping this one keeps the object retained; when this is the
/// last one, dropping it releases the object.
pub proof fn lemma_global_retention(m: Map<u64, HandleInfo>, h: u64, obj: u64)
    requires
        m.contains_key(h),
        m[h].is_global,
        m[h].obj == obj,
    ensures
        retains(m, obj),
        (exists|h2: u64|
            h2 != h && #[trigger] m.contains_key(h2) && m[h2].is_global && m[h2].obj == obj)
            ==> retains(m.remove(h), obj),
        (forall|h2: u64|
            h2 != h && #[trigger] m.contains_key(h2) ==> !(m[h2].is_global && m[h2].obj == obj))
            ==> !retains(m.remove(h), obj),
{
    assert(retains(m, obj));
    if exists|h2: u64|
        h2 != h && #[trigger] m.contains_key(h2) && m[h2].is_global && m[h2].obj == obj {
        let h2 = choose|h2: u64|
            h2 != h && #[trigger] m.contains_key(h2) && m[h2].is_global && m[h2].obj == obj;
        assert(m.remove(h).contains_key(h2));
        assert(retains(m.remove(h), obj));
    }
}


} // verus!
