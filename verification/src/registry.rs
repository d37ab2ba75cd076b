//! Object/event registry: tracks which (service, object) pairs are live
//! and which (service, object, event) triples have active listeners.
//!
//! Listener fan-out order is the registration order; `listeners_for`
//! returns an empty sequence rather than failing when nobody listens.

use vstd::prelude::*;

verus! {

/// A live (service, object) pair.
#[derive(Clone, Copy, Debug, PartialEq, Eq, Structural)]
pub struct LiveObject {
    pub service: u32,
    pub object: u32,
}

/// An active listener registration; the handle is the embedding
/// environment's delivery sink for this listener.
#[derive(Clone, Copy, Debug, PartialEq, Eq, Structural)]
pub struct ListenerRegistration {
    pub service: u32,
    pub object: u32,
    pub event: u32,
    pub handle: u64,
}

/// Registry failures, surfaced to protocol callers as `success = false`
/// responses, never as a crash.
#[derive(Clone, Copy, Debug, PartialEq, Eq, Structural)]
pub enum RegistryError {
    /// The target (service, object) pair is not live.
    NoSuchObject,
    /// The listener to remove is not registered.
    NotRegistered,
    /// The listener to add is already registered; adding again would
    /// not corrupt state and is refused instead.
    AlreadyRegistered,
}

/// Whether `s` holds the pair (service, object).
pub open spec fn has_pair(s: Seq<LiveObject>, service: u32, object: u32) -> bool {
    exists|k: int| 0 <= k < s.len() && s[k] == (LiveObject { service, object })
}

/// Whether `s` holds exactly this registration.
pub open spec fn has_reg(
    s: Seq<ListenerRegistration>,
    service: u32,
    object: u32,
    event: u32,
    handle: u64,
) -> bool {
    exists|k: int|
        0 <= k < s.len() && s[k] == (ListenerRegistration { service, object, event, handle })
}

/// The handles registered on (service, object, event), in registration
/// order.
pub open spec fn handles_in(
    s: Seq<ListenerRegistration>,
    service: u32,
    object: u32,
    event: u32,
) -> Seq<u64>
    decreases s.len(),
{
    if s.len() == 0 {
        Seq::empty()
    } else {
        let rest = handles_in(s.drop_last(), service, object, event);
        if s.last().service == service && s.last().object == object && s.last().event == event {
            rest.push(s.last().handle)
        } else {
            rest
        }
    }
}

/// The registrations of `s` that are not scoped to (service, object),
/// in order: what a release of that object leaves behind.
pub open spec fn drop_scoped(
    s: Seq<ListenerRegistration>,
    service: u32,
    object: u32,
) -> Seq<ListenerRegistration>
    decreases s.len(),
{
    if s.len() == 0 {
        Seq::empty()
    } else {
        let rest = drop_scoped(s.drop_last(), service, object);
        if s.last().service == service && s.last().object == object {
            rest
        } else {
            rest.push(s.last())
        }
    }
}

/// The registry of live objects and active listeners.
pub struct ObjectEventRegistry {
    objects: Vec<LiveObject>,
    listeners: Vec<ListenerRegistration>,
}

impl ObjectEventRegistry {
    /// Well-formedness: live pairs are distinct, registrations are
    /// distinct, and every registration targets a live pair.
    pub closed spec fn wf(self) -> bool {
        &&& forall|i: int, j: int|
            0 <= i < j < self.objects@.len() ==> self.objects@[i] != self.objects@[j]
        &&& forall|i: int, j: int|
            0 <= i < j < self.listeners@.len() ==> self.listeners@[i] != self.listeners@[j]
        &&& forall|i: int|
            0 <= i < self.listeners@.len() ==> has_pair(
                self.objects@,
                #[trigger] self.listeners@[i].service,
                self.listeners@[i].object,
            )
    }

    /// Whether (service, object) is live.
    pub closed spec fn has_object(self, service: u32, object: u32) -> bool {
        has_pair(self.objects@, service, object)
    }

    /// Whether this exact listener registration is active.
    pub closed spec fn has_listener(self, service: u32, object: u32, event: u32, handle: u64) -> bool {
        has_reg(self.listeners@, service, object, event, handle)
    }

    /// The handles listening on (service, object, event), in
    /// registration order.
    pub closed spec fn listener_handles(self, service: u32, object: u32, event: u32) -> Seq<u64> {
        handles_in(self.listeners@, service, object, event)
    }

    /// The active registrations, in registration order.
    pub closed spec fn regs(self) -> Seq<ListenerRegistration> {
        self.listeners@
    }

    /// The live pairs, in registration order.
    pub closed spec fn live(self) -> Seq<LiveObject> {
        self.objects@
    }

    /// An empty registry: no live object, no listener.
    pub fn new() -> (r: ObjectEventRegistry)
        ensures
            r.wf(),
            r.live() == Seq::<LiveObject>::empty(),
            r.regs() == Seq::<ListenerRegistration>::empty(),
            forall|s: u32, o: u32| !r.has_object(s, o),
            forall|s: u32, o: u32, e: u32, h: u64| !r.has_listener(s, o, e, h),
    {
        ObjectEventRegistry { objects: Vec::new(), listeners: Vec::new() }
    }

    fn find_object(&self, service: u32, object: u32) -> (r: Option<usize>)
        ensures
            match r {
                Some(i) => i < self.objects@.len() && self.objects@[i as int] == (LiveObject {
                    service,
                    object,
                }),
                None => !self.has_object(service, object),
            },
    {
        let mut i: usize = 0;
        while i < self.objects.len()
            invariant
                i <= self.objects@.len(),
                forall|j: int|
                    0 <= j < i ==> self.objects@[j] != (LiveObject { service, object }),
            decreases self.objects@.len() - i,
        {
            if self.objects[i].service == service && self.objects[i].object == object {
                return Some(i);
            }
            i += 1;
        }
        None
    }

    fn find_listener(&self, service: u32, object: u32, event: u32, handle: u64) -> (r: Option<
        usize,
    >)
        ensures
            match r {
                Some(i) => i < self.listeners@.len() && self.listeners@[i as int]
                    == (ListenerRegistration { service, object, event, handle }),
                None => !self.has_listener(service, object, event, handle),
            },
    {
        let mut i: usize = 0;
        while i < self.listeners.len()
            invariant
                i <= self.listeners@.len(),
                forall|j: int|
                    0 <= j < i ==> self.listeners@[j] != (ListenerRegistration {
                        service,
                        object,
                        event,
                        handle,
                    }),
            decreases self.listeners@.len() - i,
        {
            let l = &self.listeners[i];
            if l.service == service && l.object == object && l.event == event && l.handle
                == handle {
                return Some(i);
            }
            i += 1;
        }
        None
    }

    /// Whether (service, object) is live.
    pub fn contains_object(&self, service: u32, object: u32) -> (r: bool)
        ensures
            r == self.has_object(service, object),
    {
        match self.find_object(service, object) {
            Some(i) => {
                assert(self.has_object(service, object));
                true
            },
            None => false,
        }
    }

    /// Whether this exact listener registration is active.
    pub fn contains_listener(&self, service: u32, object: u32, event: u32, handle: u64) -> (r:
        bool)
        ensures
            r == self.has_listener(service, object, event, handle),
    {
        match self.find_listener(service, object, event, handle) {
            Some(i) => {
                assert(self.has_listener(service, object, event, handle));
                true
            },
            None => false,
        }
    }

    /// Track a new live object; a pair that is already live is left as
    /// it is. Returns whether the pair was newly registered.
    pub fn register_object(&mut self, service: u32, object: u32) -> (r: bool)
        requires
            old(self).wf(),
        ensures
            final(self).wf(),
            r == !old(self).has_object(service, object),
            final(self).has_object(service, object),
            final(self).regs() == old(self).regs(),
            r ==> final(self).live() == old(self).live().push(
                LiveObject { service, object },
            ),
            !r ==> final(self).live() == old(self).live(),
    {
        if self.contains_object(service, object) {
            return false;
        }
        let ghost n = self.objects@.len();
        self.objects.push(LiveObject { service, object });
        proof {
            assert(self.objects@[n as int] == (LiveObject { service, object }));
            assert forall|i: int, j: int|
                0 <= i < j < self.objects@.len() implies self.objects@[i]
                != self.objects@[j] by {
                if j < n {
                    assert(old(self).objects@[i] != old(self).objects@[j]);
                } else {
                    assert(self.objects@[i] == old(self).objects@[i]);
                }
            }
            assert forall|i: int|
                0 <= i < self.listeners@.len() implies has_pair(
                self.objects@,
                #[trigger] self.listeners@[i].service,
                self.listeners@[i].object,
            ) by {
                let svc = self.listeners@[i].service;
                let obj = self.listeners@[i].object;
                assert(has_pair(old(self).objects@, svc, obj));
                let k = choose|k: int|
                    0 <= k < old(self).objects@.len() && old(self).objects@[k] == (LiveObject {
                        service: svc,
                        object: obj,
                    });
                assert(self.objects@[k] == (LiveObject { service: svc, object: obj }));
            }
        }
        true
    }

    /// Register a listener handle on (service, object, event). Fails
    /// with `NoSuchObject` when the pair is not live and with
    /// `AlreadyRegistered` when the exact registration is already
    /// active; both failures leave the registry unchanged, so enabling
    /// twice never corrupts state.
    pub fn add_listener(&mut self, service: u32, object: u32, event: u32, handle: u64) -> (r:
        Result<(), RegistryError>)
        requires
            old(self).wf(),
        ensures
            final(self).wf(),
            final(self).live() == old(self).live(),
            !old(self).has_object(service, object) ==> {
                &&& r == Err::<(), RegistryError>(RegistryError::NoSuchObject)
                &&& final(self).regs() == old(self).regs()
            },
            old(self).has_object(service, object) && old(self).has_listener(
                service,
                object,
                event,
                handle,
            ) ==> {
                &&& r == Err::<(), RegistryError>(RegistryError::AlreadyRegistered)
                &&& final(self).regs() == old(self).regs()
            },
            old(self).has_object(service, object) && !old(self).has_listener(
                service,
                object,
                event,
                handle,
            ) ==> {
                &&& r == Ok::<(), RegistryError>(())
                &&& final(self).regs() == old(self).regs().push(
                    ListenerRegistration { service, object, event, handle },
                )
            },
    {
        if !self.contains_object(service, object) {
            return Err(RegistryError::NoSuchObject);
        }
        if self.contains_listener(service, object, event, handle) {
            return Err(RegistryError::AlreadyRegistered);
        }
        let ghost n = self.listeners@.len();
        self.listeners.push(ListenerRegistration { service, object, event, handle });
        proof {
            assert forall|i: int, j: int|
                0 <= i < j < self.listeners@.len() implies self.listeners@[i]
                != self.listeners@[j] by {
                if j < n {
                    assert(old(self).listeners@[i] != old(self).listeners@[j]);
                } else {
                    assert(self.listeners@[j] == (ListenerRegistration {
                        service,
                        object,
                        event,
                        handle,
                    }));
                    assert(self.listeners@[i] == old(self).listeners@[i]);
                }
            }
            assert forall|i: int|
                0 <= i < self.listeners@.len() implies has_pair(
                self.objects@,
                #[trigger] self.listeners@[i].service,
                self.listeners@[i].object,
            ) by {
                if i < n {
                    assert(has_pair(
                        old(self).objects@,
                        old(self).listeners@[i].service,
                        old(self).listeners@[i].object,
                    ));
                }
            }
        }
        Ok(())
    }

    /// Remove an exact listener registration. Fails with
    /// `NotRegistered`, leaving the registry unchanged, when it is not
    /// active; disabling an absent listener never corrupts state.
    pub fn remove_listener(&mut self, service: u32, object: u32, event: u32, handle: u64) -> (r:
        Result<(), RegistryError>)
        requires
            old(self).wf(),
        ensures
            final(self).wf(),
            final(self).live() == old(self).live(),
            !old(self).has_listener(service, object, event, handle) ==> {
                &&& r == Err::<(), RegistryError>(RegistryError::NotRegistered)
                &&& final(self).regs() == old(self).regs()
            },
            old(self).has_listener(service, object, event, handle) ==> {
                &&& r == Ok::<(), RegistryError>(())
                &&& !final(self).has_listener(service, object, event, handle)
                &&& exists|k: int|
                    {
                        &&& 0 <= k < old(self).regs().len()
                        &&& old(self).regs()[k] == (ListenerRegistration {
                            service,
                            object,
                            event,
                            handle,
                        })
                        &&& final(self).regs() == old(self).regs().remove(k)
                    }
            },
    {
        match self.find_listener(service, object, event, handle) {
            None => Err(RegistryError::NotRegistered),
            Some(i) => {
                let ghost s0 = self.listeners@;
                self.listeners.remove(i);
                proof {
                    let s1 = self.listeners@;
                    assert(s1 == s0.remove(i as int));
                    assert forall|a: int, b: int|
                        0 <= a < b < s1.len() implies s1[a] != s1[b] by {
                        let a0 = if a < i as int {
                            a
                        } else {
                            a + 1
                        };
                        let b0 = if b < i as int {
                            b
                        } else {
                            b + 1
                        };
                        assert(s1[a] == s0[a0] && s1[b] == s0[b0]);
                        assert(s0[a0] != s0[b0]);
                    }
                    assert forall|k: int|
                        0 <= k < s1.len() implies has_pair(
                        self.objects@,
                        #[trigger] s1[k].service,
                        s1[k].object,
                    ) by {
                        let k0 = if k < i as int {
                            k
                        } else {
                            k + 1
                        };
                        assert(s1[k] == s0[k0]);
                        assert(has_pair(self.objects@, s0[k0].service, s0[k0].object));
                    }
                    assert(!self.has_listener(service, object, event, handle)) by {
                        if has_reg(s1, service, object, event, handle) {
                            let k = choose|k: int|
                                0 <= k < s1.len() && s1[k] == (ListenerRegistration {
                                    service,
                                    object,
                                    event,
                                    handle,
                                });
                            let k0 = if k < i as int {
                                k
                            } else {
                                k + 1
                            };
                            assert(s0[k0] == s1[k]);
                            assert(s0[k0] == s0[i as int]);
                            assert(false);
                        }
                    }
                    assert(old(self).regs()[i as int] == (ListenerRegistration {
                        service,
                        object,
                        event,
                        handle,
                    }));
                    assert(self.regs() == old(self).regs().remove(i as int));
                    assert(exists|k: int|
                        {
                            &&& 0 <= k < old(self).regs().len()
                            &&& old(self).regs()[k] == (ListenerRegistration {
                                service,
                                object,
                                event,
                                handle,
                            })
                            &&& self.regs() == old(self).regs().remove(k)
                        });
                }
                Ok(())
            },
        }
    }

    /// The handles listening on (service, object, event), in
    /// registration order; empty when nobody listens. An event envelope
    /// is fanned out to exactly these handles.
    pub fn listeners_for(&self, service: u32, object: u32, event: u32) -> (r: Vec<u64>)
        ensures
            r@ == self.listener_handles(service, object, event),
    {
        let mut out: Vec<u64> = Vec::new();
        let mut i: usize = 0;
        while i < self.listeners.len()
            invariant
                i <= self.listeners@.len(),
                out@ == handles_in(self.listeners@.subrange(0, i as int), service, object, event),
            decreases self.listeners@.len() - i,
        {
            let ghost prefix = self.listeners@.subrange(0, i as int);
            let l = &self.listeners[i];
            if l.service == service && l.object == object && l.event == event {
                out.push(l.handle);
            }
            proof {
                let prefix1 = self.listeners@.subrange(0, i as int + 1);
                assert(prefix1.drop_last() =~= prefix);
                assert(prefix1.last() == self.listeners@[i as int]);
            }
            i += 1;
        }
        proof {
            assert(self.listeners@.subrange(0, self.listeners@.len() as int) =~= self.listeners@);
        }
        out
    }

    /// Release a live object: the pair stops being live and every
    /// listener registration scoped to it is removed, so subsequent
    /// fan-out for that object is empty. Returns whether the pair was
    /// live; releasing an unknown object changes nothing, so a second
    /// release of the same object reports failure and has no further
    /// effect.
    pub fn release_object(&mut self, service: u32, object: u32) -> (r: bool)
        requires
            old(self).wf(),
        ensures
            final(self).wf(),
            r == old(self).has_object(service, object),
            !final(self).has_object(service, object),
            !r ==> final(self).live() == old(self).live() && final(self).regs() == old(
                self,
            ).regs(),
            r ==> final(self).regs() == drop_scoped(old(self).regs(), service, object),
            forall|e: u32, h: u64| !final(self).has_listener(service, object, e, h),
            forall|e: u32|
                #[trigger] final(self).listener_handles(service, object, e) == Seq::<u64>::empty(),
            forall|s2: u32, o2: u32|
                !(s2 == service && o2 == object) ==> #[trigger] final(self).has_object(s2, o2)
                    == old(self).has_object(s2, o2),
            forall|s2: u32, o2: u32, e: u32|
                !(s2 == service && o2 == object) ==> #[trigger] final(self).listener_handles(
                    s2,
                    o2,
                    e,
                ) == old(self).listener_handles(s2, o2, e),
            forall|s2: u32, o2: u32, e: u32, h: u64|
                !(s2 == service && o2 == object) ==> #[trigger] final(self).has_listener(
                    s2,
                    o2,
                    e,
                    h,
                ) == old(self).has_listener(s2, o2, e, h),
    {
        match self.find_object(service, object) {
            None => {
                proof {
                    lemma_not_live_no_listener(*self, service, object);
                    assert forall|e: u32|
                        #[trigger] self.listener_handles(service, object, e)
                            == Seq::<u64>::empty() by {
                        lemma_handles_empty_when_absent(self.listeners@, service, object, e);
                    }
                }
                false
            },
            Some(i) => {
                self.objects.remove(i);
                let ghost s0 = old(self).listeners@;
                let mut kept: Vec<ListenerRegistration> = Vec::new();
                let mut k: usize = 0;
                while k < self.listeners.len()
                    invariant
                        k <= self.listeners@.len(),
                        self.listeners@ == s0,
                        kept@ == drop_scoped(s0.subrange(0, k as int), service, object),
                    decreases self.listeners@.len() - k,
                {
                    let ghost prefix = s0.subrange(0, k as int);
                    let l = &self.listeners[k];
                    if !(l.service == service && l.object == object) {
                        kept.push(*l);
                    }
                    proof {
                        let prefix1 = s0.subrange(0, k as int + 1);
                        assert(prefix1.drop_last() =~= prefix);
                        assert(prefix1.last() == s0[k as int]);
                    }
                    k += 1;
                }
                proof {
                    assert(s0.subrange(0, s0.len() as int) =~= s0);
                }
                self.listeners = kept;
                proof {
                    self.lemma_release_post(*old(self), i as int, service, object);
                }
                true
            },
        }
    }

    /// All the postconditions of a successful release, from the shape
    /// of the removal.
    proof fn lemma_release_post(
        self,
        pre: ObjectEventRegistry,
        i: int,
        service: u32,
        object: u32,
    )
        requires
            pre.wf(),
            0 <= i < pre.objects@.len(),
            pre.objects@[i] == (LiveObject { service, object }),
            self.objects@ == pre.objects@.remove(i),
            self.listeners@ == drop_scoped(pre.listeners@, service, object),
        ensures
            self.wf(),
            !self.has_object(service, object),
            forall|e: u32, h: u64| !self.has_listener(service, object, e, h),
            forall|e: u32|
                #[trigger] self.listener_handles(service, object, e) == Seq::<u64>::empty(),
            forall|s2: u32, o2: u32|
                !(s2 == service && o2 == object) ==> #[trigger] self.has_object(s2, o2)
                    == pre.has_object(s2, o2),
            forall|s2: u32, o2: u32, e: u32|
                !(s2 == service && o2 == object) ==> #[trigger] self.listener_handles(s2, o2, e)
                    == pre.listener_handles(s2, o2, e),
            forall|s2: u32, o2: u32, e: u32, h: u64|
                !(s2 == service && o2 == object) ==> #[trigger] self.has_listener(s2, o2, e, h)
                    == pre.has_listener(s2, o2, e, h),
    {
        lemma_drop_scoped_shape(pre.listeners@, service, object);
        assert(!has_pair(self.objects@, service, object)) by {
            if has_pair(self.objects@, service, object) {
                let k = choose|k: int|
                    0 <= k < self.objects@.len() && self.objects@[k] == (LiveObject {
                        service,
                        object,
                    });
                let k0 = if k < i {
                    k
                } else {
                    k + 1
                };
                assert(pre.objects@[k0] == self.objects@[k]);
                assert(pre.objects@[k0] == pre.objects@[i]);
                assert(false);
            }
        }
        assert forall|a: int, b: int|
            0 <= a < b < self.objects@.len() implies self.objects@[a] != self.objects@[b] by {
            let a0 = if a < i {
                a
            } else {
                a + 1
            };
            let b0 = if b < i {
                b
            } else {
                b + 1
            };
            assert(self.objects@[a] == pre.objects@[a0] && self.objects@[b] == pre.objects@[b0]);
            assert(pre.objects@[a0] != pre.objects@[b0]);
        }
        assert forall|a: int, b: int|
            0 <= a < b < self.listeners@.len() implies self.listeners@[a]
            != self.listeners@[b] by {
            lemma_drop_scoped_distinct(pre.listeners@, service, object);
        }
        assert forall|k: int|
            0 <= k < self.listeners@.len() implies has_pair(
            self.objects@,
            #[trigger] self.listeners@[k].service,
            self.listeners@[k].object,
        ) by {
            let l = self.listeners@[k];
            lemma_drop_scoped_membership(pre.listeners@, service, object, l);
            assert(has_pair(pre.objects@, l.service, l.object));
            let m = choose|m: int|
                0 <= m < pre.objects@.len() && pre.objects@[m] == (LiveObject {
                    service: l.service,
                    object: l.object,
                });
            assert(!(l.service == service && l.object == object));
            assert(m != i);
            let m1 = if m < i {
                m
            } else {
                m - 1
            };
            assert(self.objects@[m1] == pre.objects@[m]);
        }
        assert forall|e: u32, h: u64| !self.has_listener(service, object, e, h) by {
            if has_reg(self.listeners@, service, object, e, h) {
                let k = choose|k: int|
                    0 <= k < self.listeners@.len() && self.listeners@[k] == (ListenerRegistration {
                        service,
                        object,
                        event: e,
                        handle: h,
                    });
                lemma_drop_scoped_membership(pre.listeners@, service, object, self.listeners@[k]);
            }
        }
        assert forall|e: u32|
            #[trigger] self.listener_handles(service, object, e) == Seq::<u64>::empty() by {
            lemma_handles_empty_when_absent(self.listeners@, service, object, e);
        }
        assert forall|s2: u32, o2: u32|
            !(s2 == service && o2 == object) implies #[trigger] self.has_object(s2, o2)
            == pre.has_object(s2, o2) by {
            if has_pair(self.objects@, s2, o2) {
                let k = choose|k: int|
                    0 <= k < self.objects@.len() && self.objects@[k] == (LiveObject {
                        service: s2,
                        object: o2,
                    });
                let k0 = if k < i {
                    k
                } else {
                    k + 1
                };
                assert(pre.objects@[k0] == self.objects@[k]);
            }
            if has_pair(pre.objects@, s2, o2) {
                let k = choose|k: int|
                    0 <= k < pre.objects@.len() && pre.objects@[k] == (LiveObject {
                        service: s2,
                        object: o2,
                    });
                assert(k != i);
                let k1 = if k < i {
                    k
                } else {
                    k - 1
                };
                assert(self.objects@[k1] == pre.objects@[k]);
            }
        }
        assert forall|s2: u32, o2: u32, e: u32|
            !(s2 == service && o2 == object) implies #[trigger] self.listener_handles(s2, o2, e)
            == pre.listener_handles(s2, o2, e) by {
            lemma_drop_scoped_keeps_handles(pre.listeners@, service, object, s2, o2, e);
        }
        assert forall|s2: u32, o2: u32, e: u32, h: u64|
            !(s2 == service && o2 == object) implies #[trigger] self.has_listener(s2, o2, e, h)
            == pre.has_listener(s2, o2, e, h) by {
            lemma_drop_scoped_keeps_regs(pre.listeners@, service, object, s2, o2, e, h);
        }
    }
}

/// A registration can only target a live pair, so a pair that is not
/// live has no listener.
proof fn lemma_not_live_no_listener(r: ObjectEventRegistry, service: u32, object: u32)
    requires
        r.wf(),
        !r.has_object(service, object),
    ensures
        forall|e: u32, h: u64| !r.has_listener(service, object, e, h),
{
    assert forall|e: u32, h: u64| !r.has_listener(service, object, e, h) by {
        if has_reg(r.listeners@, service, object, e, h) {
            let k = choose|k: int|
                0 <= k < r.listeners@.len() && r.listeners@[k] == (ListenerRegistration {
                    service,
                    object,
                    event: e,
                    handle: h,
                });
            assert(has_pair(r.objects@, r.listeners@[k].service, r.listeners@[k].object));
        }
    }
}

/// If no registration in `s` is scoped to (service, object), the
/// fan-out for any of its events is empty.
proof fn lemma_handles_empty_when_absent(
    s: Seq<ListenerRegistration>,
    service: u32,
    object: u32,
    event: u32,
)
    requires
        forall|k: int|
            0 <= k < s.len() ==> !((#[trigger] s[k]).service == service && s[k].object == object),
    ensures
        handles_in(s, service, object, event) == Seq::<u64>::empty(),
    decreases s.len(),
{
    if s.len() > 0 {
        lemma_handles_empty_when_absent(s.drop_last(), service, object, event);
        assert(s.last() == s[s.len() - 1]);
    }
}

/// What `drop_scoped` leaves: exactly the registrations of other
/// objects, each occurring in `s`.
proof fn lemma_drop_scoped_shape(s: Seq<ListenerRegistration>, service: u32, object: u32)
    ensures
        forall|k: int|
            0 <= k < drop_scoped(s, service, object).len() ==> !((#[trigger] drop_scoped(
                s,
                service,
                object,
            )[k]).service == service && drop_scoped(s, service, object)[k].object == object),
    decreases s.len(),
{
    if s.len() > 0 {
        lemma_drop_scoped_shape(s.drop_last(), service, object);
        let d = drop_scoped(s, service, object);
        let d0 = drop_scoped(s.drop_last(), service, object);
        assert forall|k: int|
            0 <= k < d.len() implies !((#[trigger] d[k]).service == service && d[k].object
            == object) by {
            if s.last().service == service && s.last().object == object {
                assert(d[k] == d0[k]);
            } else {
                if k < d.len() - 1 {
                    assert(d[k] == d0[k]);
                } else {
                    assert(d[k] == s.last());
                }
            }
        }
    }
}

/// Membership in the dropped sequence: an element survives exactly when
/// it occurs in `s` and is not scoped to (service, object).
proof fn lemma_drop_scoped_membership(
    s: Seq<ListenerRegistration>,
    service: u32,
    object: u32,
    l: ListenerRegistration,
)
    ensures
        drop_scoped(s, service, object).contains(l) == (s.contains(l) && !(l.service == service
            && l.object == object)),
    decreases s.len(),
{
    if s.len() > 0 {
        lemma_drop_scoped_membership(s.drop_last(), service, object, l);
        assert(s.contains(l) == (s.drop_last().contains(l) || s.last() == l)) by {
            if s.contains(l) {
                let k = choose|k: int| 0 <= k < s.len() && s[k] == l;
                if k < s.len() - 1 {
                    assert(s.drop_last()[k] == l);
                }
            }
            if s.drop_last().contains(l) {
                let k = choose|k: int| 0 <= k < s.drop_last().len() && s.drop_last()[k] == l;
                assert(s[k] == l);
            }
        }
        let d = drop_scoped(s, service, object);
        let d0 = drop_scoped(s.drop_last(), service, object);
        if s.last().service == service && s.last().object == object {
            assert(d == d0);
        } else {
            assert(d == d0.push(s.last()));
            assert(d.contains(l) == (d0.contains(l) || s.last() == l)) by {
                if d.contains(l) {
                    let k = choose|k: int| 0 <= k < d.len() && d[k] == l;
                    if k < d.len() - 1 {
                        assert(d0[k] == l);
                    } else {
                        assert(d[k] == s.last());
                    }
                }
                if d0.contains(l) {
                    let k = choose|k: int| 0 <= k < d0.len() && d0[k] == l;
                    assert(d[k] == l);
                }
                if s.last() == l {
                    assert(d[d.len() - 1] == l);
                }
            }
        }
    }
}

/// Distinct registrations stay distinct after dropping a scope.
proof fn lemma_drop_scoped_distinct(s: Seq<ListenerRegistration>, service: u32, object: u32)
    requires
        forall|i: int, j: int| 0 <= i < j < s.len() ==> s[i] != s[j],
    ensures
        forall|i: int, j: int|
            0 <= i < j < drop_scoped(s, service, object).len() ==> drop_scoped(
                s,
                service,
                object,
            )[i] != drop_scoped(s, service, object)[j],
    decreases s.len(),
{
    if s.len() > 0 {
        assert(forall|i: int, j: int|
            0 <= i < j < s.drop_last().len() ==> s.drop_last()[i] != s.drop_last()[j]);
        lemma_drop_scoped_distinct(s.drop_last(), service, object);
        let d = drop_scoped(s, service, object);
        let d0 = drop_scoped(s.drop_last(), service, object);
        if !(s.last().service == service && s.last().object == object) {
            assert forall|i: int, j: int| 0 <= i < j < d.len() implies d[i] != d[j] by {
                if j == d.len() - 1 {
                    assert(d[j] == s.last());
                    assert(d0.contains(d[i])) by {
                        assert(d0[i] == d[i]);
                    }
                    lemma_drop_scoped_membership(s.drop_last(), service, object, d[i]);
                    assert(s.drop_last().contains(d[i]));
                    let k = choose|k: int|
                        0 <= k < s.drop_last().len() && s.drop_last()[k] == d[i];
                    assert(s[k] == d[i]);
                    assert(s[k] != s.last());
                } else {
                    assert(d0[i] == d[i] && d0[j] == d[j]);
                }
            }
        }
    }
}

/// Dropping one object's registrations keeps the fan-out sequences of
/// every other object, order included.
proof fn lemma_drop_scoped_keeps_handles(
    s: Seq<ListenerRegistration>,
    service: u32,
    object: u32,
    s2: u32,
    o2: u32,
    event: u32,
)
    requires
        !(s2 == service && o2 == object),
    ensures
        handles_in(drop_scoped(s, service, object), s2, o2, event) == handles_in(
            s,
            s2,
            o2,
            event,
        ),
    decreases s.len(),
{
    if s.len() > 0 {
        lemma_drop_scoped_keeps_handles(s.drop_last(), service, object, s2, o2, event);
        let d = drop_scoped(s, service, object);
        let d0 = drop_scoped(s.drop_last(), service, object);
        if s.last().service == service && s.last().object == object {
            assert(d == d0);
        } else {
            assert(d == d0.push(s.last()));
            assert(d.drop_last() =~= d0);
            assert(d.last() == s.last());
        }
    }
}

/// Dropping one object's registrations keeps exact membership for every
/// other object.
proof fn lemma_drop_scoped_keeps_regs(
    s: Seq<ListenerRegistration>,
    service: u32,
    object: u32,
    s2: u32,
    o2: u32,
    event: u32,
    handle: u64,
)
    requires
        !(s2 == service && o2 == object),
    ensures
        has_reg(drop_scoped(s, service, object), s2, o2, event, handle) == has_reg(
            s,
            s2,
            o2,
            event,
            handle,
        ),
{
    let l = ListenerRegistration { service: s2, object: o2, event, handle };
    lemma_drop_scoped_membership(s, service, object, l);
    assert(has_reg(drop_scoped(s, service, object), s2, o2, event, handle) == drop_scoped(
        s,
        service,
        object,
    ).contains(l));
    assert(has_reg(s, s2, o2, event, handle) == s.contains(l));
}

} // verus!
