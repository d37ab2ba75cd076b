//! Service directory: the (service-name -> ServiceId) bindings known to
//! the session. Bindings are established by the embedding environment;
//! the core registry service only exposes them over the protocol.

use vstd::prelude::*;

verus! {

/// One binding of a service name to its id.
pub struct ServiceBinding {
    pub name: String,
    pub service: u32,
}

/// Whether `s` binds a name with this view.
pub open spec fn binds(s: Seq<ServiceBinding>, name: Seq<char>) -> bool {
    exists|k: int| 0 <= k < s.len() && s[k].name@ == name
}

/// The id `s` binds the name to; well-defined when names are distinct
/// and the name is bound.
pub open spec fn bound_id(s: Seq<ServiceBinding>, name: Seq<char>) -> u32 {
    s[choose|k: int| 0 <= k < s.len() && s[k].name@ == name].service
}

/// The directory of service-name bindings; names are unique.
pub struct ServiceDirectory {
    bindings: Vec<ServiceBinding>,
}

impl ServiceDirectory {
    /// Well-formedness: bound names are pairwise distinct.
    pub closed spec fn wf(self) -> bool {
        forall|i: int, j: int|
            0 <= i < j < self.bindings@.len() ==> self.bindings@[i].name@
                != self.bindings@[j].name@
    }

    /// Whether this name is bound.
    pub closed spec fn has_binding(self, name: Seq<char>) -> bool {
        binds(self.bindings@, name)
    }

    /// The id this name is bound to; well-defined under `wf` when the
    /// name is bound.
    pub closed spec fn binding_of(self, name: Seq<char>) -> u32 {
        bound_id(self.bindings@, name)
    }

    /// An empty directory.
    pub fn new() -> (r: ServiceDirectory)
        ensures
            r.wf(),
            forall|name: Seq<char>| !r.has_binding(name),
    {
        ServiceDirectory { bindings: Vec::new() }
    }

    fn find(&self, name: &String) -> (r: Option<usize>)
        ensures
            match r {
                Some(i) => i < self.bindings@.len() && self.bindings@[i as int].name@ == name@,
                None => !self.has_binding(name@),
            },
    {
        let mut i: usize = 0;
        while i < self.bindings.len()
            invariant
                i <= self.bindings@.len(),
                forall|j: int| 0 <= j < i ==> self.bindings@[j].name@ != name@,
            decreases self.bindings@.len() - i,
        {
            if self.bindings[i].name == *name {
                return Some(i);
            }
            i += 1;
        }
        None
    }

    /// Bind a name to a service id. A name that is already bound keeps
    /// its binding; the return value says whether the binding is new.
    pub fn bind(&mut self, name: String, service: u32) -> (r: bool)
        requires
            old(self).wf(),
        ensures
            final(self).wf(),
            r == !old(self).has_binding(name@),
            final(self).has_binding(name@),
            r ==> final(self).binding_of(name@) == service,
            !r ==> final(self).binding_of(name@) == old(self).binding_of(name@),
            forall|other: Seq<char>|
                other != name@ ==> #[trigger] final(self).has_binding(other) == old(
                    self,
                ).has_binding(other) && (old(self).has_binding(other) ==> final(self).binding_of(
                    other,
                ) == old(self).binding_of(other)),
    {
        if self.find(&name).is_some() {
            return false;
        }
        let ghost n = self.bindings@.len();
        let ghost nm = name@;
        self.bindings.push(ServiceBinding { name, service });
        proof {
            assert(self.bindings@[n as int].name@ == nm);
            assert forall|i: int, j: int|
                0 <= i < j < self.bindings@.len() implies self.bindings@[i].name@
                != self.bindings@[j].name@ by {
                if j < n {
                    assert(old(self).bindings@[i].name@ != old(self).bindings@[j].name@);
                } else {
                    assert(self.bindings@[i] == old(self).bindings@[i]);
                }
            }
            assert(self.has_binding(nm));
            assert(self.binding_of(nm) == service) by {
                let k = choose|k: int|
                    0 <= k < self.bindings@.len() && self.bindings@[k].name@ == nm;
                assert(k == n);
            }
            assert forall|other: Seq<char>|
                other != nm implies #[trigger] self.has_binding(other) == old(self).has_binding(
                other,
            ) && (old(self).has_binding(other) ==> self.binding_of(other) == old(self).binding_of(
                other,
            )) by {
                if binds(self.bindings@, other) {
                    let k = choose|k: int|
                        0 <= k < self.bindings@.len() && self.bindings@[k].name@ == other;
                    assert(k < n);
                    assert(old(self).bindings@[k].name@ == other);
                }
                if binds(old(self).bindings@, other) {
                    let k = choose|k: int|
                        0 <= k < old(self).bindings@.len() && old(self).bindings@[k].name@
                            == other;
                    assert(self.bindings@[k].name@ == other);
                    let k2 = choose|k2: int|
                        0 <= k2 < self.bindings@.len() && self.bindings@[k2].name@ == other;
                    assert(self.bindings@[k2].name@ == self.bindings@[k].name@);
                    assert(k2 == k);
                }
            }
        }
        true
    }

    /// Look a name up: the bound id, or `None` when the name is
    /// unknown.
    pub fn lookup(&self, name: &String) -> (r: Option<u32>)
        requires
            self.wf(),
        ensures
            r == if self.has_binding(name@) {
                Some(self.binding_of(name@))
            } else {
                None::<u32>
            },
    {
        match self.find(name) {
            Some(i) => {
                proof {
                    assert(self.has_binding(name@));
                    let k = choose|k: int|
                        0 <= k < self.bindings@.len() && self.bindings@[k].name@ == name@;
                    assert(self.bindings@[k].name@ == self.bindings@[i as int].name@);
                    assert(k == i as int);
                }
                Some(self.bindings[i].service)
            },
            None => None,
        }
    }
}

} // verus!
