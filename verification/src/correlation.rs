//! Correlation table: maps outstanding request identifiers to pending
//! callers and resolves them on a matching response.
//!
//! The table is keyed by the request id alone; the dispatcher validates
//! that a response's (service, object) matches the bookkept destination
//! before resolving, which keeps the table transport-agnostic.

use vstd::prelude::*;

verus! {

/// A pending call, owned by the table from issuance until a matching
/// response arrives or the call is cancelled.
#[derive(Clone, Copy, Debug, PartialEq, Eq, Structural)]
pub struct PendingCall {
    /// The correlation id of the outstanding request.
    pub request_id: u64,
    /// Destination service of the original request.
    pub service: u32,
    /// Destination object of the original request.
    pub object: u32,
    /// The completion handle of whoever awaits the response; the
    /// embedding environment interprets it.
    pub handle: u64,
}

/// Table errors: a duplicate registration is a broken id-allocation
/// invariant and surfaced hard; an unknown id on resolution is the
/// normal fate of late, duplicate or foreign responses.
#[derive(Clone, Copy, Debug, PartialEq, Eq, Structural)]
pub enum CorrelationError {
    DuplicateRequest,
    UnknownRequest,
}

/// The correlation table: a monotonic id counter and the outstanding
/// calls. No two outstanding calls ever share an id.
pub struct CorrelationTable {
    next_id: u64,
    pending: Vec<PendingCall>,
}

/// `x + i` in the 64-bit id space, wrapping around past `u64::MAX`.
pub open spec fn wrap_add(x: u64, i: nat) -> u64
    recommends
        i < 0x10000000000000000,
{
    if x + i < 0x10000000000000000 {
        (x + i) as u64
    } else {
        (x + i - 0x10000000000000000) as u64
    }
}

/// Whether some call in `s` carries the request id `v`.
pub open spec fn has_id(s: Seq<PendingCall>, v: u64) -> bool {
    exists|k: int| 0 <= k < s.len() && s[k].request_id == v
}

/// The call in `s` carrying the request id `v`; well-defined when ids
/// are distinct and `v` occurs.
pub open spec fn entry_in(s: Seq<PendingCall>, v: u64) -> PendingCall {
    s[choose|k: int| 0 <= k < s.len() && s[k].request_id == v]
}

/// The calls of `s` not destined for (service, object), in order: what
/// a release of that object leaves outstanding.
pub open spec fn drop_dest(s: Seq<PendingCall>, service: u32, object: u32) -> Seq<PendingCall>
    decreases s.len(),
{
    if s.len() == 0 {
        Seq::empty()
    } else {
        let rest = drop_dest(s.drop_last(), service, object);
        if s.last().service == service && s.last().object == object {
            rest
        } else {
            rest.push(s.last())
        }
    }
}

/// The calls of `s` destined for (service, object), in order: what a
/// release of that object cancels.
pub open spec fn take_dest(s: Seq<PendingCall>, service: u32, object: u32) -> Seq<PendingCall>
    decreases s.len(),
{
    if s.len() == 0 {
        Seq::empty()
    } else {
        let rest = take_dest(s.drop_last(), service, object);
        if s.last().service == service && s.last().object == object {
            rest.push(s.last())
        } else {
            rest
        }
    }
}

/// Membership in the partition: a call lands in `drop_dest` exactly
/// when it occurs in `s` and is not destined for (service, object),
/// and in `take_dest` exactly when it occurs and is.
proof fn lemma_dest_partition_membership(
    s: Seq<PendingCall>,
    service: u32,
    object: u32,
    pc: PendingCall,
)
    ensures
        drop_dest(s, service, object).contains(pc) == (s.contains(pc) && !(pc.service == service
            && pc.object == object)),
        take_dest(s, service, object).contains(pc) == (s.contains(pc) && pc.service == service
            && pc.object == object),
    decreases s.len(),
{
    if s.len() > 0 {
        lemma_dest_partition_membership(s.drop_last(), service, object, pc);
        assert(s.contains(pc) == (s.drop_last().contains(pc) || s.last() == pc)) by {
            if s.contains(pc) {
                let k = choose|k: int| 0 <= k < s.len() && s[k] == pc;
                if k < s.len() - 1 {
                    assert(s.drop_last()[k] == pc);
                }
            }
            if s.drop_last().contains(pc) {
                let k = choose|k: int| 0 <= k < s.drop_last().len() && s.drop_last()[k] == pc;
                assert(s[k] == pc);
            }
        }
        lemma_push_contains(drop_dest(s.drop_last(), service, object), s.last(), pc);
        lemma_push_contains(take_dest(s.drop_last(), service, object), s.last(), pc);
    }
}

/// Pushing one element extends membership by exactly that element.
proof fn lemma_push_contains(s: Seq<PendingCall>, x: PendingCall, pc: PendingCall)
    ensures
        s.push(x).contains(pc) == (s.contains(pc) || x == pc),
{
    if s.push(x).contains(pc) {
        let k = choose|k: int| 0 <= k < s.push(x).len() && s.push(x)[k] == pc;
        if k < s.len() {
            assert(s[k] == pc);
        }
    }
    if s.contains(pc) {
        let k = choose|k: int| 0 <= k < s.len() && s[k] == pc;
        assert(s.push(x)[k] == pc);
    }
    if x == pc {
        assert(s.push(x)[s.len() as int] == pc);
    }
}

/// Every element the partition keeps occurs in `s`; used to carry
/// distinctness over.
proof fn lemma_drop_dest_distinct(s: Seq<PendingCall>, service: u32, object: u32)
    requires
        forall|i: int, j: int|
            0 <= i < j < s.len() ==> s[i].request_id != s[j].request_id,
    ensures
        forall|i: int, j: int|
            0 <= i < j < drop_dest(s, service, object).len() ==> drop_dest(
                s,
                service,
                object,
            )[i].request_id != drop_dest(s, service, object)[j].request_id,
    decreases s.len(),
{
    if s.len() > 0 {
        assert(forall|i: int, j: int|
            0 <= i < j < s.drop_last().len() ==> s.drop_last()[i].request_id
                != s.drop_last()[j].request_id);
        lemma_drop_dest_distinct(s.drop_last(), service, object);
        let d = drop_dest(s, service, object);
        let d0 = drop_dest(s.drop_last(), service, object);
        if !(s.last().service == service && s.last().object == object) {
            assert forall|i: int, j: int|
                0 <= i < j < d.len() implies d[i].request_id != d[j].request_id by {
                if j == d.len() - 1 {
                    assert(d[j] == s.last());
                    assert(d0.contains(d[i])) by {
                        assert(d0[i] == d[i]);
                    }
                    lemma_dest_partition_membership(s.drop_last(), service, object, d[i]);
                    let k = choose|k: int|
                        0 <= k < s.drop_last().len() && s.drop_last()[k] == d[i];
                    assert(s[k] == d[i]);
                    assert(s[k].request_id != s[s.len() - 1].request_id);
                } else {
                    assert(d0[i] == d[i] && d0[j] == d[j]);
                }
            }
        }
    }
}

/// No two outstanding calls share an id: the call outstanding under an
/// id carries exactly that id, so distinct outstanding ids always name
/// distinct calls. Well-formedness is established by `new` and kept by
/// every method, so this holds at any point of a session.
pub proof fn lemma_pending_ids_unique(t: CorrelationTable, id1: u64, id2: u64)
    requires
        t.wf(),
        t.is_pending(id1),
        t.is_pending(id2),
        id1 != id2,
    ensures
        t.entry_of(id1).request_id == id1,
        t.entry_of(id2).request_id == id2,
        t.entry_of(id1) != t.entry_of(id2),
{
}

/// Distinct offsets below the wraparound period reach distinct ids.
proof fn lemma_wrap_inj(x: u64, i: nat, j: nat)
    requires
        i < j,
        j < 0x10000000000000000,
    ensures
        wrap_add(x, i) != wrap_add(x, j),
{
}

/// Taking one more step is the guarded increment the executable
/// code performs.
proof fn lemma_wrap_step(x: u64, i: nat)
    requires
        i + 1 < 0x10000000000000000,
    ensures
        wrap_add(x, i + 1) == if wrap_add(x, i) == u64::MAX {
            0u64
        } else {
            (wrap_add(x, i) + 1) as u64
        },
{
}

/// Pigeonhole: scanning `s.len() + 1` consecutive ids from any start
/// must pass a free one, since `s` holds only `s.len()` ids.
proof fn lemma_fresh_id_exists(s: Seq<PendingCall>, x: u64)
    requires
        s.len() < u64::MAX,
    ensures
        exists|j: nat| j <= s.len() && !has_id(s, wrap_add(x, j)),
    decreases s.len(),
{
    if s.len() == 0 {
        assert(!has_id(s, wrap_add(x, 0)));
    } else {
        let n = s.len();
        if !has_id(s, wrap_add(x, n)) {
            assert(n <= s.len() && !has_id(s, wrap_add(x, n)));
        } else {
            let k = choose|k: int| 0 <= k < n && s[k].request_id == wrap_add(x, n);
            let s2 = s.remove(k);
            lemma_fresh_id_exists(s2, x);
            let j = choose|j: nat| j <= s2.len() && !has_id(s2, wrap_add(x, j));
            lemma_wrap_inj(x, j, n);
            assert(!has_id(s, wrap_add(x, j))) by {
                if has_id(s, wrap_add(x, j)) {
                    let m = choose|m: int| 0 <= m < s.len() && s[m].request_id == wrap_add(x, j);
                    if m == k {
                        assert(false);
                    } else if m < k {
                        assert(s2[m].request_id == wrap_add(x, j));
                        assert(false);
                    } else {
                        assert(s2[m - 1].request_id == wrap_add(x, j));
                        assert(false);
                    }
                }
            }
            assert(j <= s.len() && !has_id(s, wrap_add(x, j)));
        }
    }
}

impl CorrelationTable {
    /// Well-formedness: outstanding request ids are pairwise distinct.
    pub closed spec fn wf(self) -> bool {
        forall|i: int, j: int|
            0 <= i < j < self.pending@.len() ==> self.pending@[i].request_id
                != self.pending@[j].request_id
    }

    /// Whether a call with this id is outstanding.
    pub closed spec fn is_pending(self, id: u64) -> bool {
        has_id(self.pending@, id)
    }

    /// The outstanding call with this id; well-defined under `wf` when
    /// `is_pending(id)`.
    pub closed spec fn entry_of(self, id: u64) -> PendingCall {
        entry_in(self.pending@, id)
    }

    /// How many calls are outstanding.
    pub closed spec fn pending_count(self) -> nat {
        self.pending@.len()
    }

    /// Everything outside `id` kept: the same calls are outstanding,
    /// with the same entries.
    pub open spec fn unchanged_except(self, other: CorrelationTable, id: u64) -> bool {
        forall|x: u64|
            x != id ==> #[trigger] self.is_pending(x) == other.is_pending(x) && (
            other.is_pending(x) ==> self.entry_of(x) == other.entry_of(x))
    }

    /// Every call kept: the same calls are outstanding, with the same
    /// entries, and as many of them.
    pub open spec fn same_entries(self, other: CorrelationTable) -> bool {
        &&& forall|x: u64|
            #[trigger] self.is_pending(x) == other.is_pending(x) && (other.is_pending(x)
                ==> self.entry_of(x) == other.entry_of(x))
        &&& self.pending_count() == other.pending_count()
    }

    /// An empty table.
    pub fn new() -> (r: CorrelationTable)
        ensures
            r.wf(),
            forall|id: u64| !r.is_pending(id),
            r.pending_count() == 0,
    {
        CorrelationTable { next_id: 0, pending: Vec::new() }
    }

    fn find_index(&self, id: u64) -> (r: Option<usize>)
        ensures
            match r {
                Some(i) => i < self.pending@.len() && self.pending@[i as int].request_id == id,
                None => !self.is_pending(id),
            },
    {
        let mut i: usize = 0;
        while i < self.pending.len()
            invariant
                i <= self.pending@.len(),
                forall|j: int| 0 <= j < i ==> self.pending@[j].request_id != id,
            decreases self.pending@.len() - i,
        {
            if self.pending[i].request_id == id {
                return Some(i);
            }
            i += 1;
        }
        None
    }

    /// Whether a call with this id is outstanding.
    pub fn contains(&self, id: u64) -> (r: bool)
        ensures
            r == self.is_pending(id),
    {
        let found = self.find_index(id);
        match found {
            Some(i) => {
                assert(self.is_pending(id));
                true
            },
            None => false,
        }
    }

    /// The outstanding call with this id, if any.
    pub fn get(&self, id: u64) -> (r: Option<PendingCall>)
        requires
            self.wf(),
        ensures
            r == if self.is_pending(id) {
                Some(self.entry_of(id))
            } else {
                None::<PendingCall>
            },
    {
        let found = self.find_index(id);
        match found {
            Some(i) => {
                assert(self.is_pending(id));
                Some(self.pending[i])
            },
            None => None,
        }
    }

    /// Allocate a fresh id, not currently outstanding: a monotonic
    /// counter whose wraparound is guarded by an occupancy check. The
    /// table's outstanding calls are untouched. The bound on the number
    /// of outstanding calls is a machine limit: it guarantees that a
    /// free id exists at all.
    pub fn issue(&mut self) -> (r: u64)
        requires
            old(self).wf(),
            old(self).pending_count() < u64::MAX,
        ensures
            final(self).wf(),
            !final(self).is_pending(r),
            final(self).same_entries(*old(self)),
    {
        let ghost x = self.next_id;
        let ghost n = self.pending@.len();
        let mut steps: u64 = 0;
        let mut candidate = self.next_id;
        loop
            invariant
                self.wf(),
                self.pending@ == old(self).pending@,
                n == self.pending@.len(),
                n < u64::MAX,
                steps <= n,
                candidate == wrap_add(x, steps as nat),
                forall|j: u64| j < steps ==> has_id(self.pending@, wrap_add(x, j as nat)),
            ensures
                !self.is_pending(candidate),
                self.pending@ == old(self).pending@,
            decreases n - steps,
        {
            if !self.contains(candidate) {
                break ;
            }
            proof {
                assert(has_id(self.pending@, candidate));
                if steps == n {
                    lemma_fresh_id_exists(self.pending@, x);
                    let j = choose|j: nat|
                        j <= self.pending@.len() && !has_id(self.pending@, wrap_add(x, j));
                    if j < n {
                        assert(has_id(self.pending@, wrap_add(x, j as u64 as nat)));
                    }
                    assert(false);
                }
                assert(steps < n);
                lemma_wrap_step(x, steps as nat);
            }
            let ghost occupied = steps;
            steps = steps + 1;
            candidate = if candidate == u64::MAX {
                0u64
            } else {
                candidate + 1
            };
            proof {
                assert forall|j: u64| j < steps implies has_id(
                    self.pending@,
                    wrap_add(x, j as nat),
                ) by {
                    if j < occupied {
                    } else {
                        assert(j == occupied);
                    }
                }
            }
        }
        self.next_id = if candidate == u64::MAX {
            0
        } else {
            candidate + 1
        };
        candidate
    }

    /// Store a pending call under `id`. Fails with `DuplicateRequest`,
    /// leaving the table unchanged, exactly when `id` is already
    /// outstanding.
    pub fn register(&mut self, id: u64, service: u32, object: u32, handle: u64) -> (r: Result<
        (),
        CorrelationError,
    >)
        requires
            old(self).wf(),
        ensures
            final(self).wf(),
            old(self).is_pending(id) ==> {
                &&& r == Err::<(), CorrelationError>(CorrelationError::DuplicateRequest)
                &&& final(self).same_entries(*old(self))
            },
            !old(self).is_pending(id) ==> {
                &&& r == Ok::<(), CorrelationError>(())
                &&& final(self).is_pending(id)
                &&& final(self).entry_of(id) == (PendingCall {
                    request_id: id,
                    service,
                    object,
                    handle,
                })
                &&& final(self).unchanged_except(*old(self), id)
                &&& final(self).pending_count() == old(self).pending_count() + 1
            },
    {
        if self.contains(id) {
            return Err(CorrelationError::DuplicateRequest);
        }
        let pc = PendingCall { request_id: id, service, object, handle };
        let ghost n = self.pending@.len();
        self.pending.push(pc);
        proof {
            assert(self.pending@[n as int] == pc);
            assert(self.is_pending(id));
            assert forall|i: int, j: int|
                0 <= i < j < self.pending@.len() implies self.pending@[i].request_id
                != self.pending@[j].request_id by {
                if j < n {
                    assert(old(self).pending@[i].request_id != old(self).pending@[j].request_id);
                }
            }
            assert(self.entry_of(id) == pc);
            assert forall|x: u64| x != id implies #[trigger] self.is_pending(x) == old(
                self,
            ).is_pending(x) && (old(self).is_pending(x) ==> self.entry_of(x) == old(
                self,
            ).entry_of(x)) by {
                if self.is_pending(x) {
                    let i = choose|i: int|
                        0 <= i < self.pending@.len() && self.pending@[i].request_id == x;
                    assert(i < n);
                    assert(old(self).pending@[i].request_id == x);
                }
                if old(self).is_pending(x) {
                    let i = choose|i: int|
                        0 <= i < old(self).pending@.len() && old(self).pending@[i].request_id == x;
                    assert(self.pending@[i].request_id == x);
                    assert(self.is_pending(x));
                    let k = choose|k: int|
                        0 <= k < self.pending@.len() && self.pending@[k].request_id == x;
                    assert(self.pending@[k].request_id == self.pending@[i].request_id);
                    assert(k == i);
                }
            }
        }
        Ok(())
    }

    /// Complete and remove the pending call under `id`, handing its
    /// record back so the caller can deliver the payload. Returns
    /// `UnknownRequest` and leaves the table unchanged exactly when no
    /// call with that id is outstanding: the fate of late, duplicate and
    /// foreign responses.
    pub fn resolve(&mut self, id: u64) -> (r: Result<PendingCall, CorrelationError>)
        requires
            old(self).wf(),
        ensures
            final(self).wf(),
            !old(self).is_pending(id) ==> {
                &&& r == Err::<PendingCall, CorrelationError>(CorrelationError::UnknownRequest)
                &&& final(self).same_entries(*old(self))
            },
            old(self).is_pending(id) ==> {
                &&& r == Ok::<PendingCall, CorrelationError>(old(self).entry_of(id))
                &&& !final(self).is_pending(id)
                &&& final(self).unchanged_except(*old(self), id)
                &&& final(self).pending_count() + 1 == old(self).pending_count()
            },
    {
        let found = self.find_index(id);
        match found {
            None => Err(CorrelationError::UnknownRequest),
            Some(i) => {
                let pc = self.pending.remove(i);
                proof {
                    let s0 = old(self).pending@;
                    let s1 = self.pending@;
                    assert(s1 == s0.remove(i as int));
                    assert(old(self).is_pending(id));
                    assert(old(self).entry_of(id) == pc) by {
                        let k = choose|k: int| 0 <= k < s0.len() && s0[k].request_id == id;
                        assert(s0[k].request_id == s0[i as int].request_id);
                        assert(k == i);
                    }
                    assert forall|x: u64| x != id implies #[trigger] self.is_pending(x) == old(
                        self,
                    ).is_pending(x) && (old(self).is_pending(x) ==> self.entry_of(x) == old(
                        self,
                    ).entry_of(x)) by {
                        Self::lemma_remove_keeps(s0, i as int, x);
                    }
                    assert(!self.is_pending(id)) by {
                        if self.is_pending(id) {
                            let k = choose|k: int| 0 <= k < s1.len() && s1[k].request_id == id;
                            if k < i {
                                assert(s0[k].request_id == id);
                                assert(k != i);
                            } else {
                                assert(s0[k + 1].request_id == id);
                                assert(k + 1 != i);
                            }
                        }
                    }
                }
                Ok(pc)
            },
        }
    }

    /// After removing index `i`, every other id stays outstanding with
    /// the same entry, provided ids are pairwise distinct.
    proof fn lemma_remove_keeps(s0: Seq<PendingCall>, i: int, x: u64)
        requires
            0 <= i < s0.len(),
            forall|a: int, b: int|
                0 <= a < b < s0.len() ==> s0[a].request_id != s0[b].request_id,
            x != s0[i].request_id,
        ensures
            (exists|k: int| 0 <= k < s0.remove(i).len() && s0.remove(i)[k].request_id == x)
                == (exists|k: int| 0 <= k < s0.len() && s0[k].request_id == x),
            (exists|k: int| 0 <= k < s0.len() && s0[k].request_id == x) ==> s0.remove(i)[
                choose|k: int| 0 <= k < s0.remove(i).len() && s0.remove(i)[k].request_id == x
            ] == s0[choose|k: int| 0 <= k < s0.len() && s0[k].request_id == x],
    {
        let s1 = s0.remove(i);
        if exists|k: int| 0 <= k < s0.len() && s0[k].request_id == x {
            let k = choose|k: int| 0 <= k < s0.len() && s0[k].request_id == x;
            assert(k != i);
            if k < i {
                assert(s1[k].request_id == x);
            } else {
                assert(s1[k - 1].request_id == x);
            }
            let k1 = choose|k1: int| 0 <= k1 < s1.len() && s1[k1].request_id == x;
            if k1 < i {
                assert(s0[k1].request_id == x);
                assert(k1 == k);
            } else {
                assert(s0[k1 + 1].request_id == x);
                assert(k1 + 1 == k);
            }
        } else {
            if exists|k: int| 0 <= k < s1.len() && s1[k].request_id == x {
                let k1 = choose|k1: int| 0 <= k1 < s1.len() && s1[k1].request_id == x;
                if k1 < i {
                    assert(s0[k1].request_id == x);
                } else {
                    assert(s0[k1 + 1].request_id == x);
                }
            }
        }
    }

    /// Remove and return the pending call under `id` for explicit
    /// cancellation or timeout; `None` when it is not outstanding. A
    /// cancellation racing an in-flight resolution is safe: whichever
    /// acts first wins, the loser observes "not found".
    pub fn cancel(&mut self, id: u64) -> (r: Option<PendingCall>)
        requires
            old(self).wf(),
        ensures
            final(self).wf(),
            !old(self).is_pending(id) ==> {
                &&& r == None::<PendingCall>
                &&& final(self).same_entries(*old(self))
            },
            old(self).is_pending(id) ==> {
                &&& r == Some(old(self).entry_of(id))
                &&& !final(self).is_pending(id)
                &&& final(self).unchanged_except(*old(self), id)
                &&& final(self).pending_count() + 1 == old(self).pending_count()
            },
    {
        match self.resolve(id) {
            Ok(pc) => Some(pc),
            Err(_) => None,
        }
    }

    /// Cancel every pending call destined for (service, object): the
    /// release cascade. Afterwards a call is outstanding exactly when
    /// it was outstanding and aimed elsewhere, so any response for the
    /// released object resolves to `UnknownRequest`. The cancelled
    /// calls are returned so the caller can signal whoever was waiting.
    pub fn cancel_scoped(&mut self, service: u32, object: u32) -> (r: Vec<PendingCall>)
        requires
            old(self).wf(),
        ensures
            final(self).wf(),
            forall|id: u64|
                #[trigger] final(self).is_pending(id) == (old(self).is_pending(id) && !(old(
                    self,
                ).entry_of(id).service == service && old(self).entry_of(id).object == object)),
            forall|id: u64|
                #[trigger] final(self).is_pending(id) ==> final(self).entry_of(id) == old(
                    self,
                ).entry_of(id),
            forall|k: int|
                0 <= k < r@.len() ==> {
                    &&& old(self).is_pending((#[trigger] r@[k]).request_id)
                    &&& old(self).entry_of(r@[k].request_id) == r@[k]
                    &&& r@[k].service == service
                    &&& r@[k].object == object
                },
            forall|id: u64|
                old(self).is_pending(id) && (#[trigger] old(self).entry_of(id)).service == service
                    && old(self).entry_of(id).object == object ==> exists|k: int|
                    0 <= k < r@.len() && r@[k].request_id == id,
    {
        let ghost s0 = self.pending@;
        let mut kept: Vec<PendingCall> = Vec::new();
        let mut removed: Vec<PendingCall> = Vec::new();
        let mut i: usize = 0;
        while i < self.pending.len()
            invariant
                i <= self.pending@.len(),
                self.pending@ == s0,
                kept@ == drop_dest(s0.subrange(0, i as int), service, object),
                removed@ == take_dest(s0.subrange(0, i as int), service, object),
            decreases self.pending@.len() - i,
        {
            let ghost prefix = s0.subrange(0, i as int);
            let pc = self.pending[i];
            if pc.service == service && pc.object == object {
                removed.push(pc);
            } else {
                kept.push(pc);
            }
            proof {
                let prefix1 = s0.subrange(0, i as int + 1);
                assert(prefix1.drop_last() =~= prefix);
                assert(prefix1.last() == s0[i as int]);
            }
            i += 1;
        }
        proof {
            assert(s0.subrange(0, s0.len() as int) =~= s0);
        }
        self.pending = kept;
        proof {
            let s1 = self.pending@;
            assert(s1 == drop_dest(s0, service, object));
            lemma_drop_dest_distinct(s0, service, object);
            assert forall|id: u64|
                #[trigger] self.is_pending(id) == (old(self).is_pending(id) && !(old(
                    self,
                ).entry_of(id).service == service && old(self).entry_of(id).object
                    == object)) && (self.is_pending(id) ==> self.entry_of(id) == old(
                self,
            ).entry_of(id)) by {
                if has_id(s1, id) {
                    let k = choose|k: int| 0 <= k < s1.len() && s1[k].request_id == id;
                    let pc = s1[k];
                    assert(s1.contains(pc));
                    lemma_dest_partition_membership(s0, service, object, pc);
                    let m2 = choose|m2: int| 0 <= m2 < s0.len() && s0[m2] == pc;
                    assert(s0[m2].request_id == id);
                    assert(has_id(s0, id));
                    let m = choose|m: int| 0 <= m < s0.len() && s0[m].request_id == id;
                    assert(m == m2);
                    assert(entry_in(s0, id) == pc);
                    let k2 = choose|k2: int| 0 <= k2 < s1.len() && s1[k2].request_id == id;
                    assert(s1[k2].request_id == s1[k].request_id);
                    assert(k2 == k);
                    assert(entry_in(s1, id) == pc);
                }
                if has_id(s0, id) {
                    let m = choose|m: int| 0 <= m < s0.len() && s0[m].request_id == id;
                    let pc = s0[m];
                    assert(entry_in(s0, id) == pc);
                    if !(pc.service == service && pc.object == object) {
                        assert(s0.contains(pc));
                        lemma_dest_partition_membership(s0, service, object, pc);
                        let k = choose|k: int| 0 <= k < s1.len() && s1[k] == pc;
                        assert(s1[k].request_id == id);
                        assert(has_id(s1, id));
                    }
                }
            }
            assert forall|k: int|
                0 <= k < removed@.len() implies {
                &&& old(self).is_pending((#[trigger] removed@[k]).request_id)
                &&& old(self).entry_of(removed@[k].request_id) == removed@[k]
                &&& removed@[k].service == service
                &&& removed@[k].object == object
            } by {
                let pc = removed@[k];
                assert(take_dest(s0, service, object).contains(pc));
                lemma_dest_partition_membership(s0, service, object, pc);
                let m2 = choose|m2: int| 0 <= m2 < s0.len() && s0[m2] == pc;
                assert(s0[m2].request_id == pc.request_id);
                assert(has_id(s0, pc.request_id));
                let m = choose|m: int| 0 <= m < s0.len() && s0[m].request_id == pc.request_id;
                assert(m == m2);
            }
            assert forall|id: u64|
                old(self).is_pending(id) && (#[trigger] old(self).entry_of(id)).service == service
                    && old(self).entry_of(id).object == object implies exists|k: int|
                0 <= k < removed@.len() && removed@[k].request_id == id by {
                let m = choose|m: int| 0 <= m < s0.len() && s0[m].request_id == id;
                let pc = s0[m];
                assert(entry_in(s0, id) == pc);
                assert(s0.contains(pc));
                lemma_dest_partition_membership(s0, service, object, pc);
                let k = choose|k: int|
                    0 <= k < removed@.len() && removed@[k] == pc;
                assert(removed@[k].request_id == id);
            }
        }
        removed
    }
}

} // verus!
