//! Dispatcher: the top-level routing of decoded envelopes.
//!
//! Requests for service 0 are handed to the core registry service
//! synchronously; requests for other services are recorded so the
//! eventual response can be validated, then forwarded. A response must
//! match the bookkept (service, object) destination of its request id,
//! otherwise it is dropped as unknown. An event is fanned out to the
//! current listeners of its (service, object, event) triple; the event
//! id is the first 4 bytes of the content, little-endian.

use vstd::prelude::*;
use vstd::bytes::*;
use vstd::slice::*;
use crate::core_service;
use crate::core_service::core_transition;
use crate::correlation::{CorrelationTable, PendingCall};
use crate::directory::ServiceDirectory;
use crate::messages::{BaseMessage, BaseMessageKind, CoreRequest, CoreResponse};
use crate::registry::ObjectEventRegistry;

verus! {

/// What the dispatch of one envelope asks the embedding environment to
/// do next. The envelope's content travels outside the outcome: the
/// caller still holds the envelope.
#[derive(Debug, PartialEq, Eq)]
pub enum DispatchOutcome {
    /// A request for service 0: decode the content as a `CoreRequest`,
    /// hand it to `handle_core`, and answer with the returned response.
    Core(u64),
    /// A request for another service, now recorded: forward the
    /// envelope to that service's external handler.
    Forward(u64),
    /// A request whose id is already outstanding: a broken invariant on
    /// the requesting side, surfaced hard rather than silently dropped.
    Duplicate(u64),
    /// A response matched its pending call: deliver the content to this
    /// completion handle.
    Completed(u64),
    /// An event: deliver the content to each handle, in this order.
    Deliver(Vec<u64>),
    /// Dropped envelope: a late, duplicate or foreign response, or an
    /// event too short to carry its event id.
    Dropped,
}

/// The event id an event envelope carries: its first 4 content bytes,
/// little-endian.
pub open spec fn event_id_of(content: Seq<u8>) -> u32 {
    spec_u32_from_le_bytes(content.subrange(0, 4))
}

/// One session over one transport connection: the shared state every
/// concurrent caller works against, behind one serialization point.
pub struct Session {
    /// The (service-name -> id) bindings the embedding established.
    pub directory: ServiceDirectory,
    /// Live objects and their event listeners.
    pub registry: ObjectEventRegistry,
    /// The outstanding requests.
    pub table: CorrelationTable,
    /// The delivery handle of the remote peer: completion and listener
    /// registrations made on behalf of inbound requests use it.
    pub peer: u64,
}

impl Session {
    /// Well-formedness of all components.
    pub open spec fn wf(self) -> bool {
        &&& self.directory.wf()
        &&& self.registry.wf()
        &&& self.table.wf()
    }

    /// A fresh session: nothing bound, nothing live, nothing pending.
    pub fn new(peer: u64) -> (r: Session)
        ensures
            r.wf(),
            r.peer == peer,
            forall|name: Seq<char>| !r.directory.has_binding(name),
            forall|s: u32, o: u32| !r.registry.has_object(s, o),
            forall|s: u32, o: u32, e: u32, h: u64| !r.registry.has_listener(s, o, e, h),
            forall|id: u64| !r.table.is_pending(id),
            r.table.pending_count() == 0,
    {
        Session {
            directory: ServiceDirectory::new(),
            registry: ObjectEventRegistry::new(),
            table: CorrelationTable::new(),
            peer,
        }
    }

    /// Issue a fresh request id and record the pending call in one
    /// step, for a caller about to send an outgoing request. The id is
    /// fresh among the outstanding ones, so no two outstanding calls
    /// ever share an id.
    pub fn new_request(&mut self, service: u32, object: u32, handle: u64) -> (r: u64)
        requires
            old(self).wf(),
            old(self).table.pending_count() < u64::MAX,
        ensures
            final(self).wf(),
            final(self).directory == old(self).directory,
            final(self).registry == old(self).registry,
            final(self).peer == old(self).peer,
            final(self).table.is_pending(r),
            final(self).table.entry_of(r) == (PendingCall {
                request_id: r,
                service,
                object,
                handle,
            }),
            final(self).table.unchanged_except(old(self).table, r),
            final(self).table.pending_count() == old(self).table.pending_count() + 1,
    {
        let id = self.table.issue();
        let res = self.table.register(id, service, object, handle);
        match res {
            Ok(()) => id,
            Err(_) => vstd::pervasive::unreached(),
        }
    }

    /// Session teardown: destroys all objects, their listeners and
    /// every pending call at once. The directory's bindings belong to
    /// the embedding environment and stay.
    pub fn teardown(&mut self)
        requires
            old(self).wf(),
        ensures
            final(self).wf(),
            final(self).directory == old(self).directory,
            final(self).peer == old(self).peer,
            forall|s: u32, o: u32| !final(self).registry.has_object(s, o),
            forall|s: u32, o: u32, e: u32, h: u64| !final(self).registry.has_listener(s, o, e, h),
            forall|id: u64| !final(self).table.is_pending(id),
    {
        self.registry = ObjectEventRegistry::new();
        self.table = CorrelationTable::new();
    }

    /// Handle a decoded core-service request against current state; the
    /// exact effect is `core_transition`, with this session's peer as
    /// the listener handle.
    pub fn handle_core(&mut self, req: &CoreRequest) -> (r: CoreResponse)
        requires
            old(self).wf(),
        ensures
            final(self).wf(),
            final(self).directory == old(self).directory,
            final(self).peer == old(self).peer,
            core_transition(
                old(self).directory,
                old(self).registry,
                final(self).registry,
                old(self).table,
                final(self).table,
                old(self).peer,
                *req,
                r,
            ),
    {
        core_service::handle_request(
            &self.directory,
            &mut self.registry,
            &mut self.table,
            self.peer,
            req,
        )
    }

    /// Route one decoded inbound envelope.
    ///
    /// A request for service 0 is handed back as `Core` for the caller
    /// to decode and feed to `handle_core`. A request for another
    /// service is recorded under the peer's handle and forwarded; an id
    /// already outstanding is surfaced as `Duplicate`. A response
    /// resolves its pending call only when the envelope's (service,
    /// object) equals the bookkept destination; otherwise it is dropped
    /// and the table is untouched. An event is fanned out to the
    /// current listeners of its triple, in registration order.
    pub fn on_envelope(&mut self, m: &BaseMessage) -> (r: DispatchOutcome)
        requires
            old(self).wf(),
        ensures
            final(self).wf(),
            final(self).directory == old(self).directory,
            final(self).peer == old(self).peer,
            m.kind matches BaseMessageKind::Request(id) ==> {
                &&& final(self).registry == old(self).registry
                &&& m.service == 0 ==> r == DispatchOutcome::Core(id) && *final(self) == *old(
                    self,
                )
                &&& m.service != 0 && old(self).table.is_pending(id) ==> {
                    &&& r == DispatchOutcome::Duplicate(id)
                    &&& final(self).table.same_entries(old(self).table)
                }
                &&& m.service != 0 && !old(self).table.is_pending(id) ==> {
                    &&& r == DispatchOutcome::Forward(id)
                    &&& final(self).table.is_pending(id)
                    &&& final(self).table.entry_of(id) == (PendingCall {
                        request_id: id,
                        service: m.service,
                        object: m.object,
                        handle: old(self).peer,
                    })
                    &&& final(self).table.unchanged_except(old(self).table, id)
                }
            },
            m.kind matches BaseMessageKind::Response(id) ==> {
                &&& final(self).registry == old(self).registry
                &&& (old(self).table.is_pending(id) && old(self).table.entry_of(id).service
                    == m.service && old(self).table.entry_of(id).object == m.object) ==> {
                    &&& r == DispatchOutcome::Completed(old(self).table.entry_of(id).handle)
                    &&& !final(self).table.is_pending(id)
                    &&& final(self).table.unchanged_except(old(self).table, id)
                    &&& final(self).table.pending_count() + 1 == old(self).table.pending_count()
                }
                &&& !(old(self).table.is_pending(id) && old(self).table.entry_of(id).service
                    == m.service && old(self).table.entry_of(id).object == m.object) ==> {
                    &&& r == DispatchOutcome::Dropped
                    &&& *final(self) == *old(self)
                }
            },
            m.kind == BaseMessageKind::Event ==> {
                &&& *final(self) == *old(self)
                &&& m.content@.len() >= 4 ==> (r matches DispatchOutcome::Deliver(handles)
                    && handles@ == old(self).registry.listener_handles(
                    m.service,
                    m.object,
                    event_id_of(m.content@),
                ))
                &&& m.content@.len() < 4 ==> r == DispatchOutcome::Dropped
            },
    {
        match m.kind {
            BaseMessageKind::Request(id) => {
                if m.service == 0 {
                    DispatchOutcome::Core(id)
                } else {
                    match self.table.register(id, m.service, m.object, self.peer) {
                        Ok(()) => DispatchOutcome::Forward(id),
                        Err(_) => DispatchOutcome::Duplicate(id),
                    }
                }
            },
            BaseMessageKind::Response(id) => {
                match self.table.get(id) {
                    Some(pc) => {
                        if pc.service == m.service && pc.object == m.object {
                            match self.table.resolve(id) {
                                Ok(done) => DispatchOutcome::Completed(done.handle),
                                Err(_) => vstd::pervasive::unreached(),
                            }
                        } else {
                            DispatchOutcome::Dropped
                        }
                    },
                    None => DispatchOutcome::Dropped,
                }
            },
            BaseMessageKind::Event => {
                if m.content.len() >= 4 {
                    let eid = u32_from_le_bytes(slice_subrange(m.content.as_slice(), 0, 4));
                    let handles = self.registry.listeners_for(m.service, m.object, eid);
                    DispatchOutcome::Deliver(handles)
                } else {
                    DispatchOutcome::Dropped
                }
            },
        }
    }
}

} // verus!
