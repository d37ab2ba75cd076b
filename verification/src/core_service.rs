//! Core registry service (service id 0): directory lookup
//! (GetService/HasService), object teardown (ReleaseObject) with its
//! cascading release, and listener management (Enable/DisableEvent).
//!
//! Registry failures surface as `success = false` responses, never as a
//! crash: the wire protocol has no hidden failure channel.

use vstd::prelude::*;
use crate::correlation::CorrelationTable;
use crate::directory::ServiceDirectory;
use crate::messages::{
    CoreRequest, CoreResponse, DisableEventListenerResponse, EnableEventListenerResponse,
    GetServiceResponse, HasServiceResponse, ReleaseObjectResponse,
};
use crate::registry::{ListenerRegistration, ObjectEventRegistry};

verus! {

/// The registry and the table keep every observable fact: nothing was
/// added, removed or rewritten.
pub open spec fn state_kept(
    reg0: ObjectEventRegistry,
    reg1: ObjectEventRegistry,
    table0: CorrelationTable,
    table1: CorrelationTable,
) -> bool {
    &&& reg1.live() == reg0.live()
    &&& reg1.regs() == reg0.regs()
    &&& table1.same_entries(table0)
}

/// What handling one core request does: the exact response, and the
/// exact effect on the registry and the correlation table. `listener`
/// is the delivery handle the embedding environment associates with
/// the requesting peer.
pub open spec fn core_transition(
    dir: ServiceDirectory,
    reg0: ObjectEventRegistry,
    reg1: ObjectEventRegistry,
    table0: CorrelationTable,
    table1: CorrelationTable,
    listener: u64,
    req: CoreRequest,
    r: CoreResponse,
) -> bool {
    match req {
        CoreRequest::GetService(g) => {
            &&& r == CoreResponse::GetService(
                GetServiceResponse {
                    success: dir.has_binding(g.name@),
                    service: if dir.has_binding(g.name@) {
                        dir.binding_of(g.name@)
                    } else {
                        0u32
                    },
                },
            )
            &&& state_kept(reg0, reg1, table0, table1)
        },
        CoreRequest::HasService(h) => {
            &&& r == CoreResponse::HasService(
                HasServiceResponse { success: dir.has_binding(h.name@) },
            )
            &&& state_kept(reg0, reg1, table0, table1)
        },
        CoreRequest::ReleaseObject(ro) => {
            let was = reg0.has_object(ro.service, ro.object);
            &&& r == CoreResponse::ReleaseObject(ReleaseObjectResponse { success: was })
            &&& !reg1.has_object(ro.service, ro.object)
            &&& forall|e: u32, h: u64| !reg1.has_listener(ro.service, ro.object, e, h)
            &&& forall|e: u32|
                #[trigger] reg1.listener_handles(ro.service, ro.object, e)
                    == Seq::<u64>::empty()
            &&& forall|s2: u32, o2: u32|
                !(s2 == ro.service && o2 == ro.object) ==> #[trigger] reg1.has_object(s2, o2)
                    == reg0.has_object(s2, o2)
            &&& forall|s2: u32, o2: u32, e: u32|
                !(s2 == ro.service && o2 == ro.object) ==> #[trigger] reg1.listener_handles(
                    s2,
                    o2,
                    e,
                ) == reg0.listener_handles(s2, o2, e)
            &&& forall|s2: u32, o2: u32, e: u32, h: u64|
                !(s2 == ro.service && o2 == ro.object) ==> #[trigger] reg1.has_listener(
                    s2,
                    o2,
                    e,
                    h,
                ) == reg0.has_listener(s2, o2, e, h)
            &&& !was ==> reg1.live() == reg0.live() && reg1.regs() == reg0.regs()
                && table1.same_entries(table0)
            &&& was ==> {
                &&& forall|id: u64|
                    #[trigger] table1.is_pending(id) == (table0.is_pending(id) && !(
                    table0.entry_of(id).service == ro.service && table0.entry_of(id).object
                        == ro.object))
                &&& forall|id: u64|
                    #[trigger] table1.is_pending(id) ==> table1.entry_of(id) == table0.entry_of(
                        id,
                    )
            }
        },
        CoreRequest::EnableEvent(en) => {
            let ok = reg0.has_object(en.service, en.object) && !reg0.has_listener(
                en.service,
                en.object,
                en.event,
                listener,
            );
            &&& r == CoreResponse::EnableEvent(EnableEventListenerResponse { success: ok })
            &&& reg1.live() == reg0.live()
            &&& table1.same_entries(table0)
            &&& ok ==> reg1.regs() == reg0.regs().push(
                ListenerRegistration {
                    service: en.service,
                    object: en.object,
                    event: en.event,
                    handle: listener,
                },
            )
            &&& !ok ==> reg1.regs() == reg0.regs()
        },
        CoreRequest::DisableEvent(dis) => {
            let ok = reg0.has_listener(dis.service, dis.object, dis.event, listener);
            &&& r == CoreResponse::DisableEvent(DisableEventListenerResponse { success: ok })
            &&& reg1.live() == reg0.live()
            &&& table1.same_entries(table0)
            &&& ok ==> !reg1.has_listener(dis.service, dis.object, dis.event, listener)
                && exists|k: int|
                {
                    &&& 0 <= k < reg0.regs().len()
                    &&& reg0.regs()[k] == (ListenerRegistration {
                        service: dis.service,
                        object: dis.object,
                        event: dis.event,
                        handle: listener,
                    })
                    &&& reg1.regs() == reg0.regs().remove(k)
                }
            &&& !ok ==> reg1.regs() == reg0.regs()
        },
    }
}

/// Releasing a live object clears its whole scope: afterwards no event
/// fan-out for the released (service, object) finds a listener, and no
/// request id that was scoped to it is outstanding, so resolving such
/// an id reports an unknown request and a response for it is dropped.
pub proof fn lemma_release_clears_scope(
    dir: ServiceDirectory,
    reg0: ObjectEventRegistry,
    reg1: ObjectEventRegistry,
    table0: CorrelationTable,
    table1: CorrelationTable,
    listener: u64,
    req: crate::messages::ReleaseObjectRequest,
    r: CoreResponse,
    id: u64,
)
    requires
        core_transition(
            dir,
            reg0,
            reg1,
            table0,
            table1,
            listener,
            CoreRequest::ReleaseObject(req),
            r,
        ),
        reg0.has_object(req.service, req.object),
        table0.is_pending(id),
        table0.entry_of(id).service == req.service,
        table0.entry_of(id).object == req.object,
    ensures
        r == CoreResponse::ReleaseObject(ReleaseObjectResponse { success: true }),
        forall|e: u32|
            #[trigger] reg1.listener_handles(req.service, req.object, e) == Seq::<u64>::empty(),
        !table1.is_pending(id),
{
}

/// Handle one core-service request synchronously against current state.
/// Every failure is reported as a `success = false` response; the state
/// changes exactly as `core_transition` says.
pub fn handle_request(
    dir: &ServiceDirectory,
    reg: &mut ObjectEventRegistry,
    table: &mut CorrelationTable,
    listener: u64,
    req: &CoreRequest,
) -> (r: CoreResponse)
    requires
        dir.wf(),
        old(reg).wf(),
        old(table).wf(),
    ensures
        final(reg).wf(),
        final(table).wf(),
        core_transition(*dir, *old(reg), *final(reg), *old(table), *final(table), listener, *req, r),
{
    match req {
        CoreRequest::GetService(g) => {
            match dir.lookup(&g.name) {
                Some(id) => CoreResponse::GetService(
                    GetServiceResponse { success: true, service: id },
                ),
                None => CoreResponse::GetService(
                    GetServiceResponse { success: false, service: 0 },
                ),
            }
        },
        CoreRequest::HasService(h) => {
            let found = dir.lookup(&h.name).is_some();
            CoreResponse::HasService(HasServiceResponse { success: found })
        },
        CoreRequest::ReleaseObject(ro) => {
            let was = reg.release_object(ro.service, ro.object);
            if was {
                table.cancel_scoped(ro.service, ro.object);
            }
            CoreResponse::ReleaseObject(ReleaseObjectResponse { success: was })
        },
        CoreRequest::EnableEvent(en) => {
            let ok = match reg.add_listener(en.service, en.object, en.event, listener) {
                Ok(()) => true,
                Err(_) => false,
            };
            CoreResponse::EnableEvent(EnableEventListenerResponse { success: ok })
        },
        CoreRequest::DisableEvent(dis) => {
            let ok = match reg.remove_listener(dis.service, dis.object, dis.event, listener) {
                Ok(()) => true,
                Err(_) => false,
            };
            CoreResponse::DisableEvent(DisableEventListenerResponse { success: ok })
        },
    }
}

} // verus!
