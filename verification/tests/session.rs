use sidl_session::codec::{decode, encode};
use sidl_session::dispatcher::{DispatchOutcome, Session};
use sidl_session::messages::{
    BaseMessage, BaseMessageKind, CoreRequest, CoreResponse, DisableEventListenerRequest,
    EnableEventListenerRequest, EnableEventListenerResponse, GetServiceRequest,
    GetServiceResponse, HasServiceRequest, HasServiceResponse, ReleaseObjectRequest,
    ReleaseObjectResponse,
};

const PEER: u64 = 1000;

#[test]
fn get_service_bound_and_unbound() {
    let mut s = Session::new(PEER);
    s.directory.bind(String::from("settings"), 7);
    let bound = s.handle_core(&CoreRequest::GetService(GetServiceRequest {
        name: String::from("settings"),
    }));
    assert_eq!(
        bound,
        CoreResponse::GetService(GetServiceResponse { success: true, service: 7 })
    );
    let unbound = s.handle_core(&CoreRequest::GetService(GetServiceRequest {
        name: String::from("telemetry"),
    }));
    assert_eq!(
        unbound,
        CoreResponse::GetService(GetServiceResponse { success: false, service: 0 })
    );
}

#[test]
fn has_service_is_a_pure_check() {
    let mut s = Session::new(PEER);
    s.directory.bind(String::from("settings"), 7);
    let r1 = s.handle_core(&CoreRequest::HasService(HasServiceRequest {
        name: String::from("settings"),
    }));
    assert_eq!(r1, CoreResponse::HasService(HasServiceResponse { success: true }));
    let r2 = s.handle_core(&CoreRequest::HasService(HasServiceRequest {
        name: String::from("power"),
    }));
    assert_eq!(r2, CoreResponse::HasService(HasServiceResponse { success: false }));
}

#[test]
fn enable_event_then_deliver_exactly_once() {
    let mut s = Session::new(PEER);
    // Object 3 of service 7 is not registered yet: enabling fails.
    let before = s.handle_core(&CoreRequest::EnableEvent(EnableEventListenerRequest {
        service: 7,
        object: 3,
        event: 1,
    }));
    assert_eq!(
        before,
        CoreResponse::EnableEvent(EnableEventListenerResponse { success: false })
    );
    s.registry.register_object(7, 3);
    let after = s.handle_core(&CoreRequest::EnableEvent(EnableEventListenerRequest {
        service: 7,
        object: 3,
        event: 1,
    }));
    assert_eq!(
        after,
        CoreResponse::EnableEvent(EnableEventListenerResponse { success: true })
    );
    // An event envelope for (7, 3, 1) reaches the registered listener
    // exactly once.
    let ev = BaseMessage {
        service: 7,
        object: 3,
        kind: BaseMessageKind::Event,
        content: vec![1, 0, 0, 0, 0xde, 0xad],
    };
    let out = s.on_envelope(&ev);
    assert_eq!(out, DispatchOutcome::Deliver(vec![PEER]));
    // Another event id of the same object finds no listener.
    let other = BaseMessage {
        service: 7,
        object: 3,
        kind: BaseMessageKind::Event,
        content: vec![2, 0, 0, 0],
    };
    assert_eq!(s.on_envelope(&other), DispatchOutcome::Deliver(vec![]));
}

#[test]
fn disable_event_is_idempotent_in_effect() {
    let mut s = Session::new(PEER);
    s.registry.register_object(7, 3);
    s.handle_core(&CoreRequest::EnableEvent(EnableEventListenerRequest {
        service: 7,
        object: 3,
        event: 1,
    }));
    let first = s.handle_core(&CoreRequest::DisableEvent(DisableEventListenerRequest {
        service: 7,
        object: 3,
        event: 1,
    }));
    assert!(matches!(
        first,
        CoreResponse::DisableEvent(d) if d.success
    ));
    let second = s.handle_core(&CoreRequest::DisableEvent(DisableEventListenerRequest {
        service: 7,
        object: 3,
        event: 1,
    }));
    assert!(matches!(
        second,
        CoreResponse::DisableEvent(d) if !d.success
    ));
}

#[test]
fn release_object_succeeds_exactly_once() {
    let mut s = Session::new(PEER);
    s.registry.register_object(7, 3);
    let first = s.handle_core(&CoreRequest::ReleaseObject(ReleaseObjectRequest {
        service: 7,
        object: 3,
    }));
    assert_eq!(
        first,
        CoreResponse::ReleaseObject(ReleaseObjectResponse { success: true })
    );
    // The racing second release observes failure and has no further
    // effect.
    let second = s.handle_core(&CoreRequest::ReleaseObject(ReleaseObjectRequest {
        service: 7,
        object: 3,
    }));
    assert_eq!(
        second,
        CoreResponse::ReleaseObject(ReleaseObjectResponse { success: false })
    );
}

#[test]
fn release_object_cancels_scoped_calls() {
    let mut s = Session::new(PEER);
    s.registry.register_object(7, 3);
    let id = s.new_request(7, 3, 77);
    let other = s.new_request(7, 4, 88);
    s.handle_core(&CoreRequest::ReleaseObject(ReleaseObjectRequest { service: 7, object: 3 }));
    // A response for the released object's call is now unknown.
    let late = BaseMessage {
        service: 7,
        object: 3,
        kind: BaseMessageKind::Response(id),
        content: vec![],
    };
    assert_eq!(s.on_envelope(&late), DispatchOutcome::Dropped);
    // The unrelated call still completes.
    let ok = BaseMessage {
        service: 7,
        object: 4,
        kind: BaseMessageKind::Response(other),
        content: vec![],
    };
    assert_eq!(s.on_envelope(&ok), DispatchOutcome::Completed(88));
}

#[test]
fn response_after_cancel_is_dropped() {
    let mut s = Session::new(PEER);
    s.table.register(42, 7, 3, 55).expect("id 42 is free");
    assert!(s.table.cancel(42).is_some());
    let late = BaseMessage {
        service: 7,
        object: 3,
        kind: BaseMessageKind::Response(42),
        content: vec![],
    };
    // The completion handle cannot be invoked twice: the dispatcher
    // reports the response as unknown.
    assert_eq!(s.on_envelope(&late), DispatchOutcome::Dropped);
}

#[test]
fn response_must_match_bookkept_destination() {
    let mut s = Session::new(PEER);
    let id = s.new_request(7, 3, 66);
    let wrong = BaseMessage {
        service: 7,
        object: 9,
        kind: BaseMessageKind::Response(id),
        content: vec![],
    };
    assert_eq!(s.on_envelope(&wrong), DispatchOutcome::Dropped);
    // The mismatch did not consume the pending call.
    let right = BaseMessage {
        service: 7,
        object: 3,
        kind: BaseMessageKind::Response(id),
        content: vec![],
    };
    assert_eq!(s.on_envelope(&right), DispatchOutcome::Completed(66));
}

#[test]
fn requests_route_by_service() {
    let mut s = Session::new(PEER);
    let core = BaseMessage {
        service: 0,
        object: 0,
        kind: BaseMessageKind::Request(5),
        content: vec![],
    };
    assert_eq!(s.on_envelope(&core), DispatchOutcome::Core(5));
    let other = BaseMessage {
        service: 4,
        object: 2,
        kind: BaseMessageKind::Request(9),
        content: vec![],
    };
    assert_eq!(s.on_envelope(&other), DispatchOutcome::Forward(9));
    // The same id again is a broken invariant on the requesting side.
    assert_eq!(s.on_envelope(&other), DispatchOutcome::Duplicate(9));
}

#[test]
fn event_too_short_for_its_id_is_dropped() {
    let mut s = Session::new(PEER);
    let ev = BaseMessage {
        service: 7,
        object: 3,
        kind: BaseMessageKind::Event,
        content: vec![1, 0],
    };
    assert_eq!(s.on_envelope(&ev), DispatchOutcome::Dropped);
}

#[test]
fn wire_round_trip_through_dispatch() {
    let mut s = Session::new(PEER);
    s.registry.register_object(7, 3);
    s.handle_core(&CoreRequest::EnableEvent(EnableEventListenerRequest {
        service: 7,
        object: 3,
        event: 1,
    }));
    let ev = BaseMessage {
        service: 7,
        object: 3,
        kind: BaseMessageKind::Event,
        content: vec![1, 0, 0, 0],
    };
    let bytes = encode(&ev);
    let decoded = decode(&bytes).expect("the encoded event decodes");
    assert_eq!(s.on_envelope(&decoded), DispatchOutcome::Deliver(vec![PEER]));
}

#[test]
fn reply_keeps_destination_and_correlation() {
    let req = BaseMessage {
        service: 0,
        object: 0,
        kind: BaseMessageKind::Request(11),
        content: vec![1, 2],
    };
    let reply = BaseMessage::reply_to(&req, vec![9]);
    assert_eq!(reply.service, 0);
    assert_eq!(reply.object, 0);
    assert_eq!(reply.kind, BaseMessageKind::Response(11));
    assert_eq!(reply.content, vec![9]);
    assert_eq!(reply.response(), 11);
    let empty = BaseMessage::empty_from(&req);
    assert_eq!(empty.kind, BaseMessageKind::Request(11));
    assert_eq!(empty.request(), 11);
    assert_eq!(empty.content, Vec::<u8>::new());
}

#[test]
fn listener_request_ids_tuples() {
    let en = EnableEventListenerRequest { service: 7, object: 3, event: 1 };
    assert_eq!(en.ids(), (7, 3, 1));
    let dis = DisableEventListenerRequest { service: 9, object: 8, event: 2 };
    assert_eq!(dis.ids(), (9, 8, 2));
}

#[test]
fn session_issues_fresh_ids() {
    let mut s = Session::new(PEER);
    let a = s.new_request(1, 1, 10);
    let b = s.new_request(1, 2, 20);
    let c = s.new_request(2, 1, 30);
    assert_ne!(a, b);
    assert_ne!(a, c);
    assert_ne!(b, c);
}

#[test]
fn teardown_destroys_objects_and_calls() {
    let mut s = Session::new(PEER);
    s.directory.bind(String::from("settings"), 7);
    s.registry.register_object(7, 3);
    let id = s.new_request(7, 3, 10);
    s.teardown();
    assert!(!s.registry.contains_object(7, 3));
    assert!(!s.table.contains(id));
    // The embedding's bindings survive teardown.
    let r = s.handle_core(&CoreRequest::GetService(GetServiceRequest {
        name: String::from("settings"),
    }));
    assert_eq!(
        r,
        CoreResponse::GetService(GetServiceResponse { success: true, service: 7 })
    );
}
