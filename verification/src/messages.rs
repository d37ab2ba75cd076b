//! The wire-level message types of the protocol: the routed envelope
//! (`BaseMessage`), its kind tag, and the request/response schema of the
//! core registry service (service id 0).

use vstd::prelude::*;

verus! {

/// The different kind of messages that a service/object can process:
/// requests and responses carry a correlation id; events carry none and
/// are fanned out to all current listeners.
#[derive(Clone, Copy, Debug, PartialEq, Eq, Structural)]
pub enum BaseMessageKind {
    Request(u64),
    Response(u64),
    Event,
}

/// The high-level message, encapsulating the metadata used to route the
/// message (service, object) alongside the content of the actual message.
/// The content is opaque to the session core.
#[derive(Clone, Debug)]
pub struct BaseMessage {
    pub service: u32,
    pub object: u32,
    pub kind: BaseMessageKind,
    pub content: Vec<u8>,
}

/// Mathematical model of a `BaseMessage`: same routing metadata, content
/// as a byte sequence.
#[verifier::ext_equal]
pub ghost struct EnvelopeView {
    pub service: u32,
    pub object: u32,
    pub kind: BaseMessageKind,
    pub content: Seq<u8>,
}

impl View for BaseMessage {
    type V = EnvelopeView;

    open spec fn view(&self) -> EnvelopeView {
        EnvelopeView {
            service: self.service,
            object: self.object,
            kind: self.kind,
            content: self.content@,
        }
    }
}

impl BaseMessage {
    /// A message with the same routing metadata but an empty content,
    /// typically the skeleton of a reply.
    pub fn empty_from(msg: &BaseMessage) -> (r: Self)
        ensures
            r.service == msg.service,
            r.object == msg.object,
            r.kind == msg.kind,
            r.content@ == Seq::<u8>::empty(),
    {
        BaseMessage {
            service: msg.service,
            object: msg.object,
            kind: msg.kind,
            content: vec![],
        }
    }

    /// The correlation id of a request envelope. The dispatcher's routing
    /// establishes the kind before extraction is attempted, so the other
    /// kinds are excluded by precondition rather than by a runtime panic.
    pub fn request(&self) -> (r: u64)
        requires
            self.kind is Request,
        ensures
            self.kind == BaseMessageKind::Request(r),
    {
        match self.kind {
            BaseMessageKind::Request(value) => value,
            _ => vstd::pervasive::unreached(),
        }
    }

    /// The reply to a request envelope: same destination, kind turned
    /// into the response with the same correlation id, the given
    /// content.
    pub fn reply_to(m: &BaseMessage, content: Vec<u8>) -> (r: Self)
        requires
            m.kind is Request,
        ensures
            r.service == m.service,
            r.object == m.object,
            m.kind matches BaseMessageKind::Request(id) ==> r.kind == BaseMessageKind::Response(
                id,
            ),
            r.content@ == content@,
    {
        match m.kind {
            BaseMessageKind::Request(id) => BaseMessage {
                service: m.service,
                object: m.object,
                kind: BaseMessageKind::Response(id),
                content,
            },
            _ => vstd::pervasive::unreached(),
        }
    }

    /// The correlation id of a response envelope; the kind is established
    /// by the caller, as for `request`.
    pub fn response(&self) -> (r: u64)
        requires
            self.kind is Response,
        ensures
            self.kind == BaseMessageKind::Response(r),
    {
        match self.kind {
            BaseMessageKind::Response(value) => value,
            _ => vstd::pervasive::unreached(),
        }
    }
}

/// Directory lookup: resolve a service name to its id.
#[derive(Clone, Debug)]
pub struct GetServiceRequest {
    pub name: String,
}

/// `success` is false and `service` is 0 (a sentinel) when the name is
/// not bound.
#[derive(Clone, Copy, Debug, PartialEq, Eq, Structural)]
pub struct GetServiceResponse {
    pub success: bool,
    pub service: u32,
}

/// Pure existence check for a service name; no side effect.
#[derive(Clone, Debug)]
pub struct HasServiceRequest {
    pub name: String,
}

#[derive(Clone, Copy, Debug, PartialEq, Eq, Structural)]
pub struct HasServiceResponse {
    pub success: bool,
}

/// Tear down a live object: all its listener registrations are removed
/// and its pending calls are cancelled.
#[derive(Clone, Copy, Debug, PartialEq, Eq, Structural)]
pub struct ReleaseObjectRequest {
    pub service: u32,
    pub object: u32,
}

#[derive(Clone, Copy, Debug, PartialEq, Eq, Structural)]
pub struct ReleaseObjectResponse {
    pub success: bool,
}

/// Register interest in an event category of a live (service, object) pair.
#[derive(Clone, Copy, Debug, PartialEq, Eq, Structural)]
pub struct EnableEventListenerRequest {
    pub service: u32,
    pub object: u32,
    pub event: u32,
}

impl EnableEventListenerRequest {
    pub fn ids(&self) -> (r: (u32, u32, u32))
        ensures
            r == (self.service, self.object, self.event),
    {
        (self.service, self.object, self.event)
    }
}

#[derive(Clone, Copy, Debug, PartialEq, Eq, Structural)]
pub struct EnableEventListenerResponse {
    pub success: bool,
}

/// Withdraw interest in an event category.
#[derive(Clone, Copy, Debug, PartialEq, Eq, Structural)]
pub struct DisableEventListenerRequest {
    pub service: u32,
    pub object: u32,
    pub event: u32,
}

impl DisableEventListenerRequest {
    pub fn ids(&self) -> (r: (u32, u32, u32))
        ensures
            r == (self.service, self.object, self.event),
    {
        (self.service, self.object, self.event)
    }
}

#[derive(Clone, Copy, Debug, PartialEq, Eq, Structural)]
pub struct DisableEventListenerResponse {
    pub success: bool,
}

/// The requests the core registry service (service id 0) understands.
#[derive(Clone, Debug)]
pub enum CoreRequest {
    GetService(GetServiceRequest),
    HasService(HasServiceRequest),
    ReleaseObject(ReleaseObjectRequest),
    EnableEvent(EnableEventListenerRequest),
    DisableEvent(DisableEventListenerRequest),
}

/// The responses the core registry service produces, one per request.
#[derive(Clone, Copy, Debug, PartialEq, Eq, Structural)]
pub enum CoreResponse {
    GetService(GetServiceResponse),
    HasService(HasServiceResponse),
    ReleaseObject(ReleaseObjectResponse),
    EnableEvent(EnableEventListenerResponse),
    DisableEvent(DisableEventListenerResponse),
}

} // verus!
