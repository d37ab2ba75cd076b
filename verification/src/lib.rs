//! Session multiplexing and service-registry protocol.
//!
//! Many independent logical services and stateful objects share one
//! bidirectional transport connection. An envelope codec frames the routed
//! unit of the protocol, a correlation table matches asynchronous responses
//! to their originating requests, an object/event registry tracks live
//! objects and event listeners, the core registry service (service id 0)
//! exposes directory lookup and lifecycle operations, and a dispatcher
//! routes decoded envelopes to the right component.

pub mod codec;
pub mod core_service;
pub mod correlation;
pub mod directory;
pub mod dispatcher;
pub mod messages;
pub mod registry;
