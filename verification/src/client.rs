//! The session: `connect`, `read_f32`, `write_f32`.
//!
//! A `ConnectionHandle` is one open session to one controller. The
//! handle owns the session exclusively — every operation takes it by
//! `&mut`, so the type system serialises all traffic on a session and
//! two handles can never interfere. Each call is one request/response
//! exchange; the spec functions `connect_outcome`, `read_outcome` and
//! `write_outcome` state the result of every call, for every input.

use vstd::prelude::*;

use crate::controller::MockController;
use crate::errors::ConnectionError;
use crate::errors::TagError;
use crate::host::HostAddr;
use crate::host::host_of;
use crate::host::parse_host;
use crate::host::valid_host_literal;
use crate::tag::SegView;
use crate::tag::parse_tag;
use crate::tag::tag_segments;
use crate::value::REAL_TYPE_CODE;
use crate::value::TypedValue;
use crate::value::decode_real;

verus! {

/// Status a controller answers with when no tag lives at the address.
pub const PATH_SEGMENT_ERROR: u16 = 0x04;

/// One open session: the resolved endpoint and the controller behind it.
pub struct ConnectionHandle {
    endpoint: HostAddr,
    ctrl: MockController,
}

/// The mathematical face of a session: where it points and what the
/// controller behind it holds.
pub struct SessionView {
    pub endpoint: HostAddr,
    pub tags: Map<Seq<SegView>, u32>,
}

impl View for ConnectionHandle {
    type V = SessionView;

    closed spec fn view(&self) -> SessionView {
        SessionView { endpoint: self.endpoint, tags: self.ctrl.tags() }
    }
}

impl ConnectionHandle {
    /// The session's controller store is well formed.
    pub closed spec fn wf(self) -> bool {
        self.ctrl.wf()
    }

    /// The endpoint this session is bound to.
    pub fn endpoint(&self) -> (h: HostAddr)
        ensures
            h == self@.endpoint,
    {
        self.endpoint
    }
}

/// What `connect` returns for an address: a fresh session on a
/// well-formed literal, `ResolutionFailed` otherwise. A handle is only
/// ever built from a fully resolved endpoint, so no failed connect can
/// yield one.
pub open spec fn connect_outcome(address: Seq<char>) -> Result<SessionView, ConnectionError> {
    if valid_host_literal(address) {
        Ok(SessionView { endpoint: host_of(address), tags: Map::empty() })
    } else {
        Err(ConnectionError::ResolutionFailed)
    }
}

/// What `read_f32` returns for a session state and a tag string.
pub open spec fn read_outcome(state: SessionView, tag: Seq<char>) -> Result<u32, TagError> {
    match tag_segments(tag) {
        None => Err(TagError::InvalidAddress),
        Some(a) => if state.tags.contains_key(a) {
            Ok(state.tags[a])
        } else {
            Err(TagError::RemoteRejected(PATH_SEGMENT_ERROR))
        },
    }
}

/// What `write_f32` returns for a session state, a tag string and the
/// bits to store, together with the state it leaves behind.
pub open spec fn write_outcome(state: SessionView, tag: Seq<char>, bits: u32) -> (Result<
    (),
    TagError,
>, SessionView) {
    match tag_segments(tag) {
        None => (Err(TagError::InvalidAddress), state),
        Some(a) => (
            Ok(()),
            SessionView { endpoint: state.endpoint, tags: state.tags.insert(a, bits) },
        ),
    }
}

/// Opens a session to the controller at `address`. The call either
/// resolves the address and hands back an established session, or fails;
/// no partially initialised handle is ever exposed.
pub fn connect(address: &str) -> (r: Result<ConnectionHandle, ConnectionError>)
    ensures
        r matches Ok(h) ==> h.wf() && connect_outcome(address@) == Ok::<
            SessionView,
            ConnectionError,
        >(h@),
        r matches Err(e) ==> connect_outcome(address@) == Err::<SessionView, ConnectionError>(e),
{
    match parse_host(address) {
        None => Err(ConnectionError::ResolutionFailed),
        Some(endpoint) => {
            let ctrl = MockController::new();
            Ok(ConnectionHandle { endpoint, ctrl })
        },
    }
}

/// Reads the 32-bit float tag named by `tag` over the session: one
/// request, one reply, no change to the session. The returned `u32` is
/// the IEEE-754 binary32 bit pattern of the value.
pub fn read_f32(handle: &mut ConnectionHandle, tag: &str) -> (r: Result<u32, TagError>)
    requires
        old(handle).wf(),
    ensures
        final(handle).wf(),
        final(handle)@ == old(handle)@,
        r == read_outcome(old(handle)@, tag@),
{
    match parse_tag(tag) {
        Err(e) => Err(e),
        Ok(addr) => match handle.ctrl.load(&addr) {
            Some(bits) => {
                // The controller answers with the REAL type code and the
                // stored bits; decoding checks that the tag matches.
                match decode_real(REAL_TYPE_CODE, bits) {
                    Ok(v) => Ok(v.bits()),
                    Err(e) => Err(e),
                }
            },
            None => Err(TagError::RemoteRejected(PATH_SEGMENT_ERROR)),
        },
    }
}

/// Writes `bits`, the IEEE-754 binary32 bit pattern of a float, to the
/// tag named by `tag` over the session: one request, one acknowledgment.
/// The controller stores exactly the given bits under the parsed
/// address; a malformed tag changes nothing.
pub fn write_f32(handle: &mut ConnectionHandle, tag: &str, bits: u32) -> (r: Result<(), TagError>)
    requires
        old(handle).wf(),
    ensures
        final(handle).wf(),
        (r, final(handle)@) == write_outcome(old(handle)@, tag@, bits),
{
    match parse_tag(tag) {
        Err(_) => Err(TagError::InvalidAddress),
        Ok(addr) => {
            // The request carries the value tagged as a REAL; the
            // controller stores exactly its bits.
            let payload = TypedValue::Real(bits);
            handle.ctrl.store(addr, payload.bits());
            Ok(())
        },
    }
}

} // verus!
