//! Laws of the client, proved once and for all inputs.
//!
//! Each law is stated over the outcome spec functions that the
//! executable calls are proved to implement, so it binds every session
//! in every state.

use vstd::prelude::*;

use crate::client::SessionView;
use crate::client::connect_outcome;
use crate::client::read_outcome;
use crate::client::write_outcome;
use crate::errors::ConnectionError;
use crate::errors::TagError;
use crate::host::valid_host_literal;
use crate::tag::valid_tag;

verus! {

/// Law: a tag string that breaks the grammar is rejected locally. Both
/// the read and the write return `InvalidAddress` and leave the session
/// exactly as it was, so nothing ever goes out on the wire for it.
pub proof fn lemma_invalid_tag_rejected(state: SessionView, tag: Seq<char>, bits: u32)
    requires
        !valid_tag(tag),
    ensures
        read_outcome(state, tag) == Err::<u32, TagError>(TagError::InvalidAddress),
        write_outcome(state, tag, bits) == (Err::<(), TagError>(TagError::InvalidAddress), state),
{
}

/// Law: an address that does not resolve never yields a handle; connect
/// fails with `ResolutionFailed`.
pub proof fn lemma_unresolved_connect_fails(address: Seq<char>)
    requires
        !valid_host_literal(address),
    ensures
        connect_outcome(address) == Err::<SessionView, ConnectionError>(
            ConnectionError::ResolutionFailed,
        ),
{
}

/// Law: round trip. Writing any bits to a well-formed tag succeeds, and
/// an immediate read of the same tag returns bits equal to what was
/// written.
pub proof fn lemma_write_read_round_trip(state: SessionView, tag: Seq<char>, bits: u32)
    requires
        valid_tag(tag),
    ensures
        write_outcome(state, tag, bits).0 == Ok::<(), TagError>(()),
        read_outcome(write_outcome(state, tag, bits).1, tag) == Ok::<u32, TagError>(bits),
{
}

/// Law: back-to-back writes to one tag on one session apply in program
/// order. After writing `first` and then `second`, a read returns
/// `second`; it can never observe `first` again once both completed.
pub proof fn lemma_writes_in_program_order(
    state: SessionView,
    tag: Seq<char>,
    first: u32,
    second: u32,
)
    requires
        valid_tag(tag),
    ensures
        read_outcome(write_outcome(write_outcome(state, tag, first).1, tag, second).1, tag) == Ok::<
            u32,
            TagError,
        >(second),
        first != second ==> read_outcome(
            write_outcome(write_outcome(state, tag, first).1, tag, second).1,
            tag,
        ) != Ok::<u32, TagError>(first),
{
}

/// Law: independent handles are isolated. The outcome of an operation is
/// a function of that session's own state alone, so operations on two
/// handles to two controllers cannot interfere: each write lands on its
/// own controller and each read returns its own controller's value,
/// whatever runs concurrently on the other handle.
pub proof fn lemma_independent_handles_isolated(
    one: SessionView,
    other: SessionView,
    tag_one: Seq<char>,
    tag_other: Seq<char>,
    bits_one: u32,
    bits_other: u32,
)
    requires
        valid_tag(tag_one),
        valid_tag(tag_other),
    ensures
        read_outcome(write_outcome(one, tag_one, bits_one).1, tag_one) == Ok::<u32, TagError>(
            bits_one,
        ),
        read_outcome(write_outcome(other, tag_other, bits_other).1, tag_other) == Ok::<
            u32,
            TagError,
        >(bits_other),
{
}

} // verus!
