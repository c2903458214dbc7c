use vstd::prelude::*;

use crate::address::SocketAddress;
use crate::error::ClientSocketError;
use crate::packet::{received_bytes, Packet};

verus! {

/// What one non-blocking read of the socket produced.
#[derive(Clone, Debug)]
pub enum RecvOutcome {
    /// `len` bytes arrived from `from` (`len` may exceed the buffer when the
    /// datagram was truncated).
    Received { len: usize, from: SocketAddress },
    /// Nothing was waiting.
    WouldBlock,
    /// The read failed for another reason, described by the text.
    Failed(String),
}

/// Turns one read into the result of `receive`: a would-block is no packet,
/// a datagram from the configured remote is a packet holding exactly the
/// bytes read (up to the buffer's length), a datagram from anyone else is
/// `UnexpectedSender` and its payload is dropped, and other failures pass
/// through as `Io`.
pub fn classify_receive(remote: SocketAddress, buffer: &[u8], outcome: RecvOutcome) -> (r: Result<
    Option<Packet>,
    ClientSocketError,
>)
    ensures
        match outcome {
            RecvOutcome::Received { len, from } => if from == remote {
                r is Ok && r->Ok_0 is Some && r->Ok_0->Some_0@ == received_bytes(
                    buffer@,
                    len as int,
                )
            } else {
                r == Err::<Option<Packet>, ClientSocketError>(ClientSocketError::UnexpectedSender)
            },
            RecvOutcome::WouldBlock => r == Ok::<Option<Packet>, ClientSocketError>(None),
            RecvOutcome::Failed(cause) => r == Err::<Option<Packet>, ClientSocketError>(
                ClientSocketError::Io(cause),
            ),
        },
{
    match outcome {
        RecvOutcome::Received { len, from } => {
            if from.same_as(&remote) {
                Ok(Some(Packet::from_received(buffer, len)))
            } else {
                Err(ClientSocketError::UnexpectedSender)
            }
        },
        RecvOutcome::WouldBlock => Ok(None),
        RecvOutcome::Failed(cause) => Err(ClientSocketError::Io(cause)),
    }
}

/// A payload sent through an unconditioned transport, read by the remote
/// into a receive buffer no shorter than it, comes back as the same bytes.
pub proof fn lemma_round_trip(sent: Seq<u8>, buffer: Seq<u8>)
    requires
        sent.len() <= buffer.len(),
        buffer.subrange(0, sent.len() as int) == sent,
    ensures
        received_bytes(buffer, sent.len() as int) == sent,
{
    if sent.len() == buffer.len() {
        assert(buffer.subrange(0, sent.len() as int) =~= buffer);
    }
}

} // verus!
