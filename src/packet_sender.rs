use vstd::prelude::*;

use crate::error::ClientSocketError;
use crate::packet::Packet;

verus! {

/// Handle through which packets leave for the server on the host-bridge
/// target; it holds nothing, every send goes to the host's one transmit
/// primitive.
#[derive(Clone, Copy, Debug, PartialEq, Eq, Structural)]
pub struct PacketSender {}

impl PacketSender {
    /// A new sender.
    pub fn new() -> (r: PacketSender)
        ensures
            r == (PacketSender {}),
    {
        PacketSender {}
    }
}

/// Holding queue for the host-bridge target: the host pushes datagrams in
/// as they arrive, and `receive` takes them out, oldest first, without ever
/// waiting.
pub struct BridgeInbox {
    arrived: Vec<Packet>,
}

impl View for BridgeInbox {
    type V = Seq<Seq<u8>>;

    closed spec fn view(&self) -> Seq<Seq<u8>> {
        self.arrived@.map_values(|p: Packet| p@)
    }
}

impl BridgeInbox {
    /// An inbox holding nothing.
    pub fn new() -> (r: BridgeInbox)
        ensures
            r@ == Seq::<Seq<u8>>::empty(),
    {
        let r = BridgeInbox { arrived: Vec::new() };
        assert(r@ =~= Seq::<Seq<u8>>::empty());
        r
    }

    /// Number of datagrams waiting.
    pub fn len(&self) -> (r: usize)
        ensures
            r as int == self@.len(),
    {
        self.arrived.len()
    }

    /// The host's entry point: copies `bytes` in behind what is waiting.
    pub fn push(&mut self, bytes: &[u8])
        ensures
            final(self)@ == old(self)@.push(bytes@),
    {
        let packet = Packet::from_received(bytes, bytes.len());
        let ghost q = self@;
        self.arrived.push(packet);
        assert(self@ =~= q.push(bytes@));
    }

    /// The oldest waiting datagram, or `None` when nothing has arrived; the
    /// bridge reports no failure here.
    pub fn receive(&mut self) -> (r: Result<Option<Packet>, ClientSocketError>)
        ensures
            old(self)@.len() == 0 ==> r == Ok::<Option<Packet>, ClientSocketError>(None)
                && final(self)@ == old(self)@,
            old(self)@.len() > 0 ==> r is Ok && r->Ok_0 is Some && r->Ok_0->Some_0@ == old(
                self,
            )@[0] && final(self)@ == old(self)@.drop_first(),
    {
        if self.arrived.len() == 0 {
            Ok(None)
        } else {
            let ghost q = self@;
            let p = self.arrived.remove(0);
            assert(self@ =~= q.drop_first());
            Ok(Some(p))
        }
    }
}

} // verus!
