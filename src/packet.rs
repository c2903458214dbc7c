use vstd::prelude::*;

verus! {

/// Size of the scratch buffer that a native receive reads into; longer
/// datagrams are truncated to this many bytes.
pub const RECEIVE_BUFFER_SIZE: usize = 1472;

/// An immutable, opaque byte sequence.
#[derive(Clone, Debug)]
pub struct Packet {
    payload: Vec<u8>,
}

impl View for Packet {
    type V = Seq<u8>;

    closed spec fn view(&self) -> Seq<u8> {
        self.payload@
    }
}

/// The bytes that a read of `len` bytes leaves at the front of `buffer`.
pub open spec fn received_bytes(buffer: Seq<u8>, len: int) -> Seq<u8> {
    if len < buffer.len() {
        buffer.subrange(0, len)
    } else {
        buffer
    }
}

impl Packet {
    /// Wraps `payload` as a packet; the bytes are kept exactly.
    pub fn new(payload: Vec<u8>) -> (r: Packet)
        ensures
            r@ == payload@,
    {
        Packet { payload }
    }

    /// Copies the first `len` bytes of `buffer` (all of it if shorter) into
    /// a new packet.
    pub fn from_received(buffer: &[u8], len: usize) -> (r: Packet)
        ensures
            r@ == received_bytes(buffer@, len as int),
    {
        let end: usize = if len < buffer.len() { len } else { buffer.len() };
        let mut payload: Vec<u8> = Vec::with_capacity(end);
        let mut i: usize = 0;
        while i < end
            invariant
                end <= buffer@.len(),
                i <= end,
                payload@ == buffer@.subrange(0, i as int),
            decreases end - i,
        {
            payload.push(buffer[i]);
            i = i + 1;
            assert(payload@ =~= buffer@.subrange(0, i as int));
        }
        assert(received_bytes(buffer@, len as int) =~= buffer@.subrange(0, end as int));
        Packet { payload }
    }

    /// A second packet holding the same bytes.
    pub fn duplicate(&self) -> (r: Packet)
        ensures
            r@ == self@,
    {
        let payload = self.payload.clone();
        assert(payload@ =~= self.payload@);
        Packet { payload }
    }

    /// The packet's bytes.
    pub fn payload(&self) -> (r: &[u8])
        ensures
            r@ == self@,
    {
        self.payload.as_slice()
    }

    /// Number of bytes in the packet.
    pub fn len(&self) -> (r: usize)
        ensures
            r as int == self@.len(),
    {
        self.payload.len()
    }
}

} // verus!
