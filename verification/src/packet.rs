//! The Wake-on-LAN magic packet: six synchronization bytes of `0xFF`
//! followed by the target hardware address repeated sixteen times.

use vstd::prelude::*;
use crate::addr::HardwareAddress;

verus! {

/// The bytes of the magic packet for a six-octet address: positions 0 to 5
/// hold `0xFF`, and every later position holds the address octet it lines up
/// with, so the address repeats sixteen times.
pub open spec fn magic_bytes(mac: Seq<u8>) -> Seq<u8>
    recommends
        mac.len() == 6,
{
    Seq::new(102, |i: int| if i < 6 { 0xffu8 } else { mac[(i - 6) % 6] })
}

/// The magic packet layout: 102 bytes, the first six `0xFF`.
pub proof fn lemma_magic_packet_layout(mac: Seq<u8>)
    requires
        mac.len() == 6,
    ensures
        magic_bytes(mac).len() == 102,
        forall|i: int| 0 <= i < 6 ==> magic_bytes(mac)[i] == 0xffu8,
{
}

/// Byte `j` of repetition block `k` of the magic packet is octet `j` of the
/// address: each of the sixteen six-byte blocks equals the address.
pub proof fn lemma_magic_packet_block(mac: Seq<u8>, k: int, j: int)
    requires
        mac.len() == 6,
        0 <= k < 16,
        0 <= j < 6,
    ensures
        magic_bytes(mac)[6 + 6 * k + j] == mac[j],
{
    assert((6 * k + j) % 6 == j) by (nonlinear_arith)
        requires
            0 <= k,
            0 <= j < 6,
    ;
}

/// One 102-byte magic packet, derived from a hardware address alone.
pub struct MagicPacket {
    data: Vec<u8>,
}

impl View for MagicPacket {
    type V = Seq<u8>;

    closed spec fn view(&self) -> Seq<u8> {
        self.data@
    }
}

impl MagicPacket {
    /// Builds the packet for one target address.
    pub fn build(addr: &HardwareAddress) -> (r: Self)
        requires
            addr.wf(),
        ensures
            r@ == magic_bytes(addr@),
            r@.len() == 102,
    {
        let mut data: Vec<u8> = Vec::new();
        let mut i: usize = 0;
        while i < 6
            invariant
                i <= 6,
                data@.len() == i,
                forall|k: int| 0 <= k < i ==> data@[k] == 0xffu8,
            decreases 6 - i,
        {
            data.push(0xff);
            i = i + 1;
        }
        let mut rep: usize = 0;
        while rep < 16
            invariant
                addr.wf(),
                rep <= 16,
                data@.len() == 6 + rep * 6,
                forall|k: int| 0 <= k < 6 ==> data@[k] == 0xffu8,
                forall|k: int| 6 <= k < data@.len() ==> data@[k] == addr@[(k - 6) % 6],
            decreases 16 - rep,
        {
            let mut j: usize = 0;
            while j < 6
                invariant
                    addr.wf(),
                    rep < 16,
                    j <= 6,
                    data@.len() == 6 + rep * 6 + j,
                    forall|k: int| 0 <= k < 6 ==> data@[k] == 0xffu8,
                    forall|k: int| 6 <= k < data@.len() ==> data@[k] == addr@[(k - 6) % 6],
                decreases 6 - j,
            {
                proof {
                    assert((rep * 6 + j) % 6 == j as int) by (nonlinear_arith)
                        requires
                            0 <= rep,
                            0 <= j < 6,
                    ;
                }
                data.push(addr.octet(j));
                j = j + 1;
            }
            rep = rep + 1;
        }
        proof {
            assert(data@ =~= magic_bytes(addr@));
        }
        MagicPacket { data }
    }

    /// The packet's bytes, ready to hand to a transport.
    pub fn bytes(&self) -> (r: &Vec<u8>)
        ensures
            r@ == self@,
    {
        &self.data
    }

    /// The packet's length in bytes.
    pub fn len(&self) -> (r: usize)
        ensures
            r == self@.len(),
    {
        self.data.len()
    }
}

} // verus!
