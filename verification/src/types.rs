//! Domain values shared by every layer: the 8-byte gateway identifier and a
//! plain representation of a UDP peer address.

use vstd::prelude::*;

verus! {

/// The EUI-64 gateway identifier that keys all connection tables.
#[derive(Debug, Clone, Copy)]
pub struct MacAddress {
    bytes: [u8; 8],
}

impl View for MacAddress {
    type V = Seq<u8>;

    closed spec fn view(&self) -> Seq<u8> {
        self.bytes@
    }
}

impl MacAddress {
    pub fn new(b: &[u8; 8]) -> (r: MacAddress)
        ensures
            r@ == b@,
    {
        MacAddress { bytes: *b }
    }

    pub fn bytes(&self) -> (r: &[u8])
        ensures
            r@ == self@,
    {
        &self.bytes
    }
}

impl PartialEq for MacAddress {
    fn eq(&self, other: &MacAddress) -> (r: bool)
    {
        let r = self.bytes[0] == other.bytes[0] && self.bytes[1] == other.bytes[1]
            && self.bytes[2] == other.bytes[2] && self.bytes[3] == other.bytes[3]
            && self.bytes[4] == other.bytes[4] && self.bytes[5] == other.bytes[5]
            && self.bytes[6] == other.bytes[6] && self.bytes[7] == other.bytes[7];
        proof {
            broadcast use vstd::array::axiom_array_ext_equal;

            if r {
                assert(self.bytes =~= other.bytes);
            } else {
                assert(self.bytes !~= other.bytes);
            }
        }
        r
    }
}

impl Eq for MacAddress {}

impl vstd::std_specs::cmp::PartialEqSpecImpl for MacAddress {
    open spec fn obeys_eq_spec() -> bool {
        true
    }

    open spec fn eq_spec(&self, other: &MacAddress) -> bool {
        *self == *other
    }
}

/// A gateway identifier always holds eight bytes.
pub broadcast proof fn lemma_mac_len(m: MacAddress)
    ensures
        #[trigger] m@.len() == 8,
{
}

/// Two identifiers with the same bytes are the same identifier.
pub broadcast proof fn lemma_mac_view_injective(a: MacAddress, b: MacAddress)
    ensures
        (#[trigger] a@ == #[trigger] b@) ==> a == b,
{
    broadcast use vstd::array::axiom_array_ext_equal;

    if a@ == b@ {
        assert(a.bytes =~= b.bytes);
    }
}

/// A UDP peer address in plain form: the IP (IPv4 addresses are held in the
/// low 32 bits) together with the port.
#[derive(Debug, Clone, Copy, PartialEq, Eq, Structural)]
pub struct SocketAddress {
    pub ip: u128,
    pub port: u16,
    pub ipv6: bool,
}

} // verus!
