//! Devices found on the network, and the addresses they are found at.

use vstd::prelude::*;

verus! {

/// An IPv4 address as its four octets, most significant first.
#[derive(Clone, Copy, Debug, PartialEq, Eq, Structural)]
pub struct Ipv4Address(pub u8, pub u8, pub u8, pub u8);

impl Ipv4Address {
    pub fn new(a: u8, b: u8, c: u8, d: u8) -> (r: Ipv4Address)
        ensures
            r == Ipv4Address(a, b, c, d),
    {
        Ipv4Address(a, b, c, d)
    }

    /// The address read as one 32-bit number, which orders addresses.
    pub open spec fn value(self) -> int {
        self.0 as int * 16777216 + self.1 as int * 65536 + self.2 as int * 256 + self.3 as int
    }
}

/// The mathematical content of a device: its name, address and location.
pub struct DeviceView {
    pub name: Seq<char>,
    pub address: Ipv4Address,
    pub location: Seq<char>,
}

/// A media player found on the network. Its name identifies it.
#[derive(Clone, Debug)]
pub struct RokuDevice {
    pub name: String,
    pub address: Ipv4Address,
    pub location: String,
}

impl View for RokuDevice {
    type V = DeviceView;

    open spec fn view(&self) -> DeviceView {
        DeviceView { name: self.name@, address: self.address, location: self.location@ }
    }
}

impl RokuDevice {
    pub fn new(name: String, address: Ipv4Address, location: String) -> (r: RokuDevice)
        ensures
            r@ == (DeviceView { name: name@, address, location: location@ }),
    {
        RokuDevice { name, address, location }
    }
}

/// The views of a list of devices, in order.
pub open spec fn registry_view(v: Seq<RokuDevice>) -> Seq<DeviceView> {
    v.map_values(|d: RokuDevice| d@)
}

} // verus!
