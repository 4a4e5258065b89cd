//! Addressable endpoints through which storages and processes are reached:
//! a network client identifier paired with one or more addresses.

use vstd::prelude::*;

use crate::util::clone_string_vec;

verus! {

/// Endpoint for an item inventory: the client that hosts it, the inventory's
/// own address, and the address of the shared item bus next to it.
pub struct BusAccess {
    pub client: String,
    pub inv_addr: String,
    pub bus_addr: String,
}

impl Clone for BusAccess {
    fn clone(&self) -> (r: Self)
        ensures
            r == *self,
    {
        BusAccess {
            client: self.client.clone(),
            inv_addr: self.inv_addr.clone(),
            bus_addr: self.bus_addr.clone(),
        }
    }
}

/// Endpoint for a fluid tank: the client, the addresses of the fluid buses
/// it can reach, and the tank's own address.
pub struct FluidAccess {
    pub client: String,
    pub fluid_bus_addrs: Vec<String>,
    pub tank_addr: String,
}

impl Clone for FluidAccess {
    fn clone(&self) -> (r: Self)
        ensures
            r.client == self.client,
            r.fluid_bus_addrs@ == self.fluid_bus_addrs@,
            r.tank_addr == self.tank_addr,
    {
        let addrs = clone_string_vec(&self.fluid_bus_addrs);
        FluidAccess {
            client: self.client.clone(),
            fluid_bus_addrs: addrs,
            tank_addr: self.tank_addr.clone(),
        }
    }
}

/// Endpoint for a redstone signal emitter.
pub struct RedstoneAccess {
    pub client: String,
    pub addr: String,
}

impl Clone for RedstoneAccess {
    fn clone(&self) -> (r: Self)
        ensures
            r == *self,
    {
        RedstoneAccess { client: self.client.clone(), addr: self.addr.clone() }
    }
}

} // verus!
