//! The persisted fleet records: disk images, virtual machines with their
//! network interfaces, snapshots and networks. The store that holds them is
//! an external collaborator; this crate only reads the fields it needs (a
//! VM interface's address) when answering DHCP requests.

use vstd::prelude::*;

verus! {

use std::collections::HashMap;

/// A disk image a VM can be based on.
pub struct Image {
    pub name: String,
    pub backend: String,
    pub node: i32,
    pub file: String,
    pub parameters: HashMap<String, String>,
}

/// A network interface attached to a VM: the network it joins, its IPv4
/// address in dotted-decimal form, and its hardware address.
pub struct Interface {
    pub network: String,
    pub ip: String,
    pub mac: String,
}

/// A virtual machine record.
pub struct VM {
    pub name: String,
    pub node: i32,
    pub backend: String,
    pub image: String,
    pub interfaces: Vec<Interface>,
    pub parameters: HashMap<String, String>,
}

/// A recoverable saved state of a VM.
pub struct Snapshot {
    pub vm: String,
    pub node: i32,
    pub name: String,
}

/// A network VMs can attach interfaces to.
pub struct Network {
    pub name: String,
    pub node: i32,
    pub cidr: String,
    pub router: String,
    pub dns: Vec<String>,
    pub interface: String,
}

} // verus!
