//! Core of a DHCP/BOOTP responder for a VM-fleet manager: frame codec,
//! option table, lease resolution and the DISCOVER/REQUEST reply state
//! machine. The UDP listener and the VM store live outside this crate and
//! hand plain values in.

pub mod codec;
pub mod error;
pub mod frame;
pub mod options;
pub mod records;
pub mod resolver;
pub mod responder;
pub mod storage;
