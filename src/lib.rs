//! Control of remote devices (switchable power sockets, temperature sensors)
//! through one interface, whether a device sits behind a stream connection, a
//! datagram feed or an in-memory stand-in, and a registry that addresses them
//! by handle.

pub mod decimal;
pub mod device;
pub mod fake_power_socket;
pub mod registry;
pub mod report;
pub mod stream;
pub mod text;
pub mod transport;
