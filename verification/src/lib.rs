//! Finds TCP ports that nothing is listening on, among the registered ports
//! (1024 to 49151) and the dynamic ports (49152 to 65535).
//!
//! Whether a port is free is decided by a probe that the caller hands in: a
//! function from a port number to `true` (free) or `false` (in use), which
//! as a rule tries to bind a listener to the port on the loopback address
//! and closes it again at once. Every query walks its range in the order of
//! its policy, lowest first, highest first or shuffled, asks the probe about
//! one port at a time and stops as soon as it has what it was asked for.
//!
//! Nothing is kept between two queries, and a port that a query returns is
//! not reserved: whoever binds it first has it.

pub mod error;
pub mod range;
pub mod scan;
mod shuffle;
pub mod query;
pub mod registered;
pub mod dynamic;
pub mod laws;

pub use error::DynaportError;
pub use dynamic::{
    highest_dynamic_port, highest_n_dynamic_ports, lowest_dynamic_port, lowest_n_dynamic_ports,
    random_dynamic_port, random_n_dynamic_ports,
};
pub use query::{
    highest_n_ports, highest_port, lowest_n_ports, lowest_port, random_n_ports, random_port,
};
pub use range::PortRange;
pub use registered::{
    highest_n_registered_ports, highest_registered_port, lowest_n_registered_ports,
    lowest_registered_port, random_n_registered_ports, random_registered_port,
};
