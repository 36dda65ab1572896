//! Connection establishment for an HTTP client: URI validation, host
//! resolution with a literal-IP fast path, and sequential multi-address
//! connection fallback, modelled as a driver-polled state machine.
//!
//! The library holds the decision logic only. The surrounding application
//! performs the actual name resolution and TCP I/O, feeding each outcome back
//! into the state machine.

pub mod addr;
pub mod connect;
pub mod dns;
pub mod parse;
