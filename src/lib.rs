//! Userspace packet I/O over AF_XDP-style shared rings.
//!
//! A frame area is cut into equal slots.  Free slots wait in an
//! [`pool::AddressPool`]; the fill ring hands them to the kernel, the receive
//! ring brings received frames back, the transmit ring takes frames out and
//! the completion ring returns them once sent.  [`socket::Socket`] runs the
//! receive and transmit bursts over these four single-producer,
//! single-consumer rings ([`ring::RingBuffer`]), and its contracts keep every
//! slot accounted for exactly once ([`ledger`], [`laws`]).  The kernel's side
//! of the rings is modelled by the loopback steps `Socket::deliver` and
//! `Socket::complete_tx`.

pub mod util;
pub mod buffer;
pub mod ring;
pub mod pool;
pub mod umem;
pub mod descriptor;
pub mod ledger;
pub mod kernel;
pub mod socket;
pub mod laws;
pub mod packet;
pub mod device;
pub mod interface;
