//! Client-side transport core: packets, remote addresses, receive
//! classification, the link conditioner's scheduling logic, and the
//! host-bridge holding queue.

pub mod address;
pub mod conditioner;
pub mod config;
pub mod delay_queue;
pub mod error;
pub mod packet;
pub mod packet_sender;
pub mod transport;
