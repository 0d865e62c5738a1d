//! Verified core of the efficax game server: identifier generation, the
//! wire format of network messages, packet framing, client routing and the
//! integer bookkeeping of the spatial zone.

pub mod addr;
pub mod cell;
pub mod cell_lists;
pub mod address_book;
pub mod client;
pub mod codec;
pub mod data;
pub mod dispatch;
pub mod grid;
pub mod handle;
pub mod id_gen;
pub mod lists;
pub mod packet;
pub mod receiver;
pub mod sender;
pub mod server_state;
pub mod state;
pub mod tabbed_reader;
pub mod timing;
pub mod zone;
