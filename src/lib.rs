//! Control of remote ComputerCraft computers over websocket connections.
//!
//! The library holds the verified parts: the wire protocol spoken with one
//! computer, the registry of live connections, the per-tick port set, the
//! restart decision of the supervisor and a diffed local monitor buffer.

pub mod error;
pub mod local_monitor;
pub mod ports;
pub mod protocol;
pub mod socket_collection;
pub mod support_type;
pub mod table;
pub mod text;
pub mod utils;
pub mod vec2d;

pub use error::{Errors, GpsError, ToErrorsResult};
pub use ports::Ports;
pub use socket_collection::{
    Connection, SocketCollection, SocketCollectionHandle, SocketCollectionStateHandle,
};
pub use support_type::{ColorId, Direction, Event, PeripheralType, Side};
