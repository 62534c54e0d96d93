//! Listener-bootstrap and connection-admission core of a D-Bus-style message
//! bus broker: address resolution, listener planning, peer-identifier minting,
//! accept-loop decisions and shutdown cleanup, with their behaviour verified.

pub mod address;
pub mod bus;
pub mod guid;
