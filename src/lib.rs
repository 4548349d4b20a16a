//! A peer-to-peer battleship node: the board model, the board file and
//! terminal input formats, and the peer-discovery driver that owns the
//! pending-query table of the routing engine.

pub mod board_file;
pub mod discovery;
pub mod input;
pub mod node;
pub mod render;
pub mod state;
