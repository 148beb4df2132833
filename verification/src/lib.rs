//! The core of a peer-to-peer file distribution node: a Huffman codec, a
//! chunk splitter, a registry of the files that peers have announced, the
//! state machine of a transfer, and the decisions of the connection
//! dispatcher. Sockets and files are left to the program around it; the
//! registry and the stage tables are kept in SQLite.

pub mod bits;
pub mod codec;
pub mod codes;
pub mod dispatch;
pub mod frequency;
pub mod paths;
pub mod registry;
pub mod rows;
pub mod slicer;
pub mod stage;
pub mod statements;
pub mod store;
pub mod text;
pub mod tree;
