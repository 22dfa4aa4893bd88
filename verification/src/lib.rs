//! A verified core for speaking the Android Debug Bridge (ADB) wire protocol.
//!
//! The library holds the protocol's logic: the 24-byte message codec, the
//! payload checksum, the connection handshake, stream bookkeeping, the shell
//! v2 and sync sub-protocols, the ADB host-server framing, the RSA public key
//! layout that devices expect, and the text of the shell commands that drive
//! touch input. Every function carries a contract proved by Verus; the socket
//! and file work is left to the caller.
pub mod constants;
pub mod wire;
pub mod message;
pub mod writer;
pub mod reader;
pub mod text;
pub mod shell;
pub mod error;
pub mod sync;
pub mod keypair;
pub mod connection;
pub mod stream;
pub mod queue;
pub mod server;
pub mod touch;
pub mod device;
