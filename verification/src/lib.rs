//! MARK-X: a migration-aware authenticated re-key exchange (Mode A,
//! Variant A1), with its wire codec, local policy, monotonic state and the
//! two protocol drivers, each stated and proved with Verus.
//!
//! | Module | Concept |
//! |---|---|
//! | [`error`] | The rejection branches |
//! | [`bytes`], [`codec`] | Big-endian fields and the injective encoding of `ctx_1` |
//! | [`messages`] | Wire forms of `m_1`, `m_2`, `m_3` |
//! | [`policy`] | The local policy, its canonical hash and acceptance check |
//! | [`state`] | Persistent monotonic state |
//! | [`labels`], [`kdf`] | Domain-separated HKDF derivations |
//! | [`crypto`] | ML-KEM-768, ECDSA-P256, SHA-256, HMAC-SHA-256 |
//! | [`protocol`] | Values both drivers compute alike |
//! | [`server`], [`client`] | The two drivers |
//! | [`handshake`] | Properties of an honest run |

pub mod bytes;
pub mod error;
pub mod codec;
pub mod messages;
pub mod crypto;
pub mod labels;
pub mod kdf;
pub mod policy;
pub mod state;
pub mod protocol;
pub mod server;
pub mod client;
pub mod handshake;

pub use client::MarkXClient;
pub use error::{MarkXError, Result};
pub use policy::MarkXPolicy;
pub use server::MarkXServer;
pub use state::{MigrationState, StateStore};
