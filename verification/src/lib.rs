//! Cross-chain transfer of NFT collections over XCM: the transfer rules, the
//! messages they produce and their wire encoding, the collection-location registry,
//! and the benchmarked weights.

pub mod bytes;
pub mod location;
pub mod asset;
pub mod weights;
pub mod message;
pub mod codec;
pub mod external;
pub mod config;
pub mod transfer;
pub mod pallet;
pub mod laws;
pub mod transfer_laws;
pub mod order_laws;
