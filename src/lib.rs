//! Photon accounting for atom imaging simulations: a saturating spatial
//! histogram of emission sites, the batching of emission events, and the
//! bookkeeping of an append-only photon store.

pub mod emission;
pub mod histogram;
pub mod list;
