//! Verified core of a parametric typeface renderer.
//!
//! A typeface is forty bytes of parameters; glyphs are rasterized on demand
//! as signed distance fields and cached in one texture. This crate holds
//! what can be stated and proved over integers and bytes:
//!
//! | Module | Holds |
//! |--------|-------|
//! | [`atlas`] | the glyph cache: tile slots in one texture, least recently used first |
//! | [`atlas_model`] | the mathematical model the cache is specified against |
//! | [`atlas_laws`] | what follows from the model: fill, eviction, repeated fetch |
//! | [`tile`] | a rasterized glyph as the cache receives it |
//! | [`skeleton`] | the bounded list of strokes a glyph is drawn from |
//! | [`effect`] | the bounded stack of text effects |
//! | [`kern`] | the sorted table of kerning pairs |
//! | [`param`] | the 40-byte parameter block |
//! | [`license`] | usage rights and their 32-byte record |
//! | [`hash`] | FNV-1a |
//! | [`wire`] | little-endian fields in fixed-size records |
//! | [`rsqrt`] | the first guess of the fast reciprocal square root |
//!
//! Distances, metrics and coordinates are single-precision numbers. They
//! pass through this crate as their 32 bits: the code here stores, moves
//! and orders, and leaves the arithmetic on them to its callers.

pub mod atlas;
pub mod atlas_laws;
pub mod atlas_model;
pub mod effect;
pub mod hash;
pub mod kern;
pub mod license;
pub mod param;
pub mod rsqrt;
pub mod skeleton;
pub mod tile;
pub mod wire;

pub use atlas::{AtlasEntry, SdfAtlas};
pub use effect::EffectStack;
pub use kern::KernTable;
pub use license::{
    FontLicense, LicenseType, LicenseValidator, PlatformRestriction, UsageRights,
    ValidationResult,
};
pub use param::ParamBits;
pub use skeleton::{GlyphSkeleton, StrokeBits};
pub use tile::SdfTile;
