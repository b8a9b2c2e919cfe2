//! A verified codec for application auto-update release manifests.
//!
//! A release is described internally by a [`manifest::ReleaseRecord`]: a
//! structured version, optional notes, an optional publication timestamp, and
//! a distribution that is either a per-platform artifact table or a single
//! artifact descriptor. On the wire the release is one flat JSON object,
//! [`manifest::ExternalManifestShape`], in which the two distribution forms
//! appear as mutually exclusive optional field groups. This crate proves the
//! encode and decode directions of that mapping, including the round trip.

pub mod manifest;
pub mod timestamp;
pub mod version;
pub mod weburl;

pub use manifest::Distribution;
pub use manifest::ExternalArtifact;
pub use manifest::ExternalManifestShape;
pub use manifest::ManifestDecodeError;
pub use manifest::PlatformArtifact;
pub use manifest::UpdateFormat;
pub use manifest::ReleaseRecord;
pub use timestamp::Timestamp;
pub use version::Version;
pub use version::VersionCore;
