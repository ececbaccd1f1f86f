//! Verified core of the OpenShoot photo-culling library: RAW preview
//! extraction, catalog bookkeeping, sidecar and gallery text generation,
//! folder-name sanitation and the integer image filters.

pub mod cr3;
pub mod text;
pub mod catalog;
pub mod paths;
pub mod imageproc;
pub mod gallery;
pub mod retouch;
pub mod grouping;
pub mod culling;
pub mod schema;
pub mod manifest;
pub mod query;
pub mod types;
pub mod captions;
pub mod xmp;
pub mod lrimport;
pub mod edit;
pub mod naming;
pub mod models;
pub mod people;
pub mod hashing;
pub mod upscale;
pub mod raster;
