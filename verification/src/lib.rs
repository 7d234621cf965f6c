//! Pinning GitHub Actions to commit SHAs: the verified core of the `gx` tool.

mod text;
pub mod shellcheck;
pub mod identity;
pub mod order;
pub mod assoc;
pub mod resolution;
pub mod retrying;
pub mod github;
pub mod toml_doc;
pub mod lock;
pub mod lock_patch;
pub mod tiered;
pub mod two_tier;
pub mod two_tier_write;
pub mod lock_store;
pub mod flat;
pub mod pinned;
pub mod manifest;
pub mod manifest_patch;
pub mod workflow;
pub mod scan;
pub mod discovery;
pub mod located;
pub mod caching;
pub mod init;
