//! Incremental build cache and native-library assembly planning for KCL
//! programs: cache paths, content fingerprints, the fingerprint record,
//! cache validity, and the scheduling decisions of the library assembler.

pub mod assembler;
pub mod fingerprint;
pub mod info;
pub mod paths;
pub mod store;
