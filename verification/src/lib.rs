//! Verified core of the jitterentropy RNG daemon.
//!
//! - ELF integrity checking: which bytes of the running executable are authenticated
//!   (`bytes`, `elf`, `block`, `ranges`, `order`), what they cover (`coverage`), the
//!   check itself (`integrity`) and why patching the block after the build is sound
//!   (`patch`);
//! - HMAC-SHA3-256 (`hmac`) and the rendering of diagnostics (`text`, `error`);
//! - the daemon's decisions: entropy crediting (`entropy`), the capabilities it keeps
//!   (`caps`) and the step-by-step control flow (`daemon`).

use vstd::prelude::*;

pub mod block;
pub mod bytes;
pub mod caps;
pub mod coverage;
pub mod daemon;
pub mod elf;
pub mod entropy;
pub mod error;
pub mod hmac;
pub mod integrity;
pub mod order;
pub mod patch;
pub mod ranges;
pub mod text;
