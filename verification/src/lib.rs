use vstd::prelude::*;

pub mod json;
pub mod text;
pub mod sorting;
pub mod canonical;
pub mod canonical_laws;
pub mod steam;
pub mod codec;
pub mod protocol;
pub mod paths;
pub mod export;
pub mod siege;
pub mod setup;
pub mod status;
pub mod capture;
pub mod certificate;
pub mod storage;
pub mod hosts_laws;

verus! {
}
