pub mod clock;
pub mod codec;
pub mod epoch;
pub mod record;
pub mod report;
pub mod retention;
pub mod service;
pub mod storage;
pub mod test_utils;
pub mod types;

pub use epoch::EpochState;
pub use service::PolService;
pub use storage::{Storage, StoreFailure, StoreOp, StoreStage};
pub use test_utils::{create_sample_mint_proof, create_sample_proof};
pub use types::{BurnProof, EpochReport, MintProof, PolError, PolReport, Proof, Timestamp};
