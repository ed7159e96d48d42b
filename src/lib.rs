//! Synchronisation core of a daemon that distributes signed directory
//! images: admission of signed uploads against the committed state, the
//! signature list of a state, single-flight index resolution,
//! reconciliation planning, cleanup scheduling, on-disk naming and upload
//! bookkeeping.

mod bytes;
mod external;
pub mod table;
pub mod ids;
pub mod signatures;
pub mod vpath;
pub mod metadata;
pub mod stats;
pub mod fetch;
pub mod reconciliation;
pub mod layout;
pub mod cleanup;

pub use ids::ImageId;
pub use vpath::VPath;
pub use signatures::{SignatureEntry, sort_signatures, append_signatures};
pub use metadata::{
    Accept, Upload, Rejection, Persist, Admission, Meta, Config, Directory, State, Writing,
    AppendDir, ReplaceDir, start_append, start_replace, commit_dir, abort_dir, check_keys,
};
pub use stats::{Stats, check};
pub use fetch::{Fetches, FetchDir, FetchStep};
pub use reconciliation::{Peer, ReconPush, Request, SubdirState, plan_requests, next_candidate};
pub use cleanup::{Command, reschedule, removals, boxerr};
