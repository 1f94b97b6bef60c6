//! An oracle relay for a yield metric: fixed-point encoding of fetched
//! readings, the publish decision, the published-state cell and the
//! synchronisation step that ties them together.

pub mod errors;
pub mod fixed;
pub mod relay;
pub mod source;

pub use errors::{ApiError, ConfigError, EncodeError, FetchError, PublishError};
pub use fixed::{decode_fixed, encode_fixed, FIXED_ONE, SCALE_DIGITS};
pub use relay::{should_publish, DEFAULT_EPSILON, Action, RelayModel, SkipReason, SyncLoop};
pub use source::{combine_readings, decode_reading, AprReport, ReportFailure};
