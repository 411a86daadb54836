//! Address lookup over DNS: typed extraction of address records from a
//! resolver's response, and the policy that turns resolver outcomes into
//! printed addresses, diagnostics and an exit code.
//!
//! - `source` says what the extractor needs of a parsed response, and
//!   `resolver` and `message` give it two: the resolver's own response and
//!   one held in memory. A message keeps its records when one is decoded.
//!   Of the resolver's response that is not known here, and what is proved
//!   of a whole walk says so: it is proved of sources that keep their
//!   records.
//! - `record` is the capability shared by A and AAAA records.
//! - `resolv_ext` is the extractor.
//! - `sorting` orders addresses and drops repeats.
//! - `outcome` classifies what a query came to.
//! - `lookup` runs the queries of one name and says what to print and how
//!   to leave.

pub mod address;
pub mod lookup;
pub mod message;
pub mod outcome;
pub mod record;
pub mod resolv_ext;
pub mod resolver;
mod seal;
pub mod sorting;
pub mod source;

pub use address::{Address, Family};
pub use lookup::{run, Action, Lookup};
pub use message::{Message, RawRecord};
pub use outcome::{classify, Diagnostic, ExitCode, LookupFailure, Outcome, Report};
pub use record::AddressRecord;
pub use resolv_ext::{Records, ResponseExt};
pub use source::{Decoded, DecodeError, RecordSource, Section, Slot, A, AAAA};
