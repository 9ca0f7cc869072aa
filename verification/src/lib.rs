//! Planning and bookkeeping for ingesting dated kline archives from a
//! paginated object listing: which listing pages to request, which symbols and
//! archives to keep, where each archive is staged and unpacked, and when a run
//! has failed.
//!
//! Everything here works on plain values. Requests, files and threads belong
//! to the caller, which performs what these functions decide:
//!
//! - [`paginator`] walks a listing page by page;
//! - [`symbols`] takes the symbols off the root listing and filters them;
//! - [`archive`] reads archive keys and names the files of an archive;
//! - [`klines`] picks the archives in the date window and decides on each
//!   download;
//! - [`pipeline`] holds the stages, their progress lines, and a whole run
//!   against a recorded listing;
//! - [`error`] sorts failures and says what a worker does after one;
//! - [`date`] and [`cli`] read the parameters of a run;
//! - [`pattern`] holds what is taken on trust of regular expressions;
//! - [`signal`] keeps the books of the trading signal;
//! - [`text`] and [`types`] hold what the others share.

pub mod archive;
pub mod cli;
pub mod date;
pub mod error;
pub mod klines;
pub mod paginator;
pub mod pattern;
pub mod pipeline;
pub mod signal;
pub mod symbols;
pub mod text;
pub mod types;
