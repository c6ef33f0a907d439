//! Interpretation of S.M.A.R.T. attribute tables against the smartmontools
//! drive database: rule parsing, drive matching, rule resolution and raw
//! value decoding.
//!
//! * [`vendor_attribute`]: attribute rules and their text form
//!   `id,format[:byteorder][,name]`.
//! * [`parser`] and [`loader`]: the drive database text and its loading.
//! * [`drivedb`]: matching a drive against the database and merging the
//!   rules that apply to it with the user's.
//! * [`attr`], [`raw`] and [`display`]: the 512-byte attribute and threshold
//!   tables, the raw value of each attribute, and its display text.
//! * [`log_page`], [`pages`], [`sense_fixed`], [`sense_descriptor`],
//!   [`device_id`], [`scsi`] and [`ata`]: decoders for SCSI and ATA replies.

pub mod text;
pub mod vendor_attribute;
pub mod raw;
pub mod display;
pub mod drivedb;
pub mod attr;
pub mod parser;
pub mod loader;
pub mod ata;
pub mod pages;
pub mod scsi;
pub mod log_page;
pub mod sense_fixed;
pub mod sense_descriptor;
pub mod device_id;
