//! Raw on-disk structures of the point-cloud format.

pub mod extrabytes;
