//! The core of a concurrent TCP port scanner: how the port space is shared
//! out among workers, how one worker walks its share, how the reported ports
//! are gathered and ordered, and how the command line is read.

pub mod aggregate;
pub mod args;
pub mod ports;
pub mod scan;
pub mod worker;
