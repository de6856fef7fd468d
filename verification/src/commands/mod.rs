//! What the commands of the program compute.

pub mod changelog;
pub mod ci;
pub mod doctor;
pub mod init;
pub mod list;
pub mod promises;
pub mod redaction;
pub mod release;
pub mod shown;
