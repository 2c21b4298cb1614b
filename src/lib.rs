//! Retrieval of files offered by XDCC bots over IRC: offer parsing, the
//! reactions of an IRC session, the DCC transfer protocol and the job table
//! of the download manager, and the text formats of the file catalog.
pub mod catalog;
pub mod jobs;
pub mod listing;
pub mod offer;
pub mod session;
pub mod text;
pub mod transfer;
pub mod waiters;
