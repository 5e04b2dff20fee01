//! Upload-queue logic for an OpenList (Alist) desktop uploader: task
//! records and their life cycle, the upload queue and history, target-path
//! rules, history paging, log redaction, and the decisions that the upload
//! scheduler, the schedule monitor and the log synchroniser take.

pub mod text;
pub mod paths;
pub mod models;
pub mod queue;
pub mod adding;
pub mod history;
pub mod redact;
pub mod logging;
pub mod alist;
pub mod scheduler;
pub mod schedule;
pub mod log_sync;
pub mod compress;
pub mod startup;
