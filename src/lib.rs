pub mod dictionary;
pub mod progress;
pub mod route;
pub mod session;
pub mod status;

pub use dictionary::{chunk_ranges, merge_chunks};
pub use progress::{percentages_for_reads, ProgressCounter};
pub use route::{avatar_source_url, check_parsed_url, is_allowed_host, str_ends_with, validate_image_url, Identity};
pub use session::{start_job, FinalMessage, Request, StatusEdit, UploadJob};
pub use status::{progress_bar, push_decimal, render_status, success_message, JobError};
