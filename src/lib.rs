//! Incremental harvesting of a paginated listing site: checkpoint state,
//! proxy acceptance, download-job planning and link extraction.

pub mod text;
pub mod checkpoint;
pub mod proxy;
pub mod jobs;
pub mod locator;
pub mod extract;
pub mod count;
pub mod pipeline;
