//! Verified core of the x-viz wallpaper manager: URL and file-name rules,
//! configuration defaults, storage bookkeeping, platform command planning
//! and scheduling decisions.

pub mod text;
pub mod bing;
pub mod storage;
pub mod config;
pub mod scheduler;
pub mod platform;
pub mod launch;
pub mod calendar;
