pub mod activity;
pub mod pert;
pub mod roadmap;
pub mod github;
pub mod storage;
pub mod view;
pub mod roadmap_report;
