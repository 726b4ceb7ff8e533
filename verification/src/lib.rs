//! The decisions behind the Portal's API: request checks, parsers, plans and verdicts,
//! each stated over plain values and proved.

pub mod text;
pub mod json;
pub mod json_edit;
pub mod error;
pub mod datamodels;
pub mod resource;
pub mod federation;
pub mod change;
pub mod import;
pub mod changes;
pub mod dry_run;
pub mod mutate;
pub mod export;
pub mod assistant;
pub mod webhook;
pub mod basemap;
pub mod projects;
pub mod sync_sources;
pub mod delete;
pub mod agent_runs;
pub mod pipelines;
pub mod ckan;
pub mod resources;
pub mod activity;
pub mod drafts;
pub mod preferences;
pub mod pipeline_test;
pub mod bundle_checks;
pub mod rename;
pub mod catalog;
