pub mod agent;
pub mod ascii;
pub mod bounding;
pub mod capabilities;
pub mod coding;
pub mod compatibility;
pub mod digits;
pub mod dispatch;
pub mod edit;
pub mod edit_upload;
pub mod endpoint;
pub mod fetch;
pub mod file_export;
pub mod fileops;
pub mod frame;
pub mod fsmutate;
pub mod git_ops;
pub mod handler_error;
pub mod help;
pub mod host;
pub mod http_reply;
pub mod identity;
pub mod jobs;
pub mod json;
pub mod local_api;
pub mod local_audit;
pub mod message;
pub mod op;
pub mod order;
pub mod paths;
pub mod patterns;
pub mod pending_results;
pub mod policy;
pub mod preflight;
pub mod progressive_help;
pub mod project_snapshot;
pub mod ratio;
pub mod records;
pub mod scan;
pub mod script;
pub mod segment;
pub mod shell;
pub mod staging;
pub mod template;
pub mod text;
pub mod time;
pub mod upload;
pub mod validators;
pub mod wire;
