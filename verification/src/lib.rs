//! A filesystem exerciser and oracle: deterministic operation chains, the binary
//! reports that record what each operation did, and the rules that compare two
//! reports, with their behaviour stated as contracts.

pub mod case_laws;
pub mod catalog;
pub mod cli;
pub mod clock;
pub mod codec;
pub mod codec_laws;
pub mod compare;
pub mod compare_laws;
pub mod coordinator;
pub mod coordinator_laws;
pub mod count_laws;
pub mod debug;
pub mod encoding_laws;
pub mod errors;
pub mod exec;
pub mod exec_laws;
pub mod expected;
pub mod fixtures;
pub mod fsx;
pub mod fsx_laws;
pub mod fsx_report;
pub mod fsx_run;
pub mod gzip;
pub mod hash;
pub mod http;
pub mod http_laws;
pub mod known;
pub mod listing;
pub mod manifest;
pub mod manifest_laws;
pub mod moves;
pub mod normal;
pub mod normal_laws;
pub mod numbers;
pub mod oplog;
pub mod ops;
pub mod oracle;
pub mod params;
pub mod pathorder;
pub mod paths;
pub mod plan_laws;
pub mod reader;
pub mod reader_laws;
pub mod report;
pub mod report_laws;
pub mod result;
pub mod run_laws;
pub mod sample;
pub mod scenario;
pub mod scenario_laws;
pub mod schedule;
pub mod script;
pub mod selection;
pub mod sha;
pub mod step_laws;
pub mod stream_laws;
pub mod strings;
pub mod suite;
pub mod suite_laws;
pub mod text;
pub mod text_laws;
pub mod verify;
pub mod worker;
pub mod worker_laws;
pub mod world;
pub mod writer_laws;
pub mod ws;
pub mod ws_laws;
pub mod xorshift;
