//! The decisions and text processing of a Model Context Protocol server that
//! drives `pixtool.exe`.

pub mod analysis;
pub mod analysis_answer;
pub mod bound_laws;
pub mod budget;
pub mod capture;
pub mod changes;
pub mod columns;
pub mod command_laws;
pub mod compare;
pub mod compare_answer;
pub mod compare_laws;
pub mod compare_plan;
pub mod completion;
pub mod counters;
pub mod diagnostics;
pub mod event_laws;
pub mod events;
pub mod events_answer;
pub mod exports;
pub mod failure;
pub mod files;
pub mod finite;
pub mod frame;
pub mod frame_answer;
pub mod frame_laws;
pub mod images;
pub mod json;
pub mod launch;
pub mod numbers;
pub mod order;
pub mod order_laws;
pub mod output_laws;
pub mod path_laws;
pub mod paths;
pub mod pixtool;
pub mod plans;
pub mod process;
pub mod prompt_lines;
pub mod prompts;
pub mod protocol_laws;
pub mod report_laws;
pub mod resource_laws;
pub mod resources;
pub mod screenshot;
pub mod sequences;
pub mod server;
pub mod status;
pub mod table_laws;
pub mod tables;
pub mod text;
pub mod text_laws;
pub mod utf8;
pub mod versions;
pub mod workflow;
