use vstd::prelude::*;

pub mod text;
pub mod cron;
pub mod fuzzy;
pub mod slash;
pub mod input_state;
pub mod ranking;
pub mod completion;
pub mod markdown;
pub mod permissions;
pub mod sse;
pub mod hooks;
pub mod tasks;
pub mod messages;
pub mod skills;
pub mod lsp;
pub mod ui_state;
pub mod prompt_view;
pub mod background;
pub mod groups;
pub mod plugins;
pub mod clock;
pub mod json;
pub mod commands;
pub mod transcript;
pub mod api_json;
pub mod keys;
pub mod stream_assembly;
pub mod tui_markdown;
pub mod compaction;
pub mod schedule;
pub mod md_stream;
pub mod retry;
pub mod popup;
pub mod tool_gate;
pub mod lsp_wire;
pub mod compact_plan;
pub mod transcript_view;
pub mod context_analysis;

verus! {

} // verus!
