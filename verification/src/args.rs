//! The tool's configuration surface, as plain values: endpoint tokens,
//! model name, prompt text, token budget, page range, output directory
//! and flags. Command-line parsing itself lives outside the library and
//! hands these values in.

use vstd::prelude::*;

verus! {

/// One run's configuration.
#[derive(Debug, Clone)]
pub struct Args {
    pub verbose: bool,
    pub show_content: bool,
    pub log_level: String,
    pub page_width: u16,
    pub keep: bool,
    pub page_start: Option<usize>,
    pub page_end: Option<usize>,
    pub output_dir: String,
    pub enum_models: bool,
    pub sort_by_size: bool,
    pub ollama_url: Vec<String>,
    pub prompt: String,
    pub model: String,
    pub max_tokens: usize,
    pub files: Vec<String>,
}

} // verus!
