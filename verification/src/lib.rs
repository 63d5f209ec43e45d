//! A static-site compiler core: markdown documents become standalone HTML
//! pages, resources are mirrored, and a watch-mode registry decides which
//! files need recompiling.

mod doc;
mod links;
mod md;
mod page;
mod paths;
mod site;
mod text;
mod watch;

pub use doc::DocNode;
pub use doc::extract_title;
pub use doc::get_nodes_string_contents;
pub use links::replace_md_link_extensions_with_html;
pub use md::parse_markdown;
pub use md::render_html;
pub use page::Config;
pub use page::compile_page;
pub use page::get_file_title_html_tag;
pub use page::get_html_style_link_tag;
pub use page::lemma_compile_deterministic;
pub use paths::is_markdown_file;
pub use paths::join_under;
pub use paths::path_is_under;
pub use paths::strip_dir_prefix;
pub use paths::with_html_extension;
pub use site::OutputAction;
pub use site::plan_file;
pub use site::plan_site;
pub use site::lemma_plan_touches_only_targets;
pub use watch::ModRegistry;
pub use watch::lemma_tick_compiles_changed_file_once;
pub use watch::lemma_tick_ignores_unchanged_file;
pub use watch::lemma_touch_recompiles_exactly_once;
pub use text::str_to_chars;
pub use text::chars_to_string;
