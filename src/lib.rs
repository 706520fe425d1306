//! A small static-site generator library: change-log parsing, output-path
//! resolution, title extraction, page assembly and table-of-contents order.

pub mod contents;
pub mod document;
pub mod history;
pub mod page;
pub mod renames;
pub mod text;
pub mod walk;

pub use contents::{is_site_index, table_of_contents};
pub use document::{find_title, DocEvent};
pub use history::{parse_decimal, parse_history, rename_target_of, HistoryError, HistoryMap};
pub use page::{build_page, destination_path, Page};
pub use text::{chars_of, same_chars, split_chars};
pub use walk::{child_path, has_extension, is_listed};
