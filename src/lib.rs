//! Navigation and annotation model of a response-record viewer.
mod entry;
mod laws;
mod order;
mod tags;
mod viewer;
mod vocabulary;

pub use entry::{tags_after, toggled, Codes, CodesModel, Entry, EntryModel};
pub use laws::{lemma_clamped_at_ends, lemma_code_on_then_off, lemma_step_in_bounds, lemma_toggle_twice, repeat};
pub use order::{lex_lt, str_lt};
pub use tags::{views_of, TagSet};
pub use viewer::{message_for_key, next_idx, prev_idx, row_end, saves, step, Key, Message, Viewer, ViewerModel};
pub use vocabulary::{
    codes_from_table, columns, csv_header_of, csv_rows_of, decode_rows, decode_table, lemma_standard_header, parse_vocabulary,
    row_code, strictly_sorted, themes_in, themes_of, unique_column, Code, CodeModel,
};
