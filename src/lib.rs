//! Editing of a launcher's custom search sites as a table.
//!
//! The sites are held in an insertion-ordered map from an opaque key to a
//! record. This crate turns that map into a sequence of flat rows and back,
//! writes the rows as delimited text with a header line and reads them back,
//! and decides what becomes of the document once an external editor has run.

mod edit;
mod site;
mod sites;
mod table;

pub use edit::{apply_edit, sites_to_table, EditError};
pub use site::{lines_view, CsvLine, CustomSite, Entry, SiteValue};
pub use sites::{
    has_key, insert_entry, keys_unique, lemma_added_row_present, lemma_deleted_row_absent,
    lemma_round_trip, lemma_unflatten_distinct, lemma_url_edit_local, lines_to_map, map_to_lines,
    remove_key, site_entries, unflatten,
};
pub use table::{
    csv_fields, csv_line, decode_record, decode_rows, decode_table, fields_view, flag_text,
    flag_token, header, header_record, lemma_bad_flag_rejected, lemma_missing_column_rejected,
    lemma_table_round_trip, lines_to_records, parse_flag, parse_flag_spec, read_table, record_of,
    records_of, records_to_lines, records_view, rows_result, table_text, write_table, TableError,
};
