use linked_hash_map::LinkedHashMap;
use vstd::prelude::*;

use crate::site::CustomSite;
use crate::sites::{lines_to_map, map_to_lines, site_entries, unflatten};
use crate::table::{csv_fields, decode_table, read_table, records_of, table_text, write_table, TableError};

verus! {

/// Why an edit of the sites was given up. Either way the document is left as
/// it was.
#[derive(Debug, Clone, Copy, PartialEq, Eq, Structural)]
pub enum EditError {
    /// The editor reported a failure; its output is not read.
    EditorFailed,
    /// The edited text does not hold a table of sites.
    Table(TableError),
}

/// The table text handed to the editor: the map's sites, one line each, in
/// the map's order, below a header line.
pub fn sites_to_table(map: LinkedHashMap<String, CustomSite>) -> (r: Vec<u8>)
    ensures
        r@ == table_text(records_of(site_entries(map))),
{
    let lines = map_to_lines(map);
    write_table(&lines)
}

/// The site map that replaces the document's once the editor has exited:
/// none where it failed, none where its text holds no table, else the rows of
/// the text stored in order under their keys.
pub fn apply_edit(editor_ok: bool, edited: &Vec<u8>) -> (r: Result<
    LinkedHashMap<String, CustomSite>,
    EditError,
>)
    ensures
        !editor_ok ==> r == Err::<LinkedHashMap<String, CustomSite>, EditError>(
            EditError::EditorFailed,
        ),
        editor_ok ==> match csv_fields(edited@) {
            None => r == Err::<LinkedHashMap<String, CustomSite>, EditError>(
                EditError::Table(TableError::Syntax),
            ),
            Some(recs) => match decode_table(recs) {
                Err(e) => r == Err::<LinkedHashMap<String, CustomSite>, EditError>(
                    EditError::Table(e),
                ),
                Ok(rows) => r is Ok && site_entries(r->Ok_0) == unflatten(rows),
            },
        },
{
    if !editor_ok {
        return Err(EditError::EditorFailed);
    }
    match read_table(edited) {
        Ok(lines) => Ok(lines_to_map(lines)),
        Err(e) => Err(EditError::Table(e)),
    }
}

} // verus!
