//! Text tables, through the `comfy_table` crate.
//!
//! A table is filled row by row and then drawn. How `comfy_table` draws a
//! table (column widths by display width, wrapping, borders) is its own
//! business; this library names the drawing of a table by its header and its
//! rows and states what the calls do to them.
//!
//! `comfy_table` keeps the columns of a table apart from its header and
//! rows: a header or row with more cells than there are columns adds
//! columns, and nothing takes a column away. A table whose header was
//! replaced by a shorter one is therefore drawn wider than its header and
//! rows tell. Such a table is not plain, and nothing is said of its drawing.

use vstd::prelude::*;
use comfy_table::Table;

verus! {

/// `comfy_table::Table`, carried through as a value that only the calls
/// below look into.
#[verifier::external_type_specification]
#[verifier::external_body]
pub struct ExTable(Table);

/// The rows of the table, each a list of cell texts, in the order added.
pub uninterp spec fn table_rows(table: Table) -> Seq<Seq<Seq<char>>>;

/// The cell texts of the header of the table; `None` before a header is set.
pub uninterp spec fn table_header(table: Table) -> Option<Seq<Seq<char>>>;

/// The table is plain: every setting is as `Table::new` leaves it, every
/// column, row and cell has the settings it is made with, and the table has
/// as many columns as the longest of its header and rows has cells.
pub uninterp spec fn table_is_plain(table: Table) -> bool;

/// The drawing of the plain table with the given header and rows.
pub uninterp spec fn table_text(
    header: Option<Seq<Seq<char>>>,
    rows: Seq<Seq<Seq<char>>>,
) -> Seq<char>;

/// The texts of a list of cells.
pub open spec fn cell_texts(cells: Seq<String>) -> Seq<Seq<char>> {
    cells.map_values(|c: String| c@)
}

/// `Table::new` of `comfy_table`: a plain table without header, rows and
/// columns.
#[verifier::external_body]
pub(crate) fn table_new() -> (table: Table)
    ensures
        table_is_plain(table),
        table_header(table) is None,
        table_rows(table).len() == 0,
{
    Table::new()
}

/// `Table::set_header` of `comfy_table`: the cells become the header and the
/// rows stay. Columns are added up to the number of cells and none is taken
/// away, so a plain table stays plain where it had no header before; a
/// header put in the place of another may leave more columns than it has
/// cells.
#[verifier::external_body]
pub(crate) fn table_set_header(table: &mut Table, cells: Vec<String>)
    ensures
        table_header(*final(table)) == Some(cell_texts(cells@)),
        table_rows(*final(table)) == table_rows(*old(table)),
        table_is_plain(*old(table)) && table_header(*old(table)) is None ==> table_is_plain(
            *final(table),
        ),
{
    table.set_header(cells);
}

/// `Table::add_row` of `comfy_table`: the cells become the last row; the
/// header and the rows before stay. Columns are added up to the number of
/// cells, and rows are never taken away, so a plain table stays plain.
#[verifier::external_body]
pub(crate) fn table_add_row(table: &mut Table, cells: Vec<String>)
    ensures
        table_rows(*final(table)) == table_rows(*old(table)).push(cell_texts(cells@)),
        table_header(*final(table)) == table_header(*old(table)),
        table_is_plain(*old(table)) ==> table_is_plain(*final(table)),
{
    table.add_row(cells);
}

/// `Display` of `comfy_table::Table`, through `to_string`: the drawing of
/// the table. The drawing goes by the columns, the header and the rows; in a
/// plain table the number of columns follows from header and rows, so the
/// drawing of a plain table depends on its header and rows alone.
#[verifier::external_body]
pub(crate) fn table_to_string(table: &Table) -> (out: String)
    ensures
        table_is_plain(*table) ==> out@ == table_text(table_header(*table), table_rows(*table)),
{
    table.to_string()
}

} // verus!
