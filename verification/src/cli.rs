//! The device table that the command line tool prints.
use unicode_width::UnicodeWidthStr;
use vstd::prelude::*;

use crate::text::{collapse_whitespace, collapsed, push_repeated, push_str, repeated};

verus! {

/// A camera as the command line tool lists it.
#[derive(Debug)]
pub struct CameraDevice {
    pub id: String,
    pub name: String,
}

/// The number of terminal columns that the text `s` takes.
pub uninterp spec fn display_width_of(s: Seq<char>) -> usize;

/// Calls `UnicodeWidthStr::width`. Trusted: the result is named
/// `display_width_of`; the Unicode width tables are not stated here.
#[verifier::external_body]
fn display_width(value: &str) -> (r: usize)
    ensures
        r == display_width_of(value@),
{
    UnicodeWidthStr::width(value)
}

/// `value` with each run of whitespace, line breaks included, turned into
/// one space and none at either end, so that it fits on one table line.
pub fn sanitize_cell(value: &str) -> (r: String)
    ensures
        r@ == collapsed(value@),
        crate::text::is_collapsed(r@),
{
    collapse_whitespace(value)
}

/// The headers of the table.
pub open spec fn headers() -> (Seq<char>, Seq<char>) {
    ("DEVICE"@, "NAME"@)
}

/// The larger of `a` and `b`.
pub open spec fn max_width(a: usize, b: usize) -> usize {
    if a >= b {
        a
    } else {
        b
    }
}

/// The width of a column holding the header `header` and the cells `cells`.
pub open spec fn column_width(header: Seq<char>, cells: Seq<Seq<char>>) -> usize
    decreases cells.len(),
{
    if cells.len() == 0 {
        display_width_of(header)
    } else {
        max_width(column_width(header, cells.drop_last()), display_width_of(cells.last()))
    }
}

/// A table line with the cells `a` and `b`, padded to `wa` and `wb` columns.
pub open spec fn row_line(a: Seq<char>, b: Seq<char>, wa: usize, wb: usize) -> Seq<char> {
    "| "@ + a + repeated(' ', (wa - display_width_of(a)) as nat) + " | "@ + b + repeated(
        ' ',
        (wb - display_width_of(b)) as nat,
    ) + " |\n"@
}

/// The border line of a table with columns `wa` and `wb` wide.
pub open spec fn border_line(wa: usize, wb: usize) -> Seq<char> {
    "+-"@ + repeated('-', wa as nat) + "-+-"@ + repeated('-', wb as nat) + "-+"@
}

/// The lines of the rows `ids` and `names`.
pub open spec fn row_lines(ids: Seq<Seq<char>>, names: Seq<Seq<char>>, wa: usize, wb: usize) -> Seq<char>
    decreases ids.len(),
{
    if ids.len() == 0 {
        Seq::empty()
    } else {
        row_lines(ids.drop_last(), names.drop_last(), wa, wb) + row_line(ids.last(), names.last(), wa, wb)
    }
}

/// The table of devices: a border, the headers, a border, one line per
/// device and a closing border, each column as wide as its widest cell.
pub open spec fn table_spec(devices: Seq<CameraDevice>) -> Seq<char> {
    let ids = devices.map_values(|d: CameraDevice| collapsed(d.id@));
    let names = devices.map_values(|d: CameraDevice| collapsed(d.name@));
    let wa = column_width(headers().0, ids);
    let wb = column_width(headers().1, names);
    border_line(wa, wb) + "\n"@ + row_line(headers().0, headers().1, wa, wb) + border_line(wa, wb) + "\n"@
        + row_lines(ids, names, wa, wb) + border_line(wa, wb)
}

/// Writes one table line with `cells` padded to `widths`.
pub fn write_row(output: &mut String, cells: [&str; 2], widths: [usize; 2])
    requires
        display_width_of(cells[0]@) <= widths[0],
        display_width_of(cells[1]@) <= widths[1],
    ensures
        final(output)@ == old(output)@ + row_line(cells[0]@, cells[1]@, widths[0], widths[1]),
{
    push_str(output, "| ");
    push_str(output, cells[0]);
    push_repeated(output, ' ', widths[0] - display_width(cells[0]));
    push_str(output, " | ");
    push_str(output, cells[1]);
    push_repeated(output, ' ', widths[1] - display_width(cells[1]));
    push_str(output, " |\n");
}

fn write_border(output: &mut String, widths: [usize; 2])
    ensures
        final(output)@ == old(output)@ + border_line(widths[0], widths[1]),
{
    push_str(output, "+-");
    push_repeated(output, '-', widths[0]);
    push_str(output, "-+-");
    push_repeated(output, '-', widths[1]);
    push_str(output, "-+");
}

/// Renders `devices` as an aligned table of their identifiers and names,
/// each cell on one line.
pub fn devices_table(devices: &[CameraDevice]) -> (table: String)
    ensures
        table@ == table_spec(devices@),
{
    let ghost ids = devices@.map_values(|d: CameraDevice| collapsed(d.id@));
    let ghost names = devices@.map_values(|d: CameraDevice| collapsed(d.name@));
    let mut ids_v: Vec<String> = Vec::new();
    let mut names_v: Vec<String> = Vec::new();
    let mut wa = display_width("DEVICE");
    let mut wb = display_width("NAME");
    let mut i: usize = 0;
    while i < devices.len()
        invariant
            i <= devices.len(),
            ids == devices@.map_values(|d: CameraDevice| collapsed(d.id@)),
            names == devices@.map_values(|d: CameraDevice| collapsed(d.name@)),
            ids_v.len() == i,
            names_v.len() == i,
            forall|k: int| 0 <= k < i ==> (#[trigger] ids_v@[k])@ == ids[k],
            forall|k: int| 0 <= k < i ==> (#[trigger] names_v@[k])@ == names[k],
            wa == column_width(headers().0, ids.take(i as int)),
            wb == column_width(headers().1, names.take(i as int)),
        decreases devices.len() - i,
    {
        let id = sanitize_cell(devices[i].id.as_str());
        let name = sanitize_cell(devices[i].name.as_str());
        let w_id = display_width(id.as_str());
        let w_name = display_width(name.as_str());
        assert(ids.take(i + 1).drop_last() == ids.take(i as int));
        assert(names.take(i + 1).drop_last() == names.take(i as int));
        if w_id > wa {
            wa = w_id;
        }
        if w_name > wb {
            wb = w_name;
        }
        ids_v.push(id);
        names_v.push(name);
        i = i + 1;
    }
    assert(ids.take(devices@.len() as int) == ids);
    assert(names.take(devices@.len() as int) == names);
    proof {
        reveal_strlit("DEVICE");
        reveal_strlit("NAME");
        lemma_column_width_bounds(headers().0, ids);
        lemma_column_width_bounds(headers().1, names);
    }
    let widths = [wa, wb];
    let mut table = String::new();
    write_border(&mut table, widths);
    push_str(&mut table, "\n");
    write_row(&mut table, ["DEVICE", "NAME"], widths);
    write_border(&mut table, widths);
    push_str(&mut table, "\n");
    let ghost before_rows = table@;
    let mut k: usize = 0;
    while k < ids_v.len()
        invariant
            k <= ids_v.len() == names_v.len() == devices.len(),
            ids.len() == devices.len(),
            names.len() == devices.len(),
            forall|x: int| 0 <= x < ids_v.len() ==> (#[trigger] ids_v@[x])@ == ids[x],
            forall|x: int| 0 <= x < names_v.len() ==> (#[trigger] names_v@[x])@ == names[x],
            forall|x: int| 0 <= x < ids.len() ==> display_width_of(#[trigger] ids[x]) <= wa,
            forall|x: int| 0 <= x < names.len() ==> display_width_of(#[trigger] names[x]) <= wb,
            widths[0] == wa,
            widths[1] == wb,
            table@ == before_rows + row_lines(ids.take(k as int), names.take(k as int), wa, wb),
        decreases ids_v.len() - k,
    {
        assert(ids_v@[k as int]@ == ids[k as int]);
        assert(names_v@[k as int]@ == names[k as int]);
        write_row(&mut table, [ids_v[k].as_str(), names_v[k].as_str()], widths);
        assert(ids.take(k + 1).drop_last() == ids.take(k as int));
        assert(names.take(k + 1).drop_last() == names.take(k as int));
        k = k + 1;
    }
    write_border(&mut table, widths);
    table
}

/// A column is at least as wide as its header and each of its cells.
proof fn lemma_column_width_bounds(header: Seq<char>, cells: Seq<Seq<char>>)
    ensures
        display_width_of(header) <= column_width(header, cells),
        forall|x: int| 0 <= x < cells.len() ==> display_width_of(#[trigger] cells[x]) <= column_width(header, cells),
    decreases cells.len(),
{
    if cells.len() > 0 {
        lemma_column_width_bounds(header, cells.drop_last());
        assert forall|x: int| 0 <= x < cells.len() implies display_width_of(#[trigger] cells[x]) <= column_width(header, cells) by {
            if x < cells.len() - 1 {
                assert(cells[x] == cells.drop_last()[x]);
            }
        }
    }
}

} // verus!
