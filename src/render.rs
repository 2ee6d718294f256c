//! The human-readable dashboard page: a table of the live hosts between a
//! heading and a note on the columns.
use vstd::prelude::*;
use crate::dashboard::{database_process, rows_spec, DashboardRow};
use crate::host::push_str;
use crate::registry::{lists_live, Registry};
use crate::text::{esc, lemma_strip_esc_free, string_of, strip_esc, strip_esc_exec};

verus! {

/// The text that prettytable prints for a table of these rows of cells, each
/// cell centred, in its default format.
pub uninterp spec fn table_text(rows: Seq<Seq<Seq<char>>>) -> Seq<char>;

pub open spec fn cells_view(rows: Seq<Vec<String>>) -> Seq<Seq<Seq<char>>> {
    Seq::new(rows.len(), |i: int| Seq::new(rows[i]@.len(), |j: int| rows[i]@[j]@))
}

/// Every cell with its escape characters left out.
pub open spec fn clean_rows(rows: Seq<Seq<Seq<char>>>) -> Seq<Seq<Seq<char>>> {
    Seq::new(rows.len(), |i: int| Seq::new(rows[i].len(), |j: int| strip_esc(rows[i][j])))
}

/// No cell holds the escape character U+001B.
pub open spec fn esc_free(rows: Seq<Seq<Seq<char>>>) -> bool {
    forall|i: int, j: int, k: int|
        0 <= i < rows.len() && 0 <= j < rows[i].len() && 0 <= k < rows[i][j].len() ==> rows[i][j][k]
            != esc()
}

/// Relies on prettytable's `Table`, `Row::new` and `Cell::new_align`: a table
/// of one row per given row, each cell centred, printed by `Display`; the text
/// depends on the cells alone. `Cell::new_align` measures each line with
/// `display_width`, whose assertion on the width of an escape sequence can
/// fail only on text that holds an escape character; such cells are excluded.
#[verifier::external_body]
fn render_table(rows: &Vec<Vec<String>>) -> (r: String)
    requires
        esc_free(cells_view(rows@)),
    ensures
        r@ == table_text(cells_view(rows@)),
{
    let mut table = prettytable::Table::new();
    for row in rows {
        let cells = row.iter().map(|c| {
            prettytable::Cell::new_align(c, prettytable::format::Alignment::CENTER)
        }).collect();
        table.add_row(prettytable::Row::new(cells));
    }
    table.to_string()
}

/// The column titles.
pub open spec fn header_spec() -> Seq<Seq<char>> {
    seq![
        "name"@,
        "addr"@,
        "cpu@s"@,
        "cpu@u"@,
        "cpu@t"@,
        "gpu device"@,
        "gpu@u"@,
        "gpu@m"@,
        "gpu@t"@,
        "gpu user"@,
        "heartbeat"@,
    ]
}

/// The note on the abbreviated column titles.
pub open spec fn note_spec() -> Seq<char> {
    ">> cpu@s: cpu system space utilization\n"@ + ">> cpu@u: cpu user space utilization\n"@
        + ">> cpu@t: cpu temperature\n"@ + ">> gpu@u: gpu utilization\n"@
        + ">> gpu@m: gpu memory\n"@ + ">> gpu@t: gpu temperature"@
}

/// The page around the table text `table`.
pub open spec fn page_spec(date: Seq<char>, table: Seq<char>, version: Seq<char>) -> Seq<char> {
    ">> "@ + date + " [AI Sec Lab]\n"@ + table + note_spec() + "\n>> Powered by Jay (v"@ + version
        + ")"@
}

/// The page of the dashboard, given the text of its table.
pub fn compose_page(date: &str, table: &str, version: &str) -> (r: String)
    ensures
        r@ == page_spec(date@, table@, version@),
{
    let mut out: Vec<char> = Vec::new();
    push_str(&mut out, ">> ");
    push_str(&mut out, date);
    push_str(&mut out, " [AI Sec Lab]\n");
    push_str(&mut out, table);
    push_str(&mut out, ">> cpu@s: cpu system space utilization\n");
    push_str(&mut out, ">> cpu@u: cpu user space utilization\n");
    push_str(&mut out, ">> cpu@t: cpu temperature\n");
    push_str(&mut out, ">> gpu@u: gpu utilization\n");
    push_str(&mut out, ">> gpu@m: gpu memory\n");
    push_str(&mut out, ">> gpu@t: gpu temperature");
    push_str(&mut out, "\n>> Powered by Jay (v");
    push_str(&mut out, version);
    push_str(&mut out, ")");
    assert(out@ =~= page_spec(date@, table@, version@));
    string_of(&out)
}

fn text_cells(row: &DashboardRow) -> (r: Vec<String>)
    ensures
        r@.len() == row@.len(),
        forall|j: int| 0 <= j < r@.len() ==> #[trigger] r@[j]@ == row@[j],
{
    let r = vec![
        row.hostname.clone(),
        row.addr.clone(),
        row.cpu_system.clone(),
        row.cpu_user.clone(),
        row.cpu_temp.clone(),
        row.gpu_device.clone(),
        row.gpu_util.clone(),
        row.gpu_memory.clone(),
        row.gpu_temp.clone(),
        row.gpu_user.clone(),
        row.heartbeat.clone(),
    ];
    assert(r@.len() == 11);
    r
}

fn header_cells() -> (r: Vec<String>)
    ensures
        r@.len() == header_spec().len(),
        forall|j: int| 0 <= j < r@.len() ==> #[trigger] r@[j]@ == header_spec()[j],
{
    vec![
        "name".to_string(),
        "addr".to_string(),
        "cpu@s".to_string(),
        "cpu@u".to_string(),
        "cpu@t".to_string(),
        "gpu device".to_string(),
        "gpu@u".to_string(),
        "gpu@m".to_string(),
        "gpu@t".to_string(),
        "gpu user".to_string(),
        "heartbeat".to_string(),
    ]
}

/// The cells of the table: the titles, then one row per dashboard row.
pub fn table_cells(rows: &Vec<DashboardRow>) -> (r: Vec<Vec<String>>)
    ensures
        cells_view(r@) == seq![header_spec()] + rows@.map_values(|x: DashboardRow| x@),
{
    let mut r: Vec<Vec<String>> = Vec::new();
    r.push(header_cells());
    let mut k: usize = 0;
    while k < rows.len()
        invariant
            k <= rows@.len(),
            r@.len() == k + 1,
            r@[0]@.len() == header_spec().len(),
            forall|j: int| 0 <= j < header_spec().len() ==> #[trigger] r@[0]@[j]@ == header_spec()[j],
            forall|i: int|
                0 <= i < k ==> (#[trigger] r@[i + 1])@.len() == rows@[i]@.len() && forall|j: int|
                    0 <= j < rows@[i]@.len() ==> #[trigger] r@[i + 1]@[j]@ == rows@[i]@[j],
        decreases rows@.len() - k,
    {
        let cells = text_cells(&rows[k]);
        r.push(cells);
        proof {
            assert(r@[k + 1] == cells);
        }
        k = k + 1;
    }
    proof {
        let target = seq![header_spec()] + rows@.map_values(|x: DashboardRow| x@);
        let cv = cells_view(r@);
        assert(cv.len() == target.len());
        assert forall|i: int| 0 <= i < cv.len() implies cv[i] =~= target[i] by {
            if i == 0 {
                assert(target[0] == header_spec());
            } else {
                assert(target[i] == rows@[i - 1]@);
                assert(r@[(i - 1) + 1] == r@[i]);
            }
        }
        assert(cv =~= target);
    }
    r
}

/// The cells with every escape character left out, so that no cell can open
/// a terminal escape sequence.
pub fn clean_cells(cells: &Vec<Vec<String>>) -> (r: Vec<Vec<String>>)
    ensures
        cells_view(r@) == clean_rows(cells_view(cells@)),
        esc_free(cells_view(r@)),
{
    let mut r: Vec<Vec<String>> = Vec::new();
    let mut i: usize = 0;
    while i < cells.len()
        invariant
            i <= cells@.len(),
            r@.len() == i,
            forall|a: int|
                0 <= a < i ==> (#[trigger] r@[a])@.len() == cells@[a]@.len() && forall|b: int|
                    0 <= b < cells@[a]@.len() ==> #[trigger] r@[a]@[b]@ == strip_esc(cells@[a]@[b]@),
        decreases cells@.len() - i,
    {
        let mut row: Vec<String> = Vec::new();
        let mut j: usize = 0;
        while j < cells[i].len()
            invariant
                i < cells@.len(),
                j <= cells@[i as int]@.len(),
                row@.len() == j,
                forall|b: int| 0 <= b < j ==> #[trigger] row@[b]@ == strip_esc(cells@[i as int]@[b]@),
            decreases cells@[i as int]@.len() - j,
        {
            row.push(strip_esc_exec(cells[i][j].as_str()));
            j = j + 1;
        }
        r.push(row);
        proof {
            assert(r@[i as int] == row);
        }
        i = i + 1;
    }
    proof {
        let cv = cells_view(r@);
        let target = clean_rows(cells_view(cells@));
        assert forall|a: int| 0 <= a < cv.len() implies cv[a] =~= target[a] by {}
        assert(cv =~= target);
        assert forall|a: int, b: int, k: int|
            0 <= a < cv.len() && 0 <= b < cv[a].len() && 0 <= k < cv[a][b].len() implies cv[a][b][k]
            != esc() by {
            lemma_strip_esc_free(cells@[a]@[b]@);
        }
    }
    r
}

/// The dashboard page at time `now`: the live hosts in hostname order,
/// `now_text` standing in for a missing heartbeat, under a heading that shows
/// `date` and above a footer that shows `version`. Escape characters are
/// left out of every cell.
pub fn render_dashboard(
    registry: &Registry,
    now: u64,
    now_text: &str,
    date: &str,
    version: &str,
) -> (r: String)
    requires
        registry.wf(),
    ensures
        exists|s: Seq<&crate::registry::RegistryEntry>|
            lists_live(registry@, s, now as int) && r@ == page_spec(
                date@,
                table_text(clean_rows(seq![header_spec()] + rows_spec(s, now_text@))),
                version@,
            ),
{
    let live = registry.live_entries(now);
    let rows = database_process(&live, now_text);
    let cells = clean_cells(&table_cells(&rows));
    let table = render_table(&cells);
    assert(rows@.map_values(|x: DashboardRow| x@) =~= rows_spec(live@, now_text@));
    compose_page(date, table.as_str(), version)
}

} // verus!
