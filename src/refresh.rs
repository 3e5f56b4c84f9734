//! Decisions of one refresh frame: what the screen shows after the active
//! tab's resource was resolved, fetched, or neither.
use crate::discovery::{request_accepted, url_path_spec, Discovery, TABLE_ACCEPT};
use crate::state::UIState;
use crate::table::{column_widths, column_widths_spec, header_strings, rows_view, ColumnDefinition};
use vstd::prelude::*;

verus! {

/// A table ready for display: headers, cell texts and column widths.
#[derive(Debug, Clone)]
pub struct RenderedTable {
    pub headers: Vec<String>,
    pub rows: Vec<Vec<String>>,
    pub widths: Vec<usize>,
}

impl RenderedTable {
    /// The table with the given columns and cell texts, with the display
    /// width of each column computed.
    pub fn new(columns: &Vec<ColumnDefinition>, rows: Vec<Vec<String>>) -> (r: RenderedTable)
        ensures
            r.headers@.len() == columns@.len(),
            forall|i: int| 0 <= i < columns@.len() ==> #[trigger] r.headers@[i]@ == columns@[i].name@,
            r.rows == rows,
            r.widths@ == column_widths_spec(
                r.headers@.map_values(|s: String| s@),
                rows_view(rows@),
            ),
    {
        let headers = header_strings(columns);
        let widths = column_widths(&headers, &rows);
        RenderedTable { headers, rows, widths }
    }
}

/// What a frame found for the active tab.
#[derive(Debug)]
pub enum FrameOutcome {
    /// The tab's resource alias matches no catalogued resource; nothing was
    /// fetched.
    Unresolved,
    /// The alias resolved, but the request, the transport or the decoding
    /// of the answer failed.
    FetchFailed,
    /// The alias resolved and the table was fetched.
    Fetched(RenderedTable),
}

/// What the screen shows: the last table fetched, whether the active tab's
/// resource resolved, and whether the last fetch failed.
#[derive(Debug)]
pub struct Screen {
    pub table: Option<RenderedTable>,
    pub resource_valid: bool,
    pub fetch_failed: bool,
}

/// The screen after a frame with outcome `o`: a fetched table replaces the
/// one shown; otherwise the table shown stays, and the resource field is
/// marked invalid or an error is reported.
pub open spec fn next_screen(s: Screen, o: FrameOutcome) -> Screen {
    match o {
        FrameOutcome::Unresolved => Screen { table: s.table, resource_valid: false, fetch_failed: false },
        FrameOutcome::FetchFailed => Screen { table: s.table, resource_valid: true, fetch_failed: true },
        FrameOutcome::Fetched(t) => Screen { table: Some(t), resource_valid: true, fetch_failed: false },
    }
}

impl Screen {
    /// The screen before the first frame: no table, no error.
    pub fn new() -> (r: Screen)
        ensures
            r.table is None,
            r.resource_valid,
            !r.fetch_failed,
    {
        Screen { table: None, resource_valid: true, fetch_failed: false }
    }

    /// Records the outcome of a frame.
    pub fn apply(&mut self, outcome: FrameOutcome)
        ensures
            *final(self) == next_screen(*old(self), outcome),
    {
        match outcome {
            FrameOutcome::Unresolved => {
                self.resource_valid = false;
                self.fetch_failed = false;
            },
            FrameOutcome::FetchFailed => {
                self.resource_valid = true;
                self.fetch_failed = true;
            },
            FrameOutcome::Fetched(t) => {
                self.table = Some(t);
                self.resource_valid = true;
                self.fetch_failed = false;
            },
        }
    }
}

/// Stale-table retention: after a frame that fetched a table, a frame whose
/// alias does not resolve or whose fetch fails leaves exactly that table on
/// the screen.
pub proof fn lemma_stale_table_retention(s: Screen, t: RenderedTable, o: FrameOutcome)
    requires
        o is Unresolved || o is FetchFailed,
    ensures
        next_screen(next_screen(s, FrameOutcome::Fetched(t)), o).table == next_screen(
            s,
            FrameOutcome::Fetched(t),
        ).table,
        next_screen(next_screen(s, FrameOutcome::Fetched(t)), o).table == Some(t),
{
}

/// Decides what a frame does for the active tab of `ui`: the request for
/// the table of its resource, or, when no fetch is to be made, the outcome of
/// the frame. An alias that resolves to nothing gives `Unresolved`; a
/// request that cannot be built counts as a failed fetch.
pub fn plan_frame(discovery: &Discovery, ui: &UIState) -> (r: Result<
    http::Request<Vec<u8>>,
    FrameOutcome,
>)
    requires
        discovery.wf(),
        ui@.wf(),
    ensures
        ({
            let tab = ui@.tabs[ui@.active];
            &&& !discovery@.contains_key(tab.resource) <==> (r is Err && r->Err_0 is Unresolved)
            &&& discovery@.contains_key(tab.resource) ==> (r is Ok <==> request_accepted(
                url_path_spec(discovery@[tab.resource], tab.namespace),
                "Accept"@,
                TABLE_ACCEPT@,
            ))
            &&& discovery@.contains_key(tab.resource) && r is Err ==> r->Err_0 is FetchFailed
        }),
{
    let tab = ui.active_tab();
    match discovery.get(tab.resource.as_str()) {
        None => Err(FrameOutcome::Unresolved),
        Some(resource) => {
            let namespace = match &tab.namespace {
                Some(n) => Some(n.as_str()),
                None => None,
            };
            match resource.table_request(namespace) {
                Ok(req) => Ok(req),
                Err(_) => Err(FrameOutcome::FetchFailed),
            }
        },
    }
}

} // verus!
