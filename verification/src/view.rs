//! Viewing a file: its lines are counted, the page asked for is brought
//! into range, and the lines of that page, or of the whole file where it is
//! small, are read.

use crate::lines::{split_lines, window};
use crate::paging::{PagePolicy, ViewPlan};
use crate::scanner::{
    count_lines, count_outcome, strings, texts, LineWindow, ScanError,
};
use vstd::prelude::*;

verus! {

/// What a view request is answered with.
#[derive(Clone, Debug)]
pub struct FileView {
    /// Size of the file in bytes.
    pub size: u64,
    /// Number of lines of the file.
    pub total_lines: u64,
    /// The lines shown.
    pub lines: Vec<String>,
    /// The page shown.
    pub page: u64,
    /// Number of pages of the file.
    pub total_pages: u64,
    /// Whether the lines are one page of a paged file.
    pub is_partial: bool,
}

/// Whether a view shows the lines `shown` of a file of `size` bytes and
/// `total_lines` lines according to `plan`.
pub open spec fn shows(
    view: FileView,
    size: nat,
    total_lines: nat,
    plan: ViewPlan,
    shown: Seq<Seq<char>>,
) -> bool {
    &&& view.size == size
    &&& view.total_lines == total_lines
    &&& strings(view.lines@) == shown
    &&& view.page == plan.page
    &&& view.total_pages == plan.total_pages
    &&& view.is_partial == plan.is_partial
}

/// The reader for the lines that a plan asks for.
pub fn open_window(plan: &ViewPlan) -> (r: LineWindow)
    ensures
        r.wf(),
        r.fed() == Seq::<u8>::empty(),
        r.start() == plan.start_line,
        r.count() == plan.count,
{
    LineWindow::new(plan.start_line, plan.count)
}

/// Puts the answer to a view request together from the plan and the lines
/// that were read for it.
pub fn assemble_view(size: u64, total_lines: u64, plan: &ViewPlan, lines: Vec<String>) -> (r:
    FileView)
    ensures
        shows(r, size as nat, total_lines as nat, *plan, strings(lines@)),
        r.lines == lines,
{
    FileView {
        size,
        total_lines,
        lines,
        page: plan.page,
        total_pages: plan.total_pages,
        is_partial: plan.is_partial,
    }
}

/// Views page `requested` of the file with the content `data`.
///
/// A file below the policy's threshold is shown whole, as its only page. A
/// larger file is shown page by page; the page asked for is brought into
/// the range of the pages that the file has. The view is refused when a
/// line of the file is not valid UTF-8.
pub fn view_file(data: &[u8], requested: u32, policy: &PagePolicy) -> (r: Result<
    FileView,
    ScanError,
>)
    ensures
        match count_outcome(data@) {
            Some(n) => {
                let plan = policy.view_plan(data@.len(), n, requested as nat);
                r matches Ok(view) && shows(
                    view,
                    data@.len(),
                    n,
                    plan,
                    window(texts(split_lines(data@)), plan.start_line as nat, plan.count as nat),
                )
            },
            None => r == Err::<FileView, ScanError>(ScanError::InvalidUtf8),
        },
{
    let size: u64 = data.len() as u64;
    let total_lines: u64 = match count_lines(data) {
        Ok(n) => n,
        Err(_) => {
            return Err(ScanError::InvalidUtf8);
        },
    };
    let plan = policy.plan_view(size, total_lines, requested);
    let mut reader = open_window(&plan);
    reader.feed(data);
    match reader.finish() {
        Ok(lines) => Ok(assemble_view(size, total_lines, &plan, lines)),
        Err(_) => Err(ScanError::InvalidUtf8),
    }
}

} // verus!
