//! Paging policy: when a file is paged, how many pages it has, and which
//! lines a page holds.

use crate::lines::window;
use vstd::prelude::*;

verus! {

/// Lines on one page of a large file.
pub const LINES_PER_PAGE: u64 = 1000;

/// Files of at least this many bytes are paged.
pub const LARGE_FILE_THRESHOLD: u64 = 10485760;

/// `ceil(n / d)` for `d > 0`.
pub open spec fn ceil_div(n: nat, d: nat) -> nat {
    if n % d == 0 {
        n / d
    } else {
        n / d + 1
    }
}

/// The paging policy: page size and the size from which files are paged.
#[derive(Clone, Copy, Debug)]
pub struct PagePolicy {
    lines_per_page: u64,
    large_file_threshold: u64,
}

/// What a view request shows: the window of lines to read and the page
/// numbers to report.
#[derive(Clone, Copy, Debug, PartialEq, Eq, Structural)]
pub struct ViewPlan {
    /// First line to read, counted from 1.
    pub start_line: u64,
    /// Number of lines to read at most.
    pub count: u64,
    /// Page shown, after clamping.
    pub page: u64,
    /// Number of pages of the file.
    pub total_pages: u64,
    /// Whether the window is one page of a paged file.
    pub is_partial: bool,
}

impl PagePolicy {
    /// Page size of this policy.
    pub closed spec fn page_size(&self) -> nat {
        self.lines_per_page as nat
    }

    /// Size in bytes from which a file is paged.
    pub closed spec fn threshold(&self) -> nat {
        self.large_file_threshold as nat
    }

    /// A policy is well formed when a page holds at least one line.
    pub open spec fn wf(&self) -> bool {
        self.page_size() >= 1
    }

    #[verifier::type_invariant]
    spec fn inv(&self) -> bool {
        self.lines_per_page >= 1
    }

    /// Whether a file of `file_size` bytes is paged.
    pub open spec fn large(&self, file_size: nat) -> bool {
        file_size >= self.threshold()
    }

    /// Number of pages of a file with `total_lines` lines.
    pub open spec fn pages(&self, file_size: nat, total_lines: nat) -> nat {
        if self.large(file_size) {
            ceil_div(total_lines, self.page_size())
        } else {
            1
        }
    }

    /// The page that holds line `line_number` (counted from 1).
    pub open spec fn line_page(&self, file_size: nat, line_number: nat) -> nat {
        if self.large(file_size) {
            ((line_number - 1) / (self.page_size() as int) + 1) as nat
        } else {
            1
        }
    }

    /// The window and page numbers for a view request.
    pub open spec fn view_plan(&self, file_size: nat, total_lines: nat, requested: nat) -> ViewPlan {
        if self.large(file_size) {
            let total = self.pages(file_size, total_lines);
            let page = clamped_page(requested, total);
            ViewPlan {
                start_line: ((page - 1) * self.page_size() + 1) as u64,
                count: self.page_size() as u64,
                page: page as u64,
                total_pages: total as u64,
                is_partial: true,
            }
        } else {
            ViewPlan {
                start_line: 1,
                count: total_lines as u64,
                page: 1,
                total_pages: 1,
                is_partial: false,
            }
        }
    }

    /// A policy with the given page size and threshold; `None` when a page
    /// would hold no line.
    pub fn new(lines_per_page: u64, large_file_threshold: u64) -> (r: Option<PagePolicy>)
        ensures
            lines_per_page == 0 <==> r is None,
            r matches Some(p) ==> p.wf() && p.page_size() == lines_per_page && p.threshold()
                == large_file_threshold,
    {
        if lines_per_page == 0 {
            None
        } else {
            Some(PagePolicy { lines_per_page, large_file_threshold })
        }
    }

    /// The page size.
    pub fn lines_per_page(&self) -> (r: u64)
        ensures
            r == self.page_size(),
            r >= 1,
            self.wf(),
    {
        proof {
            use_type_invariant(self);
        }
        self.lines_per_page
    }

    /// The size in bytes from which a file is paged.
    pub fn large_file_threshold(&self) -> (r: u64)
        ensures
            r == self.threshold(),
    {
        self.large_file_threshold
    }

    /// Whether a file of `file_size` bytes is paged.
    pub fn is_large(&self, file_size: u64) -> (r: bool)
        ensures
            r == self.large(file_size as nat),
    {
        file_size >= self.large_file_threshold
    }

    /// Number of pages of a file of `file_size` bytes and `total_lines` lines.
    pub fn total_pages(&self, file_size: u64, total_lines: u64) -> (r: u64)
        ensures
            r == self.pages(file_size as nat, total_lines as nat),
    {
        proof {
            use_type_invariant(self);
        }
        if self.is_large(file_size) {
            let whole: u64 = total_lines / self.lines_per_page;
            if total_lines % self.lines_per_page == 0 {
                whole
            } else {
                assert(whole < total_lines) by (nonlinear_arith)
                    requires
                        whole == total_lines as int / self.lines_per_page as int,
                        total_lines as int % self.lines_per_page as int != 0,
                        self.lines_per_page >= 1,
                ;
                whole + 1
            }
        } else {
            1
        }
    }

    /// The page on which line `line_number` of a file of `file_size` bytes
    /// lies. Lines are counted from 1.
    pub fn page_of_line(&self, file_size: u64, line_number: u64) -> (r: u64)
        requires
            line_number >= 1,
        ensures
            r == self.line_page(file_size as nat, line_number as nat),
            r >= 1,
    {
        proof {
            use_type_invariant(self);
        }
        if self.is_large(file_size) {
            (line_number - 1) / self.lines_per_page + 1
        } else {
            1
        }
    }

    /// Plans a view of page `requested` of a file of `file_size` bytes and
    /// `total_lines` lines.
    pub fn plan_view(&self, file_size: u64, total_lines: u64, requested: u32) -> (r: ViewPlan)
        ensures
            self.wf(),
            r == self.view_plan(file_size as nat, total_lines as nat, requested as nat),
            r.is_partial == self.large(file_size as nat),
            r.total_pages == self.pages(file_size as nat, total_lines as nat),
            r.page == clamped_page(requested as nat, r.total_pages as nat),
            r.is_partial ==> r.start_line == (r.page - 1) * self.page_size() + 1 && r.count
                == self.page_size(),
            !r.is_partial ==> r.start_line == 1 && r.count == total_lines,
    {
        proof {
            use_type_invariant(self);
        }
        if self.is_large(file_size) {
            let total: u64 = self.total_pages(file_size, total_lines);
            let page: u64 = clamp_page(requested, total);
            proof {
                lemma_page_start_fits(total_lines as nat, self.page_size(), page as nat);
            }
            let start: u64 = (page - 1) * self.lines_per_page + 1;
            ViewPlan {
                start_line: start,
                count: self.lines_per_page,
                page,
                total_pages: total,
                is_partial: true,
            }
        } else {
            ViewPlan { start_line: 1, count: total_lines, page: 1, total_pages: 1, is_partial: false }
        }
    }
}

impl Default for PagePolicy {
    /// Pages of 1000 lines, for files of 10 MiB and more.
    fn default() -> (r: PagePolicy)
        ensures
            r.wf(),
            r.page_size() == LINES_PER_PAGE,
            r.threshold() == LARGE_FILE_THRESHOLD,
    {
        PagePolicy { lines_per_page: LINES_PER_PAGE, large_file_threshold: LARGE_FILE_THRESHOLD }
    }
}

/// A requested page number brought into `1..=total`; page 1 when there is
/// no page at all.
pub open spec fn clamped_page(requested: nat, total: nat) -> nat {
    let low = if requested < total {
        requested
    } else {
        total
    };
    if low < 1 {
        1
    } else {
        low
    }
}

/// Clamps a requested page number into `1..=total_pages`.
pub fn clamp_page(requested: u32, total_pages: u64) -> (r: u64)
    ensures
        r == clamped_page(requested as nat, total_pages as nat),
        r >= 1,
        total_pages >= 1 ==> r <= total_pages,
        1 <= requested <= total_pages ==> r == requested,
{
    let wanted: u64 = requested as u64;
    let low: u64 = if wanted < total_pages {
        wanted
    } else {
        total_pages
    };
    if low < 1 {
        1
    } else {
        low
    }
}

/// The first line of a clamped page lies within the file, or is line 1.
pub proof fn lemma_page_start_fits(total_lines: nat, page_size: nat, page: nat)
    requires
        page_size >= 1,
        1 <= page,
        page <= ceil_div(total_lines, page_size) || page == 1,
    ensures
        0 <= (page - 1) * page_size,
        (page - 1) * page_size + 1 <= total_lines || (page - 1) * page_size + 1 == 1,
{
    if page == 1 {
        assert((page - 1) * page_size == 0) by (nonlinear_arith)
            requires
                page == 1,
        ;
    } else {
        let d = page_size as int;
        let n = total_lines as int;
        let q = n / d;
        assert(n == d * q + n % d && 0 <= n % d < d) by (nonlinear_arith)
            requires
                d >= 1,
                q == n / d,
                n >= 0,
        ;
        if n % d == 0 {
            assert((page - 1) * d + 1 <= n) by (nonlinear_arith)
                requires
                    page <= q,
                    n == d * q,
                    d >= 1,
                    page >= 1,
            ;
        } else {
            assert((page - 1) * d + 1 <= n) by (nonlinear_arith)
                requires
                    page <= q + 1,
                    n == d * q + n % d,
                    n % d >= 1,
                    d >= 1,
                    page >= 1,
            ;
        }
    }
}

/// Number of the first line of page `page`, both counted from 1.
pub open spec fn page_start(page_size: nat, page: nat) -> nat {
    ((page - 1) * page_size + 1) as nat
}

/// The windows of the pages 1 to `pages`, one after the other.
pub open spec fn pages_through<T>(lines: Seq<T>, page_size: nat, pages: nat) -> Seq<T>
    decreases pages,
{
    if pages == 0 {
        Seq::empty()
    } else {
        pages_through(lines, page_size, (pages - 1) as nat) + window(
            lines,
            page_start(page_size, pages),
            page_size,
        )
    }
}

/// Number of lines on the first `pages` pages of a file of `total` lines.
pub open spec fn lines_through(total: nat, page_size: nat, pages: nat) -> int {
    if pages * page_size < total {
        (pages * page_size) as int
    } else {
        total as int
    }
}

/// The windows of the first `pages` pages, put together, are the first
/// `pages * page_size` lines of the file, or all its lines if it has fewer.
pub proof fn lemma_pages_through<T>(lines: Seq<T>, page_size: nat, pages: nat)
    requires
        page_size >= 1,
    ensures
        pages_through(lines, page_size, pages) == lines.take(
            lines_through(lines.len(), page_size, pages),
        ),
    decreases pages,
{
    if pages == 0 {
        assert(pages * page_size == 0) by (nonlinear_arith)
            requires
                pages == 0,
        ;
        assert(lines.take(0) =~= Seq::<T>::empty());
    } else {
        let before = (pages - 1) as nat;
        lemma_pages_through(lines, page_size, before);
        assert(before * page_size + page_size == pages * page_size && before * page_size >= 0)
            by (nonlinear_arith)
            requires
                before == pages - 1,
                pages >= 1,
                page_size >= 1,
        ;
        let start = page_start(page_size, pages);
        assert(start == before * page_size + 1);
        let done = lines_through(lines.len(), page_size, before);
        let end = lines_through(lines.len(), page_size, pages);
        assert(window(lines, start, page_size) =~= lines.subrange(done, end));
        assert(lines.take(done) + lines.subrange(done, end) =~= lines.take(end));
    }
}

/// Paging loses and repeats nothing: the windows of the pages 1 to the
/// last, put together in that order, are the lines of the file, each
/// exactly once.
pub proof fn lemma_pages_cover_file<T>(lines: Seq<T>, page_size: nat)
    requires
        page_size >= 1,
    ensures
        pages_through(lines, page_size, ceil_div(lines.len(), page_size)) == lines,
{
    let total = ceil_div(lines.len(), page_size);
    lemma_pages_through(lines, page_size, total);
    let n = lines.len() as int;
    let d = page_size as int;
    assert(total * d >= n) by (nonlinear_arith)
        requires
            d >= 1,
            n >= 0,
            total == if n % d == 0 {
                n / d
            } else {
                n / d + 1
            },
    ;
    assert(lines.take(n) =~= lines);
}

/// Every page of a file starts within the file and holds at least one
/// line, and its `j`-th line is line `page_start + j` of the file.
pub proof fn lemma_page_window<T>(lines: Seq<T>, page_size: nat, page: nat)
    requires
        page_size >= 1,
        1 <= page <= ceil_div(lines.len(), page_size),
    ensures
        1 <= page_start(page_size, page) <= lines.len(),
        window(lines, page_start(page_size, page), page_size).len() >= 1,
        forall|j: int|
            0 <= j < window(lines, page_start(page_size, page), page_size).len() ==> window(
                lines,
                page_start(page_size, page),
                page_size,
            )[j] == lines[page_start(page_size, page) - 1 + j],
{
    lemma_page_start_fits(lines.len(), page_size, page);
    if page == 1 {
        assert((page - 1) * page_size == 0) by (nonlinear_arith)
            requires
                page == 1,
        ;
        assert(lines.len() >= 1) by {
            if lines.len() == 0 {
                assert(0nat % page_size == 0 && 0nat / page_size == 0) by (nonlinear_arith)
                    requires
                        page_size >= 1,
                ;
            }
        }
    }
}

} // verus!
