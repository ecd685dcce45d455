use file_browser::paging::{clamp_page, PagePolicy, ViewPlan, LARGE_FILE_THRESHOLD, LINES_PER_PAGE};

#[test]
fn default_policy_has_pages_of_1000_lines_from_10_mib() {
    let policy = PagePolicy::default();
    assert_eq!(policy.lines_per_page(), 1000);
    assert_eq!(policy.large_file_threshold(), 10 * 1024 * 1024);
    assert_eq!(LINES_PER_PAGE, 1000);
    assert_eq!(LARGE_FILE_THRESHOLD, 10 * 1024 * 1024);
}

#[test]
fn policy_needs_a_page_size() {
    assert!(PagePolicy::new(0, 10).is_none());
    let policy = PagePolicy::new(3, 10).unwrap();
    assert_eq!(policy.lines_per_page(), 3);
    assert_eq!(policy.large_file_threshold(), 10);
}

#[test]
fn a_file_is_large_from_the_threshold_on() {
    let policy = PagePolicy::default();
    assert!(!policy.is_large(0));
    assert!(!policy.is_large(LARGE_FILE_THRESHOLD - 1));
    assert!(policy.is_large(LARGE_FILE_THRESHOLD));
    assert!(policy.is_large(u64::MAX));
}

#[test]
fn total_pages_is_the_ceiling_for_large_files() {
    let policy = PagePolicy::default();
    let big = 12 * 1024 * 1024;
    assert_eq!(policy.total_pages(big, 0), 0);
    assert_eq!(policy.total_pages(big, 1), 1);
    assert_eq!(policy.total_pages(big, 1000), 1);
    assert_eq!(policy.total_pages(big, 1001), 2);
    assert_eq!(policy.total_pages(big, 50_000), 50);
    assert_eq!(policy.total_pages(big, u64::MAX), u64::MAX / 1000 + 1);
}

#[test]
fn small_files_are_one_page() {
    let policy = PagePolicy::default();
    assert_eq!(policy.total_pages(100, 0), 1);
    assert_eq!(policy.total_pages(100, 5_000_000), 1);
    assert_eq!(policy.page_of_line(100, 5_000_000), 1);
}

#[test]
fn page_of_line_for_large_files() {
    let policy = PagePolicy::default();
    let big = LARGE_FILE_THRESHOLD;
    assert_eq!(policy.page_of_line(big, 1), 1);
    assert_eq!(policy.page_of_line(big, 1000), 1);
    assert_eq!(policy.page_of_line(big, 1001), 2);
    assert_eq!(policy.page_of_line(big, 2000), 2);
    assert_eq!(policy.page_of_line(big, 2001), 3);
    assert_eq!(policy.page_of_line(big, u64::MAX), (u64::MAX - 1) / 1000 + 1);
}

#[test]
fn clamp_page_brings_the_page_into_range() {
    assert_eq!(clamp_page(0, 50), 1);
    assert_eq!(clamp_page(1, 50), 1);
    assert_eq!(clamp_page(37, 50), 37);
    assert_eq!(clamp_page(50, 50), 50);
    assert_eq!(clamp_page(51, 50), 50);
    assert_eq!(clamp_page(u32::MAX, 50), 50);
    assert_eq!(clamp_page(7, 0), 1);
}

#[test]
fn twelve_megabytes_of_50000_lines_have_50_pages_and_page_51_is_page_50() {
    let policy = PagePolicy::default();
    let size = 12 * 1000 * 1000;
    assert_eq!(policy.total_pages(size, 50_000), 50);
    let plan = policy.plan_view(size, 50_000, 51);
    assert_eq!(
        plan,
        ViewPlan { start_line: 49_001, count: 1000, page: 50, total_pages: 50, is_partial: true }
    );
}

#[test]
fn plan_view_of_a_small_file_reads_every_line() {
    let policy = PagePolicy::default();
    let plan = policy.plan_view(2048, 77, 9);
    assert_eq!(
        plan,
        ViewPlan { start_line: 1, count: 77, page: 1, total_pages: 1, is_partial: false }
    );
}

#[test]
fn plan_view_of_a_large_file_reads_one_page() {
    let policy = PagePolicy::default();
    let plan = policy.plan_view(LARGE_FILE_THRESHOLD, 2500, 2);
    assert_eq!(
        plan,
        ViewPlan { start_line: 1001, count: 1000, page: 2, total_pages: 3, is_partial: true }
    );
    let first = policy.plan_view(LARGE_FILE_THRESHOLD, 2500, 0);
    assert_eq!(first.page, 1);
    assert_eq!(first.start_line, 1);
}

#[test]
fn plan_view_of_a_large_file_without_lines_shows_page_one_of_none() {
    let policy = PagePolicy::default();
    let plan = policy.plan_view(LARGE_FILE_THRESHOLD, 0, 3);
    assert_eq!(
        plan,
        ViewPlan { start_line: 1, count: 1000, page: 1, total_pages: 0, is_partial: true }
    );
}

#[test]
fn plan_view_with_the_most_lines_does_not_overflow() {
    let policy = PagePolicy::new(1, 0).unwrap();
    let plan = policy.plan_view(0, u64::MAX, u32::MAX);
    assert_eq!(plan.total_pages, u64::MAX);
    assert_eq!(plan.page, u32::MAX as u64);
    assert_eq!(plan.start_line, u32::MAX as u64);
}
