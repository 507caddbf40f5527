use geofilter::filter::filter_feed;
use geofilter::merge::render_lines;

fn b(s: &str) -> Vec<u8> {
    s.as_bytes().to_vec()
}

fn codes(cs: &[&str]) -> Vec<Vec<u8>> {
    cs.iter().map(|c| b(c)).collect()
}

const FEED: &str = "10.0.0.0/8 DK\n192.168.0.0/16 SE\n203.0.113.0/24 DK";

#[test]
fn filter_single_code_scenario() {
    let (lines, summary) = filter_feed(&b(FEED), &codes(&["DK"]));
    assert_eq!(lines, vec![b("10.0.0.0/8"), b("203.0.113.0/24")]);
    assert_eq!(render_lines(&lines), b("10.0.0.0/8\n203.0.113.0/24"));
    assert_eq!(summary.codes, vec![b("DK")]);
    assert_eq!(summary.counts, vec![2]);
    assert_eq!(summary.total, 2);
}

#[test]
fn filter_reports_zero_for_unmatched_code() {
    let (lines, summary) = filter_feed(&b(FEED), &codes(&["DK", "NO"]));
    assert_eq!(render_lines(&lines), b("10.0.0.0/8\n203.0.113.0/24"));
    assert_eq!(summary.codes, vec![b("DK"), b("NO")]);
    assert_eq!(summary.counts, vec![2, 0]);
    assert_eq!(summary.total, 2);
}

#[test]
fn filter_total_equals_output_line_count() {
    let (lines, summary) = filter_feed(&b(FEED), &codes(&["SE", "DK"]));
    let sum: u64 = summary.counts.iter().sum();
    assert_eq!(sum, lines.len() as u64);
    assert_eq!(summary.total as usize, lines.len());
    assert_eq!(summary.counts, vec![1, 2]);
}

#[test]
fn filter_keeps_source_order() {
    let (lines, _) = filter_feed(&b(FEED), &codes(&["SE", "DK"]));
    assert_eq!(lines, vec![b("10.0.0.0/8"), b("192.168.0.0/16"), b("203.0.113.0/24")]);
}

#[test]
fn filter_drops_lines_with_other_column_counts() {
    let feed = b("1.2.3.0/24 DK extra\nbare\n\n5.6.7.0/24 DK\n   \n8.9.0.0/16\tDK");
    let (lines, summary) = filter_feed(&feed, &codes(&["DK"]));
    assert_eq!(lines, vec![b("5.6.7.0/24"), b("8.9.0.0/16")]);
    assert_eq!(summary.counts, vec![2]);
}

#[test]
fn filter_is_exact_match_not_prefix() {
    let feed = b("1.0.0.0/8 DKX\n2.0.0.0/8 DK\n3.0.0.0/8 D");
    let (lines, summary) = filter_feed(&feed, &codes(&["DK"]));
    assert_eq!(lines, vec![b("2.0.0.0/8")]);
    assert_eq!(summary.counts, vec![1]);
}

#[test]
fn filter_handles_crlf_and_trailing_newline() {
    let feed = b("1.0.0.0/8 DK\r\n2.0.0.0/8 SE\r\n3.0.0.0/8 DK\n");
    let (lines, summary) = filter_feed(&feed, &codes(&["DK"]));
    assert_eq!(lines, vec![b("1.0.0.0/8"), b("3.0.0.0/8")]);
    assert_eq!(summary.counts, vec![2]);
}

#[test]
fn filter_empty_content_gives_zero_counts() {
    let (lines, summary) = filter_feed(&b(""), &codes(&["DK", "SE"]));
    assert!(lines.is_empty());
    assert_eq!(summary.counts, vec![0, 0]);
    assert_eq!(summary.total, 0);
}
