use geofilter::asn::aggregate;
use geofilter::asn::aggregate_target;
use geofilter::asn::AsnFetch;
use geofilter::merge::merge_append;

fn b(s: &str) -> Vec<u8> {
    s.as_bytes().to_vec()
}

#[test]
fn aggregate_target_skips_blank_but_counts_raw_lines() {
    let (blocks, count) = aggregate_target(&b("1.2.3.0/24\n\n4.5.6.0/22"));
    assert_eq!(blocks, vec![b("1.2.3.0/24"), b("4.5.6.0/22")]);
    assert_eq!(count, 3);
}

#[test]
fn aggregate_target_trims_lines() {
    let (blocks, count) = aggregate_target(&b("  1.2.3.0/24 \r\n\t\n4.5.6.0/22\n"));
    assert_eq!(blocks, vec![b("1.2.3.0/24"), b("4.5.6.0/22")]);
    assert_eq!(count, 3);
}

#[test]
fn aggregate_keeps_target_order_and_duplicates() {
    let fetches = vec![
        AsnFetch { target: b("1234"), content: Some(b("9.9.9.0/24\n8.8.8.0/24")) },
        AsnFetch { target: b("5678"), content: Some(b("9.9.9.0/24")) },
    ];
    let (blocks, counts) = aggregate(&fetches);
    assert_eq!(blocks, vec![b("9.9.9.0/24"), b("8.8.8.0/24"), b("9.9.9.0/24")]);
    assert_eq!(counts, vec![(b("1234"), 2), (b("5678"), 1)]);
}

#[test]
fn aggregate_omits_failed_target_from_report() {
    let fetches = vec![
        AsnFetch { target: b("1234"), content: Some(b("1.2.3.0/24")) },
        AsnFetch { target: b("9999"), content: None },
        AsnFetch { target: b("5678"), content: Some(b("4.5.6.0/22")) },
    ];
    let (blocks, counts) = aggregate(&fetches);
    assert_eq!(blocks, vec![b("1.2.3.0/24"), b("4.5.6.0/22")]);
    assert_eq!(counts, vec![(b("1234"), 1), (b("5678"), 1)]);
}

#[test]
fn append_inserts_one_separator_when_missing() {
    let merged = merge_append(&b("10.0.0.0/8\n203.0.113.0/24"), &vec![b("1.2.3.0/24")]);
    assert_eq!(merged, b("10.0.0.0/8\n203.0.113.0/24\n1.2.3.0/24"));
}

#[test]
fn append_inserts_none_when_separator_present() {
    let merged = merge_append(&b("10.0.0.0/8\n"), &vec![b("1.2.3.0/24"), b("4.5.6.0/22")]);
    assert_eq!(merged, b("10.0.0.0/8\n1.2.3.0/24\n4.5.6.0/22"));
}

#[test]
fn append_to_empty_artifact_adds_no_separator() {
    let merged = merge_append(&b(""), &vec![b("1.2.3.0/24")]);
    assert_eq!(merged, b("1.2.3.0/24"));
}

#[test]
fn append_keeps_existing_content_byte_for_byte() {
    let existing = b("a\nb\nc");
    let merged = merge_append(&existing, &vec![b("d")]);
    assert_eq!(&merged[..existing.len()], &existing[..]);
    assert_eq!(merged, b("a\nb\nc\nd"));
}
