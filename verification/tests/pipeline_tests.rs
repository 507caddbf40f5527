use geofilter::asn::AsnFetch;
use geofilter::feed::build_artifact;
use geofilter::feed::classify_status;
use geofilter::feed::freshness_token;
use geofilter::feed::resolve_feed;
use geofilter::feed::FeedError;
use geofilter::feed::FeedSource;
use geofilter::feed::FeedStatus;
use geofilter::integrity::verify_integrity;

fn b(s: &str) -> Vec<u8> {
    s.as_bytes().to_vec()
}

fn codes(cs: &[&str]) -> Vec<Vec<u8>> {
    cs.iter().map(|c| b(c)).collect()
}

// SHA-256 of the three-byte body "abc", as published test vector.
const ABC_DIGEST: &str = "ba7816bf8f01cfea414140de5dae2223b00361a396177a9cb410ff61f20015ad";

#[test]
fn integrity_accepts_matching_digest() {
    assert!(verify_integrity(&b("abc"), &b(ABC_DIGEST)).is_ok());
}

#[test]
fn integrity_uses_first_token_only() {
    let text = format!("{}  haproxy_geo_ip.txt\n", ABC_DIGEST);
    assert!(verify_integrity(&b("abc"), &b(&text)).is_ok());
}

#[test]
fn integrity_rejects_mismatch_with_both_digests() {
    let m = verify_integrity(&b("abcd"), &b(ABC_DIGEST)).unwrap_err();
    assert_eq!(m.expected, b(ABC_DIGEST));
    assert_eq!(
        m.computed,
        b("88d4266fd4e6338d13b845fcf289579d209c897823b9217da3e161936f031589")
    );
}

#[test]
fn classify_distinguishes_the_three_outcomes() {
    assert_eq!(classify_status(200), FeedStatus::Changed);
    assert_eq!(classify_status(304), FeedStatus::Unchanged);
    assert_eq!(classify_status(404), FeedStatus::Rejected);
    assert_eq!(classify_status(500), FeedStatus::Rejected);
}

#[test]
fn resolve_accepts_verified_download_and_persists() {
    let r = resolve_feed(200, b("abc"), b(ABC_DIGEST), None).unwrap();
    assert_eq!(r.content, b("abc"));
    assert_eq!(r.source, FeedSource::Fresh);
    assert!(r.persist);
}

#[test]
fn resolve_refuses_corrupt_download_without_persisting() {
    match resolve_feed(200, b("abcd"), b(ABC_DIGEST), Some(b("old snapshot"))) {
        Err(FeedError::Integrity { expected, computed }) => {
            assert_eq!(expected, b(ABC_DIGEST));
            assert_eq!(
                computed,
                b("88d4266fd4e6338d13b845fcf289579d209c897823b9217da3e161936f031589")
            );
        }
        _ => panic!("expected an integrity failure"),
    }
}

#[test]
fn resolve_returns_snapshot_unmodified_on_not_modified() {
    let r = resolve_feed(304, Vec::new(), Vec::new(), Some(b("snapshot bytes"))).unwrap();
    assert_eq!(r.content, b("snapshot bytes"));
    assert_eq!(r.source, FeedSource::Cached);
    assert!(!r.persist);
}

#[test]
fn resolve_fails_on_not_modified_without_snapshot() {
    assert!(matches!(
        resolve_feed(304, Vec::new(), Vec::new(), None),
        Err(FeedError::MissingSnapshot)
    ));
}

#[test]
fn resolve_fails_on_unexpected_status() {
    assert!(matches!(
        resolve_feed(503, b("body"), b("digest"), Some(b("snap"))),
        Err(FeedError::Transport { status: 503 })
    ));
}

#[test]
fn unchanged_rerun_builds_identical_artifact() {
    let body = b("10.0.0.0/8 DK\n192.168.0.0/16 SE\n203.0.113.0/24 DK");
    let digest = b("18685539aa63daf6329acc786c05614249c9df610de9bc77444254332cef3921");
    // First run: fresh download, verified and persisted.
    let first = resolve_feed(200, body.clone(), digest, None).unwrap();
    assert!(first.persist);
    let snapshot = first.content.clone();
    // Second run: the remote reports no change; the snapshot is the content.
    let second = resolve_feed(304, Vec::new(), Vec::new(), Some(snapshot)).unwrap();
    assert_eq!(second.content, first.content);
    let cs = codes(&["DK"]);
    let fetches: Vec<AsnFetch> = vec![AsnFetch {
        target: b("1234"),
        content: Some(b("1.2.3.0/24\n\n4.5.6.0/22")),
    }];
    let out1 = build_artifact(&first.content, &cs, &fetches);
    let out2 = build_artifact(&second.content, &cs, &fetches);
    assert_eq!(out1.artifact, out2.artifact);
    assert_eq!(out1.artifact, b("10.0.0.0/8\n203.0.113.0/24\n1.2.3.0/24\n4.5.6.0/22"));
}

#[test]
fn build_artifact_without_asn_targets_is_primary_only() {
    let body = b("10.0.0.0/8 DK\n192.168.0.0/16 SE");
    let out = build_artifact(&body, &codes(&["DK", "NO"]), &Vec::new());
    assert_eq!(out.artifact, b("10.0.0.0/8"));
    assert_eq!(out.summary.counts, vec![1, 0]);
    assert_eq!(out.summary.total, 1);
    assert!(out.asn_counts.is_empty());
}

#[test]
fn build_artifact_appends_asn_blocks_and_reports_counts() {
    let body = b("10.0.0.0/8 DK\n192.168.0.0/16 SE\n203.0.113.0/24 DK");
    let fetches = vec![
        AsnFetch { target: b("1234"), content: Some(b("1.2.3.0/24\n\n4.5.6.0/22")) },
        AsnFetch { target: b("9999"), content: None },
    ];
    let out = build_artifact(&body, &codes(&["DK"]), &fetches);
    assert_eq!(out.artifact, b("10.0.0.0/8\n203.0.113.0/24\n1.2.3.0/24\n4.5.6.0/22"));
    assert_eq!(out.asn_counts, vec![(b("1234"), 3)]);
}

#[test]
fn freshness_token_renders_http_date() {
    // RFC 7231's example date: 784111777 seconds into the Unix epoch.
    let token = freshness_token(Some(784111777)).unwrap();
    assert_eq!(token, "Sun, 06 Nov 1994 08:49:37 GMT");
}

#[test]
fn freshness_token_absent_without_snapshot() {
    assert!(freshness_token(None).is_none());
    assert!(freshness_token(Some(253402300800)).is_none());
}
