//! The conditional-refresh protocol and the composed pipeline.
//!
//! One run resolves its content in one of two ways: a changed body from the
//! remote (trusted only after digest verification, then persisted as the new
//! snapshot) or the unchanged local snapshot. Any other response is fatal.
//! The resolved content then runs through the filter, and the ASN blocks, if
//! any, are appended to the filtered output.

use vstd::prelude::*;

use crate::asn::agg_blocks;
use crate::asn::agg_counts;
use crate::asn::aggregate;
use crate::asn::count_views;
use crate::asn::AsnFetch;
use crate::filter::count_with_code;
use crate::filter::distinct_codes;
use crate::filter::filter_feed;
use crate::filter::selected_cidrs;
use crate::filter::sum_counts;
use crate::filter::MatchSummary;
use crate::integrity::digest_matches;
use crate::integrity::first_token_of;
use crate::integrity::hex_of;
use crate::integrity::sha256_of;
use crate::integrity::verify_integrity;
use crate::merge::join_lines;
use crate::merge::merge_append;
use crate::merge::merged;
use crate::merge::render_lines;
use crate::text::lines_of;
use crate::text::views_of;

verus! {

/// How the primary feed answered the conditional request: a changed body,
/// an unchanged-since-last-time notice, or anything else (fatal).
#[derive(Clone, Copy, Debug, PartialEq, Eq, Structural)]
pub enum FeedStatus {
    Changed,
    Unchanged,
    Rejected,
}

/// Maps an HTTP status code to the three outcomes the pipeline distinguishes.
pub fn classify_status(code: u16) -> (r: FeedStatus)
    ensures
        (r == FeedStatus::Changed) <==> (code == 200),
        (r == FeedStatus::Unchanged) <==> (code == 304),
        (r == FeedStatus::Rejected) <==> (code != 200 && code != 304),
{
    if code == 200 {
        FeedStatus::Changed
    } else if code == 304 {
        FeedStatus::Unchanged
    } else {
        FeedStatus::Rejected
    }
}

/// Where the resolved content came from: a fresh, verified download, or the
/// unchanged local snapshot.
#[derive(Clone, Copy, Debug, PartialEq, Eq, Structural)]
pub enum FeedSource {
    Fresh,
    Cached,
}

/// Why a run aborts: an unexpected status from the remote, a digest
/// mismatch (both digests kept for diagnosis), or an unchanged notice with
/// no local snapshot to fall back on.
#[derive(Debug)]
pub enum FeedError {
    Transport { status: u16 },
    Integrity { expected: Vec<u8>, computed: Vec<u8> },
    MissingSnapshot,
}

/// A successful resolution: the content to filter, where it came from, and
/// whether it must be persisted as the new snapshot. `persist` is set
/// exactly for fresh, verified downloads — never for cached content, and
/// never on any failure.
pub struct Resolved {
    pub content: Vec<u8>,
    pub source: FeedSource,
    pub persist: bool,
}

/// The bytes a snapshot holds; empty when there is none.
pub open spec fn snap_bytes(snapshot: Option<Seq<u8>>) -> Seq<u8> {
    match snapshot {
        Option::Some(s) => s,
        Option::None => Seq::empty(),
    }
}

/// The view of an optional byte vector.
pub open spec fn opt_view(o: Option<Vec<u8>>) -> Option<Seq<u8>> {
    match o {
        Option::Some(v) => Option::Some(v@),
        Option::None => Option::None,
    }
}

/// What one run resolves to: the verified body on a changed response, the
/// snapshot on an unchanged response, nothing on any failure.
pub open spec fn resolve_spec(
    status: u16,
    body: Seq<u8>,
    digest_text: Seq<u8>,
    snapshot: Option<Seq<u8>>,
) -> Option<Seq<u8>> {
    if status == 200 {
        if digest_matches(body, digest_text) {
            Option::Some(body)
        } else {
            Option::None
        }
    } else if status == 304 {
        snapshot
    } else {
        Option::None
    }
}

/// Resolves one run's content. A changed response (200) is accepted only
/// after digest verification and is then marked for persisting; an
/// unchanged response (304) yields the snapshot, unpersisted; anything else
/// is fatal. On a mismatch both digests come back and nothing is marked for
/// persisting, so the prior snapshot stays untouched.
pub fn resolve_feed(status: u16, body: Vec<u8>, digest_text: Vec<u8>, snapshot: Option<Vec<u8>>)
    -> (r: Result<Resolved, FeedError>)
    ensures
        r is Ok <==> resolve_spec(status, body@, digest_text@, opt_view(snapshot)) is Some,
        r matches Ok(res) ==> Option::Some(res.content@) == resolve_spec(
            status,
            body@,
            digest_text@,
            opt_view(snapshot),
        ),
        r matches Ok(res) ==> ((res.source == FeedSource::Fresh) <==> status == 200) && (
        res.persist <==> status == 200),
        status == 200 && !digest_matches(body@, digest_text@) ==> (r matches Err(e)
            && e matches FeedError::Integrity { expected, computed } && expected@
            == first_token_of(digest_text@) && computed@ == hex_of(sha256_of(body@))),
        status == 304 && snapshot is None ==> (r matches Err(e)
            && e matches FeedError::MissingSnapshot),
        status != 200 && status != 304 ==> (r matches Err(e) && e matches FeedError::Transport {
            status: s,
        } && s == status),
{
    if status == 200 {
        match verify_integrity(&body, &digest_text) {
            Result::Ok(()) => Result::Ok(
                Resolved { content: body, source: FeedSource::Fresh, persist: true },
            ),
            Result::Err(m) => Result::Err(
                FeedError::Integrity { expected: m.expected, computed: m.computed },
            ),
        }
    } else if status == 304 {
        match snapshot {
            Option::Some(s) => Result::Ok(
                Resolved { content: s, source: FeedSource::Cached, persist: false },
            ),
            Option::None => Result::Err(FeedError::MissingSnapshot),
        }
    } else {
        Result::Err(FeedError::Transport { status })
    }
}

/// The HTTP-date rendering of a Unix timestamp in whole seconds.
pub uninterp spec fn http_date_fmt(secs: u64) -> Seq<char>;

/// Relies on httpdate::fmt_http_date: the rendering (IMF-fixdate, GMT)
/// depends on the timestamp alone; that function refuses timestamps from
/// the year 9999 on, so they are kept out.
#[verifier::external_body]
fn http_date(secs: u64) -> (r: String)
    requires
        secs < 253402300800,
    ensures
        r@ == http_date_fmt(secs),
{
    httpdate::fmt_http_date(std::time::UNIX_EPOCH + std::time::Duration::from_secs(secs))
}

/// The freshness precondition for the conditional request: the snapshot's
/// modification time rendered as an HTTP date, when there is a snapshot and
/// its timestamp is one the rendering accepts.
pub fn freshness_token(snapshot_mtime: Option<u64>) -> (r: Option<String>)
    ensures
        r matches Some(s) ==> (snapshot_mtime matches Some(t) && t < 253402300800 && s@
            == http_date_fmt(t)),
        r is Some <==> (snapshot_mtime matches Some(t) && t < 253402300800),
{
    match snapshot_mtime {
        Option::Some(t) => if t < 253402300800 {
            Option::Some(http_date(t))
        } else {
            Option::None
        },
        Option::None => Option::None,
    }
}

/// The primary output artifact: the selected CIDR blocks, one per line.
pub open spec fn primary_artifact(content: Seq<u8>, codes: Seq<Seq<u8>>) -> Seq<u8> {
    join_lines(selected_cidrs(lines_of(content), codes))
}

/// The artifact after the whole run: the primary output, with the ASN
/// blocks appended when there are any.
pub open spec fn final_artifact(
    content: Seq<u8>,
    codes: Seq<Seq<u8>>,
    fetches: Seq<AsnFetch>,
) -> Seq<u8> {
    if agg_blocks(fetches).len() == 0 {
        primary_artifact(content, codes)
    } else {
        merged(primary_artifact(content, codes), agg_blocks(fetches))
    }
}

/// Everything one run writes or reports: the final artifact, the per-code
/// summary, and the per-target ASN count report.
pub struct RunOutput {
    pub artifact: Vec<u8>,
    pub summary: MatchSummary,
    pub asn_counts: Vec<(Vec<u8>, usize)>,
}

/// Builds the whole run's output from resolved content: filters the feed by
/// the requested codes, renders the selected blocks one per line, and
/// appends the aggregated ASN blocks when there are any.
pub fn build_artifact(content: &Vec<u8>, codes: &Vec<Vec<u8>>, fetches: &Vec<AsnFetch>) -> (r:
    RunOutput)
    requires
        distinct_codes(views_of(codes@)),
    ensures
        r.artifact@ == final_artifact(content@, views_of(codes@), fetches@),
        r.summary.wf(),
        views_of(r.summary.codes@) == views_of(codes@),
        r.summary.counts@.len() == codes@.len(),
        forall|k: int|
            0 <= k < codes@.len() ==> r.summary.counts@[k] as nat == count_with_code(
                lines_of(content@),
                codes@[k]@,
            ),
        r.summary.total as nat == sum_counts(lines_of(content@), views_of(codes@)),
        count_views(r.asn_counts@) == agg_counts(fetches@),
{
    let (lines, summary) = filter_feed(content, codes);
    let primary = render_lines(&lines);
    let (blocks, asn_counts) = aggregate(fetches);
    let artifact = if blocks.len() == 0 {
        primary
    } else {
        merge_append(&primary, &blocks)
    };
    RunOutput { artifact, summary, asn_counts }
}

/// Integrity gate: a downloaded body whose digest does not match the
/// companion text resolves to nothing — the run fails before any content is
/// accepted, so no snapshot or output write is directed.
pub proof fn lemma_integrity_gate(body: Seq<u8>, digest_text: Seq<u8>, snapshot: Option<Seq<u8>>)
    requires
        !digest_matches(body, digest_text),
    ensures
        resolve_spec(200, body, digest_text, snapshot) is None,
{
}

/// Idempotence of refresh: a first run that validates a body persists it as
/// the snapshot; a second run told the feed is unchanged resolves to that
/// same snapshot, whatever body or digest text ride along, and so builds a
/// byte-identical artifact from identical ASN fetches.
pub proof fn lemma_unchanged_rerun(
    body: Seq<u8>,
    digest_text: Seq<u8>,
    body2: Seq<u8>,
    digest_text2: Seq<u8>,
    codes: Seq<Seq<u8>>,
    fetches: Seq<AsnFetch>,
)
    requires
        digest_matches(body, digest_text),
    ensures
        resolve_spec(200, body, digest_text, Option::None) == Option::Some(body),
        resolve_spec(304, body2, digest_text2, Option::Some(body)) == Option::Some(body),
        final_artifact(
            snap_bytes(resolve_spec(200, body, digest_text, Option::None)),
            codes,
            fetches,
        ) == final_artifact(
            snap_bytes(resolve_spec(304, body2, digest_text2, Option::Some(body))),
            codes,
            fetches,
        ),
{
}

} // verus!
