//! Normalizing per-operator (ASN) CIDR lists into the shared record shape.
//!
//! Each target's fetched text is split into lines; the non-blank lines,
//! trimmed, each contribute one CIDR literal, in source order. The count
//! reported per target is the raw line count of the source, blanks included.
//! A target whose fetch failed contributes nothing and is left out of the
//! count report; target order is kept, and no de-duplication happens.

use vstd::prelude::*;

use crate::text::copy_bytes;
use crate::text::lines_of;
use crate::text::split_lines;
use crate::text::trim;
use crate::text::trim_of;
use crate::text::views_of;

verus! {

/// The trimmed non-blank lines, in order.
pub open spec fn nonblank_trimmed(ls: Seq<Seq<u8>>) -> Seq<Seq<u8>>
    decreases ls.len(),
{
    if ls.len() == 0 {
        Seq::empty()
    } else {
        nonblank_trimmed(ls.drop_last()) + (if trim_of(ls.last()).len() > 0 {
            seq![trim_of(ls.last())]
        } else {
            Seq::empty()
        })
    }
}

/// The CIDR lines one ASN source contributes.
pub open spec fn asn_blocks_of(content: Seq<u8>) -> Seq<Seq<u8>> {
    nonblank_trimmed(lines_of(content))
}

/// The raw line count of one ASN source, blank lines included.
pub open spec fn asn_raw_count(content: Seq<u8>) -> nat {
    lines_of(content).len()
}

/// One ASN target together with what its fetch returned: the response text
/// on success, nothing on failure.
pub struct AsnFetch {
    pub target: Vec<u8>,
    pub content: Option<Vec<u8>>,
}

/// The CIDR lines all targets contribute, in target order, source order kept
/// within each target, duplicates passed through.
pub open spec fn agg_blocks(rs: Seq<AsnFetch>) -> Seq<Seq<u8>>
    decreases rs.len(),
{
    if rs.len() == 0 {
        Seq::empty()
    } else {
        agg_blocks(rs.drop_last()) + (match rs.last().content {
            Option::Some(c) => asn_blocks_of(c@),
            Option::None => Seq::empty(),
        })
    }
}

/// The per-target count report: an entry for each target whose fetch
/// succeeded, in target order, with the raw line count of its source.
pub open spec fn agg_counts(rs: Seq<AsnFetch>) -> Seq<(Seq<u8>, nat)>
    decreases rs.len(),
{
    if rs.len() == 0 {
        Seq::empty()
    } else {
        agg_counts(rs.drop_last()) + (match rs.last().content {
            Option::Some(c) => seq![(rs.last().target@, asn_raw_count(c@))],
            Option::None => Seq::empty(),
        })
    }
}

/// The views of a list of (target, count) pairs.
pub open spec fn count_views(v: Seq<(Vec<u8>, usize)>) -> Seq<(Seq<u8>, nat)> {
    Seq::new(v.len(), |i: int| (v[i].0@, v[i].1 as nat))
}

/// Splits one target's response into its CIDR lines (trimmed, blanks
/// dropped) and reports the raw line count, blanks included.
pub fn aggregate_target(content: &Vec<u8>) -> (r: (Vec<Vec<u8>>, usize))
    ensures
        views_of(r.0@) == asn_blocks_of(content@),
        r.1 as nat == asn_raw_count(content@),
{
    let lines = split_lines(content);
    let count = lines.len();
    let ghost gls = lines_of(content@);
    let mut out: Vec<Vec<u8>> = Vec::new();
    let mut i: usize = 0;
    proof {
        assert(gls.subrange(0, 0) =~= Seq::<Seq<u8>>::empty());
    }
    while i < count
        invariant
            i <= count,
            count == lines@.len(),
            gls == lines_of(content@),
            views_of(lines@) == gls,
            views_of(out@) == nonblank_trimmed(gls.subrange(0, i as int)),
        decreases count - i,
    {
        let ghost pre = gls.subrange(0, i as int);
        let ghost cur = gls.subrange(0, i + 1);
        proof {
            assert(cur.drop_last() =~= pre);
            assert(cur.last() == lines@[i as int]@);
        }
        let t = trim(&lines[i]);
        if t.len() > 0 {
            out.push(t);
            proof {
                assert(views_of(out@) =~= views_of(out@.drop_last()).push(trim_of(cur.last())));
                assert(views_of(out@.drop_last()).push(trim_of(cur.last())) =~= views_of(
                    out@.drop_last(),
                ) + seq![trim_of(cur.last())]);
            }
        } else {
            proof {
                assert(views_of(out@) + Seq::<Seq<u8>>::empty() =~= views_of(out@));
            }
        }
        i = i + 1;
    }
    proof {
        assert(gls.subrange(0, count as int) =~= gls);
    }
    (out, count)
}

/// Combines the fetched targets: every successful target's lines in target
/// order, and a count entry per successful target; failed targets contribute
/// nothing and are left out of the report.
pub fn aggregate(results: &Vec<AsnFetch>) -> (r: (Vec<Vec<u8>>, Vec<(Vec<u8>, usize)>))
    ensures
        views_of(r.0@) == agg_blocks(results@),
        count_views(r.1@) == agg_counts(results@),
{
    let n = results.len();
    let mut blocks: Vec<Vec<u8>> = Vec::new();
    let mut counts: Vec<(Vec<u8>, usize)> = Vec::new();
    let mut i: usize = 0;
    proof {
        assert(results@.subrange(0, 0) =~= Seq::<AsnFetch>::empty());
        assert(views_of(blocks@) =~= agg_blocks(results@.subrange(0, 0)));
        assert(count_views(counts@) =~= agg_counts(results@.subrange(0, 0)));
    }
    while i < n
        invariant
            i <= n,
            n == results@.len(),
            views_of(blocks@) == agg_blocks(results@.subrange(0, i as int)),
            count_views(counts@) == agg_counts(results@.subrange(0, i as int)),
        decreases n - i,
    {
        let ghost pre = results@.subrange(0, i as int);
        let ghost cur = results@.subrange(0, i + 1);
        proof {
            assert(cur.drop_last() =~= pre);
            assert(cur.last() == results@[i as int]);
        }
        match &results[i].content {
            Option::Some(c) => {
                let (mut tb, tc) = aggregate_target(c);
                let ghost tbv = views_of(tb@);
                let ghost pb = views_of(blocks@);
                blocks.append(&mut tb);
                proof {
                    assert(views_of(blocks@) =~= pb + tbv);
                }
                counts.push((copy_bytes(&results[i].target), tc));
                proof {
                    assert(cur.last().content == Option::Some(*c));
                    assert(count_views(counts@) =~= count_views(counts@.drop_last()) + seq![
                        (cur.last().target@, asn_raw_count(c@)),
                    ]);
                }
            },
            Option::None => {
                proof {
                    assert(views_of(blocks@) + Seq::<Seq<u8>>::empty() =~= views_of(blocks@));
                    assert(count_views(counts@) + Seq::<(Seq<u8>, nat)>::empty() =~= count_views(
                        counts@,
                    ));
                }
            },
        }
        i = i + 1;
    }
    proof {
        assert(results@.subrange(0, n as int) =~= results@);
    }
    (blocks, counts)
}

} // verus!
