//! Selecting feed records by country code.
//!
//! A feed line yields a record only when it has exactly two
//! whitespace-separated columns: the CIDR block and the country code. A
//! record is selected exactly when its code is one of the requested codes;
//! selected CIDR blocks keep their source order, and the summary reports a
//! count for every requested code, zero included.

use vstd::prelude::*;

use crate::text::bytes_eq;
use crate::text::copy_byte_list;
use crate::text::copy_bytes;
use crate::text::lines_of;
use crate::text::split_columns;
use crate::text::split_lines;
use crate::text::tokens_of;
use crate::text::views_of;

verus! {

/// Whether a line has exactly two columns and so yields a record.
pub open spec fn is_record(line: Seq<u8>) -> bool {
    tokens_of(line).len() == 2
}

/// The CIDR column of a record line.
pub open spec fn cidr_col(line: Seq<u8>) -> Seq<u8> {
    tokens_of(line)[0]
}

/// The country-code column of a record line.
pub open spec fn code_col(line: Seq<u8>) -> Seq<u8> {
    tokens_of(line)[1]
}

/// Whether a line yields a record bearing the given code.
pub open spec fn line_has_code(line: Seq<u8>, code: Seq<u8>) -> bool {
    is_record(line) && code_col(line) == code
}

/// Whether a line yields a record selected by the requested codes.
pub open spec fn line_selected(line: Seq<u8>, codes: Seq<Seq<u8>>) -> bool {
    is_record(line) && codes.contains(code_col(line))
}

/// The CIDR columns of the selected lines, in source order.
pub open spec fn selected_cidrs(ls: Seq<Seq<u8>>, codes: Seq<Seq<u8>>) -> Seq<Seq<u8>>
    decreases ls.len(),
{
    if ls.len() == 0 {
        Seq::empty()
    } else {
        selected_cidrs(ls.drop_last(), codes) + (if line_selected(ls.last(), codes) {
            seq![cidr_col(ls.last())]
        } else {
            Seq::empty()
        })
    }
}

/// How many lines yield a record bearing the given code.
pub open spec fn count_with_code(ls: Seq<Seq<u8>>, code: Seq<u8>) -> nat
    decreases ls.len(),
{
    if ls.len() == 0 {
        0
    } else {
        count_with_code(ls.drop_last(), code) + (if line_has_code(ls.last(), code) {
            1nat
        } else {
            0nat
        })
    }
}

/// The sum of the per-code counts over the requested codes.
pub open spec fn sum_counts(ls: Seq<Seq<u8>>, codes: Seq<Seq<u8>>) -> nat
    decreases codes.len(),
{
    if codes.len() == 0 {
        0
    } else {
        sum_counts(ls, codes.drop_last()) + count_with_code(ls, codes.last())
    }
}

/// How often a code occurs in the requested list.
pub open spec fn occurrences(codes: Seq<Seq<u8>>, code: Seq<u8>) -> nat
    decreases codes.len(),
{
    if codes.len() == 0 {
        0
    } else {
        occurrences(codes.drop_last(), code) + (if codes.last() == code {
            1nat
        } else {
            0nat
        })
    }
}

/// The requested codes form a set: no code occurs twice.
pub open spec fn distinct_codes(codes: Seq<Seq<u8>>) -> bool {
    forall|i: int, j: int| 0 <= i < j < codes.len() ==> codes[i] != codes[j]
}

proof fn lemma_occurrences_distinct(codes: Seq<Seq<u8>>, code: Seq<u8>)
    requires
        distinct_codes(codes),
    ensures
        occurrences(codes, code) == if codes.contains(code) {
            1nat
        } else {
            0nat
        },
    decreases codes.len(),
{
    if codes.len() > 0 {
        let pre = codes.drop_last();
        assert(distinct_codes(pre)) by {
            assert(forall|i: int, j: int|
                0 <= i < j < pre.len() ==> pre[i] =~= codes[i] && pre[j] =~= codes[j]);
        }
        lemma_occurrences_distinct(pre, code);
        if codes.last() == code {
            assert(codes.contains(code)) by {
                assert(codes[codes.len() - 1] == code);
            }
            assert(!pre.contains(code)) by {
                if pre.contains(code) {
                    let i = choose|i: int| 0 <= i < pre.len() && pre[i] == code;
                    assert(codes[i] == code);
                    assert(codes[codes.len() - 1] == code);
                }
            }
        } else {
            if codes.contains(code) {
                let i = choose|i: int| 0 <= i < codes.len() && codes[i] == code;
                assert(i < codes.len() - 1);
                assert(pre[i] == code);
                assert(pre.contains(code));
            } else {
                assert(!pre.contains(code)) by {
                    if pre.contains(code) {
                        let i = choose|i: int| 0 <= i < pre.len() && pre[i] == code;
                        assert(codes[i] == code);
                    }
                }
            }
        }
    }
}

proof fn lemma_sum_counts_drop_line(ls: Seq<Seq<u8>>, codes: Seq<Seq<u8>>)
    requires
        ls.len() > 0,
    ensures
        sum_counts(ls, codes) == sum_counts(ls.drop_last(), codes) + (if is_record(ls.last()) {
            occurrences(codes, code_col(ls.last()))
        } else {
            0nat
        }),
    decreases codes.len(),
{
    if codes.len() > 0 {
        lemma_sum_counts_drop_line(ls, codes.drop_last());
    }
}

proof fn lemma_sum_counts_empty(ls: Seq<Seq<u8>>, codes: Seq<Seq<u8>>)
    requires
        ls.len() == 0,
    ensures
        sum_counts(ls, codes) == 0,
    decreases codes.len(),
{
    if codes.len() > 0 {
        lemma_sum_counts_empty(ls, codes.drop_last());
    }
}

/// The sum of the per-code counts over a set of requested codes equals the
/// number of selected CIDR lines: every selected line bears exactly one of
/// the requested codes.
pub proof fn lemma_match_total(ls: Seq<Seq<u8>>, codes: Seq<Seq<u8>>)
    requires
        distinct_codes(codes),
    ensures
        sum_counts(ls, codes) == selected_cidrs(ls, codes).len(),
    decreases ls.len(),
{
    if ls.len() == 0 {
        lemma_sum_counts_empty(ls, codes);
    } else {
        lemma_match_total(ls.drop_last(), codes);
        lemma_sum_counts_drop_line(ls, codes);
        if is_record(ls.last()) {
            lemma_occurrences_distinct(codes, code_col(ls.last()));
        }
    }
}

/// The per-code tallies of one filter run: a count for every requested code,
/// in the caller's order, and their total.
pub struct MatchSummary {
    pub codes: Vec<Vec<u8>>,
    pub counts: Vec<u64>,
    pub total: u64,
}

impl MatchSummary {
    /// The per-code lists are parallel: one count per requested code.
    pub open spec fn wf(&self) -> bool {
        self.codes@.len() == self.counts@.len()
    }
}

/// Looks a code up in the requested list.
pub fn find_code(codes: &Vec<Vec<u8>>, code: &Vec<u8>) -> (r: Option<usize>)
    ensures
        r matches Some(k) ==> k < codes@.len() && codes@[k as int]@ == code@,
        r is Some <==> views_of(codes@).contains(code@),
{
    let mut i: usize = 0;
    while i < codes.len()
        invariant
            i <= codes@.len(),
            forall|j: int| 0 <= j < i ==> codes@[j]@ != code@,
        decreases codes@.len() - i,
    {
        if bytes_eq(&codes[i], code) {
            assert(views_of(codes@)[i as int] == code@);
            assert(views_of(codes@).contains(code@));
            return Some(i);
        }
        i = i + 1;
    }
    assert(!views_of(codes@).contains(code@)) by {
        if views_of(codes@).contains(code@) {
            let j = choose|j: int| 0 <= j < codes@.len() && views_of(codes@)[j] == code@;
            assert(codes@[j]@ == code@);
        }
    }
    None
}

/// Parses the feed, selects the records bearing one of the requested codes,
/// and tallies matches per requested code. The requested codes must form a
/// set (no duplicates); the selected CIDR columns come back in source order,
/// and the summary carries a count for every requested code, zero included,
/// whose sum is the number of selected lines.
pub fn filter_feed(content: &Vec<u8>, codes: &Vec<Vec<u8>>) -> (r: (Vec<Vec<u8>>, MatchSummary))
    requires
        distinct_codes(views_of(codes@)),
    ensures
        views_of(r.0@) == selected_cidrs(lines_of(content@), views_of(codes@)),
        r.1.wf(),
        views_of(r.1.codes@) == views_of(codes@),
        r.1.counts@.len() == codes@.len(),
        forall|k: int|
            0 <= k < codes@.len() ==> r.1.counts@[k] as nat == count_with_code(
                lines_of(content@),
                codes@[k]@,
            ),
        r.1.total as nat == sum_counts(lines_of(content@), views_of(codes@)),
        r.1.total as int == r.0@.len(),
{
    let lines = split_lines(content);
    let m = codes.len();
    let mut counts: Vec<u64> = Vec::new();
    while counts.len() < m
        invariant
            counts@.len() <= m,
            forall|k: int| 0 <= k < counts@.len() ==> counts@[k] == 0u64,
        decreases m - counts@.len(),
    {
        counts.push(0u64);
    }
    let mut out: Vec<Vec<u8>> = Vec::new();
    let n = lines.len();
    let ghost gls = lines_of(content@);
    let ghost gcs = views_of(codes@);
    proof {
        assert(gls.subrange(0, 0) =~= Seq::<Seq<u8>>::empty());
        assert(forall|k: int|
            0 <= k < m ==> count_with_code(gls.subrange(0, 0), #[trigger] codes@[k]@) == 0);
    }
    let mut i: usize = 0;
    while i < n
        invariant
            i <= n,
            n == lines@.len(),
            m == codes@.len(),
            gls == lines_of(content@),
            gcs == views_of(codes@),
            distinct_codes(gcs),
            views_of(lines@) == gls,
            counts@.len() == m,
            views_of(out@) == selected_cidrs(gls.subrange(0, i as int), gcs),
            out@.len() <= i,
            forall|k: int|
                0 <= k < m ==> counts@[k] as nat == count_with_code(
                    gls.subrange(0, i as int),
                    codes@[k]@,
                ),
            forall|k: int| 0 <= k < m ==> counts@[k] <= i,
        decreases n - i,
    {
        let ghost pre = gls.subrange(0, i as int);
        let ghost cur = gls.subrange(0, i + 1);
        proof {
            assert(cur.drop_last() =~= pre);
            assert(cur.last() == lines@[i as int]@);
        }
        let cols = split_columns(&lines[i]);
        if cols.len() == 2 {
            assert(is_record(gls[i as int]));
            assert(code_col(gls[i as int]) == cols@[1]@);
            assert(cidr_col(gls[i as int]) == cols@[0]@);
            match crate::filter::find_code(codes, &cols[1]) {
                Some(k) => {
                    assert(line_selected(cur.last(), gcs));
                    out.push(copy_bytes(&cols[0]));
                    let c = counts[k];
                    assert(c as nat == count_with_code(pre, codes@[k as int]@));
                    counts[k] = c + 1;
                    proof {
                        assert(views_of(out@) =~= views_of(out@.drop_last()).push(cols@[0]@));
                        assert(views_of(out@.drop_last()).push(cols@[0]@) =~= views_of(
                            out@.drop_last(),
                        ) + seq![cidr_col(cur.last())]);
                        assert(views_of(out@) =~= selected_cidrs(cur, gcs));
                        assert forall|k2: int|
                            0 <= k2 < m && k2 != k implies codes@[k2]@ != codes@[k as int]@ by {
                            assert(gcs[k2] == codes@[k2]@);
                            assert(gcs[k as int] == codes@[k as int]@);
                            if k2 < k as int {
                                assert(gcs[k2] != gcs[k as int]);
                            } else {
                                assert(gcs[k as int] != gcs[k2]);
                            }
                        }
                        assert(forall|k2: int|
                            0 <= k2 < m ==> counts@[k2] as nat == count_with_code(
                                cur,
                                #[trigger] codes@[k2]@,
                            ));
                    }
                },
                None => {
                    assert(!line_selected(cur.last(), gcs));
                    proof {
                        assert(views_of(out@) + Seq::<Seq<u8>>::empty() =~= views_of(out@));
                        assert forall|k2: int|
                            0 <= k2 < m implies !line_has_code(cur.last(), #[trigger] codes@[k2]@) by {
                            assert(gcs[k2] == codes@[k2]@);
                            if line_has_code(cur.last(), codes@[k2]@) {
                                assert(gcs.contains(code_col(cur.last())));
                            }
                        }
                    }
                },
            }
        } else {
            assert(!is_record(gls[i as int]));
            proof {
                assert(views_of(out@) + Seq::<Seq<u8>>::empty() =~= views_of(out@));
            }
        }
        i = i + 1;
    }
    proof {
        assert(gls.subrange(0, n as int) =~= gls);
        lemma_match_total(gls, gcs);
    }
    let total: u64 = out.len() as u64;
    let summary = MatchSummary { codes: copy_byte_list(codes), counts, total };
    (out, summary)
}

} // verus!
