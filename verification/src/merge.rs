//! Rendering CIDR lines into the output artifact, and appending to it.
//!
//! The artifact holds one CIDR literal per line, joined by single line feeds
//! with no trailing separator. Appending is strictly additive: the existing
//! content is kept byte for byte, a single separator is inserted exactly when
//! the existing content is non-empty and does not already end in one, and the
//! new lines follow.

use vstd::prelude::*;

use crate::text::copy_bytes;
use crate::text::push_all;
use crate::text::views_of;

verus! {

/// The lines joined by single line feeds, with no trailing separator.
pub open spec fn join_lines(ls: Seq<Seq<u8>>) -> Seq<u8>
    decreases ls.len(),
{
    if ls.len() == 0 {
        Seq::empty()
    } else if ls.len() == 1 {
        ls[0]
    } else {
        join_lines(ls.drop_last()) + seq![10u8] + ls.last()
    }
}

/// The artifact after appending `ls`: the existing content unchanged, one
/// separator inserted exactly when it is non-empty and does not end in one,
/// then the joined new lines.
pub open spec fn merged(existing: Seq<u8>, ls: Seq<Seq<u8>>) -> Seq<u8> {
    if existing.len() == 0 {
        join_lines(ls)
    } else if existing.last() == 10u8 {
        existing + join_lines(ls)
    } else {
        existing + seq![10u8] + join_lines(ls)
    }
}

/// Appending to an artifact that already ends in a line separator inserts no
/// extra one; appending to a non-empty artifact that does not end in one
/// inserts exactly one, just before the appended block. Either way the
/// existing content stays a prefix, byte for byte.
pub proof fn lemma_append_separator(existing: Seq<u8>, ls: Seq<Seq<u8>>)
    requires
        existing.len() > 0,
    ensures
        existing.last() == 10u8 ==> merged(existing, ls) == existing + join_lines(ls),
        existing.last() != 10u8 ==> merged(existing, ls) == existing + seq![10u8] + join_lines(
            ls,
        ),
        merged(existing, ls).subrange(0, existing.len() as int) == existing,
{
    if existing.last() == 10u8 {
        assert((existing + join_lines(ls)).subrange(0, existing.len() as int) =~= existing);
    } else {
        assert((existing + seq![10u8] + join_lines(ls)).subrange(0, existing.len() as int)
            =~= existing);
    }
}

/// Joins lines with single line feeds, no trailing separator.
pub fn render_lines(lines: &Vec<Vec<u8>>) -> (r: Vec<u8>)
    ensures
        r@ == join_lines(views_of(lines@)),
{
    let n = lines.len();
    let ghost gls = views_of(lines@);
    let mut out: Vec<u8> = Vec::new();
    let mut i: usize = 0;
    proof {
        assert(gls.subrange(0, 0) =~= Seq::<Seq<u8>>::empty());
    }
    while i < n
        invariant
            i <= n,
            n == lines@.len(),
            gls == views_of(lines@),
            out@ == join_lines(gls.subrange(0, i as int)),
        decreases n - i,
    {
        let ghost pre = gls.subrange(0, i as int);
        let ghost cur = gls.subrange(0, i + 1);
        proof {
            assert(cur.drop_last() =~= pre);
            assert(cur.last() == lines@[i as int]@);
        }
        if i > 0 {
            out.push(10u8);
        }
        push_all(&mut out, &lines[i]);
        proof {
            if i == 0 {
                assert(cur.len() == 1);
                assert(out@ =~= cur[0]);
            } else {
                assert(out@ =~= join_lines(pre) + seq![10u8] + cur.last());
            }
        }
        i = i + 1;
    }
    proof {
        assert(gls.subrange(0, n as int) =~= gls);
    }
    out
}

/// Appends the rendered lines to the existing artifact content, inserting a
/// separator exactly when one is missing. Invoked only with lines to append.
pub fn merge_append(existing: &Vec<u8>, new_lines: &Vec<Vec<u8>>) -> (r: Vec<u8>)
    requires
        new_lines@.len() > 0,
    ensures
        r@ == merged(existing@, views_of(new_lines@)),
{
    let mut out = copy_bytes(existing);
    if out.len() > 0 && out[out.len() - 1] != 10u8 {
        out.push(10u8);
        assert(out@ =~= existing@ + seq![10u8]);
    }
    let rendered = render_lines(new_lines);
    push_all(&mut out, &rendered);
    proof {
        if existing@.len() == 0 {
            assert(out@ =~= join_lines(views_of(new_lines@)));
        } else if existing@.last() == 10u8 {
            assert(out@ =~= existing@ + join_lines(views_of(new_lines@)));
        } else {
            assert(out@ =~= existing@ + seq![10u8] + join_lines(views_of(new_lines@)));
        }
    }
    out
}

} // verus!
