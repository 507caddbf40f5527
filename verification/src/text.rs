//! Byte-level text primitives: splitting into lines, splitting a line into
//! whitespace-separated columns, trimming, and byte-string comparison.
//!
//! The feed is treated as a byte text. Whitespace is the ASCII kind (space,
//! tab, vertical tab, form feed, carriage return); lines are split at line
//! feeds, and a carriage return just before a line feed belongs to the line
//! ending, not to the line.

use vstd::prelude::*;

verus! {

/// ASCII whitespace, the line feed included.
pub open spec fn is_space(b: u8) -> bool {
    b == 32u8 || b == 9u8 || b == 10u8 || b == 11u8 || b == 12u8 || b == 13u8
}

/// The views of a sequence of byte vectors.
pub open spec fn views_of(v: Seq<Vec<u8>>) -> Seq<Seq<u8>> {
    Seq::new(v.len(), |i: int| v[i]@)
}

/// Drops one carriage return from the end of a line, if present.
pub open spec fn strip_cr(line: Seq<u8>) -> Seq<u8> {
    if line.len() > 0 && line.last() == 13u8 {
        line.drop_last()
    } else {
        line
    }
}

/// Accumulator form of line splitting: `cur` is the part of the current line
/// read so far. A line ended by a line feed loses a carriage return just
/// before it; a final line without a terminator keeps its bytes as they are,
/// and a trailing line feed does not open an empty last line.
pub open spec fn lines_from(s: Seq<u8>, cur: Seq<u8>) -> Seq<Seq<u8>>
    decreases s.len(),
{
    if s.len() == 0 {
        if cur.len() == 0 {
            Seq::empty()
        } else {
            seq![cur]
        }
    } else if s[0] == 10u8 {
        seq![strip_cr(cur)] + lines_from(s.subrange(1, s.len() as int), Seq::empty())
    } else {
        lines_from(s.subrange(1, s.len() as int), cur.push(s[0]))
    }
}

/// The lines of a byte text.
pub open spec fn lines_of(s: Seq<u8>) -> Seq<Seq<u8>> {
    lines_from(s, Seq::empty())
}

/// Accumulator form of whitespace splitting: maximal runs of non-whitespace
/// bytes, in order; runs of whitespace separate them and are dropped.
pub open spec fn tokens_from(s: Seq<u8>, cur: Seq<u8>) -> Seq<Seq<u8>>
    decreases s.len(),
{
    if s.len() == 0 {
        if cur.len() == 0 {
            Seq::empty()
        } else {
            seq![cur]
        }
    } else if is_space(s[0]) {
        if cur.len() == 0 {
            tokens_from(s.subrange(1, s.len() as int), Seq::empty())
        } else {
            seq![cur] + tokens_from(s.subrange(1, s.len() as int), Seq::empty())
        }
    } else {
        tokens_from(s.subrange(1, s.len() as int), cur.push(s[0]))
    }
}

/// The whitespace-separated columns of a line.
pub open spec fn tokens_of(s: Seq<u8>) -> Seq<Seq<u8>> {
    tokens_from(s, Seq::empty())
}

/// Splits a byte text into its lines.
pub fn split_lines(content: &Vec<u8>) -> (r: Vec<Vec<u8>>)
    ensures
        views_of(r@) == lines_of(content@),
{
    let n = content.len();
    let mut out: Vec<Vec<u8>> = Vec::new();
    let mut cur: Vec<u8> = Vec::new();
    let mut i: usize = 0;
    proof {
        assert(content@.subrange(0, n as int) =~= content@);
        assert(views_of(out@) + lines_of(content@) =~= lines_of(content@));
    }
    while i < n
        invariant
            i <= n,
            n == content@.len(),
            lines_of(content@) == views_of(out@) + lines_from(
                content@.subrange(i as int, n as int),
                cur@,
            ),
        decreases n - i,
    {
        let ghost rest = content@.subrange(i as int, n as int);
        assert(rest.subrange(1, rest.len() as int) =~= content@.subrange(i + 1, n as int));
        let b = content[i];
        if b == 10u8 {
            if cur.len() > 0 && cur[cur.len() - 1] == 13u8 {
                let ghost pre = cur@;
                cur.pop();
                assert(cur@ =~= strip_cr(pre));
            }
            let ghost stripped = cur@;
            out.push(cur);
            cur = Vec::new();
            assert(views_of(out@) =~= views_of(out@.drop_last()).push(stripped));
            assert(views_of(out@.drop_last()) + (seq![stripped] + lines_from(
                content@.subrange(i + 1, n as int),
                Seq::empty(),
            )) =~= views_of(out@) + lines_from(content@.subrange(i + 1, n as int), Seq::empty()));
        } else {
            cur.push(b);
        }
        i = i + 1;
    }
    assert(content@.subrange(n as int, n as int) =~= Seq::<u8>::empty());
    if cur.len() > 0 {
        let ghost last = cur@;
        out.push(cur);
        assert(views_of(out@) =~= views_of(out@.drop_last()).push(last));
        assert(views_of(out@.drop_last()) + seq![last] =~= views_of(out@));
    } else {
        assert(views_of(out@) + Seq::<Seq<u8>>::empty() =~= views_of(out@));
    }
    out
}

/// Decides `is_space` on a byte.
pub fn space_byte(b: u8) -> (r: bool)
    ensures
        r == is_space(b),
{
    b == 32u8 || b == 9u8 || b == 10u8 || b == 11u8 || b == 12u8 || b == 13u8
}

/// Splits a line into its whitespace-separated columns.
pub fn split_columns(line: &Vec<u8>) -> (r: Vec<Vec<u8>>)
    ensures
        views_of(r@) == tokens_of(line@),
{
    let n = line.len();
    let mut out: Vec<Vec<u8>> = Vec::new();
    let mut cur: Vec<u8> = Vec::new();
    let mut i: usize = 0;
    proof {
        assert(line@.subrange(0, n as int) =~= line@);
        assert(views_of(out@) + tokens_of(line@) =~= tokens_of(line@));
    }
    while i < n
        invariant
            i <= n,
            n == line@.len(),
            tokens_of(line@) == views_of(out@) + tokens_from(
                line@.subrange(i as int, n as int),
                cur@,
            ),
        decreases n - i,
    {
        let ghost rest = line@.subrange(i as int, n as int);
        assert(rest.subrange(1, rest.len() as int) =~= line@.subrange(i + 1, n as int));
        let b = line[i];
        if space_byte(b) {
            if cur.len() > 0 {
                let ghost tok = cur@;
                out.push(cur);
                cur = Vec::new();
                assert(views_of(out@) =~= views_of(out@.drop_last()).push(tok));
                assert(views_of(out@.drop_last()) + (seq![tok] + tokens_from(
                    line@.subrange(i + 1, n as int),
                    Seq::empty(),
                )) =~= views_of(out@) + tokens_from(line@.subrange(i + 1, n as int), Seq::empty()));
            } else {
                assert(cur@ =~= Seq::<u8>::empty());
            }
        } else {
            cur.push(b);
        }
        i = i + 1;
    }
    assert(line@.subrange(n as int, n as int) =~= Seq::<u8>::empty());
    if cur.len() > 0 {
        let ghost tok = cur@;
        out.push(cur);
        assert(views_of(out@) =~= views_of(out@.drop_last()).push(tok));
        assert(views_of(out@.drop_last()) + seq![tok] =~= views_of(out@));
    } else {
        assert(views_of(out@) + Seq::<Seq<u8>>::empty() =~= views_of(out@));
    }
    out
}

/// What is left after dropping leading whitespace.
pub open spec fn trim_start_of(s: Seq<u8>) -> Seq<u8>
    decreases s.len(),
{
    if s.len() > 0 && is_space(s[0]) {
        trim_start_of(s.subrange(1, s.len() as int))
    } else {
        s
    }
}

/// What is left after dropping trailing whitespace.
pub open spec fn trim_end_of(s: Seq<u8>) -> Seq<u8>
    decreases s.len(),
{
    if s.len() > 0 && is_space(s.last()) {
        trim_end_of(s.drop_last())
    } else {
        s
    }
}

/// What is left after dropping whitespace at both ends.
pub open spec fn trim_of(s: Seq<u8>) -> Seq<u8> {
    trim_end_of(trim_start_of(s))
}

/// Drops ASCII whitespace from both ends of a line.
pub fn trim(line: &Vec<u8>) -> (r: Vec<u8>)
    ensures
        r@ == trim_of(line@),
{
    let n = line.len();
    let mut a: usize = 0;
    proof {
        assert(line@.subrange(0, n as int) =~= line@);
    }
    while a < n && space_byte(line[a])
        invariant
            a <= n,
            n == line@.len(),
            trim_start_of(line@) == trim_start_of(line@.subrange(a as int, n as int)),
        decreases n - a,
    {
        let ghost rest = line@.subrange(a as int, n as int);
        assert(rest.subrange(1, rest.len() as int) =~= line@.subrange(a + 1, n as int));
        a = a + 1;
    }
    proof {
        if a == n {
            assert(line@.subrange(a as int, n as int) =~= Seq::<u8>::empty());
        }
        assert(trim_start_of(line@) == line@.subrange(a as int, n as int));
    }
    let mut b: usize = n;
    while b > a && space_byte(line[b - 1])
        invariant
            a <= b,
            b <= n,
            n == line@.len(),
            trim_end_of(line@.subrange(a as int, n as int)) == trim_end_of(
                line@.subrange(a as int, b as int),
            ),
        decreases b,
    {
        let ghost cur = line@.subrange(a as int, b as int);
        assert(cur.drop_last() =~= line@.subrange(a as int, b - 1));
        b = b - 1;
    }
    proof {
        if b == a {
            assert(line@.subrange(a as int, b as int) =~= Seq::<u8>::empty());
        }
        assert(trim_end_of(line@.subrange(a as int, b as int)) == line@.subrange(
            a as int,
            b as int,
        ));
    }
    let mut out: Vec<u8> = Vec::new();
    let mut i: usize = a;
    while i < b
        invariant
            a <= i,
            i <= b,
            b <= n,
            n == line@.len(),
            out@ == line@.subrange(a as int, i as int),
        decreases b - i,
    {
        out.push(line[i]);
        assert(out@ =~= line@.subrange(a as int, i + 1));
        i = i + 1;
    }
    out
}

/// Copies a byte vector.
pub fn copy_bytes(v: &Vec<u8>) -> (r: Vec<u8>)
    ensures
        r@ == v@,
{
    let mut out: Vec<u8> = Vec::new();
    let mut i: usize = 0;
    while i < v.len()
        invariant
            i <= v@.len(),
            out@ == v@.subrange(0, i as int),
        decreases v@.len() - i,
    {
        out.push(v[i]);
        assert(out@ =~= v@.subrange(0, i + 1));
        i = i + 1;
    }
    assert(out@ =~= v@);
    out
}

/// Copies a list of byte vectors.
pub fn copy_byte_list(v: &Vec<Vec<u8>>) -> (r: Vec<Vec<u8>>)
    ensures
        views_of(r@) == views_of(v@),
        r@.len() == v@.len(),
{
    let mut out: Vec<Vec<u8>> = Vec::new();
    let mut i: usize = 0;
    while i < v.len()
        invariant
            i <= v@.len(),
            out@.len() == i,
            forall|j: int| 0 <= j < i ==> out@[j]@ == v@[j]@,
        decreases v@.len() - i,
    {
        out.push(copy_bytes(&v[i]));
        i = i + 1;
    }
    assert(views_of(out@) =~= views_of(v@));
    out
}

/// Appends the bytes of `v` to `out`.
pub fn push_all(out: &mut Vec<u8>, v: &Vec<u8>)
    ensures
        final(out)@ == old(out)@ + v@,
{
    let mut i: usize = 0;
    proof {
        assert(old(out)@ + v@.subrange(0, 0) =~= old(out)@);
    }
    while i < v.len()
        invariant
            i <= v@.len(),
            out@ == old(out)@ + v@.subrange(0, i as int),
        decreases v@.len() - i,
    {
        out.push(v[i]);
        assert(out@ =~= old(out)@ + v@.subrange(0, i + 1));
        i = i + 1;
    }
    assert(old(out)@ + v@.subrange(0, v@.len() as int) =~= old(out)@ + v@);
}

/// Compares two byte vectors for equality of their contents.
pub fn bytes_eq(a: &Vec<u8>, b: &Vec<u8>) -> (r: bool)
    ensures
        r == (a@ == b@),
{
    if a.len() != b.len() {
        return false;
    }
    let n = a.len();
    let mut i: usize = 0;
    while i < n
        invariant
            i <= n,
            n == a@.len(),
            n == b@.len(),
            forall|j: int| 0 <= j < i ==> a@[j] == b@[j],
        decreases n - i,
    {
        if a[i] != b[i] {
            return false;
        }
        i = i + 1;
    }
    proof {
        assert(a@ =~= b@);
    }
    true
}

} // verus!
