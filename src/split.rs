//! Splitting a raw line into its comma-separated fields.

use vstd::prelude::*;

verus! {

/// The pieces of `s` between its comma bytes, in order; a line with no comma is one field.
pub open spec fn split_commas(s: Seq<u8>) -> Seq<Seq<u8>>
    decreases s.len(),
{
    if s.len() == 0 {
        seq![Seq::empty()]
    } else {
        let r = split_commas(s.drop_last());
        if s.last() == 44 {
            r.push(Seq::empty())
        } else {
            r.update(r.len() - 1, r.last().push(s.last()))
        }
    }
}

pub proof fn lemma_split_nonempty(s: Seq<u8>)
    ensures
        split_commas(s).len() >= 1,
    decreases s.len(),
{
    if s.len() > 0 {
        lemma_split_nonempty(s.drop_last());
    }
}

/// Field `k` of a split line, or `None` where the line has fewer fields.
pub open spec fn field(fs: Seq<Seq<u8>>, k: int) -> Option<Seq<u8>> {
    if 0 <= k < fs.len() {
        Some(fs[k])
    } else {
        None
    }
}

/// A line without its terminator: a trailing `\n` goes, and then a `\r` before it,
/// as `BufRead::lines` strips them.
pub open spec fn line_body(s: Seq<u8>) -> Seq<u8> {
    if s.len() > 0 && s.last() == 10 {
        let t = s.drop_last();
        if t.len() > 0 && t.last() == 13 {
            t.drop_last()
        } else {
            t
        }
    } else {
        s
    }
}

/// The length of [`line_body`].
pub fn body_len(s: &[u8]) -> (r: usize)
    ensures
        r <= s.len(),
        line_body(s@) == s@.subrange(0, r as int),
        r < s.len() ==> s@[r as int] == 10 || s@[r as int] == 13,
{
    let n = s.len();
    if n > 0 && s[n - 1] == 10 {
        if n > 1 && s[n - 2] == 13 {
            assert(s@.drop_last().drop_last() =~= s@.subrange(0, n - 2));
            n - 2
        } else {
            assert(s@.drop_last() =~= s@.subrange(0, n - 1));
            n - 1
        }
    } else {
        assert(s@ =~= s@.subrange(0, n as int));
        n
    }
}

/// `bounds` holds the start and end of each comma-separated field of `s`.
pub open spec fn bounds_of(s: Seq<u8>, bounds: Seq<(usize, usize)>) -> bool {
    &&& bounds.len() == split_commas(s).len()
    &&& forall|k: int|
        0 <= k < bounds.len() ==> {
            let (a, b) = #[trigger] bounds[k];
            &&& a <= b <= s.len()
            &&& s.subrange(a as int, b as int) == split_commas(s)[k]
            &&& (a == 0 || s[a - 1] == 44)
            &&& (b == s.len() || s[b as int] == 44)
        }
}

/// The start and end of each comma-separated field of `s`.
pub fn field_bounds(s: &[u8]) -> (r: Vec<(usize, usize)>)
    ensures
        bounds_of(s@, r@),
{
    let mut done: Vec<(usize, usize)> = Vec::new();
    let mut cur: usize = 0;
    let mut i: usize = 0;
    assert(s@.subrange(0, 0) =~= Seq::<u8>::empty());
    while i < s.len()
        invariant
            cur <= i <= s.len(),
            split_commas(s@.subrange(0, i as int)).len() == done@.len() + 1,
            split_commas(s@.subrange(0, i as int))[done@.len() as int] == s@.subrange(
                cur as int,
                i as int,
            ),
            cur == 0 || s@[cur - 1] == 44,
            forall|k: int|
                0 <= k < done@.len() ==> {
                    let (a, b) = #[trigger] done@[k];
                    &&& a <= b <= i
                    &&& s@.subrange(a as int, b as int) == split_commas(s@.subrange(0, i as int))[k]
                    &&& (a == 0 || s@[a - 1] == 44)
                    &&& s@[b as int] == 44
                },
        decreases s.len() - i,
    {
        let ghost p = s@.subrange(0, i as int);
        let ghost q = s@.subrange(0, i + 1);
        assert(q.drop_last() =~= p);
        assert(q.last() == s@[i as int]);
        if s[i] == 44 {
            done.push((cur, i));
            cur = i + 1;
            assert(s@.subrange(cur as int, i + 1) =~= Seq::<u8>::empty());
        } else {
            assert(s@.subrange(cur as int, i + 1) =~= s@.subrange(cur as int, i as int).push(
                s@[i as int],
            ));
        }
        i = i + 1;
    }
    assert(s@.subrange(0, i as int) =~= s@);
    done.push((cur, i));
    done
}

} // verus!
