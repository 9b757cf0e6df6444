//! A file's text as a sequence of lines, and back.

use vstd::prelude::*;

verus! {

/// Line feed.
pub const LF: u8 = 10;

/// Carriage return.
pub const CR: u8 = 13;

/// The pieces of `s` between line feeds: one more piece than `s` has line
/// feeds, each without its line feed.
pub open spec fn pieces(s: Seq<u8>) -> Seq<Seq<u8>>
    decreases s.len(),
{
    if s.len() == 0 {
        seq![Seq::empty()]
    } else {
        let p = pieces(s.drop_last());
        if s.last() == LF {
            p.push(Seq::empty())
        } else {
            p.update(p.len() - 1, p.last().push(s.last()))
        }
    }
}

/// A line that was ended by a line feed, with a carriage return before that
/// line feed removed.
pub open spec fn strip_cr(l: Seq<u8>) -> Seq<u8> {
    if l.len() > 0 && l.last() == CR {
        l.drop_last()
    } else {
        l
    }
}

/// The lines of a text: split at each line feed, a carriage return that
/// precedes a line feed dropped, and no empty line after a final line feed.
pub open spec fn lines_of(s: Seq<u8>) -> Seq<Seq<u8>> {
    let p = pieces(s);
    let ended = p.drop_last().map_values(|l: Seq<u8>| strip_cr(l));
    if p.last().len() == 0 {
        ended
    } else {
        ended.push(p.last())
    }
}

/// Lines joined with a single line feed between each two.
pub open spec fn join_lines(ls: Seq<Seq<u8>>) -> Seq<u8>
    decreases ls.len(),
{
    if ls.len() == 0 {
        Seq::empty()
    } else if ls.len() == 1 {
        ls[0]
    } else {
        join_lines(ls.drop_last()) + seq![LF] + ls.last()
    }
}

proof fn lemma_pieces_nonempty(s: Seq<u8>)
    ensures
        pieces(s).len() >= 1,
    decreases s.len(),
{
    if s.len() > 0 {
        lemma_pieces_nonempty(s.drop_last());
    }
}

fn strip_cr_exec(l: Vec<u8>) -> (r: Vec<u8>)
    ensures
        r@ == strip_cr(l@),
{
    let mut l = l;
    let n = l.len();
    if n > 0 && l[n - 1] == CR {
        l.pop();
    }
    l
}

/// Splits a text into its lines.
pub fn split_lines(s: &[u8]) -> (r: Vec<Vec<u8>>)
    ensures
        r@.map_values(|l: Vec<u8>| l@) == lines_of(s@),
{
    let mut done: Vec<Vec<u8>> = Vec::new();
    let mut cur: Vec<u8> = Vec::new();
    let mut i: usize = 0;
    while i < s.len()
        invariant
            i <= s@.len(),
            done@.map_values(|l: Vec<u8>| l@).push(cur@) == pieces(s@.subrange(0, i as int)),
        decreases s@.len() - i,
    {
        let b = s[i];
        proof {
            let t = s@.subrange(0, i as int + 1);
            assert(t.drop_last() =~= s@.subrange(0, i as int));
            assert(t.last() == b);
            lemma_pieces_nonempty(t.drop_last());
        }
        if b == LF {
            done.push(cur);
            cur = Vec::new();
            proof {
                assert(done@.map_values(|l: Vec<u8>| l@).push(cur@) =~= pieces(
                    s@.subrange(0, i as int + 1),
                ));
            }
        } else {
            cur.push(b);
            proof {
                let p = pieces(s@.subrange(0, i as int));
                assert(done@.map_values(|l: Vec<u8>| l@).push(cur@) =~= p.update(
                    p.len() - 1,
                    p.last().push(b),
                ));
            }
        }
        i = i + 1;
    }
    assert(s@.subrange(0, s@.len() as int) =~= s@);
    let ghost p = pieces(s@);
    proof {
        lemma_pieces_nonempty(s@);
    }
    assert(done@.map_values(|l: Vec<u8>| l@) =~= p.drop_last());
    let mut r: Vec<Vec<u8>> = Vec::new();
    let mut j: usize = 0;
    let n = done.len();
    while j < n
        invariant
            n == done@.len(),
            j <= n,
            p.len() >= 1,
            done@.map_values(|l: Vec<u8>| l@) == p.drop_last(),
            r@.map_values(|l: Vec<u8>| l@) =~= p.drop_last().subrange(0, j as int).map_values(
                |l: Seq<u8>| strip_cr(l),
            ),
        decreases n - j,
    {
        let l = done[j].clone();
        let sl = strip_cr_exec(l);
        let ghost r0 = r@;
        r.push(sl);
        proof {
            assert(done@[j as int]@ == p.drop_last()[j as int]);
            let q = p.drop_last();
            assert(q.subrange(0, j as int + 1).map_values(|l: Seq<u8>| strip_cr(l)) =~= q.subrange(
                0,
                j as int,
            ).map_values(|l: Seq<u8>| strip_cr(l)).push(strip_cr(q[j as int])));
            assert(r@.map_values(|l: Vec<u8>| l@) =~= r0.map_values(|l: Vec<u8>| l@).push(sl@));
        }
        j = j + 1;
    }
    assert(p.drop_last().subrange(0, n as int) =~= p.drop_last());
    if cur.len() > 0 {
        r.push(cur);
    }
    proof {
        assert(r@.map_values(|l: Vec<u8>| l@) =~= lines_of(s@));
    }
    r
}

/// Joins lines with a single line feed between each two.
pub fn join(ls: &Vec<Vec<u8>>) -> (r: Vec<u8>)
    ensures
        r@ == join_lines(ls@.map_values(|l: Vec<u8>| l@)),
{
    let mut r: Vec<u8> = Vec::new();
    let mut i: usize = 0;
    while i < ls.len()
        invariant
            i <= ls@.len(),
            r@ == join_lines(ls@.map_values(|l: Vec<u8>| l@).subrange(0, i as int)),
        decreases ls@.len() - i,
    {
        let ghost before = r@;
        if i > 0 {
            r.push(LF);
        }
        let mut k: usize = 0;
        let line = &ls[i];
        while k < line.len()
            invariant
                k <= line@.len(),
                line == ls@[i as int],
                r@ == (if i > 0 { before + seq![LF] } else { before }) + line@.subrange(0, k as int),
            decreases line@.len() - k,
        {
            r.push(line[k]);
            k = k + 1;
        }
        proof {
            let m = ls@.map_values(|l: Vec<u8>| l@);
            let t = m.subrange(0, i as int + 1);
            assert(t.drop_last() =~= m.subrange(0, i as int));
            assert(line@.subrange(0, k as int) =~= line@);
            if i == 0 {
                assert(before =~= Seq::<u8>::empty());
                assert(r@ =~= join_lines(t));
            } else {
                assert(r@ =~= join_lines(t));
            }
        }
        i = i + 1;
    }
    assert(ls@.map_values(|l: Vec<u8>| l@).subrange(0, ls@.len() as int) =~= ls@.map_values(
        |l: Vec<u8>| l@,
    ));
    r
}

} // verus!
