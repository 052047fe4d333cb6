use vstd::prelude::*;
use crate::layout::doc_view;
use crate::text::LF;

verus! {

/// The carriage-return byte, dropped from every line.
pub const CR: u8 = 13;

/// The lines ended so far in `b`, each with its line feed, and the bytes of
/// the line not yet ended; carriage returns are left out of both.
pub open spec fn lines_so_far(b: Seq<u8>) -> (Seq<Seq<u8>>, Seq<u8>)
    decreases b.len(),
{
    if b.len() == 0 {
        (Seq::empty(), Seq::empty())
    } else {
        let (ls, cur) = lines_so_far(b.drop_last());
        let x = b.last();
        if x == LF {
            (ls.push(cur.push(LF)), Seq::empty())
        } else if x == CR {
            (ls, cur)
        } else {
            (ls, cur.push(x))
        }
    }
}

/// The lines of a file's bytes: each line ended by a line feed keeps it, a
/// last line without one is kept as it is, and carriage returns are dropped.
pub open spec fn split(b: Seq<u8>) -> Seq<Seq<u8>> {
    let (ls, cur) = lines_so_far(b);
    if cur.len() == 0 {
        ls
    } else {
        ls.push(cur)
    }
}

/// Splits a file's bytes into its lines.
pub fn split_lines(bytes: &Vec<u8>) -> (lines: Vec<Vec<u8>>)
    ensures
        doc_view(lines@) == split(bytes@),
{
    let mut lines: Vec<Vec<u8>> = Vec::new();
    let mut cur: Vec<u8> = Vec::new();
    let mut i: usize = 0;
    assert(bytes@.take(0) =~= Seq::<u8>::empty());
    assert(doc_view(lines@) =~= Seq::<Seq<u8>>::empty());
    while i < bytes.len()
        invariant
            i <= bytes@.len(),
            (doc_view(lines@), cur@) == lines_so_far(bytes@.take(i as int)),
        decreases bytes.len() - i,
    {
        let x = bytes[i];
        assert(bytes@.take(i + 1).drop_last() =~= bytes@.take(i as int));
        let ghost ls0 = doc_view(lines@);
        if x == LF {
            cur.push(x);
            lines.push(cur);
            cur = Vec::new();
            assert(doc_view(lines@) =~= ls0.push(lines@.last()@));
        } else if x != CR {
            cur.push(x);
        }
        i = i + 1;
    }
    assert(bytes@.take(i as int) =~= bytes@);
    if cur.len() > 0 {
        let ghost ls0 = doc_view(lines@);
        lines.push(cur);
        assert(doc_view(lines@) =~= ls0.push(lines@.last()@));
    }
    lines
}

} // verus!
