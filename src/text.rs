use vstd::prelude::*;

verus! {

/// The line-feed byte that ends a line.
pub const LF: u8 = 10;

/// The tab byte, shown as four blank cells.
pub const TAB: u8 = 9;

/// The display cells that one byte of a line stands for.
pub open spec fn cells_of(b: u8) -> Seq<char> {
    if b == TAB {
        seq![' ', ' ', ' ', ' ']
    } else {
        seq![b as char]
    }
}

/// The display cells of a line: every byte before the first line feed,
/// with each tab expanded into four blanks.
pub open spec fn shown(s: Seq<u8>) -> Seq<char>
    decreases s.len(),
{
    if s.len() == 0 || s[0] == LF {
        Seq::empty()
    } else {
        cells_of(s[0]) + shown(s.drop_first())
    }
}

/// The number of grid rows that `n` display cells take at width `w`:
/// one for an empty line, else as many as it takes to hold every cell.
pub open spec fn rows_of(n: nat, w: nat) -> nat {
    if n == 0 || w == 0 {
        1
    } else {
        ((n - 1) as nat / w + 1) as nat
    }
}

/// Expands a line into its display cells.
pub fn expand_line(line: &Vec<u8>) -> (e: Vec<char>)
    ensures
        e@ == shown(line@),
{
    let mut e: Vec<char> = Vec::new();
    let mut b: usize = 0;
    assert(line@.skip(0) =~= line@);
    assert(e@ + shown(line@) =~= shown(line@));
    while b < line.len() && line[b] != LF
        invariant
            b <= line.len(),
            e@ + shown(line@.skip(b as int)) == shown(line@),
        decreases line.len() - b,
    {
        let c = line[b];
        assert(line@.skip(b as int).drop_first() =~= line@.skip(b + 1));
        if c == TAB {
            e.push(' ');
            e.push(' ');
            e.push(' ');
            e.push(' ');
        } else {
            e.push(c as char);
        }
        assert(e@ + shown(line@.skip(b + 1)) =~= shown(line@));
        b = b + 1;
    }
    assert(shown(line@.skip(b as int)) =~= Seq::<char>::empty());
    assert(e@ =~= e@ + Seq::<char>::empty());
    e
}

/// The number of grid rows a line of `n` display cells takes at width `w`.
pub fn rows_needed(n: usize, w: usize) -> (r: usize)
    requires
        w >= 1,
    ensures
        r as nat == rows_of(n as nat, w as nat),
        r >= 1,
{
    if n == 0 {
        1
    } else {
        (n - 1) / w + 1
    }
}

/// Display cells of bytes joined: a first part with no line feed shows in full,
/// followed by what the rest shows.
pub proof fn lemma_shown_append(a: Seq<u8>, b: Seq<u8>)
    requires
        forall|k: int| 0 <= k < a.len() ==> a[k] != LF,
    ensures
        shown(a + b) == shown(a) + shown(b),
    decreases a.len(),
{
    if a.len() == 0 {
        assert(a + b =~= b);
        assert(shown(a) + shown(b) =~= shown(b));
    } else {
        assert((a + b).drop_first() =~= a.drop_first() + b);
        lemma_shown_append(a.drop_first(), b);
        assert(shown(a + b) =~= shown(a) + shown(b));
    }
}

/// A tab that comes before any line feed shows as exactly four blank cells,
/// starting at the offset where the bytes before it end.
pub proof fn lemma_tab_is_four_blanks(line: Seq<u8>, c: int)
    requires
        0 <= c < line.len(),
        line[c] == TAB,
        forall|k: int| 0 <= k < c ==> line[k] != LF,
    ensures
        ({
            let o = shown(line.take(c)).len() as int;
            &&& o + 4 <= shown(line).len()
            &&& shown(line).take(o) == shown(line.take(c))
            &&& forall|k: int| o <= k < o + 4 ==> shown(line)[k] == ' '
            &&& shown(line).skip(o + 4) == shown(line.skip(c + 1))
        }),
{
    let a = line.take(c);
    let b = line.skip(c);
    assert(line =~= a + b);
    lemma_shown_append(a, b);
    assert(b[0] == TAB);
    assert(shown(b) == cells_of(TAB) + shown(b.drop_first()));
    let o = shown(a).len() as int;
    assert(shown(line).take(o) =~= shown(a));
    assert(b.drop_first() =~= line.skip(c + 1));
    assert(shown(line).skip(o + 4) =~= shown(line.skip(c + 1)));
}

/// Bytes with no tab and no line feed show one cell each, the byte itself.
pub proof fn lemma_shown_plain(s: Seq<u8>)
    requires
        forall|k: int| 0 <= k < s.len() ==> s[k] != LF && s[k] != TAB,
    ensures
        shown(s).len() == s.len(),
        forall|k: int| 0 <= k < s.len() ==> shown(s)[k] == s[k] as char,
    decreases s.len(),
{
    if s.len() > 0 {
        lemma_shown_plain(s.drop_first());
        assert forall|k: int| 0 <= k < s.len() implies shown(s)[k] == s[k] as char by {
            if k > 0 {
                assert(shown(s)[k] == shown(s.drop_first())[k - 1]);
            }
        }
    }
}

} // verus!
