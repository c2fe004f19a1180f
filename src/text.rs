//! Splitting a mesh file into lines, and a line into whitespace-separated tokens.
use vstd::prelude::*;

verus! {

pub const NEWLINE: u8 = 10;

/// Whether a byte separates tokens on a line: the ASCII characters that
/// `char::is_whitespace` accepts.
pub open spec fn is_space(b: u8) -> bool {
    b == 9 || b == 10 || b == 11 || b == 12 || b == 13 || b == 32
}

pub fn byte_is_space(b: u8) -> (r: bool)
    ensures
        r == is_space(b),
{
    b == 9 || b == 10 || b == 11 || b == 12 || b == 13 || b == 32
}

/// The lines of `s`, cut at each newline byte (the newline itself belongs to
/// no line). A text without a newline is one line.
pub open spec fn split_lines(s: Seq<u8>) -> Seq<Seq<u8>>
    decreases s.len(),
{
    if s.len() == 0 {
        seq![Seq::<u8>::empty()]
    } else {
        let prev = split_lines(s.drop_last());
        if s.last() == NEWLINE {
            prev.push(Seq::<u8>::empty())
        } else {
            prev.update(prev.len() - 1, prev.last().push(s.last()))
        }
    }
}

/// The maximal runs of non-space bytes of `s`, in order.
pub open spec fn tokens(s: Seq<u8>) -> Seq<Seq<u8>>
    decreases s.len(),
{
    if s.len() == 0 {
        Seq::<Seq<u8>>::empty()
    } else {
        let prev = tokens(s.drop_last());
        let b = s.last();
        if is_space(b) {
            prev
        } else if s.len() >= 2 && !is_space(s[s.len() - 2]) {
            prev.update(prev.len() - 1, prev.last().push(b))
        } else {
            prev.push(seq![b])
        }
    }
}

/// The tokens of each line of `s`.
pub open spec fn line_tokens(s: Seq<u8>) -> Seq<Seq<Seq<u8>>> {
    split_lines(s).map_values(|l: Seq<u8>| tokens(l))
}

pub proof fn lemma_split_lines_nonempty(s: Seq<u8>)
    ensures
        split_lines(s).len() >= 1,
    decreases s.len(),
{
    if s.len() > 0 {
        lemma_split_lines_nonempty(s.drop_last());
    }
}

pub proof fn lemma_tokens_open_run(s: Seq<u8>)
    requires
        s.len() > 0,
        !is_space(s.last()),
    ensures
        tokens(s).len() > 0,
    decreases s.len(),
{
    if s.len() >= 2 && !is_space(s[s.len() - 2]) {
        assert(s.drop_last().last() == s[s.len() - 2]);
        lemma_tokens_open_run(s.drop_last());
    }
}

/// Copies of the lines of `text`.
pub fn lines_of(text: &[u8]) -> (r: Vec<Vec<u8>>)
    ensures
        r@.len() == split_lines(text@).len(),
        forall|k: int| 0 <= k < r@.len() ==> (#[trigger] r@[k])@ == split_lines(text@)[k],
{
    let mut r: Vec<Vec<u8>> = Vec::new();
    r.push(Vec::new());
    let mut i: usize = 0;
    assert(text@.subrange(0, 0) =~= Seq::<u8>::empty());
    while i < text.len()
        invariant
            0 <= i <= text@.len(),
            r@.len() == split_lines(text@.subrange(0, i as int)).len(),
            forall|k: int|
                0 <= k < r@.len() ==> (#[trigger] r@[k])@ == split_lines(
                    text@.subrange(0, i as int),
                )[k],
        decreases text@.len() - i,
    {
        let ghost pre = text@.subrange(0, i as int);
        let ghost cur = text@.subrange(0, i as int + 1);
        assert(cur.drop_last() =~= pre);
        proof {
            lemma_split_lines_nonempty(pre);
        }
        let b = text[i];
        if b == NEWLINE {
            r.push(Vec::new());
        } else {
            let last = r.len() - 1;
            let mut line = r.remove(last);
            line.push(b);
            r.push(line);
        }
        i = i + 1;
        assert(r@.len() == split_lines(cur).len());
        assert forall|k: int| 0 <= k < r@.len() implies (#[trigger] r@[k])@ == split_lines(cur)[k] by {
        }
    }
    assert(text@.subrange(0, text@.len() as int) =~= text@);
    r
}

/// Copies of the tokens of `line`.
pub fn tokens_of(line: &[u8]) -> (r: Vec<Vec<u8>>)
    ensures
        r@.len() == tokens(line@).len(),
        forall|k: int| 0 <= k < r@.len() ==> (#[trigger] r@[k])@ == tokens(line@)[k],
{
    let mut r: Vec<Vec<u8>> = Vec::new();
    let mut i: usize = 0;
    let mut in_token = false;
    assert(line@.subrange(0, 0) =~= Seq::<u8>::empty());
    while i < line.len()
        invariant
            0 <= i <= line@.len(),
            in_token == (i > 0 && !is_space(line@[i - 1])),
            r@.len() == tokens(line@.subrange(0, i as int)).len(),
            forall|k: int|
                0 <= k < r@.len() ==> (#[trigger] r@[k])@ == tokens(line@.subrange(0, i as int))[k],
        decreases line@.len() - i,
    {
        let ghost pre = line@.subrange(0, i as int);
        let ghost cur = line@.subrange(0, i as int + 1);
        assert(cur.drop_last() =~= pre);
        proof {
            if i > 0 {
                assert(pre.last() == line@[i - 1]);
                if in_token {
                    lemma_tokens_open_run(pre);
                }
            }
        }
        let b = line[i];
        if byte_is_space(b) {
            in_token = false;
        } else if in_token {
            let last = r.len() - 1;
            let mut tok = r.remove(last);
            tok.push(b);
            r.push(tok);
        } else {
            let mut tok: Vec<u8> = Vec::new();
            tok.push(b);
            r.push(tok);
            in_token = true;
            assert(tok@ =~= seq![b]);
        }
        i = i + 1;
        assert(r@.len() == tokens(cur).len());
        assert forall|k: int| 0 <= k < r@.len() implies (#[trigger] r@[k])@ == tokens(cur)[k] by {
        }
    }
    assert(line@.subrange(0, line@.len() as int) =~= line@);
    r
}

} // verus!
