//! Converting between byte indexes in a text and zero based (line, column)
//! positions, columns counted in bytes.
use vstd::prelude::*;
use vstd::string::*;

verus! {

/// The number of line feeds among the first `i` bytes.
pub open spec fn nl_count(b: Seq<u8>, i: int) -> nat
    decreases i,
{
    if i <= 0 {
        0
    } else {
        nl_count(b, i - 1) + if b[i - 1] == 10 {
            1nat
        } else {
            0nat
        }
    }
}

/// Where the line holding byte index `i` starts: after the last line feed
/// before `i`, or 0.
pub open spec fn line_start_at(b: Seq<u8>, i: int) -> int
    decreases i,
{
    if i <= 0 {
        0
    } else if b[i - 1] == 10 {
        i
    } else {
        line_start_at(b, i - 1)
    }
}

/// The first line feed at or after `from`, or the length of the text.
pub open spec fn next_nl(b: Seq<u8>, from: int) -> int
    decreases b.len() - from,
{
    if from < 0 || from >= b.len() {
        b.len() as int
    } else if b[from] == 10 {
        from
    } else {
        next_nl(b, from + 1)
    }
}

/// The offset `n` lines after `from`: after `n` more line feeds; one past
/// the end of the text when it has fewer.
pub open spec fn line_offset_from(b: Seq<u8>, from: int, n: nat) -> int
    decreases n,
{
    if n == 0 {
        from
    } else {
        let j = next_nl(b, from);
        if j >= b.len() {
            b.len() + 1int
        } else {
            line_offset_from(b, j + 1, (n - 1) as nat)
        }
    }
}

/// The zero based position of byte index `i`: the line feeds before it, and
/// its distance from the start of its line.
pub open spec fn position_of(b: Seq<u8>, i: int) -> (int, int) {
    (nl_count(b, i) as int, i - line_start_at(b, i))
}

/// The byte index of a zero based position: the offset of the line (the sum
/// of the lengths of the lines before it plus one for each line feed) and the
/// column.
pub open spec fn index_of(b: Seq<u8>, position: (int, int)) -> int {
    line_offset_from(b, 0, position.0 as nat) + position.1
}

/// `LineColLookup::get` (line-col) for the text: the one based line and
/// column of a byte index no greater than the text's length. Claimed (as the
/// crate documents and computes it from the starts of the lines): the line is
/// one more than the number of line feeds before the index, the column one
/// more than the index's distance from the start of its line.
#[verifier::external_body]
fn line_col(source: &str, index: usize) -> (res: (usize, usize))
    requires
        index <= source.spec_bytes().len(),
    ensures
        res.0 == 1 + nl_count(source.spec_bytes(), index as int),
        res.1 == index - line_start_at(source.spec_bytes(), index as int) + 1,
{
    line_col::LineColLookup::new(source).get(index)
}

/// Map index to position (line, column)
///
/// Line and column are zero based
pub fn index_to_position(source: &str, index: usize) -> (res: (usize, usize))
    requires
        index <= source.spec_bytes().len(),
    ensures
        (res.0 as int, res.1 as int) == position_of(source.spec_bytes(), index as int),
{
    let (line, char) = line_col(source, index);
    proof {
        lemma_line_start_at(source.spec_bytes(), index as int);
    }
    (line - 1, char - 1)
}

pub proof fn lemma_next_nl(b: Seq<u8>, from: int)
    requires
        0 <= from,
    ensures
        from <= next_nl(b, from) <= b.len() || (from > b.len() && next_nl(b, from) == b.len()),
        next_nl(b, from) < b.len() ==> b[next_nl(b, from)] == 10,
        forall|t: int| from <= t < next_nl(b, from) ==> b[t] != 10,
    decreases b.len() - from,
{
    if from < b.len() && b[from] != 10 {
        lemma_next_nl(b, from + 1);
    }
}

/// Map position (line, column) to index
///
/// Line and column are zero based
pub fn position_to_index(source: &str, position: (usize, usize)) -> (res: usize)
    requires
        index_of(source.spec_bytes(), (position.0 as int, position.1 as int)) <= usize::MAX,
    ensures
        res == index_of(source.spec_bytes(), (position.0 as int, position.1 as int)),
{
    let (line, character) = position;
    let b = source.as_bytes();
    let ghost bs = source.spec_bytes();
    let n = b.len();
    let mut from: usize = 0;
    let mut k: usize = 0;
    while k < line
        invariant
            b@ == bs,
            bs == source.spec_bytes(),
            line == position.0,
            character == position.1,
            n == bs.len(),
            k <= line,
            from <= n,
            line_offset_from(bs, from as int, (line - k) as nat) == line_offset_from(bs, 0, line as nat),
            line_offset_from(bs, 0, line as nat) + character <= usize::MAX,
        decreases line - k,
    {
        proof {
            lemma_next_nl(bs, from as int);
        }
        let mut j = from;
        while j < n && b[j] != 10
            invariant
                b@ == bs,
                n == bs.len(),
                from <= j <= n,
                next_nl(bs, j as int) == next_nl(bs, from as int),
            decreases n - j,
        {
            j += 1;
        }
        if j >= n {
            // the text has fewer lines: one past its end
            proof {
                assert(next_nl(bs, j as int) == n);
                assert(line_offset_from(bs, from as int, (line - k) as nat) == n + 1);
                assert(index_of(bs, (line as int, character as int)) == n + 1 + character);
            }
            let r = n + 1 + character;
            assert(r == index_of(source.spec_bytes(), (position.0 as int, position.1 as int)));
            return r;
        }
        from = j + 1;
        k += 1;
    }
    from + character
}

proof fn lemma_line_start_at(b: Seq<u8>, i: int)
    requires
        0 <= i <= b.len(),
    ensures
        0 <= line_start_at(b, i) <= i,
        line_start_at(b, i) == 0 || b[line_start_at(b, i) - 1] == 10,
        forall|t: int| line_start_at(b, i) <= t < i ==> b[t] != 10,
        nl_count(b, line_start_at(b, i)) == nl_count(b, i),
    decreases i,
{
    if i > 0 && b[i - 1] != 10 {
        lemma_line_start_at(b, i - 1);
    }
}

/// The offset after the next line feed from `p` (one past the end if none).
spec fn step_line(b: Seq<u8>, p: int) -> int {
    if next_nl(b, p) >= b.len() {
        b.len() + 1int
    } else {
        next_nl(b, p) + 1
    }
}

proof fn lemma_line_offset_step(b: Seq<u8>, f: int, n: nat)
    requires
        0 <= f,
    ensures
        line_offset_from(b, f, n + 1) == step_line(b, line_offset_from(b, f, n)),
    decreases n,
{
    let j = next_nl(b, f);
    lemma_next_nl(b, f);
    if n > 0 {
        if j < b.len() {
            lemma_line_offset_step(b, j + 1, (n - 1) as nat);
            assert(((n - 1) as nat + 1) as nat == n);
            assert(line_offset_from(b, f, n + 1) == line_offset_from(b, j + 1, n));
            assert(line_offset_from(b, f, n) == line_offset_from(b, j + 1, (n - 1) as nat));
        } else {
            assert(line_offset_from(b, f, n + 1) == b.len() + 1);
            assert(line_offset_from(b, f, n) == b.len() + 1);
            assert(next_nl(b, b.len() + 1int) == b.len());
        }
    } else {
        assert(line_offset_from(b, f, 0) == f);
        if j < b.len() {
            assert(line_offset_from(b, j + 1, 0) == j + 1);
        }
    }
}

/// Going from an index to its position and back gives the index.
pub proof fn lemma_index_position_roundtrip(b: Seq<u8>, i: int)
    requires
        0 <= i <= b.len(),
    ensures
        index_of(b, position_of(b, i)) == i,
{
    lemma_line_start_of_count(b, i);
}

proof fn lemma_line_start_of_count(b: Seq<u8>, i: int)
    requires
        0 <= i <= b.len(),
    ensures
        line_offset_from(b, 0, nl_count(b, i)) == line_start_at(b, i),
    decreases i,
{
    if i > 0 {
        lemma_line_start_of_count(b, i - 1);
        if b[i - 1] == 10 {
            let m = nl_count(b, i - 1);
            let p = line_start_at(b, i - 1);
            lemma_line_start_at(b, i - 1);
            lemma_line_offset_step(b, 0, m);
            lemma_next_nl(b, p);
            lemma_next_nl_at(b, p, i - 1);
            assert(step_line(b, p) == i);
        }
    }
}

proof fn lemma_next_nl_at(b: Seq<u8>, from: int, j: int)
    requires
        0 <= from <= j < b.len(),
        b[j] == 10,
        forall|t: int| from <= t < j ==> b[t] != 10,
    ensures
        next_nl(b, from) == j,
    decreases j - from,
{
    if from < j {
        lemma_next_nl_at(b, from + 1, j);
    }
}

/// The offset of a line that exists is the start of a line holding as many
/// line feeds before it as its number.
proof fn lemma_line_offset_is_start(b: Seq<u8>, n: nat)
    requires
        n <= nl_count(b, b.len() as int),
    ensures
        0 <= line_offset_from(b, 0, n) <= b.len(),
        nl_count(b, line_offset_from(b, 0, n)) == n,
        line_offset_from(b, 0, n) == 0 || b[line_offset_from(b, 0, n) - 1] == 10,
    decreases n,
{
    if n > 0 {
        lemma_line_offset_is_start(b, (n - 1) as nat);
        let p = line_offset_from(b, 0, (n - 1) as nat);
        lemma_line_offset_step(b, 0, (n - 1) as nat);
        lemma_next_nl(b, p);
        let j = next_nl(b, p);
        lemma_nl_count_flat(b, p, j);
        if j >= b.len() {
            // no line feed after p: the text holds only n - 1 of them
            assert(nl_count(b, b.len() as int) == n - 1);
            assert(false);
        }
        assert(nl_count(b, j + 1) == nl_count(b, j) + 1);
    }
}

proof fn lemma_nl_count_flat(b: Seq<u8>, p: int, j: int)
    requires
        0 <= p <= j <= b.len(),
        forall|t: int| p <= t < j ==> b[t] != 10,
    ensures
        nl_count(b, j) == nl_count(b, p),
    decreases j - p,
{
    if p < j {
        lemma_nl_count_flat(b, p, j - 1);
    }
}

proof fn lemma_line_start_flat(b: Seq<u8>, p: int, i: int)
    requires
        0 <= p <= i <= b.len(),
        p == 0 || b[p - 1] == 10,
        forall|t: int| p <= t < i ==> b[t] != 10,
    ensures
        line_start_at(b, i) == p,
    decreases i - p,
{
    if p < i {
        lemma_line_start_flat(b, p, i - 1);
    }
}

/// Going from a position on an existing line, no further than the line's
/// end, to its index and back gives the position.
pub proof fn lemma_position_index_roundtrip(b: Seq<u8>, line: nat, column: nat)
    requires
        line <= nl_count(b, b.len() as int),
        line_offset_from(b, 0, line) + column <= next_nl(b, line_offset_from(b, 0, line)),
    ensures
        position_of(b, index_of(b, (line as int, column as int))) == (line as int, column as int),
{
    lemma_line_offset_is_start(b, line);
    let p = line_offset_from(b, 0, line);
    let i = p + column;
    lemma_next_nl(b, p);
    lemma_nl_count_flat(b, p, i);
    lemma_line_start_flat(b, p, i);
}

/// The lengths in bytes of the pieces of a text between line feeds, as
/// `str::split('\n')` gives them: one more piece than there are line feeds.
pub open spec fn split_lengths(b: Seq<u8>) -> Seq<int>
    decreases b.len(),
{
    let j = next_nl(b, 0);
    proof {
        lemma_next_nl(b, 0);
    }
    if j < b.len() {
        seq![j] + split_lengths(b.skip(j + 1))
    } else {
        seq![b.len() as int]
    }
}

/// The sum, over the first `n` lengths, of each length plus one.
pub open spec fn lengths_plus_one(s: Seq<int>, n: int) -> int
    decreases n,
{
    if n <= 0 || s.len() == 0 {
        0
    } else {
        s[0] + 1 + lengths_plus_one(s.drop_first(), n - 1)
    }
}

proof fn lemma_next_nl_skip(b: Seq<u8>, f: int, x: int)
    requires
        0 <= f <= b.len(),
        0 <= x,
    ensures
        next_nl(b, f + x) == f + next_nl(b.skip(f), x),
    decreases b.len() - (f + x),
{
    if f + x < b.len() {
        assert(b.skip(f)[x] == b[f + x]);
        if b[f + x] != 10 {
            lemma_next_nl_skip(b, f, x + 1);
        }
    }
}

proof fn lemma_line_offset_skip(b: Seq<u8>, f: int, x: int, n: nat)
    requires
        0 <= f <= b.len(),
        0 <= x,
    ensures
        line_offset_from(b, f + x, n) == f + line_offset_from(b.skip(f), x, n),
    decreases n,
{
    if n > 0 {
        lemma_next_nl_skip(b, f, x);
        let j = next_nl(b.skip(f), x);
        lemma_next_nl(b.skip(f), x);
        if j < b.skip(f).len() {
            lemma_line_offset_skip(b, f, j + 1, (n - 1) as nat);
            assert(f + (j + 1) == next_nl(b, f + x) + 1);
        }
    }
}

proof fn lemma_line_offset_sum(b: Seq<u8>, n: nat)
    requires
        n < split_lengths(b).len(),
    ensures
        line_offset_from(b, 0, n) == lengths_plus_one(split_lengths(b), n as int),
    decreases b.len(),
{
    lemma_next_nl(b, 0);
    let j = next_nl(b, 0);
    if n > 0 {
        assert(j < b.len());
        let rest = split_lengths(b.skip(j + 1));
        assert(split_lengths(b) == seq![j] + rest);
        lemma_line_offset_sum(b.skip(j + 1), (n - 1) as nat);
        lemma_line_offset_skip(b, j + 1, 0, (n - 1) as nat);
        assert((seq![j] + rest).drop_first() =~= rest);
        assert(line_offset_from(b, 0, n) == line_offset_from(b, j + 1, (n - 1) as nat));
    }
}

/// The index of a position on one of the text's lines (its pieces between
/// line feeds) is the sum of the lengths of the lines before it, each with
/// its line feed, plus the column.
pub proof fn lemma_index_of_line_sum(b: Seq<u8>, line: nat, column: int)
    requires
        line < split_lengths(b).len(),
    ensures
        index_of(b, (line as int, column)) == lengths_plus_one(split_lengths(b), line as int) + column,
{
    lemma_line_offset_sum(b, line);
}

} // verus!
