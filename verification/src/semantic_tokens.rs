//! Semantic tokens of a request file for an editor: one comment token for
//! each line of each comment.
use crate::ast::{ast_spec, lemma_ast_nodes_ordered, lemma_ast_nodes_placed, Ast, AstNode, AstNodeView};
use crate::extract_codeblocks::{blocks_well_placed, markdown_blocks, span_well_placed};
use crate::text::bytes_of;
use crate::span::Span;
use crate::str_idxpos::{index_to_position, next_nl, nl_count, position_of};
use vstd::prelude::*;
use vstd::string::*;
use vstd::utf8::*;

verus! {

/// A semantic token as an editor receives it
#[derive(Debug, Clone, Copy, PartialEq, Eq)]
pub struct SemanticToken {
    pub delta_line: u32,
    pub delta_start: u32,
    pub length: u32,
    pub token_type: u32,
    pub token_modifiers_bitset: u32,
}

/// The lengths in bytes of the lines of a text, as `str::lines` gives them:
/// without the line feed that ends a line, nor a carriage return before it;
/// a final line feed ends the last line rather than starting another.
pub open spec fn line_lengths(b: Seq<u8>) -> Seq<int>
    decreases b.len(),
{
    if b.len() == 0 {
        Seq::empty()
    } else {
        let j = next_nl(b, 0);
        proof {
            crate::str_idxpos::lemma_next_nl(b, 0);
        }
        if j < b.len() {
            let len = if j > 0 && b[j - 1] == 13 {
                j - 1
            } else {
                j
            };
            seq![len] + line_lengths(b.skip(j + 1))
        } else {
            seq![b.len() as int]
        }
    }
}

/// The line of a byte index, as `u32`.
pub open spec fn line_u32(bytes: Seq<u8>, idx: int) -> u32 {
    position_of(bytes, idx).0 as u32
}

/// A comment token for each line length.
pub open spec fn comment_tokens(lengths: Seq<int>, delta_line: u32) -> Seq<SemanticToken> {
    lengths.map_values(|l: int| SemanticToken {
        delta_line,
        delta_start: 0,
        length: l as u32,
        token_type: 0,
        token_modifiers_bitset: 0,
    })
}

/// The start of the node before node `i`, or 0.
pub open spec fn prev_start(nodes: Seq<(AstNodeView, Span)>, i: int) -> int {
    if i == 0 {
        0
    } else {
        nodes[i - 1].1.start as int
    }
}

/// The tokens of the nodes before `k`: for each comment, a token for each of
/// its lines, whose line delta is one more than the lines between the start
/// of the node before it and its own start.
pub open spec fn tokens_spec(nodes: Seq<(AstNodeView, Span)>, bytes: Seq<u8>, k: int) -> Seq<SemanticToken>
    decreases k,
{
    if k <= 0 {
        Seq::empty()
    } else {
        let i = k - 1;
        let rest = tokens_spec(nodes, bytes, i);
        match nodes[i].0 {
            AstNodeView::Comment(_) => {
                let delta = (line_u32(bytes, nodes[i].1.start as int) - line_u32(bytes, prev_start(nodes, i)) + 1) as u32;
                rest + comment_tokens(
                    line_lengths(bytes.subrange(nodes[i].1.start as int, nodes[i].1.end as int)),
                    delta,
                )
            },
            _ => rest,
        }
    }
}

/// The nodes can be given tokens: their starts lie in the text, comments lie
/// in it on character boundaries, and lines do not go back from one node to
/// the next.
pub open spec fn tokens_ok(nodes: Seq<(AstNodeView, Span)>, bytes: Seq<u8>) -> bool {
    forall|i: int|
        0 <= i < nodes.len() ==> {
            &&& #[trigger] nodes[i].1.start <= bytes.len()
            &&& line_u32(bytes, prev_start(nodes, i)) <= line_u32(bytes, nodes[i].1.start as int)
            &&& line_u32(bytes, nodes[i].1.start as int) - line_u32(bytes, prev_start(nodes, i)) + 1 <= u32::MAX
            &&& nodes[i].0 is Comment ==> (nodes[i].1.start <= nodes[i].1.end <= bytes.len()
                && is_char_boundary(bytes, nodes[i].1.start as int) && is_char_boundary(
                bytes,
                nodes[i].1.end as int,
            ))
        }
}

/// The lengths of the lines of a text.
fn line_lengths_exec(b: &[u8], lo: usize, hi: usize) -> (res: Vec<u32>)
    requires
        lo <= hi <= b@.len(),
    ensures
        res@ == line_lengths(b@.subrange(lo as int, hi as int)).map_values(|l: int| l as u32),
{
    let ghost whole = b@.subrange(lo as int, hi as int);
    let mut out: Vec<u32> = Vec::new();
    let mut from = lo;
    assert(whole.skip(0) =~= whole);
    while from < hi
        invariant
            lo <= from <= hi <= b@.len(),
            whole == b@.subrange(lo as int, hi as int),
            out@ + line_lengths(b@.subrange(from as int, hi as int)).map_values(|l: int| l as u32)
                == line_lengths(whole).map_values(|l: int| l as u32),
        decreases hi - from,
    {
        let ghost seg = b@.subrange(from as int, hi as int);
        let mut j = from;
        while j < hi && b[j] != 10
            invariant
                lo <= from <= j <= hi <= b@.len(),
                seg == b@.subrange(from as int, hi as int),
                next_nl(seg, (j - from) as int) == next_nl(seg, 0),
            decreases hi - j,
        {
            proof {
                assert(seg[j - from] == b@[j as int]);
            }
            j += 1;
        }
        proof {
            if j < hi {
                assert(seg[j - from] == b@[j as int]);
            }
            assert(next_nl(seg, 0) == j - from);
        }
        let ghost before = out@;
        if j < hi {
            let len = if j > from && b[j - 1] == 13 {
                j - 1 - from
            } else {
                j - from
            };
            out.push(len as u32);
            proof {
                if j > from {
                    assert(seg[j - from - 1] == b@[j - 1]);
                }
                assert(seg.skip(j - from + 1) =~= b@.subrange(j + 1, hi as int));
                assert(line_lengths(seg) == seq![len as int] + line_lengths(b@.subrange(j + 1, hi as int)));
                assert(line_lengths(seg).map_values(|l: int| l as u32) =~= seq![len as u32] + line_lengths(
                    b@.subrange(j + 1, hi as int)).map_values(|l: int| l as u32));
                assert(before + line_lengths(seg).map_values(|l: int| l as u32) =~= out@ + line_lengths(
                    b@.subrange(j + 1, hi as int)).map_values(|l: int| l as u32));
            }
            from = j + 1;
        } else {
            let len = hi - from;
            out.push(len as u32);
            proof {
                assert(line_lengths(seg) == seq![len as int]);
                assert(b@.subrange(hi as int, hi as int) =~= Seq::<u8>::empty());
                assert(line_lengths(b@.subrange(hi as int, hi as int)) =~= Seq::<int>::empty());
                assert(before + line_lengths(seg).map_values(|l: int| l as u32) =~= out@ + line_lengths(
                    b@.subrange(hi as int, hi as int)).map_values(|l: int| l as u32));
            }
            from = hi;
        }
    }
    proof {
        assert(b@.subrange(from as int, hi as int) =~= Seq::<u8>::empty());
        assert(line_lengths(b@.subrange(from as int, hi as int)).map_values(|l: int| l as u32) =~= Seq::<u32>::empty());
        assert(out@ + Seq::<u32>::empty() =~= out@);
    }
    out
}

/// The semantic tokens of a request file: a comment token for each line of
/// each comment node
pub fn generate_semantic_tokens(ast: &Ast, source: &str) -> (res: Vec<SemanticToken>)
    requires
        tokens_ok(ast@, source.spec_bytes()),
    ensures
        res@ == tokens_spec(ast@, source.spec_bytes(), ast@.len() as int),
{
    let b = source.as_bytes();
    let ghost bytes = source.spec_bytes();
    let ghost nodes = ast@;
    let mut tokens: Vec<SemanticToken> = Vec::new();
    let mut prev: usize = 0;
    let n = ast.0.len();
    let mut i: usize = 0;
    while i < n
        invariant
            n == nodes.len(),
            nodes == ast@,
            b@ == bytes,
            bytes == source.spec_bytes(),
            tokens_ok(nodes, bytes),
            i <= n,
            prev == prev_start(nodes, i as int),
            tokens@ == tokens_spec(nodes, bytes, i as int),
        decreases n - i,
    {
        let (node, span) = (&ast.0[i].0, &ast.0[i].1);
        proof {
            assert(nodes[i as int] == (node@, *span));
            let st = nodes[i as int].1.start;
            assert(st <= bytes.len());
            assert(line_u32(bytes, prev_start(nodes, i as int)) <= line_u32(bytes, st as int));
            assert(prev_start(nodes, i as int) <= bytes.len()) by {
                if i > 0 {
                    let p = nodes[i - 1].1.start;
                    assert(p <= bytes.len());
                }
            }
        }
        let position = index_to_position(source, span.start);
        let prev_position = index_to_position(source, prev);
        let line = #[verifier::truncate] (position.0 as u32);
        let prev_line = #[verifier::truncate] (prev_position.0 as u32);
        let delta_line: u32 = (line - prev_line) + 1;
        if let AstNode::Comment(_) = node {
            let lengths = line_lengths_exec(b, span.start, span.end);
            let ghost before = tokens@;
            let m = lengths.len();
            let mut k: usize = 0;
            while k < m
                invariant
                    m == lengths@.len(),
                    k <= m,
                    tokens@ == before + comment_tokens(
                        line_lengths(bytes.subrange(span.start as int, span.end as int)),
                        delta_line,
                    ).take(k as int),
                    lengths@ == line_lengths(bytes.subrange(span.start as int, span.end as int)).map_values(|l: int| l as u32),
                decreases m - k,
            {
                tokens.push(SemanticToken {
                    delta_line,
                    delta_start: 0,
                    length: lengths[k],
                    token_type: 0,
                    token_modifiers_bitset: 0,
                });
                assert(tokens@ =~= before + comment_tokens(
                    line_lengths(bytes.subrange(span.start as int, span.end as int)),
                    delta_line,
                ).take(k + 1));
                k += 1;
            }
            assert(comment_tokens(line_lengths(bytes.subrange(span.start as int, span.end as int)), delta_line).take(
                m as int) =~= comment_tokens(line_lengths(bytes.subrange(span.start as int, span.end as int)), delta_line));
        }
        prev = span.start;
        i += 1;
    }
    tokens
}

proof fn lemma_nl_count_mono(b: Seq<u8>, i: int, j: int)
    requires
        0 <= i <= j,
    ensures
        nl_count(b, i) <= nl_count(b, j),
    decreases j - i,
{
    if i < j {
        lemma_nl_count_mono(b, i, j - 1);
    }
}

/// The syntax tree of a request file can always be given tokens (see
/// [tokens_ok]), as long as the line count fits in `u32` and the markdown
/// code blocks lie in the text on character boundaries.
pub proof fn lemma_ast_tokens_ok(input: Seq<char>)
    requires
        blocks_well_placed(input, markdown_blocks(input)),
        nl_count(bytes_of(input), bytes_of(input).len() as int) < u32::MAX,
    ensures
        tokens_ok(ast_spec(input), bytes_of(input)),
{
    let nodes = ast_spec(input);
    let bytes = bytes_of(input);
    let top = nl_count(bytes, bytes.len() as int);
    lemma_ast_nodes_placed(input);
    lemma_ast_nodes_ordered(input);
    assert forall|i: int| 0 <= i < nodes.len() implies {
        &&& #[trigger] nodes[i].1.start <= bytes.len()
        &&& line_u32(bytes, prev_start(nodes, i)) <= line_u32(bytes, nodes[i].1.start as int)
        &&& line_u32(bytes, nodes[i].1.start as int) - line_u32(bytes, prev_start(nodes, i)) + 1 <= u32::MAX
        &&& nodes[i].0 is Comment ==> (nodes[i].1.start <= nodes[i].1.end <= bytes.len() && is_char_boundary(
            bytes,
            nodes[i].1.start as int,
        ) && is_char_boundary(bytes, nodes[i].1.end as int))
    } by {
        let st = nodes[i].1.start as int;
        let p = prev_start(nodes, i);
        assert(span_well_placed(bytes, nodes[i].1));
        if i > 0 {
            assert(span_well_placed(bytes, nodes[i - 1].1));
            assert(nodes[i - 1].1.start <= nodes[i].1.start);
        }
        assert(0 <= p <= st);
        lemma_nl_count_mono(bytes, p, st);
        lemma_nl_count_mono(bytes, st, bytes.len() as int);
        assert(nl_count(bytes, st) <= top);
        assert(line_u32(bytes, st) == nl_count(bytes, st));
        assert(line_u32(bytes, p) == nl_count(bytes, p));
    }
}

} // verus!
