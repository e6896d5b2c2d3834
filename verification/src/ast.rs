use crate::extract_codeblocks::{
    blocks_well_placed, codeblocks_from, codeblocks_spec, lemma_codeblocks_well_placed,
    markdown_blocks, markdown_top_level_blocks, span_well_placed, MdBlock, MdBlockView,
    SpannedCodeBlock,
};
use crate::span::{
    copy_span, insert_by_start, lemma_sort_map, lemma_sort_preserves, map_spanned, sort_by_start,
    sort_spanned_by_start, Span, Spanned,
};
use crate::text::bytes_of;
use crate::text::str_slice;
use vstd::prelude::*;
use vstd::string::*;
use vstd::utf8::*;
use vstd::wrapping::usize_specs::{wrapping_add, wrapping_sub};
use crate::errors::ReqlangError;

verus! {

/// A node of a request file's syntax tree.
#[derive(Debug, PartialEq)]
pub enum AstNode {
    /// Any text that isn't a [AstNode::RequestBlock], [AstNode::ResponseBlock], or [AstNode::ConfigBlock].
    Comment(String),
    /// A code block delimited configuration
    ConfigBlock(Spanned<String>),
    /// A code block delimited request
    RequestBlock(Spanned<String>),
    /// A code block delimited response
    ResponseBlock(Spanned<String>),
}

/// What an [AstNode] holds, as plain values.
pub ghost enum AstNodeView {
    Comment(Seq<char>),
    ConfigBlock(Seq<char>, Span),
    RequestBlock(Seq<char>, Span),
    ResponseBlock(Seq<char>, Span),
}

impl View for AstNode {
    type V = AstNodeView;

    open spec fn view(&self) -> AstNodeView {
        match self {
            AstNode::Comment(c) => AstNodeView::Comment(c@),
            AstNode::ConfigBlock(b) => AstNodeView::ConfigBlock(b.0@, b.1),
            AstNode::RequestBlock(b) => AstNodeView::RequestBlock(b.0@, b.1),
            AstNode::ResponseBlock(b) => AstNodeView::ResponseBlock(b.0@, b.1),
        }
    }
}

/// Abstract syntax tree for a request file
#[derive(Debug, PartialEq)]
pub struct Ast(pub Vec<Spanned<AstNode>>);

impl View for Ast {
    type V = Seq<(AstNodeView, Span)>;

    open spec fn view(&self) -> Seq<(AstNodeView, Span)> {
        map_spanned(self.0@, |n: AstNode| n@)
    }
}

/// The blocks of one kind, as nodes: `kind` 0 is a request, 1 a config, 2 a response.
pub open spec fn block_nodes(blocks: Seq<((Seq<char>, Span), Span)>, kind: int) -> Seq<(AstNodeView, Span)> {
    blocks.map_values(|b: ((Seq<char>, Span), Span)|
        (if kind == 0 {
            AstNodeView::RequestBlock(b.0.0, b.0.1)
        } else if kind == 1 {
            AstNodeView::ConfigBlock(b.0.0, b.0.1)
        } else {
            AstNodeView::ResponseBlock(b.0.0, b.0.1)
        }, b.1))
}

/// The request, config and response blocks among a document's top-level
/// markdown blocks, ordered by where they start.
pub open spec fn sorted_blocks_of(blocks: Seq<MdBlockView>) -> Seq<(AstNodeView, Span)> {
    sort_by_start(
        block_nodes(codeblocks_spec(blocks, "%request"@), 0)
            + block_nodes(codeblocks_spec(blocks, "%config"@), 1)
            + block_nodes(codeblocks_spec(blocks, "%response"@), 2),
    )
}

/// The request, config and response blocks of a markdown document, ordered by
/// where they start.
pub open spec fn sorted_blocks(input: Seq<char>) -> Seq<(AstNodeView, Span)> {
    sorted_blocks_of(markdown_blocks(input))
}

/// The later of a position and the end of a span.
pub open spec fn past(index: usize, span: Span) -> usize {
    if span.end > index {
        span.end
    } else {
        index
    }
}

/// Comments for the text before each node that starts after the current
/// position; the position then moves past the node, so that no comment
/// covers text of a node.
pub open spec fn gap_comments<T>(bytes: Seq<u8>, nodes: Seq<(T, Span)>, index: usize) -> Seq<(AstNodeView, Span)>
    decreases nodes.len(),
{
    if nodes.len() == 0 {
        Seq::empty()
    } else {
        let span = nodes[0].1;
        if index < span.start {
            seq![(AstNodeView::Comment(decode_utf8(bytes.subrange(index as int, span.start as int))), index..span.start)]
                + gap_comments(bytes, nodes.drop_first(), past(index, span))
        } else {
            gap_comments(bytes, nodes.drop_first(), past(index, span))
        }
    }
}

/// The syntax tree of a request file: its blocks and the comments between
/// them, ordered by where they start.
pub open spec fn ast_spec(input: Seq<char>) -> Seq<(AstNodeView, Span)> {
    ast_of_blocks(input, markdown_blocks(input))
}

/// The syntax tree of a text whose top-level markdown blocks are `blocks`.
pub open spec fn ast_of_blocks(input: Seq<char>, blocks: Seq<MdBlockView>) -> Seq<(AstNodeView, Span)> {
    let sorted = sorted_blocks_of(blocks);
    sort_by_start(sorted + gap_comments(bytes_of(input), sorted, 0))
}

/// The first config block of a tree.
pub open spec fn first_config(nodes: Seq<(AstNodeView, Span)>) -> Option<(Seq<char>, Span)>
    decreases nodes.len(),
{
    if nodes.len() == 0 {
        None
    } else {
        match nodes[0].0 {
            AstNodeView::ConfigBlock(t, s) => Some((t, s)),
            _ => first_config(nodes.drop_first()),
        }
    }
}

/// The first request block of a tree.
pub open spec fn first_request(nodes: Seq<(AstNodeView, Span)>) -> Option<(Seq<char>, Span)>
    decreases nodes.len(),
{
    if nodes.len() == 0 {
        None
    } else {
        match nodes[0].0 {
            AstNodeView::RequestBlock(t, s) => Some((t, s)),
            _ => first_request(nodes.drop_first()),
        }
    }
}

/// The first response block of a tree.
pub open spec fn first_response(nodes: Seq<(AstNodeView, Span)>) -> Option<(Seq<char>, Span)>
    decreases nodes.len(),
{
    if nodes.len() == 0 {
        None
    } else {
        match nodes[0].0 {
            AstNodeView::ResponseBlock(t, s) => Some((t, s)),
            _ => first_response(nodes.drop_first()),
        }
    }
}

/// The comments of a tree, with their spans.
pub open spec fn comments_of(nodes: Seq<(AstNodeView, Span)>) -> Seq<(Seq<char>, Span)>
    decreases nodes.len(),
{
    if nodes.len() == 0 {
        Seq::empty()
    } else {
        let rest = comments_of(nodes.drop_last());
        match nodes.last().0 {
            AstNodeView::Comment(t) => rest.push((t, nodes.last().1)),
            _ => rest,
        }
    }
}

/// View of an optional borrowed spanned string.
pub open spec fn opt_spanned_view(o: Option<&Spanned<String>>) -> Option<(Seq<char>, Span)> {
    match o {
        Some(b) => Some((b.0@, b.1)),
        None => None,
    }
}

fn push_blocks(nodes: &mut Vec<Spanned<AstNode>>, blocks: Vec<SpannedCodeBlock>, kind: u8)
    requires
        kind <= 2,
    ensures
        map_spanned(final(nodes)@, |n: AstNode| n@) == map_spanned(old(nodes)@, |n: AstNode| n@)
            + block_nodes(blocks@.map_values(|b: SpannedCodeBlock| ((b.0.0@, b.0.1), b.1)), kind as int),
{
    let ghost start = nodes@;
    let ghost orig = blocks@;
    let ghost bv = orig.map_values(|b: SpannedCodeBlock| ((b.0.0@, b.0.1), b.1));
    let mut blocks = blocks;
    let n = blocks.len();
    let mut i: usize = 0;
    while i < n
        invariant
            n == orig.len(),
            i <= n,
            kind <= 2,
            bv == orig.map_values(|b: SpannedCodeBlock| ((b.0.0@, b.0.1), b.1)),
            blocks@ == orig.skip(i as int),
            map_spanned(nodes@, |n: AstNode| n@) == map_spanned(start, |n: AstNode| n@)
                + block_nodes(bv.take(i as int), kind as int),
        decreases n - i,
    {
        let b = blocks.remove(0);
        proof {
            assert(b == orig[i as int]);
            assert(blocks@ =~= orig.skip(i + 1));
        }
        let ((text, text_span), span) = b;
        let node = if kind == 0 {
            AstNode::RequestBlock((text, text_span))
        } else if kind == 1 {
            AstNode::ConfigBlock((text, text_span))
        } else {
            AstNode::ResponseBlock((text, text_span))
        };
        let ghost before = nodes@;
        nodes.push((node, span));
        proof {
            assert(bv.take(i + 1) =~= bv.take(i as int).push(bv[i as int]));
            assert(block_nodes(bv.take(i + 1), kind as int) =~= block_nodes(bv.take(i as int), kind as int).push(
                block_nodes(bv, kind as int)[i as int]));
            assert(map_spanned(nodes@, |n: AstNode| n@) =~= map_spanned(before, |n: AstNode| n@).push((node@, span)));
        }
        i += 1;
    }
    proof {
        assert(bv.take(n as int) =~= bv);
    }
}

impl Ast {
    /// Create an [AST](Ast) from a collection of [nodes](AstNode)
    pub fn new(nodes: Vec<Spanned<AstNode>>) -> (res: Self)
        ensures
            res.0@ == nodes@,
    {
        Self(nodes)
    }

    /// Create an [AST](Ast) by parsing a string in to a collection of [nodes](AstNode)
    pub fn from(input: &str) -> (res: Self)
        ensures
            res@ == ast_spec(input@),
    {
        let md_nodes = markdown_top_level_blocks(input);
        Self::from_blocks(input, &md_nodes)
    }

    /// The syntax tree of a text, given its top-level markdown blocks: its
    /// request, config and response blocks and the comments between them,
    /// ordered by where they start.
    pub fn from_blocks(input: &str, md_nodes: &Vec<MdBlock>) -> (res: Self)
        requires
            blocks_well_placed(input@, md_nodes@.map_values(|b: MdBlock| b@)),
        ensures
            res@ == ast_of_blocks(input@, md_nodes@.map_values(|b: MdBlock| b@)),
    {
        let ghost bytes = bytes_of(input@);
        let ghost mdb = md_nodes@.map_values(|b: MdBlock| b@);
        let mut nodes: Vec<Spanned<AstNode>> = Vec::new();
        let requests = codeblocks_from(md_nodes, "%request");
        let configs = codeblocks_from(md_nodes, "%config");
        let responses = codeblocks_from(md_nodes, "%response");
        proof {
            assert(map_spanned(nodes@, |n: AstNode| n@) =~= Seq::<(AstNodeView, Span)>::empty());
        }
        push_blocks(&mut nodes, requests, 0);
        push_blocks(&mut nodes, configs, 1);
        push_blocks(&mut nodes, responses, 2);
        let ghost unsorted = nodes@;
        let nodes = sort_spanned_by_start(nodes);
        proof {
            let r = codeblocks_spec(mdb, "%request"@);
            let c = codeblocks_spec(mdb, "%config"@);
            let s = codeblocks_spec(mdb, "%response"@);
            assert(map_spanned(unsorted, |n: AstNode| n@) =~= block_nodes(r, 0) + block_nodes(c, 1) + block_nodes(s, 2));
            lemma_sort_map(unsorted, |n: AstNode| n@);
            lemma_codeblocks_well_placed(input@, mdb, "%request"@);
            lemma_codeblocks_well_placed(input@, mdb, "%config"@);
            lemma_codeblocks_well_placed(input@, mdb, "%response"@);
            assert forall|i: int| 0 <= i < unsorted.len() implies span_well_placed(bytes, #[trigger] unsorted[i].1) by {
                let all = block_nodes(r, 0) + block_nodes(c, 1) + block_nodes(s, 2);
                assert(map_spanned(unsorted, |n: AstNode| n@)[i].1 == unsorted[i].1);
                if i < r.len() {
                    assert(all[i].1 == r[i].1);
                } else if i < r.len() + c.len() {
                    assert(all[i].1 == c[i - r.len()].1);
                } else {
                    assert(all[i].1 == s[i - r.len() - c.len()].1);
                }
            }
            lemma_sort_preserves(unsorted, |x: (AstNode, Span)| span_well_placed(bytes, x.1));
        }
        let ghost sorted = map_spanned(nodes@, |n: AstNode| n@);
        // Comments for the text between blocks
        let mut comments: Vec<Spanned<AstNode>> = Vec::new();
        let mut index: usize = 0;
        let n = nodes.len();
        let mut i: usize = 0;
        proof {
            assert(sorted.skip(0) =~= sorted);
            assert(map_spanned(comments@, |n: AstNode| n@) =~= Seq::<(AstNodeView, Span)>::empty());
            assert(Seq::<(AstNodeView, Span)>::empty() + gap_comments(bytes, sorted, 0) =~= gap_comments(bytes, sorted, 0));
        }
        while i < n
            invariant
                n == nodes@.len(),
                i <= n,
                bytes == bytes_of(input@),
                sorted == map_spanned(nodes@, |n: AstNode| n@),
                forall|j: int| 0 <= j < nodes@.len() ==> span_well_placed(bytes, #[trigger] nodes@[j].1),
                index == 0 || exists|j: int| 0 <= j < i && index == #[trigger] nodes@[j].1.end,
                map_spanned(comments@, |n: AstNode| n@) + gap_comments(bytes, sorted.skip(i as int), index)
                    == gap_comments(bytes, sorted, 0),
            decreases n - i,
        {
            let start = nodes[i].1.start;
            let end = nodes[i].1.end;
            proof {
                let rest = sorted.skip(i as int);
                assert(rest[0].1 == nodes@[i as int].1);
                assert(rest.drop_first() =~= sorted.skip(i + 1));
                assert(span_well_placed(bytes, nodes@[i as int].1));
                if index != 0 {
                    let j = choose|j: int| 0 <= j < i && index == #[trigger] nodes@[j].1.end;
                    assert(span_well_placed(bytes, nodes@[j].1));
                }
            }
            if index < start {
                proof {
                    encode_utf8_valid_utf8(input@);
                }
                let text = str_slice(input, index, start).to_owned();
                proof {
                    encode_utf8_decode_utf8(text@);
                }
                let ghost before = comments@;
                comments.push((AstNode::Comment(text), index..start));
                proof {
                    assert(map_spanned(comments@, |n: AstNode| n@) =~= map_spanned(before, |n: AstNode| n@).push(
                        (AstNodeView::Comment(decode_utf8(bytes.subrange(index as int, start as int))), index..start)));
                }
            }
            if end > index {
                index = end;
            }
            i += 1;
        }
        proof {
            assert(sorted.skip(n as int) =~= Seq::<(AstNodeView, Span)>::empty());
            assert(map_spanned(comments@, |n: AstNode| n@) + Seq::<(AstNodeView, Span)>::empty()
                =~= map_spanned(comments@, |n: AstNode| n@));
        }
        let mut nodes = nodes;
        let ghost before_append = nodes@;
        let mut comments = comments;
        nodes.append(&mut comments);
        let ghost all = nodes@;
        let nodes = sort_spanned_by_start(nodes);
        proof {
            assert(map_spanned(all, |n: AstNode| n@) =~= sorted + gap_comments(bytes, sorted, 0));
            lemma_sort_map(all, |n: AstNode| n@);
        }
        Self::new(nodes)
    }

    /// The [nodes](AstNode) with their spans.
    pub fn iter(&self) -> (res: std::slice::Iter<'_, Spanned<AstNode>>)
        ensures
            vstd::std_specs::slice::into_iter_elts(res) == self.0@,
    {
        proof {
            broadcast use vstd::std_specs::slice::axiom_spec_slice_iter;
        }
        let it = self.0.as_slice().iter();
        proof {
            assert(vstd::std_specs::iter::IteratorSpec::remaining(&it).unref() =~= self.0@);
        }
        it
    }

    /// Get the [AstNode::ConfigBlock], if present
    pub fn config(&self) -> (res: Option<&Spanned<String>>)
        ensures
            opt_spanned_view(res) == first_config(self@),
    {
        let n = self.0.len();
        let mut i: usize = 0;
        assert(self@.skip(0) =~= self@);
        while i < n
            invariant
                n == self.0@.len(),
                i <= n,
                first_config(self@.skip(i as int)) == first_config(self@),
            decreases n - i,
        {
            proof {
                assert(self@.skip(i as int)[0] == (self.0@[i as int].0@, self.0@[i as int].1));
                assert(self@.skip(i as int).drop_first() =~= self@.skip(i + 1));
            }
            if let AstNode::ConfigBlock(config) = &self.0[i].0 {
                return Some(config);
            }
            i += 1;
        }
        proof {
            assert(self@.skip(n as int) =~= Seq::<(AstNodeView, Span)>::empty());
        }
        None
    }

    /// Get the [AstNode::RequestBlock]
    pub fn request(&self) -> (res: Option<&Spanned<String>>)
        ensures
            opt_spanned_view(res) == first_request(self@),
    {
        let n = self.0.len();
        let mut i: usize = 0;
        assert(self@.skip(0) =~= self@);
        while i < n
            invariant
                n == self.0@.len(),
                i <= n,
                first_request(self@.skip(i as int)) == first_request(self@),
            decreases n - i,
        {
            proof {
                assert(self@.skip(i as int)[0] == (self.0@[i as int].0@, self.0@[i as int].1));
                assert(self@.skip(i as int).drop_first() =~= self@.skip(i + 1));
            }
            if let AstNode::RequestBlock(request) = &self.0[i].0 {
                return Some(request);
            }
            i += 1;
        }
        proof {
            assert(self@.skip(n as int) =~= Seq::<(AstNodeView, Span)>::empty());
        }
        None
    }

    /// Get the [AstNode::ResponseBlock], if present
    pub fn response(&self) -> (res: Option<&Spanned<String>>)
        ensures
            opt_spanned_view(res) == first_response(self@),
    {
        let n = self.0.len();
        let mut i: usize = 0;
        assert(self@.skip(0) =~= self@);
        while i < n
            invariant
                n == self.0@.len(),
                i <= n,
                first_response(self@.skip(i as int)) == first_response(self@),
            decreases n - i,
        {
            proof {
                assert(self@.skip(i as int)[0] == (self.0@[i as int].0@, self.0@[i as int].1));
                assert(self@.skip(i as int).drop_first() =~= self@.skip(i + 1));
            }
            if let AstNode::ResponseBlock(response) = &self.0[i].0 {
                return Some(response);
            }
            i += 1;
        }
        proof {
            assert(self@.skip(n as int) =~= Seq::<(AstNodeView, Span)>::empty());
        }
        None
    }

    /// Get all [AstNode::Comment]
    pub fn comments(&self) -> (res: Vec<Spanned<String>>)
        ensures
            res@.map_values(|c: Spanned<String>| (c.0@, c.1)) == comments_of(self@),
    {
        let mut comments: Vec<Spanned<String>> = Vec::new();
        let n = self.0.len();
        let mut i: usize = 0;
        while i < n
            invariant
                n == self.0@.len(),
                i <= n,
                comments@.map_values(|c: Spanned<String>| (c.0@, c.1)) == comments_of(self@.take(i as int)),
            decreases n - i,
        {
            proof {
                assert(self@.take(i + 1).drop_last() =~= self@.take(i as int));
                assert(self@.take(i + 1).last() == (self.0@[i as int].0@, self.0@[i as int].1));
            }
            if let AstNode::Comment(comment) = &self.0[i].0 {
                let ghost before = comments@;
                comments.push((comment.clone(), copy_span(&self.0[i].1)));
                proof {
                    assert(comments@.map_values(|c: Spanned<String>| (c.0@, c.1)) =~= before.map_values(
                        |c: Spanned<String>| (c.0@, c.1)).push((comment@, self.0@[i as int].1)));
                }
            }
            i += 1;
        }
        proof {
            assert(self@.take(n as int) =~= self@);
        }
        comments
    }
}

/// The nodes of a request file's syntax tree are ordered by where they
/// start.
pub proof fn lemma_ast_nodes_ordered(input: Seq<char>)
    ensures
        crate::span::starts_sorted(ast_spec(input)),
{
    let sorted = sorted_blocks(input);
    crate::span::lemma_sort_by_start_sorted(sorted + gap_comments(bytes_of(input), sorted, 0));
}

/// A comment node holds the file's text at its span.
pub open spec fn comment_is_text(bytes: Seq<u8>, x: (AstNodeView, Span)) -> bool {
    x.0 matches AstNodeView::Comment(t) ==> t == decode_utf8(bytes.subrange(x.1.start as int, x.1.end as int))
}

proof fn lemma_gap_comments_are_text<T>(bytes: Seq<u8>, nodes: Seq<(T, Span)>, index: usize)
    ensures
        forall|i: int| 0 <= i < gap_comments(bytes, nodes, index).len() ==> comment_is_text(
            bytes,
            #[trigger] gap_comments(bytes, nodes, index)[i],
        ),
    decreases nodes.len(),
{
    if nodes.len() > 0 {
        let span = nodes[0].1;
        if index < span.start {
            lemma_gap_comments_are_text(bytes, nodes.drop_first(), past(index, span));
            let g = gap_comments(bytes, nodes, index);
            let rest = gap_comments(bytes, nodes.drop_first(), past(index, span));
            let c = (AstNodeView::Comment(decode_utf8(bytes.subrange(index as int, span.start as int))), index..span.start);
            assert(g == seq![c] + rest);
            assert(comment_is_text(bytes, c));
            assert forall|i: int| 0 <= i < g.len() implies comment_is_text(bytes, #[trigger] g[i]) by {
                if i > 0 {
                    assert(g[i] == rest[i - 1]);
                } else {
                    assert(g[i] == c);
                }
            }
        } else {
            lemma_gap_comments_are_text(bytes, nodes.drop_first(), past(index, span));
            assert(gap_comments(bytes, nodes, index) == gap_comments(bytes, nodes.drop_first(), past(index, span)));
        }
    }
}

/// Text outside the request, config and response blocks is kept as comments:
/// every comment of a request file's syntax tree is the file's text at the
/// comment's span.
pub proof fn lemma_comments_are_file_text(input: Seq<char>)
    ensures
        forall|i: int| 0 <= i < ast_spec(input).len() ==> comment_is_text(bytes_of(input), #[trigger] ast_spec(input)[i]),
{
    let bytes = bytes_of(input);
    let blocks = markdown_blocks(input);
    let unsorted = block_nodes(codeblocks_spec(blocks, "%request"@), 0) + block_nodes(codeblocks_spec(blocks, "%config"@), 1)
        + block_nodes(codeblocks_spec(blocks, "%response"@), 2);
    let p = |x: (AstNodeView, Span)| comment_is_text(bytes, x);
    assert forall|i: int| 0 <= i < unsorted.len() implies #[trigger] p(unsorted[i]) by {
        assert(!(unsorted[i].0 is Comment));
    }
    lemma_sort_preserves(unsorted, p);
    let sorted = sorted_blocks(input);
    lemma_gap_comments_are_text(bytes, sorted, 0);
    let all = sorted + gap_comments(bytes, sorted, 0);
    assert forall|i: int| 0 <= i < all.len() implies #[trigger] p(all[i]) by {
        if i < sorted.len() {
            assert(p(sorted[i]));
        } else {
            assert(all[i] == gap_comments(bytes, sorted, 0)[i - sorted.len()]);
        }
    }
    lemma_sort_preserves(all, p);
}

/// Two spans that share no byte.
pub open spec fn spans_apart(a: Span, b: Span) -> bool {
    a.end <= b.start || b.end <= a.start
}

proof fn lemma_gap_comments_apart<T>(bytes: Seq<u8>, nodes: Seq<(T, Span)>, index: usize)
    requires
        crate::span::starts_sorted(nodes),
    ensures
        forall|i: int| 0 <= i < gap_comments(bytes, nodes, index).len() ==> {
            &&& (#[trigger] gap_comments(bytes, nodes, index)[i]).0 is Comment
            &&& gap_comments(bytes, nodes, index)[i].1.start >= index
        },
        forall|i: int, j: int| 0 <= i < gap_comments(bytes, nodes, index).len() && 0 <= j < nodes.len() ==> spans_apart(
            #[trigger] gap_comments(bytes, nodes, index)[i].1,
            #[trigger] nodes[j].1,
        ),
    decreases nodes.len(),
{
    if nodes.len() > 0 {
        let span = nodes[0].1;
        let tail = nodes.drop_first();
        assert(crate::span::starts_sorted(tail)) by {
            assert forall|i: int, j: int| 0 <= i < j < tail.len() implies tail[i].1.start <= tail[j].1.start by {
                assert(tail[i] == nodes[i + 1] && tail[j] == nodes[j + 1]);
            }
        }
        lemma_gap_comments_apart(bytes, tail, past(index, span));
        let g = gap_comments(bytes, nodes, index);
        let rest = gap_comments(bytes, tail, past(index, span));
        if index < span.start {
            let c = (AstNodeView::Comment(decode_utf8(bytes.subrange(index as int, span.start as int))), index..span.start);
            assert(g == seq![c] + rest);
            assert forall|i: int, j: int| 0 <= i < g.len() && 0 <= j < nodes.len() implies spans_apart(
                #[trigger] g[i].1,
                #[trigger] nodes[j].1,
            ) by {
                if i == 0 {
                    assert(g[i] == c);
                    if j > 0 {
                        assert(nodes[0].1.start <= nodes[j].1.start);
                    }
                } else {
                    assert(g[i] == rest[i - 1]);
                    if j > 0 {
                        assert(nodes[j] == tail[j - 1]);
                    }
                }
            }
            assert forall|i: int| 0 <= i < g.len() implies (#[trigger] g[i]).0 is Comment && g[i].1.start >= index by {
                if i > 0 {
                    assert(g[i] == rest[i - 1]);
                }
            }
        } else {
            assert(g == rest);
            assert forall|i: int, j: int| 0 <= i < g.len() && 0 <= j < nodes.len() implies spans_apart(
                #[trigger] g[i].1,
                #[trigger] nodes[j].1,
            ) by {
                if j > 0 {
                    assert(nodes[j] == tail[j - 1]);
                }
            }
        }
    }
}

/// A comment is text that is not a block: no comment of a request file's
/// syntax tree shares a byte with a block of it.
pub proof fn lemma_comments_apart_from_blocks(input: Seq<char>)
    ensures
        forall|i: int, j: int|
            0 <= i < ast_spec(input).len() && 0 <= j < ast_spec(input).len() && (#[trigger] ast_spec(input)[i]).0 is Comment
                && !((#[trigger] ast_spec(input)[j]).0 is Comment) ==> spans_apart(ast_spec(input)[i].1, ast_spec(input)[j].1),
{
    let bytes = bytes_of(input);
    let blocks = markdown_blocks(input);
    let unsorted = block_nodes(codeblocks_spec(blocks, "%request"@), 0) + block_nodes(codeblocks_spec(blocks, "%config"@), 1)
        + block_nodes(codeblocks_spec(blocks, "%response"@), 2);
    let not_comment = |x: (AstNodeView, Span)| !(x.0 is Comment);
    assert forall|i: int| 0 <= i < unsorted.len() implies #[trigger] not_comment(unsorted[i]) by {
        assert(!(unsorted[i].0 is Comment));
    }
    lemma_sort_preserves(unsorted, not_comment);
    let sorted = sorted_blocks(input);
    crate::span::lemma_sort_by_start_sorted(unsorted);
    let gaps = gap_comments(bytes, sorted, 0);
    lemma_gap_comments_apart(bytes, sorted, 0);
    let all = sorted + gaps;
    let from_all = |x: (AstNodeView, Span)| all.contains(x);
    assert forall|i: int| 0 <= i < all.len() implies #[trigger] from_all(all[i]) by {
        assert(all.contains(all[i]));
    }
    lemma_sort_preserves(all, from_all);
    let t = ast_spec(input);
    assert(t == sort_by_start(all));
    assert forall|i: int, j: int|
        0 <= i < t.len() && 0 <= j < t.len() && (#[trigger] t[i]).0 is Comment && !((#[trigger] t[j]).0 is Comment) implies spans_apart(
        t[i].1,
        t[j].1,
    ) by {
        assert(from_all(t[i]) && from_all(t[j]));
        let a = choose|a: int| 0 <= a < all.len() && all[a] == t[i];
        let b = choose|b: int| 0 <= b < all.len() && all[b] == t[j];
        if a < sorted.len() {
            assert(all[a] == sorted[a]);
            assert(not_comment(sorted[a]));
        }
        if b >= sorted.len() {
            assert(all[b] == gaps[b - sorted.len()]);
        }
        assert(all[a] == gaps[a - sorted.len()]);
        assert(all[b] == sorted[b]);
        assert(spans_apart(gaps[a - sorted.len()].1, sorted[b].1));
    }
}

/// The kind of a node: 0 a request block, 1 a config block, 2 a response
/// block, 3 a comment (the numbering of [block_nodes]).
pub open spec fn node_kind(n: AstNodeView) -> int {
    match n {
        AstNodeView::RequestBlock(..) => 0,
        AstNodeView::ConfigBlock(..) => 1,
        AstNodeView::ResponseBlock(..) => 2,
        AstNodeView::Comment(..) => 3,
    }
}

/// The number of nodes of a kind.
pub open spec fn count_kind(s: Seq<(AstNodeView, Span)>, k: int) -> nat
    decreases s.len(),
{
    if s.len() == 0 {
        0
    } else {
        count_kind(s.drop_last(), k) + if node_kind(s.last().0) == k {
            1nat
        } else {
            0nat
        }
    }
}

proof fn lemma_count_push(s: Seq<(AstNodeView, Span)>, x: (AstNodeView, Span), k: int)
    ensures
        count_kind(s.push(x), k) == count_kind(s, k) + if node_kind(x.0) == k {
            1nat
        } else {
            0nat
        },
{
    assert(s.push(x).drop_last() =~= s);
}

proof fn lemma_count_insert(s: Seq<(AstNodeView, Span)>, x: (AstNodeView, Span), k: int)
    ensures
        count_kind(insert_by_start(s, x), k) == count_kind(s, k) + if node_kind(x.0) == k {
            1nat
        } else {
            0nat
        },
    decreases s.len(),
{
    if s.len() == 0 {
        lemma_count_push(s, x, k);
        assert(seq![x] =~= s.push(x));
    } else if x.1.start < s.last().1.start {
        let t = s.drop_last();
        lemma_count_insert(t, x, k);
        lemma_count_push(insert_by_start(t, x), s.last(), k);
        lemma_count_push(t, s.last(), k);
        assert(t.push(s.last()) =~= s);
    } else {
        lemma_count_push(s, x, k);
    }
}

proof fn lemma_count_sort(s: Seq<(AstNodeView, Span)>, k: int)
    ensures
        count_kind(sort_by_start(s), k) == count_kind(s, k),
    decreases s.len(),
{
    if s.len() > 0 {
        lemma_count_sort(s.drop_last(), k);
        lemma_count_insert(sort_by_start(s.drop_last()), s.last(), k);
    }
}

proof fn lemma_count_concat(a: Seq<(AstNodeView, Span)>, b: Seq<(AstNodeView, Span)>, k: int)
    ensures
        count_kind(a + b, k) == count_kind(a, k) + count_kind(b, k),
    decreases b.len(),
{
    if b.len() == 0 {
        assert(a + b =~= a);
    } else {
        lemma_count_concat(a, b.drop_last(), k);
        assert((a + b).drop_last() =~= a + b.drop_last());
        assert((a + b).last() == b.last());
    }
}

proof fn lemma_count_block_nodes(blocks: Seq<((Seq<char>, Span), Span)>, kind: int, k: int)
    requires
        0 <= kind <= 2,
    ensures
        count_kind(block_nodes(blocks, kind), k) == if kind == k {
            blocks.len()
        } else {
            0
        },
    decreases blocks.len(),
{
    if blocks.len() > 0 {
        lemma_count_block_nodes(blocks.drop_last(), kind, k);
        let n = block_nodes(blocks, kind);
        assert(n.drop_last() =~= block_nodes(blocks.drop_last(), kind));
        assert(node_kind(n.last().0) == kind);
    }
}

proof fn lemma_count_none(s: Seq<(AstNodeView, Span)>, k: int)
    requires
        forall|i: int| 0 <= i < s.len() ==> node_kind((#[trigger] s[i]).0) != k,
    ensures
        count_kind(s, k) == 0,
    decreases s.len(),
{
    if s.len() > 0 {
        let t = s.drop_last();
        assert forall|i: int| 0 <= i < t.len() implies node_kind((#[trigger] t[i]).0) != k by {
            assert(t[i] == s[i]);
        }
        lemma_count_none(t, k);
        assert(s.last() == s[s.len() - 1]);
    }
}

/// A request file's syntax tree has a node for each code block of each
/// kind: as many request, config and response nodes as its markdown
/// document has code blocks in the languages `%request`, `%config` and
/// `%response`.
pub proof fn lemma_block_node_counts(input: Seq<char>)
    ensures
        count_kind(ast_spec(input), 0) == codeblocks_spec(markdown_blocks(input), "%request"@).len(),
        count_kind(ast_spec(input), 1) == codeblocks_spec(markdown_blocks(input), "%config"@).len(),
        count_kind(ast_spec(input), 2) == codeblocks_spec(markdown_blocks(input), "%response"@).len(),
{
    let blocks = markdown_blocks(input);
    let r = block_nodes(codeblocks_spec(blocks, "%request"@), 0);
    let c = block_nodes(codeblocks_spec(blocks, "%config"@), 1);
    let p = block_nodes(codeblocks_spec(blocks, "%response"@), 2);
    let unsorted = r + c + p;
    let sorted = sorted_blocks(input);
    crate::span::lemma_sort_by_start_sorted(unsorted);
    let gaps = gap_comments(bytes_of(input), sorted, 0);
    lemma_gap_comments_apart(bytes_of(input), sorted, 0);
    assert forall|k: int| 0 <= k <= 2 implies count_kind(ast_spec(input), k) == count_kind(r, k) + count_kind(c, k)
        + count_kind(p, k) by {
        lemma_count_sort(sorted + gaps, k);
        lemma_count_concat(sorted, gaps, k);
        lemma_count_sort(unsorted, k);
        lemma_count_concat(r + c, p, k);
        lemma_count_concat(r, c, k);
        assert forall|i: int| 0 <= i < gaps.len() implies node_kind((#[trigger] gaps[i]).0) != k by {
            assert(gaps[i].0 is Comment);
        }
        lemma_count_none(gaps, k);
    }
    assert forall|k: int| 0 <= k <= 2 implies count_kind(r, k) == (if k == 0 { codeblocks_spec(blocks, "%request"@).len() } else { 0 })
        && count_kind(c, k) == (if k == 1 { codeblocks_spec(blocks, "%config"@).len() } else { 0 })
        && count_kind(p, k) == (if k == 2 { codeblocks_spec(blocks, "%response"@).len() } else { 0 }) by {
        lemma_count_block_nodes(codeblocks_spec(blocks, "%request"@), 0, k);
        lemma_count_block_nodes(codeblocks_spec(blocks, "%config"@), 1, k);
        lemma_count_block_nodes(codeblocks_spec(blocks, "%response"@), 2, k);
    }
    assert(count_kind(ast_spec(input), 0) == count_kind(r, 0) + count_kind(c, 0) + count_kind(p, 0));
    assert(count_kind(ast_spec(input), 1) == count_kind(r, 1) + count_kind(c, 1) + count_kind(p, 1));
    assert(count_kind(ast_spec(input), 2) == count_kind(r, 2) + count_kind(c, 2) + count_kind(p, 2));
}

proof fn lemma_gap_comments_placed<T>(bytes: Seq<u8>, nodes: Seq<(T, Span)>, index: usize)
    requires
        forall|j: int| 0 <= j < nodes.len() ==> span_well_placed(bytes, #[trigger] nodes[j].1),
        index <= bytes.len(),
        is_char_boundary(bytes, index as int),
    ensures
        forall|i: int| 0 <= i < gap_comments(bytes, nodes, index).len() ==> span_well_placed(
            bytes,
            #[trigger] gap_comments(bytes, nodes, index)[i].1,
        ),
    decreases nodes.len(),
{
    if nodes.len() > 0 {
        let span = nodes[0].1;
        let tail = nodes.drop_first();
        assert(span_well_placed(bytes, nodes[0].1));
        assert forall|j: int| 0 <= j < tail.len() implies span_well_placed(bytes, #[trigger] tail[j].1) by {
            assert(tail[j] == nodes[j + 1]);
        }
        lemma_gap_comments_placed(bytes, tail, past(index, span));
        let g = gap_comments(bytes, nodes, index);
        let rest = gap_comments(bytes, tail, past(index, span));
        if index < span.start {
            let c = (AstNodeView::Comment(decode_utf8(bytes.subrange(index as int, span.start as int))), index..span.start);
            assert(g == seq![c] + rest);
            assert forall|i: int| 0 <= i < g.len() implies span_well_placed(bytes, #[trigger] g[i].1) by {
                if i > 0 {
                    assert(g[i] == rest[i - 1]);
                }
            }
        } else {
            assert(g == rest);
        }
    }
}

/// Every node of a request file's syntax tree lies in the file's text, both
/// ends on character boundaries, given that the markdown code blocks do.
pub proof fn lemma_ast_nodes_placed(input: Seq<char>)
    requires
        blocks_well_placed(input, markdown_blocks(input)),
    ensures
        forall|i: int| 0 <= i < ast_spec(input).len() ==> span_well_placed(bytes_of(input), #[trigger] ast_spec(input)[i].1),
{
    let bytes = bytes_of(input);
    let blocks = markdown_blocks(input);
    let r = codeblocks_spec(blocks, "%request"@);
    let c = codeblocks_spec(blocks, "%config"@);
    let p = codeblocks_spec(blocks, "%response"@);
    lemma_codeblocks_well_placed(input, blocks, "%request"@);
    lemma_codeblocks_well_placed(input, blocks, "%config"@);
    lemma_codeblocks_well_placed(input, blocks, "%response"@);
    let unsorted = block_nodes(r, 0) + block_nodes(c, 1) + block_nodes(p, 2);
    let placed = |x: (AstNodeView, Span)| span_well_placed(bytes, x.1);
    assert forall|i: int| 0 <= i < unsorted.len() implies #[trigger] placed(unsorted[i]) by {
        if i < r.len() {
            assert(unsorted[i].1 == r[i].1);
        } else if i < r.len() + c.len() {
            assert(unsorted[i].1 == c[i - r.len()].1);
        } else {
            assert(unsorted[i].1 == p[i - r.len() - c.len()].1);
        }
    }
    lemma_sort_preserves(unsorted, placed);
    let sorted = sorted_blocks(input);
    assert forall|j: int| 0 <= j < sorted.len() implies span_well_placed(bytes, #[trigger] sorted[j].1) by {
        assert(placed(sorted[j]));
    }
    assert(is_char_boundary(bytes, 0)) by {
        broadcast use vstd::utf8::group_utf8_lib;
    }
    lemma_gap_comments_placed(bytes, sorted, 0);
    let all = sorted + gap_comments(bytes, sorted, 0);
    assert forall|i: int| 0 <= i < all.len() implies #[trigger] placed(all[i]) by {
        if i < sorted.len() {
            assert(all[i] == sorted[i]);
        } else {
            assert(all[i] == gap_comments(bytes, sorted, 0)[i - sorted.len()]);
        }
    }
    lemma_sort_preserves(all, placed);
    assert forall|i: int| 0 <= i < ast_spec(input).len() implies span_well_placed(bytes, #[trigger] ast_spec(input)[i].1) by {
        assert(placed(ast_spec(input)[i]));
    }
}

/// A syntax tree of a request file (the same as an [Ast]).
pub type AST = Ast;

/// A node of a syntax tree (the same as an [AstNode]).
pub type Node = AstNode;

/// Text that is not part of a block.
#[derive(Debug, PartialEq)]
pub struct Comment(pub String);

/// The span of a block's text, placed by the block's span: after the opening
/// fence, its language and a line break, and before the closing fence (as
/// offsets that wrap around at the limit of `usize`).
pub open spec fn text_span_in(span: Span, lang_len: usize) -> Span {
    wrapping_add(span.start, wrapping_add(lang_len, 4))..wrapping_sub(span.end, 3)
}

/// A block node with its text span placed as in [text_span_in].
pub open spec fn node_with_text_span(n: AstNodeView, outer: Span) -> AstNodeView {
    match n {
        AstNodeView::ConfigBlock(t, _) => AstNodeView::ConfigBlock(t, text_span_in(outer, 7)),
        AstNodeView::RequestBlock(t, _) => AstNodeView::RequestBlock(t, text_span_in(outer, 8)),
        AstNodeView::ResponseBlock(t, _) => AstNodeView::ResponseBlock(t, text_span_in(outer, 9)),
        AstNodeView::Comment(t) => AstNodeView::Comment(t),
    }
}

/// What [ast] gives: the nodes of [ast_spec], with each block's text span
/// placed by its whole span.
pub open spec fn placed_ast_spec(input: Seq<char>) -> Seq<(AstNodeView, Span)> {
    ast_spec(input).map_values(|x: (AstNodeView, Span)| (node_with_text_span(x.0, x.1), x.1))
}

impl AstNode {
    /// A comment node
    pub fn comment(text: &str) -> (res: Self)
        ensures
            res@ == AstNodeView::Comment(text@),
    {
        AstNode::Comment(text.to_owned())
    }

    /// A config block for the block at `span`
    pub fn config(text: &str, span: Span) -> (res: Self)
        ensures
            res@ == AstNodeView::ConfigBlock(text@, text_span_in(span, 7)),
    {
        let start = span.start.wrapping_add(7usize.wrapping_add(4));
        let end = span.end.wrapping_sub(3);
        AstNode::ConfigBlock((text.to_owned(), start..end))
    }

    /// A request block for the block at `span`
    pub fn request(text: &str, span: Span) -> (res: Self)
        ensures
            res@ == AstNodeView::RequestBlock(text@, text_span_in(span, 8)),
    {
        let start = span.start.wrapping_add(8usize.wrapping_add(4));
        let end = span.end.wrapping_sub(3);
        AstNode::RequestBlock((text.to_owned(), start..end))
    }

    /// A response block for the block at `span`
    pub fn response(text: &str, span: Span) -> (res: Self)
        ensures
            res@ == AstNodeView::ResponseBlock(text@, text_span_in(span, 9)),
    {
        let start = span.start.wrapping_add(9usize.wrapping_add(4));
        let end = span.end.wrapping_sub(3);
        AstNode::ResponseBlock((text.to_owned(), start..end))
    }
}

impl Ast {
    /// Add a node at the end
    pub fn push(&mut self, node: Spanned<AstNode>)
        ensures
            final(self)@ == old(self)@.push((node.0@, node.1)),
    {
        let ghost before = self@;
        self.0.push(node);
        assert(self@ =~= before.push((node.0@, node.1)));
    }

    /// The nodes with their spans
    pub fn nodes(&self) -> (res: std::slice::Iter<'_, Spanned<AstNode>>)
        ensures
            vstd::std_specs::slice::into_iter_elts(res) == self.0@,
    {
        self.iter()
    }
}

/// Parse request file string in to AST
///
/// The tree of [Ast::from], with each block's text span placed by the span of
/// its whole code block; it never fails.
pub fn ast(input: &str) -> (res: Result<AST, Vec<Spanned<ReqlangError>>>)
    ensures
        res matches Ok(a) && a@ == placed_ast_spec(input@),
{
    let tree = Ast::from(input);
    let ghost t = tree@;
    let mut out: Vec<Spanned<AstNode>> = Vec::new();
    let n = tree.0.len();
    let mut i: usize = 0;
    while i < n
        invariant
            n == tree.0@.len(),
            t == tree@,
            i <= n,
            map_spanned(out@, |n: AstNode| n@) == t.take(i as int).map_values(
                |x: (AstNodeView, Span)| (node_with_text_span(x.0, x.1), x.1),
            ),
        decreases n - i,
    {
        let (node, span) = (&tree.0[i].0, &tree.0[i].1);
        let placed = match node {
            AstNode::Comment(c) => AstNode::comment(c.as_str()),
            AstNode::ConfigBlock(b) => AstNode::config(b.0.as_str(), copy_span(span)),
            AstNode::RequestBlock(b) => AstNode::request(b.0.as_str(), copy_span(span)),
            AstNode::ResponseBlock(b) => AstNode::response(b.0.as_str(), copy_span(span)),
        };
        let ghost before = out@;
        out.push((placed, copy_span(span)));
        proof {
            let x = t[i as int];
            assert(x == (node@, *span));
            assert(map_spanned(out@, |n: AstNode| n@) =~= map_spanned(before, |n: AstNode| n@).push(
                (node_with_text_span(x.0, x.1), x.1)));
            assert(t.take(i + 1).map_values(|x: (AstNodeView, Span)| (node_with_text_span(x.0, x.1), x.1))
                =~= t.take(i as int).map_values(|x: (AstNodeView, Span)| (node_with_text_span(x.0, x.1), x.1)).push(
                (node_with_text_span(x.0, x.1), x.1)));
        }
        i += 1;
    }
    assert(t.take(n as int) =~= t);
    Ok(Ast::new(out))
}

} // verus!
