use crate::span::{Span, Spanned};
use crate::text::{byte_len, bytes_of, str_eq};
use vstd::prelude::*;
use vstd::string::*;
use vstd::utf8::*;
use vstd::wrapping::usize_specs::wrapping_add;

verus! {

pub type SpannedContent = Spanned<String>;

pub type SpannedCodeBlock = Spanned<SpannedContent>;

/// A top-level block of a markdown document, as `markdown::to_mdast` sees it:
/// either a code block (fenced or indented) or any other kind of block.
#[derive(Debug, Clone, PartialEq)]
pub enum MdBlock {
    Code { lang: Option<String>, value: String, start: usize, end: usize },
    Other,
}

/// What a [MdBlock] holds, as plain values.
pub ghost enum MdBlockView {
    Code { lang: Option<Seq<char>>, value: Seq<char>, start: usize, end: usize },
    Other,
}

impl View for MdBlock {
    type V = MdBlockView;

    open spec fn view(&self) -> MdBlockView {
        match self {
            MdBlock::Code { lang, value, start, end } => MdBlockView::Code {
                lang: match lang {
                    Some(l) => Some(l@),
                    None => None,
                },
                value: value@,
                start: *start,
                end: *end,
            },
            MdBlock::Other => MdBlockView::Other,
        }
    }
}

/// The top-level blocks that `markdown::to_mdast` finds in a document, in order.
pub uninterp spec fn markdown_blocks(input: Seq<char>) -> Seq<MdBlockView>;

/// Code block positions are byte offsets into the input that lie on character
/// boundaries.
pub open spec fn blocks_well_placed(input: Seq<char>, blocks: Seq<MdBlockView>) -> bool {
    forall|i: int|
        0 <= i < blocks.len() ==> (#[trigger] blocks[i] matches MdBlockView::Code { start, end, .. }
            ==> {
            &&& start <= end <= bytes_of(input).len()
            &&& is_char_boundary(bytes_of(input), start as int)
            &&& is_char_boundary(bytes_of(input), end as int)
        })
}

/// Parses markdown with `markdown::to_mdast` (default options) and lists the
/// root's children, keeping for code blocks their language, text and the byte
/// offsets of their start and end.
///
/// Trusted: the result is [markdown_blocks] of the input; a code block starts at
/// the start of a line and ends at a line ending, after its closing fence or at
/// the end of the input, so its offsets are within the input and on character
/// boundaries. `to_mdast` only fails with MDX enabled, which the default options
/// leave off.
#[verifier::external_body]
pub(crate) fn markdown_top_level_blocks(input: &str) -> (res: Vec<MdBlock>)
    ensures
        res@.map_values(|b: MdBlock| b@) == markdown_blocks(input@),
        blocks_well_placed(input@, res@.map_values(|b: MdBlock| b@)),
{
    let root = markdown::to_mdast(input, &markdown::ParseOptions::default()).unwrap();
    root.children().cloned().unwrap_or_default().into_iter().map(|node| match node {
        markdown::mdast::Node::Code(code) => {
            let position = code.position.unwrap();
            MdBlock::Code { lang: code.lang, value: code.value, start: position.start.offset, end: position.end.offset }
        },
        _ => MdBlock::Other,
    }).collect()
}

/// The code blocks of `blocks` whose language is `lang`: their text with the
/// span of the text (assumed to start after "```" + lang + a line break), and
/// the span of the whole block. The arithmetic wraps, as `usize` addition does
/// without overflow checks.
pub open spec fn codeblocks_spec(blocks: Seq<MdBlockView>, lang: Seq<char>) -> Seq<((Seq<char>, Span), Span)>
    decreases blocks.len(),
{
    if blocks.len() == 0 {
        Seq::empty()
    } else {
        let rest = codeblocks_spec(blocks.drop_last(), lang);
        match blocks.last() {
            MdBlockView::Code { lang: Some(l), value, start, end } if l == lang => {
                let text_start = wrapping_add(wrapping_add(4, byte_len(lang) as usize), start);
                let text_end = wrapping_add(text_start, byte_len(value) as usize);
                rest.push(((value, text_start..text_end), start..end))
            },
            _ => rest,
        }
    }
}

/// A span lies within `bytes` and both of its ends are character boundaries.
pub open spec fn span_well_placed(bytes: Seq<u8>, span: Span) -> bool {
    &&& span.start <= span.end <= bytes.len()
    &&& is_char_boundary(bytes, span.start as int)
    &&& is_char_boundary(bytes, span.end as int)
}

/// The blocks extracted from well placed markdown blocks have well placed spans.
pub proof fn lemma_codeblocks_well_placed(input: Seq<char>, blocks: Seq<MdBlockView>, lang: Seq<char>)
    requires
        blocks_well_placed(input, blocks),
    ensures
        forall|i: int|
            0 <= i < codeblocks_spec(blocks, lang).len() ==> span_well_placed(
                bytes_of(input),
                #[trigger] codeblocks_spec(blocks, lang)[i].1,
            ),
    decreases blocks.len(),
{
    if blocks.len() > 0 {
        let t = blocks.drop_last();
        assert forall|i: int| 0 <= i < t.len() implies (#[trigger] t[i] matches MdBlockView::Code { start, end, .. } ==> {
            &&& start <= end <= bytes_of(input).len()
            &&& is_char_boundary(bytes_of(input), start as int)
            &&& is_char_boundary(bytes_of(input), end as int)
        }) by {
            assert(t[i] == blocks[i]);
        }
        lemma_codeblocks_well_placed(input, t, lang);
        let r = codeblocks_spec(blocks, lang);
        let rest = codeblocks_spec(t, lang);
        let last = blocks[blocks.len() - 1];
        assert(blocks.last() == last);
        assert forall|i: int| 0 <= i < r.len() implies span_well_placed(bytes_of(input), #[trigger] r[i].1) by {
            if i < rest.len() {
                assert(r[i] == rest[i]);
            }
        }
    }
}

/// View of an extracted code block.
pub open spec fn codeblock_view(b: SpannedCodeBlock) -> ((Seq<char>, Span), Span) {
    ((b.0.0@, b.0.1), b.1)
}

/// The code blocks of a document's top-level markdown blocks whose language
/// is `target_lang`, in order: each with its text, the span of the text
/// (after "```", the language and a line break) and the span of the block.
pub fn codeblocks_from(md_nodes: &Vec<MdBlock>, target_lang: &str) -> (res: Vec<SpannedCodeBlock>)
    ensures
        res@.map_values(|b: SpannedCodeBlock| codeblock_view(b)) == codeblocks_spec(
            md_nodes@.map_values(|b: MdBlock| b@),
            target_lang@,
        ),
{
    let mut results: Vec<SpannedCodeBlock> = Vec::new();
    let ghost blocks = md_nodes@.map_values(|b: MdBlock| b@);
    let n = md_nodes.len();
    let lang_len = target_lang.len();
    let mut i: usize = 0;
    while i < n
        invariant
            n == md_nodes@.len(),
            i <= n,
            lang_len == byte_len(target_lang@) as usize,
            md_nodes@.map_values(|b: MdBlock| b@) == blocks,
            results@.map_values(|b: SpannedCodeBlock| codeblock_view(b)) == codeblocks_spec(blocks.take(i as int), target_lang@),
        decreases n - i,
    {
        proof {
            assert(blocks.take(i + 1).drop_last() =~= blocks.take(i as int));
            assert(blocks.take(i + 1).last() == md_nodes@[i as int]@);
        }
        if let MdBlock::Code { lang: Some(lang), value, start, end } = &md_nodes[i] {
            let text_start = 4usize.wrapping_add(lang_len).wrapping_add(*start);
            let text_end = text_start.wrapping_add(value.as_str().len());
            proof {
                assert(md_nodes@[i as int]@ == blocks[i as int]);
            }
            if str_eq(lang.as_str(), target_lang) {
                let text = value.clone();
                let ghost before = results@;
                results.push(((text, text_start..text_end), *start..*end));
                proof {
                    assert(results@.map_values(|b: SpannedCodeBlock| codeblock_view(b)) =~= before.map_values(|b: SpannedCodeBlock| codeblock_view(b)).push(codeblock_view(results@.last())));
                }
            }
        }
        i += 1;
    }
    proof {
        assert(blocks.take(n as int) =~= blocks);
    }
    results
}

/// Extract matching lang code blocks from a markdown string.
pub fn extract_codeblocks(input: &str, target_lang: &str) -> (res: Vec<SpannedCodeBlock>)
    ensures
        res@.map_values(|b: SpannedCodeBlock| codeblock_view(b)) == codeblocks_spec(markdown_blocks(input@), target_lang@),
        blocks_well_placed(input@, markdown_blocks(input@)),
{
    let md_nodes = markdown_top_level_blocks(input);
    codeblocks_from(&md_nodes, target_lang)
}

} // verus!
