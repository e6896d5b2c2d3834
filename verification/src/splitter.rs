//! Splitting a request file into its request, response and config blocks.
use crate::errors::{ParseError, ParseErrorView, ReqlangError, ReqlangErrorView};
use crate::extract_codeblocks::{codeblocks_spec, extract_codeblocks, markdown_blocks, SpannedCodeBlock};
use crate::parser::message::errors_view;
use crate::span::{copy_span, Span, Spanned};
use crate::text::{bytes_of, push_str};
use vstd::prelude::*;
use vstd::string::*;

verus! {

/// The blocks of a request file: the first request block, with an empty
/// line added, and the first response block (with an empty line added) and
/// config block, if any; each with the span of its whole code block
#[derive(Debug, PartialEq)]
pub struct RequestFileSplitUp {
    pub request: Spanned<String>,
    pub response: Option<Spanned<String>>,
    pub config: Option<Spanned<String>>,
}

pub ghost struct SplitView {
    pub request: (Seq<char>, Span),
    pub response: Option<(Seq<char>, Span)>,
    pub config: Option<(Seq<char>, Span)>,
}

pub open spec fn opt_block_view(b: Option<Spanned<String>>) -> Option<(Seq<char>, Span)> {
    match b {
        Some(x) => Some((x.0@, x.1)),
        None => None,
    }
}

/// The text of the first block of a kind with its whole span, the text
/// followed by `suffix`.
pub open spec fn first_block(blocks: Seq<((Seq<char>, Span), Span)>, suffix: Seq<char>) -> Option<(Seq<char>, Span)> {
    if blocks.len() == 0 {
        None
    } else {
        Some((blocks[0].0.0 + suffix, blocks[0].1))
    }
}

/// What [split] gives.
pub open spec fn split_spec(input: Seq<char>) -> Result<SplitView, Seq<(ReqlangErrorView, Span)>> {
    let blocks = markdown_blocks(input);
    let missing = ReqlangErrorView::ParseError(ParseErrorView::MissingRequest);
    if input.len() == 0 {
        Err(seq![(missing, 0..0usize)])
    } else if codeblocks_spec(blocks, "%request"@).len() == 0 {
        Err(seq![(missing, 0..bytes_of(input).len() as usize)])
    } else {
        Ok(SplitView {
            request: first_block(codeblocks_spec(blocks, "%request"@), "\n\n"@)->Some_0,
            response: first_block(codeblocks_spec(blocks, "%response"@), "\n\n"@),
            config: first_block(codeblocks_spec(blocks, "%config"@), Seq::empty()),
        })
    }
}

pub open spec fn split_result_view(r: Result<RequestFileSplitUp, Vec<Spanned<ReqlangError>>>) -> Result<SplitView, Seq<(ReqlangErrorView, Span)>> {
    match r {
        Ok(s) => Ok(SplitView {
            request: (s.request.0@, s.request.1),
            response: opt_block_view(s.response),
            config: opt_block_view(s.config),
        }),
        Err(e) => Err(errors_view(e@)),
    }
}

fn first_of(blocks: &Vec<SpannedCodeBlock>, suffix: &str) -> (res: Option<Spanned<String>>)
    ensures
        opt_block_view(res) == first_block(
            blocks@.map_values(|b: SpannedCodeBlock| crate::extract_codeblocks::codeblock_view(b)),
            suffix@,
        ),
{
    if blocks.len() == 0 {
        None
    } else {
        let mut text = blocks[0].0.0.clone();
        push_str(&mut text, suffix);
        Some((text, copy_span(&blocks[0].1)))
    }
}

/// Split string in to a request, and optional response and config
pub fn split(input: &str) -> (res: Result<RequestFileSplitUp, Vec<Spanned<ReqlangError>>>)
    ensures
        split_result_view(res) == split_spec(input@),
{
    if input.is_empty() {
        let errs = vec![(ReqlangError::ParseError(ParseError::MissingRequest), 0..0)];
        assert(errors_view(errs@) =~= seq![
            (ReqlangErrorView::ParseError(ParseErrorView::MissingRequest), 0..0usize)]);
        return Err(errs);
    }
    let requests = extract_codeblocks(input, "%request");
    let responses = extract_codeblocks(input, "%response");
    let configs = extract_codeblocks(input, "%config");
    proof {
        reveal_strlit("\n\n");
        reveal_strlit("");
    }
    let request = match first_of(&requests, "\n\n") {
        Some(r) => r,
        None => {
            let len = input.as_bytes().len();
            let errs = vec![(ReqlangError::ParseError(ParseError::MissingRequest), 0..len)];
            assert(errors_view(errs@) =~= seq![
                (ReqlangErrorView::ParseError(ParseErrorView::MissingRequest), 0..bytes_of(input@).len() as usize)]);
            return Err(errs);
        },
    };
    let response = first_of(&responses, "\n\n");
    let config = first_of(&configs, "");
    assert(Seq::<char>::empty() =~= ""@);
    Ok(RequestFileSplitUp { request, response, config })
}

} // verus!
