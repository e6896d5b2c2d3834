//! The config block of a request file.
//!
//! Decoding the TOML text of the block into a [ParsedConfig] is done by the
//! caller, which hands over the decoded config or the decoder's error; this
//! module places that outcome in the request file.
use crate::errors::{ParseError, ParseErrorView, ReqlangError, ReqlangErrorView};
use crate::span::{copy_span, Span, Spanned};
use crate::types::{ParsedConfig, ParsedConfigView};
use vstd::prelude::*;

verus! {

/// Why the text of a config block could not be decoded: the decoder's message
/// and, when it reports one, the byte range within the block's text.
#[derive(Debug, Clone, PartialEq)]
pub struct ConfigDecodeError {
    pub message: String,
    pub span: Option<Span>,
}

/// A decoded config, or why decoding failed.
pub type DecodedConfig = Option<Result<ParsedConfig, ConfigDecodeError>>;

pub ghost struct ConfigDecodeErrorView {
    pub message: Seq<char>,
    pub span: Option<Span>,
}

impl View for ConfigDecodeError {
    type V = ConfigDecodeErrorView;

    open spec fn view(&self) -> ConfigDecodeErrorView {
        ConfigDecodeErrorView { message: self.message@, span: self.span }
    }
}

/// Plain view of a decoded config.
pub open spec fn decoded_view(d: DecodedConfig) -> Option<Result<ParsedConfigView, ConfigDecodeErrorView>> {
    match d {
        Some(Ok(c)) => Some(Ok(c@)),
        Some(Err(e)) => Some(Err(e@)),
        None => None,
    }
}

/// The decoded config belongs to the block: there is one exactly when there
/// is a block, and an error's range can be moved by the block's start.
pub open spec fn decoded_fits(block: Option<(Seq<char>, Span)>, decoded: Option<Result<ParsedConfigView, ConfigDecodeErrorView>>) -> bool {
    &&& block.is_some() == decoded.is_some()
    &&& match (block, decoded) {
        (Some(b), Some(Err(e))) => match e.span {
            Some(s) => b.1.start + s.start <= usize::MAX && b.1.start + s.end <= usize::MAX,
            None => true,
        },
        _ => true,
    }
}

/// Whether a decoded config belongs to a config block (see [decoded_fits]).
pub fn config_fits(config: &Option<Spanned<String>>, decoded: &DecodedConfig) -> (res: bool)
    ensures
        res == decoded_fits(
            match config {
                Some(c) => Some((c.0@, c.1)),
                None => None,
            },
            decoded_view(*decoded),
        ),
{
    match (config, decoded) {
        (Some((_, span)), Some(Err(e))) => match &e.span {
            Some(s) => s.start <= usize::MAX - span.start && s.end <= usize::MAX - span.start,
            None => true,
        },
        (Some(_), Some(Ok(_))) => true,
        (None, None) => true,
        _ => false,
    }
}

/// What [parse_config] gives: the decoded config with the block's span, or an
/// invalid-config error placed at the decoder's range moved by the start of
/// the block (the range `0..0` where the decoder reports none).
pub open spec fn config_spec(block: Option<(Seq<char>, Span)>, decoded: Option<Result<ParsedConfigView, ConfigDecodeErrorView>>) -> Option<Result<(ParsedConfigView, Span), Seq<(ReqlangErrorView, Span)>>> {
    match (block, decoded) {
        (Some(b), Some(Ok(c))) => Some(Ok((c, b.1))),
        (Some(b), Some(Err(e))) => {
            let s = match e.span {
                Some(s) => s,
                None => 0..0usize,
            };
            Some(Err(seq![(ReqlangErrorView::ParseError(ParseErrorView::InvalidConfigError { message: e.message }),
                (b.1.start + s.start) as usize..(b.1.start + s.end) as usize)]))
        },
        _ => None,
    }
}

/// Plain view of what [parse_config] returns.
pub open spec fn config_result_view(r: Option<Result<Spanned<ParsedConfig>, Vec<Spanned<ReqlangError>>>>) -> Option<Result<(ParsedConfigView, Span), Seq<(ReqlangErrorView, Span)>>> {
    match r {
        Some(Ok((c, s))) => Some(Ok((c@, s))),
        Some(Err(errs)) => Some(Err(errs@.map_values(|e: Spanned<ReqlangError>| (e.0@, e.1)))),
        None => None,
    }
}

/// Place the decoded config block of a request file
///
/// `decoded` is what decoding the block's text as TOML gave.
pub fn parse_config(config: &Option<Spanned<String>>, decoded: DecodedConfig) -> (res: Option<Result<Spanned<ParsedConfig>, Vec<Spanned<ReqlangError>>>>)
    requires
        decoded_fits(
            match config {
                Some(c) => Some((c.0@, c.1)),
                None => None,
            },
            decoded_view(decoded),
        ),
    ensures
        config_result_view(res) == config_spec(
            match config {
                Some(c) => Some((c.0@, c.1)),
                None => None,
            },
            decoded_view(decoded),
        ),
{
    match (config, decoded) {
        (Some((_, span)), Some(Ok(parsed))) => Some(Ok((parsed, copy_span(span)))),
        (Some((_, span)), Some(Err(err))) => {
            let (start, end) = match err.span {
                Some(s) => (s.start, s.end),
                None => (0, 0),
            };
            let e = ReqlangError::ParseError(ParseError::InvalidConfigError { message: err.message });
            let errs = vec![(e, span.start + start..span.start + end)];
            proof {
                assert(errs@.map_values(|e: Spanned<ReqlangError>| (e.0@, e.1)) =~= seq![
                    (errs@[0].0@, errs@[0].1)]);
            }
            Some(Err(errs))
        },
        _ => None,
    }
}

/// A copy of a decoded config.
pub fn copy_decoded(d: &DecodedConfig) -> (res: DecodedConfig)
    ensures
        decoded_view(res) == decoded_view(*d),
{
    match d {
        Some(Ok(c)) => Some(Ok(c.copy())),
        Some(Err(e)) => Some(Err(ConfigDecodeError {
            message: e.message.clone(),
            span: match &e.span {
                Some(s) => Some(copy_span(s)),
                None => None,
            },
        })),
        None => None,
    }
}

} // verus!
