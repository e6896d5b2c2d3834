//! Errors of a request file as editor diagnostics: ranges of zero based
//! line and character positions, a severity and a message.
use crate::ast::{ast_spec, first_config, first_response, Ast};
use crate::errors::{error_message, ParseError, ParseErrorView, ReqlangError, ReqlangErrorView};
use crate::parser::config::{decoded_fits, decoded_view, DecodedConfig};
use crate::parser::message::{errors_view, response_code_ok};
use crate::parser::request_file::{parse, parse_spec};
use crate::span::{Span, Spanned};
use crate::str_idxpos::{index_to_position, position_of};
use vstd::prelude::*;
use vstd::string::*;
use vstd::utf8::*;

verus! {

/// Computes the diagnostics of request files
#[derive(Debug)]
pub struct Diagnoser {}

impl Default for Diagnoser {
    fn default() -> (res: Self) {
        Diagnoser {}
    }
}

/// How severe a diagnosis is
#[derive(Debug, Eq, PartialEq, Clone, Copy)]
pub struct DiagnosisSeverity(pub i32);

impl DiagnosisSeverity {
    /// An error (severity 1)
    pub fn error() -> (res: Self)
        ensures
            res.0 == 1,
    {
        DiagnosisSeverity(1)
    }

    /// A warning (severity 2)
    pub fn warning() -> (res: Self)
        ensures
            res.0 == 2,
    {
        DiagnosisSeverity(2)
    }

    /// Information (severity 3)
    pub fn information() -> (res: Self)
        ensures
            res.0 == 3,
    {
        DiagnosisSeverity(3)
    }

    /// A hint (severity 4)
    pub fn hint() -> (res: Self)
        ensures
            res.0 == 4,
    {
        DiagnosisSeverity(4)
    }
}

/// A zero based line and character (counted in bytes)
#[derive(Debug, Eq, PartialEq, Copy, Clone)]
pub struct DiagnosisPosition {
    pub line: u32,
    pub character: u32,
}

impl DiagnosisPosition {
    pub fn new(line: u32, character: u32) -> (res: DiagnosisPosition)
        ensures
            res.line == line,
            res.character == character,
    {
        DiagnosisPosition { line, character }
    }
}

impl Default for DiagnosisPosition {
    fn default() -> (res: Self)
        ensures
            res.line == 0,
            res.character == 0,
    {
        DiagnosisPosition { line: 0, character: 0 }
    }
}

/// A range of positions
#[derive(Debug, Eq, PartialEq, Copy, Clone)]
pub struct DiagnosisRange {
    /// The range's start position (inclusive)
    pub start: DiagnosisPosition,
    /// The range's end position (exclusive)
    pub end: DiagnosisPosition,
}

impl DiagnosisRange {
    pub fn new(start: DiagnosisPosition, end: DiagnosisPosition) -> (res: DiagnosisRange)
        ensures
            res.start == start,
            res.end == end,
    {
        DiagnosisRange { start, end }
    }
}

impl Default for DiagnosisRange {
    fn default() -> (res: Self)
        ensures
            res.start.line == 0 && res.start.character == 0,
            res.end.line == 0 && res.end.character == 0,
    {
        DiagnosisRange { start: DiagnosisPosition::default(), end: DiagnosisPosition::default() }
    }
}

/// A diagnosis of a request file
#[derive(Debug, Eq, PartialEq, Clone)]
pub struct Diagnosis {
    pub range: DiagnosisRange,
    pub severity: Option<DiagnosisSeverity>,
    pub message: String,
}

impl Default for Diagnosis {
    fn default() -> (res: Self)
        ensures
            res.range.start.line == 0 && res.range.start.character == 0,
            res.range.end.line == 0 && res.range.end.character == 0,
            res.severity is None,
            res.message@.len() == 0,
    {
        Diagnosis { range: DiagnosisRange::default(), severity: None, message: String::new() }
    }
}

/// What a [Diagnosis] holds, as plain values.
pub ghost struct DiagnosisView {
    pub start: (u32, u32),
    pub end: (u32, u32),
    pub severity: Option<i32>,
    pub message: Seq<char>,
}

/// Plain view of a diagnosis.
pub open spec fn diagnosis_view(d: Diagnosis) -> DiagnosisView {
    DiagnosisView {
        start: (d.range.start.line, d.range.start.character),
        end: (d.range.end.line, d.range.end.character),
        severity: match d.severity {
            Some(s) => Some(s.0),
            None => None,
        },
        message: d.message@,
    }
}

/// Plain view of diagnoses.
pub open spec fn diagnoses_view(d: Seq<Diagnosis>) -> Seq<DiagnosisView> {
    d.map_values(|x: Diagnosis| diagnosis_view(x))
}

/// The position of a byte index: the line is the number of line feeds
/// before it, the character its distance in bytes from the start of its
/// line (just after the last of those line feeds); both zero based, as `u32`.
pub open spec fn position_spec(bytes: Seq<u8>, idx: int) -> (u32, u32) {
    let p = position_of(bytes, idx);
    (p.0 as u32, p.1 as u32)
}

/// A byte index that lies in the text on a character boundary.
pub open spec fn index_ok(bytes: Seq<u8>, idx: int) -> bool {
    0 <= idx <= bytes.len() && is_char_boundary(bytes, idx)
}

/// Both ends of a span lie in the text on character boundaries.
pub open spec fn span_ok(bytes: Seq<u8>, span: Span) -> bool {
    index_ok(bytes, span.start as int) && index_ok(bytes, span.end as int)
}

/// The diagnosis of an error at a span.
pub open spec fn diagnosis_of(bytes: Seq<u8>, e: (ReqlangErrorView, Span)) -> DiagnosisView {
    DiagnosisView {
        start: position_spec(bytes, e.1.start as int),
        end: position_spec(bytes, e.1.end as int),
        severity: Some(1),
        message: error_message(e.0),
    }
}

impl Diagnoser {
    /// The position of a byte index in a text
    pub fn get_position(source: &str, idx: usize) -> (res: DiagnosisPosition)
        requires
            index_ok(source.spec_bytes(), idx as int),
        ensures
            (res.line, res.character) == position_spec(source.spec_bytes(), idx as int),
    {
        let (line, character) = index_to_position(source, idx);
        DiagnosisPosition { line: #[verifier::truncate] (line as u32), character: #[verifier::truncate] (character as u32) }
    }

    /// The range of a span in a text
    pub fn get_range(source: &str, span: &Span) -> (res: DiagnosisRange)
        requires
            span_ok(source.spec_bytes(), *span),
        ensures
            (res.start.line, res.start.character) == position_spec(source.spec_bytes(), span.start as int),
            (res.end.line, res.end.character) == position_spec(source.spec_bytes(), span.end as int),
    {
        DiagnosisRange {
            start: Diagnoser::get_position(source, span.start),
            end: Diagnoser::get_position(source, span.end),
        }
    }
}

/// The diagnoses of errors in a text: one for each error, in order, with the
/// range of its span, the error severity and the error's message
pub fn get_diagnostics(errs: &Vec<Spanned<ReqlangError>>, source: &str) -> (res: Vec<Diagnosis>)
    requires
        forall|i: int| 0 <= i < errs@.len() ==> span_ok(source.spec_bytes(), #[trigger] errs@[i].1),
    ensures
        diagnoses_view(res@) == errors_view(errs@).map_values(
            |e: (ReqlangErrorView, Span)| diagnosis_of(source.spec_bytes(), e),
        ),
{
    let ghost target = errors_view(errs@).map_values(
        |e: (ReqlangErrorView, Span)| diagnosis_of(source.spec_bytes(), e),
    );
    let mut out: Vec<Diagnosis> = Vec::new();
    let n = errs.len();
    let mut i: usize = 0;
    while i < n
        invariant
            n == errs@.len(),
            i <= n,
            forall|i: int| 0 <= i < errs@.len() ==> span_ok(source.spec_bytes(), #[trigger] errs@[i].1),
            target == errors_view(errs@).map_values(
                |e: (ReqlangErrorView, Span)| diagnosis_of(source.spec_bytes(), e),
            ),
            diagnoses_view(out@) == target.take(i as int),
        decreases n - i,
    {
        let (err, span) = (&errs[i].0, &errs[i].1);
        let d = Diagnosis {
            range: Diagnoser::get_range(source, span),
            severity: Some(DiagnosisSeverity::error()),
            message: err.message(),
        };
        let ghost before = out@;
        out.push(d);
        proof {
            assert(diagnoses_view(out@) =~= diagnoses_view(before).push(diagnosis_view(d)));
            assert(target.take(i + 1) =~= target.take(i as int).push(target[i as int]));
        }
        i += 1;
    }
    assert(target.take(n as int) =~= target);
    out
}

/// What [Diagnoser::get_diagnostics] gives: the empty-file error for an empty
/// text, else a diagnosis for each error of parsing the file.
pub open spec fn file_diagnostics(source: &str, decoded: Option<Result<crate::types::ParsedConfigView, crate::parser::config::ConfigDecodeErrorView>>) -> Seq<DiagnosisView> {
    if source@.len() == 0 {
        seq![diagnosis_of(source.spec_bytes(), (ReqlangErrorView::ParseError(ParseErrorView::EmptyFileError), 0..0usize))]
    } else {
        match parse_spec(ast_spec(source@), decoded) {
            Ok(_) => Seq::empty(),
            Err(errs) => errs.map_values(|e: (ReqlangErrorView, Span)| diagnosis_of(source.spec_bytes(), e)),
        }
    }
}

/// The spans of a file's errors can be placed in it.
pub open spec fn diagnosable(source: &str, decoded: Option<Result<crate::types::ParsedConfigView, crate::parser::config::ConfigDecodeErrorView>>) -> bool {
    source@.len() > 0 ==> match parse_spec(ast_spec(source@), decoded) {
        Ok(_) => true,
        Err(errs) => forall|i: int| 0 <= i < errs.len() ==> span_ok(source.spec_bytes(), #[trigger] errs[i].1),
    }
}

impl Diagnoser {
    /// The diagnoses of a request file's text
    ///
    /// `decoded` is what decoding the text of the file's config block as TOML
    /// gave.
    pub fn get_diagnostics(source: &str, decoded: DecodedConfig) -> (res: Vec<Diagnosis>)
        requires
            decoded_fits(first_config(ast_spec(source@)), decoded_view(decoded)),
            first_response(ast_spec(source@)) matches Some(b) ==> response_code_ok(b.0),
            diagnosable(source, decoded_view(decoded)),
        ensures
            diagnoses_view(res@) == file_diagnostics(source, decoded_view(decoded)),
    {
        if source.is_empty() {
            let errs = vec![(ReqlangError::ParseError(ParseError::EmptyFileError), 0..0)];
            proof {
                broadcast use vstd::utf8::group_utf8_lib;
                assert(errors_view(errs@) =~= seq![
                    (ReqlangErrorView::ParseError(ParseErrorView::EmptyFileError), 0..0usize)]);
                assert(is_char_boundary(source.spec_bytes(), 0));
            }
            return get_diagnostics(&errs, source);
        }
        let ast = Ast::from(source);
        match parse(&ast, decoded) {
            Ok(_) => Vec::new(),
            Err(errs) => {
                proof {
                    assert(parse_spec(ast_spec(source@), decoded_view(decoded)) == Err::<crate::types::ParsedRequestFileView, Seq<(ReqlangErrorView, Span)>>(errors_view(errs@)));
                    let es = errors_view(errs@);
                    assert(source@.len() > 0);
                    assert(diagnosable(source, decoded_view(decoded)));
                    let ps = parse_spec(ast_spec(source@), decoded_view(decoded));
                    assert(ps is Err);
                    assert(ps->Err_0 == es);
                    assert(forall|i: int| 0 <= i < es.len() ==> span_ok(source.spec_bytes(), #[trigger] es[i].1));
                    assert forall|i: int| 0 <= i < errs@.len() implies span_ok(source.spec_bytes(), #[trigger] errs@[i].1) by {
                        assert(es[i].1 == errs@[i].1);
                    }
                }
                get_diagnostics(&errs, source)
            },
        }
    }

    /// [Diagnoser::get_diagnostics] for any request file text: `None` when its
    /// response block holds a status code outside 100 to 599, or an error's
    /// span cannot be placed in the text.
    pub fn get_diagnostics_checked(source: &str, decoded: DecodedConfig) -> (res: Option<Vec<Diagnosis>>)
        requires
            decoded_fits(first_config(ast_spec(source@)), decoded_view(decoded)),
        ensures
            res is None <==> ((first_response(ast_spec(source@)) matches Some(b) && !response_code_ok(b.0))
                || !diagnosable(source, decoded_view(decoded))),
            res matches Some(d) ==> diagnoses_view(d@) == file_diagnostics(source, decoded_view(decoded)),
    {
        let ast = Ast::from(source);
        if let Some((block, _)) = ast.response() {
            if !crate::parser::message::response_block_ok(block) {
                return None;
            }
        }
        if !source.is_empty() {
            let copy = crate::parser::config::copy_decoded(&decoded);
            if let Err(errs) = parse(&ast, copy) {
                let n = errs.len();
                let mut i: usize = 0;
                while i < n
                    invariant
                        n == errs@.len(),
                        i <= n,
                        source@.len() > 0,
                        parse_spec(ast_spec(source@), decoded_view(decoded)) == Err::<crate::types::ParsedRequestFileView, Seq<(ReqlangErrorView, Span)>>(errors_view(errs@)),
                        forall|k: int| 0 <= k < i ==> span_ok(source.spec_bytes(), #[trigger] errs@[k].1),
                    decreases n - i,
                {
                    let span = &errs[i].1;
                    let bytes_len = source.as_bytes().len();
                    if !(span.start <= bytes_len && source.is_char_boundary(span.start) && span.end <= bytes_len
                        && source.is_char_boundary(span.end)) {
                        proof {
                            assert(parse_spec(ast_spec(source@), decoded_view(decoded)) == Err::<crate::types::ParsedRequestFileView, Seq<(ReqlangErrorView, Span)>>(errors_view(errs@)));
                            assert(errors_view(errs@)[i as int].1 == errs@[i as int].1);
                            let ps = parse_spec(ast_spec(source@), decoded_view(decoded));
                            assert(ps is Err);
                            assert(ps->Err_0 == errors_view(errs@));
                            assert(!span_ok(source.spec_bytes(), ps->Err_0[i as int].1));
                            assert(!diagnosable(source, decoded_view(decoded)));
                        }
                        return None;
                    }
                    i += 1;
                }
                proof {
                    assert forall|k: int| 0 <= k < errors_view(errs@).len() implies span_ok(source.spec_bytes(), #[trigger] errors_view(errs@)[k].1) by {
                        assert(errors_view(errs@)[k].1 == errs@[k].1);
                    }
                }
            }
        }
        Some(Diagnoser::get_diagnostics(source, decoded))
    }
}

} // verus!
