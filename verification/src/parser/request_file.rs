//! Parsing and validating a whole request file.
use crate::ast::{first_config, first_request, first_response, Ast, AstNodeView};
use crate::errors::{ParseError, ParseErrorView, ReqlangError, ReqlangErrorView};
use crate::maps::{lemma_pairs_map_unique, pairs_map, pairs_view};
use crate::parser::config::{config_spec, decoded_fits, decoded_view, parse_config, DecodedConfig};
use crate::parser::message::{
    errors_view, http_request_head, message_text, parse_request, RequestReadView, parse_response, request_result_view, request_spec, response_code_ok, response_spec,
};
use crate::parser::references::{
    expressions_spec, inner_references_spec, parse_expressions, parse_inner_references, parse_references,
    references_spec,
};
use crate::span::{copy_span, Span, Spanned};
use crate::text::{chars_of, str_eq};
use crate::types::http::HttpRequestView;
use crate::types::{
    refs_view, spanned_strings_view, strings_view, var_defaults, ParsedConfig, ParsedConfigView,
    ParsedRequestFile, ParsedRequestFileView, ReferenceType, ReferenceTypeView,
};
use vstd::prelude::*;
use vstd::string::*;

verus! {

/// A block, or the empty text at `0..0` when there is none.
pub open spec fn or_empty(b: Option<(Seq<char>, Span)>) -> (Seq<char>, Span) {
    match b {
        Some(x) => x,
        None => (Seq::empty(), 0..0usize),
    }
}

/// The expression references of the request, response and config blocks.
pub open spec fn exprs_spec(req: (Seq<char>, Span), resp: (Seq<char>, Span), cfg: (Seq<char>, Span)) -> Seq<(Seq<char>, Span)> {
    expressions_spec(req.0) + expressions_spec(resp.0) + expressions_spec(cfg.0)
}

/// The template references inside expression references, in order.
pub open spec fn expr_refs(exprs: Seq<(Seq<char>, Span)>) -> Seq<(ReferenceTypeView, Span)>
    decreases exprs.len(),
{
    if exprs.len() == 0 {
        Seq::empty()
    } else {
        expr_refs(exprs.drop_last()) + inner_references_spec(exprs.last().0, exprs.last().1)
    }
}

/// The template references of the request, response and config blocks, then
/// those inside their expression references.
pub open spec fn refs_spec(req: (Seq<char>, Span), resp: (Seq<char>, Span), cfg: (Seq<char>, Span)) -> Seq<(ReferenceTypeView, Span)> {
    references_spec(req.0, req.1) + references_spec(resp.0, resp.1) + references_spec(cfg.0, cfg.1) + expr_refs(
        exprs_spec(req, resp, cfg),
    )
}

/// Request headers that are computed when the request is sent and may not be
/// written in a request file.
pub open spec fn forbidden_header_names() -> Seq<Seq<char>> {
    seq![
        "host"@,
        "accept-charset"@,
        "accept-encoding"@,
        "access-control-request-headers"@,
        "access-control-request-method"@,
        "connection"@,
        "content-length"@,
        "cookie"@,
        "date"@,
        "dnt"@,
        "expect"@,
        "keep-alive"@,
        "origin"@,
        "permission-policy"@,
        "te"@,
        "trailer"@,
        "transfer-encoding"@,
        "upgrade"@,
        "via"@,
    ]
}

/// A character with ASCII upper case letters made lower case.
pub open spec fn lower_ascii(c: char) -> char {
    if 'A' <= c <= 'Z' {
        ((c as u32) + 32) as char
    } else {
        c
    }
}

/// A text with ASCII upper case letters made lower case (header names are
/// ASCII tokens, so this is their `to_lowercase`).
pub open spec fn lower_ascii_text(s: Seq<char>) -> Seq<char> {
    s.map_values(|c: char| lower_ascii(c))
}

pub open spec fn parse_error(e: ParseErrorView, span: Span) -> (ReqlangErrorView, Span) {
    (ReqlangErrorView::ParseError(e), span)
}

/// An error at the request's span for each header whose lower case name is
/// forbidden, in the order of the headers.
pub open spec fn forbidden_errors(headers: Seq<(Seq<char>, Seq<char>)>, span: Span) -> Seq<(ReqlangErrorView, Span)>
    decreases headers.len(),
{
    if headers.len() == 0 {
        Seq::empty()
    } else {
        let rest = forbidden_errors(headers.drop_last(), span);
        let name = lower_ascii_text(headers.last().0);
        if forbidden_header_names().contains(name) {
            rest.push(parse_error(ParseErrorView::ForbiddenRequestHeaderNameError(name), span))
        } else {
            rest
        }
    }
}

/// Default values of the config's variables, by name.
pub open spec fn config_var_defaults(c: ParsedConfigView) -> Map<Seq<char>, Seq<char>> {
    match c.vars {
        Some(v) => var_defaults(v),
        None => Map::empty(),
    }
}

/// A variable has no value in an environment nor a default value.
pub open spec fn var_missing(c: ParsedConfigView, var: Seq<char>, env: Seq<char>) -> bool {
    match c.env(env) {
        Some(m) => !m.contains_key(var) && !config_var_defaults(c).contains_key(var),
        None => false,
    }
}

/// An error for each of `envs` in which `var` has no value.
pub open spec fn var_env_errors(c: ParsedConfigView, var: Seq<char>, envs: Seq<Seq<char>>, span: Span) -> Seq<(ReqlangErrorView, Span)>
    decreases envs.len(),
{
    if envs.len() == 0 {
        Seq::empty()
    } else {
        let rest = var_env_errors(c, var, envs.drop_last(), span);
        if var_missing(c, var, envs.last()) {
            rest.push(parse_error(ParseErrorView::VariableUndefinedInEnvironment(var, envs.last()), span))
        } else {
            rest
        }
    }
}

/// For each of `vars` in order: an error when no environment is defined, then
/// an error for each environment without a value for it.
pub open spec fn var_errors(c: ParsedConfigView, vars: Seq<Seq<char>>, span: Span) -> Seq<(ReqlangErrorView, Span)>
    decreases vars.len(),
{
    if vars.len() == 0 {
        Seq::empty()
    } else {
        let v = vars.last();
        let none_defined = if c.env_names().len() == 0 {
            seq![parse_error(ParseErrorView::VariableNotDefinedInAnyEnvironment(v), span)]
        } else {
            Seq::empty()
        };
        var_errors(c, vars.drop_last(), span) + none_defined + var_env_errors(c, v, c.env_names(), span)
    }
}

/// A variable, prompt or secret reference that the config does not declare
/// (every one of them when there is no config).
pub open spec fn is_undefined(r: ReferenceTypeView, config: Option<ParsedConfigView>) -> bool {
    match r {
        ReferenceTypeView::Variable(n) => match config {
            Some(c) => !c.var_names().contains(n),
            None => true,
        },
        ReferenceTypeView::Prompt(n) => match config {
            Some(c) => !c.prompt_names(0).contains(n),
            None => true,
        },
        ReferenceTypeView::Secret(n) => match config {
            Some(c) => !c.secret_names().contains(n),
            None => true,
        },
        _ => false,
    }
}

/// An error at the reference's span for each undefined reference, in order.
pub open spec fn undefined_errors(refs: Seq<(ReferenceTypeView, Span)>, config: Option<ParsedConfigView>) -> Seq<(ReqlangErrorView, Span)>
    decreases refs.len(),
{
    if refs.len() == 0 {
        Seq::empty()
    } else {
        let rest = undefined_errors(refs.drop_last(), config);
        let r = refs.last();
        if is_undefined(r.0, config) {
            rest.push(parse_error(ParseErrorView::UndefinedReferenceError(r.0), r.1))
        } else {
            rest
        }
    }
}

/// `needle` occurs in `hay` (`str::contains`).
pub open spec fn contains_text(hay: Seq<char>, needle: Seq<char>) -> bool {
    exists|i: int| 0 <= i && i + needle.len() <= hay.len() && #[trigger] hay.subrange(i, i + needle.len()) == needle
}

/// The reference of kind `kind` (0 variable, 1 prompt, 2 secret) to a name.
pub open spec fn kind_ref(kind: int, name: Seq<char>) -> ReferenceTypeView {
    if kind == 0 {
        ReferenceTypeView::Variable(name)
    } else if kind == 1 {
        ReferenceTypeView::Prompt(name)
    } else {
        ReferenceTypeView::Secret(name)
    }
}

/// An error at the config's span for each declared name that is not used: no
/// reference (of the blocks, or inside an expression reference) names it.
pub open spec fn unused_errors(names: Seq<Seq<char>>, kind: int, ref_names: Seq<Seq<char>>, span: Span) -> Seq<(ReqlangErrorView, Span)>
    decreases names.len(),
{
    if names.len() == 0 {
        Seq::empty()
    } else {
        let rest = unused_errors(names.drop_last(), kind, ref_names, span);
        let n = names.last();
        if !ref_names.contains(n) {
            rest.push(parse_error(ParseErrorView::UnusedValueError(kind_ref(kind, n)), span))
        } else {
            rest
        }
    }
}

/// The checks on a config against the references of the file.
pub open spec fn config_checks(config: Option<(ParsedConfigView, Span)>, refs: Seq<(ReferenceTypeView, Span)>) -> Seq<(ReqlangErrorView, Span)> {
    let ref_names = refs.map_values(|r: (ReferenceTypeView, Span)| r.0.name());
    match config {
        Some((c, s)) => var_errors(c, c.var_names(), s) + undefined_errors(refs, Some(c)) + unused_errors(
            c.var_names(),
            0,
            ref_names,
            s,
        ) + unused_errors(c.prompt_names(0), 1, ref_names, s) + unused_errors(
            c.secret_names(),
            2,
            ref_names,
            s,
        ),
        None => undefined_errors(refs, None),
    }
}

/// What [parse] gives for the nodes of a file and its decoded config: every
/// error found, in the order the checks are made, or the parsed file.
pub open spec fn parse_spec(nodes: Seq<(AstNodeView, Span)>, decoded: Option<Result<ParsedConfigView, crate::parser::config::ConfigDecodeErrorView>>) -> Result<ParsedRequestFileView, Seq<(ReqlangErrorView, Span)>> {
    match first_request(nodes) {
        None => Err(seq![parse_error(ParseErrorView::MissingRequest, 0..0usize)]),
        Some(req) => {
            let resp_block = first_response(nodes);
            let cfg_block = first_config(nodes);
            let resp = or_empty(resp_block);
            let cfg = or_empty(cfg_block);
            let exprs = exprs_spec(req, resp, cfg);
            let refs = refs_spec(req, resp, cfg);
            let request = request_spec(req.0, req.1);
            let request_errors = match request {
                Ok((r, s)) => forbidden_errors(r.headers, s),
                Err(e) => e,
            };
            let response = match resp_block {
                Some(b) => response_spec(b.0, b.1),
                None => None,
            };
            let config_res = config_spec(cfg_block, decoded);
            let config = match config_res {
                Some(Ok(c)) => Some(c),
                _ => None,
            };
            let config_errors = match config_res {
                Some(Err(e)) => e,
                _ => Seq::empty(),
            };
            let errors = request_errors + config_errors + config_checks(config, refs);
            match request {
                Ok(r) => if errors.len() == 0 {
                    Ok(ParsedRequestFileView { config, request: r, response, refs, exprs })
                } else {
                    Err(errors)
                },
                Err(_) => Err(errors),
            }
        },
    }
}

/// Plain view of what [parse] returns.
pub open spec fn parse_result_view(r: Result<ParsedRequestFile, Vec<Spanned<ReqlangError>>>) -> Result<ParsedRequestFileView, Seq<(ReqlangErrorView, Span)>> {
    match r {
        Ok(f) => Ok(f@),
        Err(e) => Err(errors_view(e@)),
    }
}

fn lower_ascii_exec(c: char) -> (res: char)
    ensures
        res == lower_ascii(c),
{
    if 'A' <= c && c <= 'Z' {
        let b = c as u8;
        (b + 32) as char
    } else {
        c
    }
}

fn lower_ascii_string(s: &String) -> (res: String)
    ensures
        res@ == lower_ascii_text(s@),
{
    let cs = chars_of(s.as_str());
    let mut out: Vec<char> = Vec::new();
    let n = cs.len();
    let mut i: usize = 0;
    while i < n
        invariant
            n == cs@.len(),
            cs@ == s@,
            i <= n,
            out@ == lower_ascii_text(s@).take(i as int),
        decreases n - i,
    {
        out.push(lower_ascii_exec(cs[i]));
        assert(out@ =~= lower_ascii_text(s@).take(i + 1));
        i += 1;
    }
    assert(out@ =~= lower_ascii_text(s@));
    crate::text::string_from_chars(&out)
}

fn is_forbidden_header(name: &str) -> (res: bool)
    ensures
        res == forbidden_header_names().contains(name@),
{
    let names: Vec<&str> = vec![
        "host",
        "accept-charset",
        "accept-encoding",
        "access-control-request-headers",
        "access-control-request-method",
        "connection",
        "content-length",
        "cookie",
        "date",
        "dnt",
        "expect",
        "keep-alive",
        "origin",
        "permission-policy",
        "te",
        "trailer",
        "transfer-encoding",
        "upgrade",
        "via",
    ];
    let ghost views = names@.map_values(|s: &str| s@);
    assert(views =~= forbidden_header_names());
    let n = names.len();
    let mut i: usize = 0;
    while i < n
        invariant
            n == names@.len(),
            views == names@.map_values(|s: &str| s@),
            views == forbidden_header_names(),
            i <= n,
            forall|j: int| 0 <= j < i ==> views[j] != name@,
        decreases n - i,
    {
        if str_eq(names[i], name) {
            assert(views[i as int] == name@);
            assert(forbidden_header_names()[i as int] == name@);
            return true;
        }
        i += 1;
    }
    false
}

fn push_errors(out: &mut Vec<Spanned<ReqlangError>>, more: Vec<Spanned<ReqlangError>>)
    ensures
        errors_view(final(out)@) == errors_view(old(out)@) + errors_view(more@),
{
    let mut more = more;
    let ghost a = out@;
    let ghost b = more@;
    out.append(&mut more);
    assert(errors_view(out@) =~= errors_view(a) + errors_view(b));
}

fn forbidden_header_errors(headers: &Vec<(String, String)>, span: &Span) -> (res: Vec<Spanned<ReqlangError>>)
    ensures
        errors_view(res@) == forbidden_errors(crate::types::http::headers_view(headers@), *span),
{
    let ghost hv = crate::types::http::headers_view(headers@);
    let mut out: Vec<Spanned<ReqlangError>> = Vec::new();
    let n = headers.len();
    let mut i: usize = 0;
    while i < n
        invariant
            n == headers@.len(),
            hv == crate::types::http::headers_view(headers@),
            i <= n,
            errors_view(out@) == forbidden_errors(hv.take(i as int), *span),
        decreases n - i,
    {
        proof {
            assert(hv.take(i + 1).drop_last() =~= hv.take(i as int));
        }
        let name = lower_ascii_string(&headers[i].0);
        if is_forbidden_header(name.as_str()) {
            let ghost before = errors_view(out@);
            out.push((ReqlangError::ParseError(ParseError::ForbiddenRequestHeaderNameError(name)), copy_span(span)));
            assert(errors_view(out@) =~= before.push(
                parse_error(ParseErrorView::ForbiddenRequestHeaderNameError(lower_ascii_text(hv[i as int].0)), *span)));
        }
        i += 1;
    }
    assert(hv.take(n as int) =~= hv);
    out
}

/// Whether a list of names holds a name.
pub fn contains_name(names: &Vec<String>, name: &str) -> (res: bool)
    ensures
        res == strings_view(names@).contains(name@),
{
    let n = names.len();
    let mut i: usize = 0;
    while i < n
        invariant
            n == names@.len(),
            i <= n,
            forall|j: int| 0 <= j < i ==> strings_view(names@)[j] != name@,
        decreases n - i,
    {
        if str_eq(names[i].as_str(), name) {
            assert(strings_view(names@)[i as int] == name@);
            return true;
        }
        i += 1;
    }
    false
}

fn map_has(m: &Vec<(String, String)>, key: &str) -> (res: bool)
    ensures
        res == pairs_map(pairs_view(m@)).contains_key(key@),
{
    let found = crate::maps::find_key(m, key);
    proof {
        crate::maps::lemma_keys_of_pairs_map(pairs_view(m@), key@);
        if let Some(i) = found {
            assert(pairs_view(m@)[i as int].0 == key@);
        } else {
            assert forall|j: int| 0 <= j < pairs_view(m@).len() implies pairs_view(m@)[j].0 != key@ by {
                assert(pairs_view(m@)[j].0 == m@[j].0@);
            }
        }
    }
    found.is_some()
}

fn has_default(config: &ParsedConfig, var: &str) -> (res: bool)
    ensures
        res == config_var_defaults(config@).contains_key(var@),
{
    match &config.vars {
        None => false,
        Some(vars) => {
            let ghost vv = vars@.map_values(|x: crate::types::ParsedConfigVariable| x@);
            let n = vars.len();
            let mut found = false;
            let mut i: usize = 0;
            while i < n
                invariant
                    n == vars@.len(),
                    vv == vars@.map_values(|x: crate::types::ParsedConfigVariable| x@),
                    i <= n,
                    found == var_defaults(vv.take(i as int)).contains_key(var@),
                decreases n - i,
            {
                proof {
                    assert(vv.take(i + 1).drop_last() =~= vv.take(i as int));
                }
                if vars[i].default.is_some() && str_eq(vars[i].name.as_str(), var) {
                    found = true;
                }
                i += 1;
            }
            assert(vv.take(n as int) =~= vv);
            found
        },
    }
}

fn env_errors(config: &ParsedConfig, var: &String, envs: &Vec<String>, span: &Span) -> (res: Vec<Spanned<ReqlangError>>)
    ensures
        errors_view(res@) == var_env_errors(config@, var@, strings_view(envs@), *span),
{
    let ghost ev = strings_view(envs@);
    let mut out: Vec<Spanned<ReqlangError>> = Vec::new();
    let n = envs.len();
    let mut i: usize = 0;
    while i < n
        invariant
            n == envs@.len(),
            ev == strings_view(envs@),
            i <= n,
            errors_view(out@) == var_env_errors(config@, var@, ev.take(i as int), *span),
        decreases n - i,
    {
        proof {
            assert(ev.take(i + 1).drop_last() =~= ev.take(i as int));
        }
        let missing = match config.env(envs[i].as_str()) {
            Some(m) => !map_has(&m, var.as_str()) && !has_default(config, var.as_str()),
            None => false,
        };
        if missing {
            let ghost before = errors_view(out@);
            out.push((
                ReqlangError::ParseError(ParseError::VariableUndefinedInEnvironment(var.clone(), envs[i].clone())),
                copy_span(span),
            ));
            assert(errors_view(out@) =~= before.push(
                parse_error(ParseErrorView::VariableUndefinedInEnvironment(var@, ev[i as int]), *span)));
        }
        i += 1;
    }
    assert(ev.take(n as int) =~= ev);
    out
}

fn variable_errors(config: &ParsedConfig, span: &Span) -> (res: Vec<Spanned<ReqlangError>>)
    ensures
        errors_view(res@) == var_errors(config@, config@.var_names(), *span),
{
    let vars = config.vars();
    let envs = config.envs();
    let ghost vn = config@.var_names();
    let mut out: Vec<Spanned<ReqlangError>> = Vec::new();
    let n = vars.len();
    let mut i: usize = 0;
    while i < n
        invariant
            n == vars@.len(),
            strings_view(vars@) == vn,
            strings_view(envs@) == config@.env_names(),
            vn == config@.var_names(),
            i <= n,
            errors_view(out@) == var_errors(config@, vn.take(i as int), *span),
        decreases n - i,
    {
        proof {
            assert(vn.take(i + 1).drop_last() =~= vn.take(i as int));
            assert(vn.take(i + 1).last() == vars@[i as int]@);
        }
        let ghost start = errors_view(out@);
        if envs.len() == 0 {
            out.push((
                ReqlangError::ParseError(ParseError::VariableNotDefinedInAnyEnvironment(vars[i].clone())),
                copy_span(span),
            ));
            assert(errors_view(out@) =~= start + seq![
                parse_error(ParseErrorView::VariableNotDefinedInAnyEnvironment(vars@[i as int]@), *span)]);
        } else {
            assert(errors_view(out@) =~= start + Seq::<(ReqlangErrorView, Span)>::empty());
        }
        let more = env_errors(config, &vars[i], &envs, span);
        push_errors(&mut out, more);
        i += 1;
    }
    assert(vn.take(n as int) =~= vn);
    out
}

fn undefined_reference_errors(refs: &Vec<Spanned<ReferenceType>>, config: Option<&ParsedConfig>) -> (res: Vec<Spanned<ReqlangError>>)
    ensures
        errors_view(res@) == undefined_errors(refs_view(refs@), match config {
            Some(c) => Some(c@),
            None => None,
        }),
{
    let ghost cv = match config {
        Some(c) => Some(c@),
        None => None,
    };
    let (vars, prompts, secrets) = match config {
        Some(c) => (c.vars(), c.prompts(), c.secrets()),
        None => (Vec::new(), Vec::new(), Vec::new()),
    };
    let ghost rv = refs_view(refs@);
    let mut out: Vec<Spanned<ReqlangError>> = Vec::new();
    let n = refs.len();
    let mut i: usize = 0;
    while i < n
        invariant
            n == refs@.len(),
            rv == refs_view(refs@),
            cv == match config {
                Some(c) => Some(c@),
                None => None::<ParsedConfigView>,
            },
            config matches Some(c) ==> strings_view(vars@) == c@.var_names() && strings_view(prompts@)
                == c@.prompt_names(0) && strings_view(secrets@) == c@.secret_names(),
            i <= n,
            errors_view(out@) == undefined_errors(rv.take(i as int), cv),
        decreases n - i,
    {
        proof {
            assert(rv.take(i + 1).drop_last() =~= rv.take(i as int));
        }
        let undefined = match &refs[i].0 {
            ReferenceType::Variable(name) => config.is_none() || !contains_name(&vars, name.as_str()),
            ReferenceType::Prompt(name) => config.is_none() || !contains_name(&prompts, name.as_str()),
            ReferenceType::Secret(name) => config.is_none() || !contains_name(&secrets, name.as_str()),
            _ => false,
        };
        if undefined {
            let ghost before = errors_view(out@);
            out.push((
                ReqlangError::ParseError(ParseError::UndefinedReferenceError(refs[i].0.copy())),
                copy_span(&refs[i].1),
            ));
            assert(errors_view(out@) =~= before.push(
                parse_error(ParseErrorView::UndefinedReferenceError(rv[i as int].0), rv[i as int].1)));
        }
        i += 1;
    }
    assert(rv.take(n as int) =~= rv);
    out
}

fn kind_reference(kind: u8, name: String) -> (res: ReferenceType)
    requires
        kind <= 2,
    ensures
        res@ == kind_ref(kind as int, name@),
{
    if kind == 0 {
        ReferenceType::Variable(name)
    } else if kind == 1 {
        ReferenceType::Prompt(name)
    } else {
        ReferenceType::Secret(name)
    }
}

fn unused_value_errors(names: &Vec<String>, kind: u8, ref_names: &Vec<String>, span: &Span) -> (res: Vec<Spanned<ReqlangError>>)
    requires
        kind <= 2,
    ensures
        errors_view(res@) == unused_errors(
            strings_view(names@),
            kind as int,
            strings_view(ref_names@),
            *span,
        ),
{
    let ghost nv = strings_view(names@);
    let mut out: Vec<Spanned<ReqlangError>> = Vec::new();
    let n = names.len();
    let mut i: usize = 0;
    while i < n
        invariant
            n == names@.len(),
            kind <= 2,
            nv == strings_view(names@),
            i <= n,
            errors_view(out@) == unused_errors(
                nv.take(i as int),
                kind as int,
                strings_view(ref_names@),
                *span,
            ),
        decreases n - i,
    {
        proof {
            assert(nv.take(i + 1).drop_last() =~= nv.take(i as int));
        }
        if !contains_name(ref_names, names[i].as_str()) {
            let ghost before = errors_view(out@);
            let r = kind_reference(kind, names[i].clone());
            out.push((ReqlangError::ParseError(ParseError::UnusedValueError(r)), copy_span(span)));
            assert(errors_view(out@) =~= before.push(
                parse_error(ParseErrorView::UnusedValueError(kind_ref(kind as int, nv[i as int])), *span)));
        }
        i += 1;
    }
    assert(nv.take(n as int) =~= nv);
    out
}

fn reference_names(refs: &Vec<Spanned<ReferenceType>>) -> (res: Vec<String>)
    ensures
        strings_view(res@) == refs_view(refs@).map_values(|r: (ReferenceTypeView, Span)| r.0.name()),
{
    let ghost target = refs_view(refs@).map_values(|r: (ReferenceTypeView, Span)| r.0.name());
    let mut out: Vec<String> = Vec::new();
    let n = refs.len();
    let mut i: usize = 0;
    while i < n
        invariant
            n == refs@.len(),
            target == refs_view(refs@).map_values(|r: (ReferenceTypeView, Span)| r.0.name()),
            i <= n,
            strings_view(out@) == target.take(i as int),
        decreases n - i,
    {
        let ghost before = out@;
        let name = refs[i].0.name().clone();
        out.push(name);
        proof {
            assert(strings_view(out@) =~= strings_view(before).push(name@));
            assert(target[i as int] == refs@[i as int].0@.name());
            assert(target.take(i + 1) =~= target.take(i as int).push(target[i as int]));
        }
        i += 1;
    }
    assert(target.take(n as int) =~= target);
    out
}

fn append_refs(out: &mut Vec<Spanned<ReferenceType>>, more: Vec<Spanned<ReferenceType>>)
    ensures
        refs_view(final(out)@) == refs_view(old(out)@) + refs_view(more@),
{
    let mut more = more;
    let ghost a = out@;
    let ghost b = more@;
    out.append(&mut more);
    assert(refs_view(out@) =~= refs_view(a) + refs_view(b));
}

fn append_exprs(out: &mut Vec<Spanned<String>>, more: Vec<Spanned<String>>)
    ensures
        spanned_strings_view(final(out)@) == spanned_strings_view(old(out)@) + spanned_strings_view(more@),
{
    let mut more = more;
    let ghost a = out@;
    let ghost b = more@;
    out.append(&mut more);
    assert(spanned_strings_view(out@) =~= spanned_strings_view(a) + spanned_strings_view(b));
}

fn copy_block(b: &Spanned<String>) -> (res: Spanned<String>)
    ensures
        res.0@ == b.0@,
        res.1 == b.1,
{
    (b.0.clone(), copy_span(&b.1))
}

/// Parse an [Ast] into a [ParsedRequestFile]
///
/// `decoded` is what decoding the text of the file's config block as TOML
/// gave (nothing when the file has no config block). The request block is
/// required. Template references are collected from the request, response and
/// config blocks and from the expression references in them; then the file is
/// checked: forbidden request headers, the config, variables without a value
/// in an environment, references that the config does not declare, and
/// declared names used only inside expressions. All errors found are
/// returned together.
#[verifier::rlimit(100)]
#[verifier::spinoff_prover]
pub fn parse(ast: &Ast, decoded: DecodedConfig) -> (res: Result<ParsedRequestFile, Vec<Spanned<ReqlangError>>>)
    requires
        decoded_fits(first_config(ast@), decoded_view(decoded)),
        first_response(ast@) matches Some(b) ==> response_code_ok(b.0),
    ensures
        parse_result_view(res) == parse_spec(ast@, decoded_view(decoded)),
{
    let ghost dv = decoded_view(decoded);
    let request = match ast.request() {
        Some(r) => r,
        None => {
            let errs = vec![(ReqlangError::ParseError(ParseError::MissingRequest), 0..0)];
            assert(errors_view(errs@) =~= seq![parse_error(ParseErrorView::MissingRequest, 0..0usize)]);
            return Err(errs);
        },
    };
    let response: Option<Spanned<String>> = match ast.response() {
        Some(r) => Some(copy_block(r)),
        None => None,
    };
    let config: Option<Spanned<String>> = match ast.config() {
        Some(c) => Some(copy_block(c)),
        None => None,
    };
    let ghost req_b = (request.0@, request.1);
    let ghost resp_b = or_empty(first_response(ast@));
    let ghost cfg_b = or_empty(first_config(ast@));
    let empty: Spanned<String> = (String::new(), 0..0);
    let resp_or = match &response {
        Some(r) => copy_block(r),
        None => copy_block(&empty),
    };
    let cfg_or = match &config {
        Some(c) => copy_block(c),
        None => copy_block(&empty),
    };
    assert(resp_or.0@ == resp_b.0 && resp_or.1 == resp_b.1);
    assert(cfg_or.0@ == cfg_b.0 && cfg_or.1 == cfg_b.1);

    // Template references of the blocks
    let mut refs = parse_references(request);
    append_refs(&mut refs, parse_references(&resp_or));
    append_refs(&mut refs, parse_references(&cfg_or));

    // Expression references of the blocks
    let mut exprs = parse_expressions(request);
    append_exprs(&mut exprs, parse_expressions(&resp_or));
    append_exprs(&mut exprs, parse_expressions(&cfg_or));
    let ghost ev = spanned_strings_view(exprs@);
    assert(ev == exprs_spec(req_b, resp_b, cfg_b));

    // Template references inside expression references
    let ghost base = refs_view(refs@);
    let n = exprs.len();
    let mut i: usize = 0;
    while i < n
        invariant
            n == exprs@.len(),
            ev == spanned_strings_view(exprs@),
            i <= n,
            refs_view(refs@) == base + expr_refs(ev.take(i as int)),
        decreases n - i,
    {
        proof {
            assert(ev.take(i + 1).drop_last() =~= ev.take(i as int));
        }
        let inner = parse_inner_references(&exprs[i]);
        append_refs(&mut refs, inner);
        proof {
            assert(base + expr_refs(ev.take(i as int)) + inner_references_spec(ev[i as int].0, ev[i as int].1)
                =~= base + expr_refs(ev.take(i + 1)));
        }
        i += 1;
    }
    assert(ev.take(n as int) =~= ev);
    assert(refs_view(refs@) == refs_spec(req_b, resp_b, cfg_b));

    let mut errors: Vec<Spanned<ReqlangError>> = Vec::new();

    // The HTTP request
    let parsed_request = match parse_request(request) {
        Ok((req, span)) => {
            let forbidden = forbidden_header_errors(&req.headers, &span);
            push_errors(&mut errors, forbidden);
            Some((req, span))
        },
        Err(errs) => {
            push_errors(&mut errors, errs);
            None
        },
    };
    let ghost request_errors = errors_view(errors@);

    // The HTTP response
    let parsed_response = match parse_response(&response) {
        Some(Ok(r)) => Some(r),
        _ => None,
    };

    // The config
    let parsed_config = match parse_config(&config, decoded) {
        Some(Ok(c)) => Some(c),
        Some(Err(errs)) => {
            push_errors(&mut errors, errs);
            None
        },
        None => None,
    };
    let ghost cv: Option<(ParsedConfigView, Span)> = match parsed_config {
        Some(ref c) => Some((c.0@, c.1)),
        None => None,
    };
    let ghost before_checks = errors_view(errors@);

    // Checks of the config against the references
    match &parsed_config {
        Some((c, span)) => {
            let ghost e0 = errors_view(errors@);
            push_errors(&mut errors, variable_errors(c, span));
            push_errors(&mut errors, undefined_reference_errors(&refs, Some(c)));
            let ref_names = reference_names(&refs);
            push_errors(&mut errors, unused_value_errors(&c.vars(), 0, &ref_names, span));
            push_errors(&mut errors, unused_value_errors(&c.prompts(), 1, &ref_names, span));
            push_errors(&mut errors, unused_value_errors(&c.secrets(), 2, &ref_names, span));
            assert(errors_view(errors@) =~= e0 + config_checks(cv, refs_view(refs@)));
        },
        None => {
            push_errors(&mut errors, undefined_reference_errors(&refs, None));
        },
    }
    assert(errors_view(errors@) == before_checks + config_checks(cv, refs_view(refs@)));
    if errors.len() > 0 {
        return Err(errors);
    }
    match parsed_request {
        Some(r) => Ok(ParsedRequestFile {
            config: parsed_config,
            request: r,
            response: parsed_response,
            refs,
            exprs,
        }),
        None => Err(errors),
    }
}

/// [parse] for a file whose response block may hold any status code: `None`
/// when the response block reads as a response head with a status code
/// outside 100 to 599, which [parse] does not accept.
pub fn parse_checked(ast: &Ast, decoded: DecodedConfig) -> (res: Option<Result<ParsedRequestFile, Vec<Spanned<ReqlangError>>>>)
    requires
        decoded_fits(first_config(ast@), decoded_view(decoded)),
    ensures
        res is None <==> (first_response(ast@) matches Some(b) && !response_code_ok(b.0)),
        res matches Some(r) ==> parse_result_view(r) == parse_spec(ast@, decoded_view(decoded)),
{
    if let Some((block, _)) = ast.response() {
        if !crate::parser::message::response_block_ok(block) {
            return None;
        }
    }
    Some(parse(ast, decoded))
}

proof fn lemma_no_undefined_errors(refs: Seq<(ReferenceTypeView, Span)>, config: Option<ParsedConfigView>)
    requires
        undefined_errors(refs, config).len() == 0,
    ensures
        forall|i: int| 0 <= i < refs.len() ==> !is_undefined(#[trigger] refs[i].0, config),
    decreases refs.len(),
{
    if refs.len() > 0 {
        let t = refs.drop_last();
        lemma_no_undefined_errors(t, config);
        assert forall|i: int| 0 <= i < refs.len() implies !is_undefined(#[trigger] refs[i].0, config) by {
            if i < t.len() {
                assert(refs[i] == t[i]);
            }
        }
    }
}

proof fn lemma_no_forbidden_errors(headers: Seq<(Seq<char>, Seq<char>)>, span: Span)
    requires
        forbidden_errors(headers, span).len() == 0,
    ensures
        forall|i: int| 0 <= i < headers.len() ==> !forbidden_header_names().contains(lower_ascii_text(#[trigger] headers[i].0)),
    decreases headers.len(),
{
    if headers.len() > 0 {
        let t = headers.drop_last();
        lemma_no_forbidden_errors(t, span);
        assert forall|i: int| 0 <= i < headers.len() implies !forbidden_header_names().contains(lower_ascii_text(#[trigger] headers[i].0)) by {
            if i < t.len() {
                assert(headers[i] == t[i]);
            }
        }
    }
}

/// No error of a list is the missing-request error.
spec fn no_missing(s: Seq<(ReqlangErrorView, Span)>) -> bool {
    forall|i: int| 0 <= i < s.len() ==> (#[trigger] s[i]).0 != ReqlangErrorView::ParseError(ParseErrorView::MissingRequest)
}

proof fn lemma_no_missing_push(s: Seq<(ReqlangErrorView, Span)>, x: (ReqlangErrorView, Span))
    requires
        no_missing(s),
        x.0 != ReqlangErrorView::ParseError(ParseErrorView::MissingRequest),
    ensures
        no_missing(s.push(x)),
{
    assert forall|i: int| 0 <= i < s.push(x).len() implies (#[trigger] s.push(x)[i]).0 != ReqlangErrorView::ParseError(ParseErrorView::MissingRequest) by {
        if i < s.len() {
            assert(s.push(x)[i] == s[i]);
        }
    }
}

proof fn lemma_no_missing_concat(a: Seq<(ReqlangErrorView, Span)>, b: Seq<(ReqlangErrorView, Span)>)
    requires
        no_missing(a),
        no_missing(b),
    ensures
        no_missing(a + b),
{
    assert forall|i: int| 0 <= i < (a + b).len() implies (#[trigger] (a + b)[i]).0 != ReqlangErrorView::ParseError(ParseErrorView::MissingRequest) by {
        if i < a.len() {
            assert((a + b)[i] == a[i]);
        } else {
            assert((a + b)[i] == b[i - a.len()]);
        }
    }
}

proof fn lemma_forbidden_no_missing(headers: Seq<(Seq<char>, Seq<char>)>, span: Span)
    ensures
        no_missing(forbidden_errors(headers, span)),
    decreases headers.len(),
{
    if headers.len() > 0 {
        lemma_forbidden_no_missing(headers.drop_last(), span);
        let name = lower_ascii_text(headers.last().0);
        if forbidden_header_names().contains(name) {
            lemma_no_missing_push(forbidden_errors(headers.drop_last(), span), parse_error(ParseErrorView::ForbiddenRequestHeaderNameError(name), span));
        }
    }
}

proof fn lemma_var_env_no_missing(c: ParsedConfigView, var: Seq<char>, envs: Seq<Seq<char>>, span: Span)
    ensures
        no_missing(var_env_errors(c, var, envs, span)),
    decreases envs.len(),
{
    if envs.len() > 0 {
        lemma_var_env_no_missing(c, var, envs.drop_last(), span);
        if var_missing(c, var, envs.last()) {
            lemma_no_missing_push(var_env_errors(c, var, envs.drop_last(), span), parse_error(ParseErrorView::VariableUndefinedInEnvironment(var, envs.last()), span));
        }
    }
}

proof fn lemma_var_errors_no_missing(c: ParsedConfigView, vars: Seq<Seq<char>>, span: Span)
    ensures
        no_missing(var_errors(c, vars, span)),
    decreases vars.len(),
{
    if vars.len() > 0 {
        let v = vars.last();
        lemma_var_errors_no_missing(c, vars.drop_last(), span);
        let none_defined = if c.env_names().len() == 0 {
            seq![parse_error(ParseErrorView::VariableNotDefinedInAnyEnvironment(v), span)]
        } else {
            Seq::empty()
        };
        assert(no_missing(none_defined));
        lemma_var_env_no_missing(c, v, c.env_names(), span);
        lemma_no_missing_concat(var_errors(c, vars.drop_last(), span), none_defined);
        lemma_no_missing_concat(var_errors(c, vars.drop_last(), span) + none_defined, var_env_errors(c, v, c.env_names(), span));
    }
}

proof fn lemma_undefined_no_missing(refs: Seq<(ReferenceTypeView, Span)>, config: Option<ParsedConfigView>)
    ensures
        no_missing(undefined_errors(refs, config)),
    decreases refs.len(),
{
    if refs.len() > 0 {
        lemma_undefined_no_missing(refs.drop_last(), config);
        let r = refs.last();
        if is_undefined(r.0, config) {
            lemma_no_missing_push(undefined_errors(refs.drop_last(), config), parse_error(ParseErrorView::UndefinedReferenceError(r.0), r.1));
        }
    }
}

proof fn lemma_unused_no_missing(names: Seq<Seq<char>>, kind: int, ref_names: Seq<Seq<char>>, span: Span)
    ensures
        no_missing(unused_errors(names, kind, ref_names, span)),
    decreases names.len(),
{
    if names.len() > 0 {
        lemma_unused_no_missing(names.drop_last(), kind, ref_names, span);
        let n = names.last();
        if !ref_names.contains(n) {
            lemma_no_missing_push(unused_errors(names.drop_last(), kind, ref_names, span), parse_error(ParseErrorView::UnusedValueError(kind_ref(kind, n)), span));
        }
    }
}

proof fn lemma_config_checks_no_missing(config: Option<(ParsedConfigView, Span)>, refs: Seq<(ReferenceTypeView, Span)>)
    ensures
        no_missing(config_checks(config, refs)),
{
    let ref_names = refs.map_values(|r: (ReferenceTypeView, Span)| r.0.name());
    match config {
        Some((c, s)) => {
            lemma_var_errors_no_missing(c, c.var_names(), s);
            lemma_undefined_no_missing(refs, Some(c));
            lemma_unused_no_missing(c.var_names(), 0, ref_names, s);
            lemma_unused_no_missing(c.prompt_names(0), 1, ref_names, s);
            lemma_unused_no_missing(c.secret_names(), 2, ref_names, s);
            let a = var_errors(c, c.var_names(), s);
            let b = undefined_errors(refs, Some(c));
            let u0 = unused_errors(c.var_names(), 0, ref_names, s);
            let u1 = unused_errors(c.prompt_names(0), 1, ref_names, s);
            let u2 = unused_errors(c.secret_names(), 2, ref_names, s);
            lemma_no_missing_concat(a, b);
            lemma_no_missing_concat(a + b, u0);
            lemma_no_missing_concat(a + b + u0, u1);
            lemma_no_missing_concat(a + b + u0 + u1, u2);
        },
        None => {
            lemma_undefined_no_missing(refs, None);
        },
    }
}

/// The errors that parsing a file with a request block gives: every error
/// of the request, of the config and of the config's checks, when there is
/// one (the request, config and checks as [parse_spec] makes them).
pub open spec fn request_file_errors(nodes: Seq<(AstNodeView, Span)>, decoded: Option<Result<ParsedConfigView, crate::parser::config::ConfigDecodeErrorView>>) -> Seq<(ReqlangErrorView, Span)>
    recommends
        first_request(nodes) is Some,
{
    let req = first_request(nodes)->Some_0;
    let resp = or_empty(first_response(nodes));
    let cfg_block = first_config(nodes);
    let cfg = or_empty(cfg_block);
    let refs = refs_spec(req, resp, cfg);
    let request_errors = match request_spec(req.0, req.1) {
        Ok((r, s)) => forbidden_errors(r.headers, s),
        Err(e) => e,
    };
    let config_res = config_spec(cfg_block, decoded);
    let config = match config_res {
        Some(Ok(c)) => Some(c),
        _ => None,
    };
    let config_errors = match config_res {
        Some(Err(e)) => e,
        _ => Seq::empty(),
    };
    request_errors + config_errors + config_checks(config, refs)
}

/// A file with a request block gives the errors of [request_file_errors]
/// whenever there are any.
proof fn lemma_parse_errors(nodes: Seq<(AstNodeView, Span)>, decoded: Option<Result<ParsedConfigView, crate::parser::config::ConfigDecodeErrorView>>)
    requires
        first_request(nodes) is Some,
    ensures
        request_file_errors(nodes, decoded).len() > 0 ==> parse_spec(nodes, decoded) == Err::<ParsedRequestFileView, Seq<(ReqlangErrorView, Span)>>(request_file_errors(nodes, decoded)),
        parse_spec(nodes, decoded) is Err ==> parse_spec(nodes, decoded) == Err::<ParsedRequestFileView, Seq<(ReqlangErrorView, Span)>>(request_file_errors(nodes, decoded)),
{
    let req = first_request(nodes)->Some_0;
    match request_spec(req.0, req.1) {
        Ok(_) => {},
        Err(e) => {
            assert(e.len() > 0) by {
                match http_request_head(message_text(req.0)) {
                    RequestReadView::Complete(_) => {},
                    _ => {},
                }
            }
        },
    }
}

/// Parsing gives the missing-request error, and only that error, exactly
/// when the file has no request block.
pub proof fn lemma_missing_request(nodes: Seq<(AstNodeView, Span)>, decoded: Option<Result<ParsedConfigView, crate::parser::config::ConfigDecodeErrorView>>)
    ensures
        parse_spec(nodes, decoded) == Err::<ParsedRequestFileView, Seq<(ReqlangErrorView, Span)>>(seq![parse_error(ParseErrorView::MissingRequest, 0..0usize)])
            <==> first_request(nodes) is None,
{
    if first_request(nodes) is Some {
        let req = first_request(nodes)->Some_0;
        let resp = or_empty(first_response(nodes));
        let cfg_block = first_config(nodes);
        let cfg = or_empty(cfg_block);
        let refs = refs_spec(req, resp, cfg);
        let request_errors = match request_spec(req.0, req.1) {
            Ok((r, s)) => forbidden_errors(r.headers, s),
            Err(e) => e,
        };
        match request_spec(req.0, req.1) {
            Ok((r, s)) => lemma_forbidden_no_missing(r.headers, s),
            Err(e) => {
                match http_request_head(message_text(req.0)) {
                    RequestReadView::Complete(_) => {},
                    _ => {},
                }
                assert(no_missing(e));
            },
        }
        let config_res = config_spec(cfg_block, decoded);
        let config = match config_res {
            Some(Ok(c)) => Some(c),
            _ => None,
        };
        let config_errors = match config_res {
            Some(Err(e)) => e,
            _ => Seq::empty(),
        };
        assert(no_missing(config_errors));
        lemma_config_checks_no_missing(config, refs);
        lemma_no_missing_concat(request_errors, config_errors);
        lemma_no_missing_concat(request_errors + config_errors, config_checks(config, refs));
        let errors = request_file_errors(nodes, decoded);
        assert(errors == request_errors + config_errors + config_checks(config, refs));
        lemma_parse_errors(nodes, decoded);
        if parse_spec(nodes, decoded) == Err::<ParsedRequestFileView, Seq<(ReqlangErrorView, Span)>>(seq![parse_error(ParseErrorView::MissingRequest, 0..0usize)]) {
            assert(errors == seq![parse_error(ParseErrorView::MissingRequest, 0..0usize)]);
            assert(errors[0].0 == ReqlangErrorView::ParseError(ParseErrorView::MissingRequest));
        }
    }
}

proof fn lemma_contains_in(a: Seq<(ReqlangErrorView, Span)>, b: Seq<(ReqlangErrorView, Span)>, x: (ReqlangErrorView, Span))
    ensures
        a.contains(x) ==> (a + b).contains(x),
        b.contains(x) ==> (a + b).contains(x),
{
    if a.contains(x) {
        let k = choose|k: int| 0 <= k < a.len() && a[k] == x;
        assert((a + b)[k] == x);
    }
    if b.contains(x) {
        let k = choose|k: int| 0 <= k < b.len() && b[k] == x;
        assert((a + b)[a.len() + k] == x);
    }
}

proof fn lemma_var_env_errors_has(c: ParsedConfigView, var: Seq<char>, envs: Seq<Seq<char>>, span: Span)
    ensures
        forall|j: int| 0 <= j < envs.len() && var_missing(c, var, #[trigger] envs[j]) ==> var_env_errors(c, var, envs, span).contains(
            parse_error(ParseErrorView::VariableUndefinedInEnvironment(var, envs[j]), span),
        ),
    decreases envs.len(),
{
    if envs.len() > 0 {
        let t = envs.drop_last();
        lemma_var_env_errors_has(c, var, t, span);
        let rest = var_env_errors(c, var, t, span);
        let x = parse_error(ParseErrorView::VariableUndefinedInEnvironment(var, envs.last()), span);
        assert forall|j: int| 0 <= j < envs.len() && var_missing(c, var, #[trigger] envs[j]) implies var_env_errors(c, var, envs, span).contains(
            parse_error(ParseErrorView::VariableUndefinedInEnvironment(var, envs[j]), span),
        ) by {
            let y = parse_error(ParseErrorView::VariableUndefinedInEnvironment(var, envs[j]), span);
            if j < t.len() {
                assert(envs[j] == t[j]);
                let k = choose|k: int| 0 <= k < rest.len() && rest[k] == y;
                if var_missing(c, var, envs.last()) {
                    assert(rest.push(x)[k] == y);
                }
            } else {
                assert(rest.push(x)[rest.len() as int] == x);
            }
        }
    }
}

proof fn lemma_var_errors_has(c: ParsedConfigView, vars: Seq<Seq<char>>, span: Span)
    ensures
        forall|i: int| 0 <= i < vars.len() && c.env_names().len() == 0 ==> var_errors(c, vars, span).contains(
            parse_error(ParseErrorView::VariableNotDefinedInAnyEnvironment(#[trigger] vars[i]), span),
        ),
        forall|i: int, j: int| 0 <= i < vars.len() && 0 <= j < c.env_names().len() && var_missing(c, #[trigger] vars[i], #[trigger] c.env_names()[j])
            ==> var_errors(c, vars, span).contains(
            parse_error(ParseErrorView::VariableUndefinedInEnvironment(vars[i], c.env_names()[j]), span),
        ),
    decreases vars.len(),
{
    if vars.len() > 0 {
        let t = vars.drop_last();
        let v = vars.last();
        lemma_var_errors_has(c, t, span);
        lemma_var_env_errors_has(c, v, c.env_names(), span);
        let rest = var_errors(c, t, span);
        let none_defined = if c.env_names().len() == 0 {
            seq![parse_error(ParseErrorView::VariableNotDefinedInAnyEnvironment(v), span)]
        } else {
            Seq::empty()
        };
        let envs = var_env_errors(c, v, c.env_names(), span);
        assert(var_errors(c, vars, span) == rest + none_defined + envs);
        assert forall|i: int| 0 <= i < vars.len() && c.env_names().len() == 0 implies var_errors(c, vars, span).contains(
            parse_error(ParseErrorView::VariableNotDefinedInAnyEnvironment(#[trigger] vars[i]), span),
        ) by {
            let x = parse_error(ParseErrorView::VariableNotDefinedInAnyEnvironment(vars[i]), span);
            if i < t.len() {
                assert(vars[i] == t[i]);
                lemma_contains_in(rest, none_defined, x);
            } else {
                assert(none_defined[0] == x);
                lemma_contains_in(rest, none_defined, x);
            }
            lemma_contains_in(rest + none_defined, envs, x);
        }
        assert forall|i: int, j: int| 0 <= i < vars.len() && 0 <= j < c.env_names().len() && var_missing(c, #[trigger] vars[i], #[trigger] c.env_names()[j])
            implies var_errors(c, vars, span).contains(
            parse_error(ParseErrorView::VariableUndefinedInEnvironment(vars[i], c.env_names()[j]), span),
        ) by {
            let x = parse_error(ParseErrorView::VariableUndefinedInEnvironment(vars[i], c.env_names()[j]), span);
            if i < t.len() {
                assert(vars[i] == t[i]);
                lemma_contains_in(rest, none_defined, x);
            }
            lemma_contains_in(rest + none_defined, envs, x);
        }
    }
}

/// The rules on where variables are defined: when a file has a request
/// block and a config that decodes, parsing fails; it reports, at the
/// config's span, each declared variable when the config defines no
/// environment, and each declared variable that has neither a value nor a
/// default in an environment, with that environment.
pub proof fn lemma_variables_reported(
    nodes: Seq<(AstNodeView, Span)>,
    decoded: Option<Result<ParsedConfigView, crate::parser::config::ConfigDecodeErrorView>>,
    c: ParsedConfigView,
    s: Span,
)
    requires
        first_request(nodes) is Some,
        config_spec(first_config(nodes), decoded) == Some(Ok::<(ParsedConfigView, Span), Seq<(ReqlangErrorView, Span)>>((c, s))),
    ensures
        forall|i: int| 0 <= i < c.var_names().len() && c.env_names().len() == 0 ==> {
            &&& parse_spec(nodes, decoded) is Err
            &&& parse_spec(nodes, decoded)->Err_0.contains(
                parse_error(ParseErrorView::VariableNotDefinedInAnyEnvironment(#[trigger] c.var_names()[i]), s),
            )
        },
        forall|i: int, j: int|
            0 <= i < c.var_names().len() && 0 <= j < c.env_names().len() && var_missing(c, #[trigger] c.var_names()[i], #[trigger] c.env_names()[j]) ==> {
                &&& parse_spec(nodes, decoded) is Err
                &&& parse_spec(nodes, decoded)->Err_0.contains(
                    parse_error(ParseErrorView::VariableUndefinedInEnvironment(c.var_names()[i], c.env_names()[j]), s),
                )
            },
{
    let req = first_request(nodes)->Some_0;
    let refs = refs_spec(req, or_empty(first_response(nodes)), or_empty(first_config(nodes)));
    let request_errors = match request_spec(req.0, req.1) {
        Ok((r, sp)) => forbidden_errors(r.headers, sp),
        Err(e) => e,
    };
    let errors = request_file_errors(nodes, decoded);
    let ref_names = refs.map_values(|r: (ReferenceTypeView, Span)| r.0.name());
    let ve = var_errors(c, c.var_names(), s);
    let rest = undefined_errors(refs, Some(c)) + unused_errors(c.var_names(), 0, ref_names, s) + unused_errors(
        c.prompt_names(0), 1, ref_names, s) + unused_errors(c.secret_names(), 2, ref_names, s);
    assert(config_checks(Some((c, s)), refs) == ve + undefined_errors(refs, Some(c)) + unused_errors(c.var_names(), 0, ref_names, s)
        + unused_errors(c.prompt_names(0), 1, ref_names, s) + unused_errors(c.secret_names(), 2, ref_names, s));
    assert(config_checks(Some((c, s)), refs) =~= ve + rest);
    assert(errors =~= request_errors + (ve + rest));
    lemma_var_errors_has(c, c.var_names(), s);
    lemma_parse_errors(nodes, decoded);
    assert forall|x: (ReqlangErrorView, Span)| ve.contains(x) implies errors.contains(x) && parse_spec(nodes, decoded) is Err
        && parse_spec(nodes, decoded)->Err_0 == errors by {
        lemma_contains_in(ve, rest, x);
        lemma_contains_in(request_errors, ve + rest, x);
    }
}

/// A file that parses has only declared references: every variable, prompt
/// and secret it references is declared by its config.
pub proof fn lemma_parsed_references_declared(nodes: Seq<(AstNodeView, Span)>, decoded: Option<Result<ParsedConfigView, crate::parser::config::ConfigDecodeErrorView>>)
    requires
        parse_spec(nodes, decoded) is Ok,
    ensures
        ({
            let f = parse_spec(nodes, decoded)->Ok_0;
            let c = match f.config {
                Some(c) => Some(c.0),
                None => None,
            };
            forall|i: int| 0 <= i < f.refs.len() ==> !is_undefined(#[trigger] f.refs[i].0, c)
        }),
        ({
            let f = parse_spec(nodes, decoded)->Ok_0;
            forall|i: int| 0 <= i < f.refs.len() ==> match #[trigger] f.refs[i].0 {
                ReferenceTypeView::Variable(n) => f.config is Some && f.config->Some_0.0.var_names().contains(n),
                ReferenceTypeView::Prompt(n) => f.config is Some && f.config->Some_0.0.prompt_names(0).contains(n),
                ReferenceTypeView::Secret(n) => f.config is Some && f.config->Some_0.0.secret_names().contains(n),
                _ => true,
            }
        }),
{
    let f = parse_spec(nodes, decoded)->Ok_0;
    let c = match f.config {
        Some(c) => Some(c.0),
        None => None,
    };
    let checks = config_checks(f.config, f.refs);
    assert(checks.len() == 0);
    let ref_names = f.refs.map_values(|r: (ReferenceTypeView, Span)| r.0.name());
    match f.config {
        Some((cv, s)) => {
            assert(checks == var_errors(cv, cv.var_names(), s) + undefined_errors(f.refs, Some(cv)) + unused_errors(
                cv.var_names(), 0, ref_names, s) + unused_errors(cv.prompt_names(0), 1, ref_names, s)
                + unused_errors(cv.secret_names(), 2, ref_names, s));
        },
        None => {},
    }
    assert(undefined_errors(f.refs, c).len() == 0);
    lemma_no_undefined_errors(f.refs, c);
}

/// A file that parses sends no forbidden header: no request header's name,
/// in lower case, is one of the headers computed when a request is sent.
pub proof fn lemma_parsed_headers_allowed(nodes: Seq<(AstNodeView, Span)>, decoded: Option<Result<ParsedConfigView, crate::parser::config::ConfigDecodeErrorView>>)
    requires
        parse_spec(nodes, decoded) is Ok,
    ensures
        ({
            let h = parse_spec(nodes, decoded)->Ok_0.request.0.headers;
            forall|i: int| 0 <= i < h.len() ==> !forbidden_header_names().contains(lower_ascii_text(#[trigger] h[i].0))
        }),
{
    let f = parse_spec(nodes, decoded)->Ok_0;
    lemma_no_forbidden_errors(f.request.0.headers, f.request.1);
}

proof fn lemma_no_var_env_errors(c: ParsedConfigView, var: Seq<char>, envs: Seq<Seq<char>>, span: Span)
    requires
        var_env_errors(c, var, envs, span).len() == 0,
    ensures
        forall|i: int| 0 <= i < envs.len() ==> !var_missing(c, var, #[trigger] envs[i]),
    decreases envs.len(),
{
    if envs.len() > 0 {
        let t = envs.drop_last();
        lemma_no_var_env_errors(c, var, t, span);
        assert forall|i: int| 0 <= i < envs.len() implies !var_missing(c, var, #[trigger] envs[i]) by {
            if i < t.len() {
                assert(envs[i] == t[i]);
            }
        }
    }
}

proof fn lemma_no_var_errors(c: ParsedConfigView, vars: Seq<Seq<char>>, span: Span)
    requires
        var_errors(c, vars, span).len() == 0,
    ensures
        vars.len() > 0 ==> c.env_names().len() > 0,
        forall|i: int, j: int| 0 <= i < vars.len() && 0 <= j < c.env_names().len() ==> !var_missing(c, #[trigger] vars[i], #[trigger] c.env_names()[j]),
    decreases vars.len(),
{
    if vars.len() > 0 {
        let t = vars.drop_last();
        lemma_no_var_errors(c, t, span);
        lemma_no_var_env_errors(c, vars.last(), c.env_names(), span);
        assert forall|i: int, j: int| 0 <= i < vars.len() && 0 <= j < c.env_names().len() implies !var_missing(c, #[trigger] vars[i], #[trigger] c.env_names()[j]) by {
            if i < t.len() {
                assert(vars[i] == t[i]);
            }
        }
    }
}

/// A file that parses defines its variables: when it declares variables it
/// defines environments, and every declared variable has a value, of its own
/// or by default, in every environment.
pub proof fn lemma_parsed_variables_defined(nodes: Seq<(AstNodeView, Span)>, decoded: Option<Result<ParsedConfigView, crate::parser::config::ConfigDecodeErrorView>>)
    requires
        parse_spec(nodes, decoded) is Ok,
        parse_spec(nodes, decoded)->Ok_0.config is Some,
    ensures
        ({
            let c = parse_spec(nodes, decoded)->Ok_0.config->Some_0.0;
            &&& c.var_names().len() > 0 ==> c.env_names().len() > 0
            &&& forall|i: int, j: int| 0 <= i < c.var_names().len() && 0 <= j < c.env_names().len() ==>
                !var_missing(c, #[trigger] c.var_names()[i], #[trigger] c.env_names()[j])
        }),
{
    let f = parse_spec(nodes, decoded)->Ok_0;
    let (c, s) = f.config->Some_0;
    let ref_names = f.refs.map_values(|r: (ReferenceTypeView, Span)| r.0.name());
    let checks = config_checks(f.config, f.refs);
    assert(checks.len() == 0);
    assert(checks == var_errors(c, c.var_names(), s) + undefined_errors(f.refs, Some(c)) + unused_errors(
        c.var_names(), 0, ref_names, s) + unused_errors(c.prompt_names(0), 1, ref_names, s)
        + unused_errors(c.secret_names(), 2, ref_names, s));
    lemma_no_var_errors(c, c.var_names(), s);
}

/// A declared name is used by a parsed file when one of its references (of
/// the blocks, or inside an expression reference) names it.
pub open spec fn value_used(f: ParsedRequestFileView, name: Seq<char>) -> bool {
    f.refs.map_values(|r: (ReferenceTypeView, Span)| r.0.name()).contains(name)
}

proof fn lemma_no_unused_errors(names: Seq<Seq<char>>, kind: int, ref_names: Seq<Seq<char>>, span: Span)
    requires
        unused_errors(names, kind, ref_names, span).len() == 0,
    ensures
        forall|i: int| 0 <= i < names.len() ==> ref_names.contains(#[trigger] names[i]),
    decreases names.len(),
{
    if names.len() > 0 {
        let t = names.drop_last();
        lemma_no_unused_errors(t, kind, ref_names, span);
        assert forall|i: int| 0 <= i < names.len() implies ref_names.contains(#[trigger] names[i]) by {
            if i < t.len() {
                assert(names[i] == t[i]);
            }
        }
    }
}

/// A file that parses uses what its config declares: every declared
/// variable, prompt and secret is named by a reference of the file.
pub proof fn lemma_parsed_values_used(nodes: Seq<(AstNodeView, Span)>, decoded: Option<Result<ParsedConfigView, crate::parser::config::ConfigDecodeErrorView>>)
    requires
        parse_spec(nodes, decoded) is Ok,
        parse_spec(nodes, decoded)->Ok_0.config is Some,
    ensures
        ({
            let f = parse_spec(nodes, decoded)->Ok_0;
            let c = f.config->Some_0.0;
            &&& forall|i: int| 0 <= i < c.var_names().len() ==> value_used(f, #[trigger] c.var_names()[i])
            &&& forall|i: int| 0 <= i < c.prompt_names(0).len() ==> value_used(f, #[trigger] c.prompt_names(0)[i])
            &&& forall|i: int| 0 <= i < c.secret_names().len() ==> value_used(f, #[trigger] c.secret_names()[i])
        }),
{
    let f = parse_spec(nodes, decoded)->Ok_0;
    let (c, s) = f.config->Some_0;
    let ref_names = f.refs.map_values(|r: (ReferenceTypeView, Span)| r.0.name());
    let checks = config_checks(f.config, f.refs);
    assert(checks.len() == 0);
    assert(checks == var_errors(c, c.var_names(), s) + undefined_errors(f.refs, Some(c)) + unused_errors(
        c.var_names(), 0, ref_names, s) + unused_errors(c.prompt_names(0), 1, ref_names, s)
        + unused_errors(c.secret_names(), 2, ref_names, s));
    lemma_no_unused_errors(c.var_names(), 0, ref_names, s);
    lemma_no_unused_errors(c.prompt_names(0), 1, ref_names, s);
    lemma_no_unused_errors(c.secret_names(), 2, ref_names, s);
}

/// A file that parses has a request block that reads, untemplated, as an
/// HTTP request message: the parsed request is what reading that block
/// gives.
pub proof fn lemma_parsed_request_is_message(nodes: Seq<(AstNodeView, Span)>, decoded: Option<Result<ParsedConfigView, crate::parser::config::ConfigDecodeErrorView>>)
    requires
        parse_spec(nodes, decoded) is Ok,
    ensures
        first_request(nodes) matches Some(r) && request_spec(r.0, r.1) == Ok::<(HttpRequestView, Span), Seq<(ReqlangErrorView, Span)>>(
            parse_spec(nodes, decoded)->Ok_0.request,
        ),
{
}

} // verus!
