//! Templating a request file: replacing its template references with the
//! values of an environment, prompts, secrets and providers.
use crate::ast::{ast_spec, first_config, first_request, first_response, Ast};
use crate::errors::{ReqlangError, ReqlangErrorView, ResolverError, ResolverErrorView};
use crate::expression::{
    env_fits, evaluate_expressions, expression_outcomes, looked_up, lookup_value, name_index, outcomes_view, source_safe, sources_view, with_context, ExprEnv,
    ExprEnvView, ExprOutcome, ExprOutcomeView,
};
use crate::maps::{inserted_pairs, inserted_pairs_of, lookup, pairs_map, pairs_view, StringMap};
use crate::parser::config::{decoded_fits, decoded_view, DecodedConfig};
use crate::parser::message::{errors_view, parse_request, parse_response, request_spec, response_code_ok, response_spec};
use crate::parser::references::{
    expr_matches, expressions_spec, inner_refs, inner_references_spec, is_name_char, lemma_expr_matches_open,
    lemma_group_ref_names, lemma_inner_ref_names, ref_groups, references_spec, refs_in_groups, spanned_refs,
};
use crate::parser::request_file::{contains_name, exprs_spec, expr_refs, or_empty, parse, parse_spec, refs_spec};
use crate::span::{copy_span, Span, Spanned};
use crate::text::{chars_of, push_str, string_from_chars};
use crate::types::{
    prompt_defaults, prompt_names, spanned_strings_view, strings_view, var_values_or_empty, ParsedRequestFile, ParsedRequestFileView, PromptView,
    ReferenceTypeView, TemplatedRequestFile, TemplatedRequestFileView,
};
use vstd::prelude::*;
use vstd::string::*;

verus! {

/// `s` with every occurrence of `pat` replaced by `rep`, scanning from the
/// start and not overlapping (`str::replace`, for a pattern that is not
/// empty; an empty pattern leaves `s` as it is).
pub open spec fn replace_all(s: Seq<char>, pat: Seq<char>, rep: Seq<char>) -> Seq<char>
    decreases s.len(),
{
    if pat.len() == 0 || s.len() < pat.len() {
        s
    } else if s.take(pat.len() as int) == pat {
        rep + replace_all(s.skip(pat.len() as int), pat, rep)
    } else {
        seq![s[0]] + replace_all(s.skip(1), pat, rep)
    }
}

fn matches_at(cs: &Vec<char>, i: usize, ps: &Vec<char>) -> (res: bool)
    requires
        i + ps@.len() <= cs@.len(),
    ensures
        res == (cs@.skip(i as int).take(ps@.len() as int) == ps@),
{
    let pn = ps.len();
    let cn = cs.len();
    let mut j: usize = 0;
    while j < pn
        invariant
            pn == ps@.len(),
            cn == cs@.len(),
            i + pn <= cs@.len(),
            j <= pn,
            forall|k: int| 0 <= k < j ==> cs@[i + k] == ps@[k],
        decreases pn - j,
    {
        if cs[i + j] != ps[j] {
            assert(cs@.skip(i as int).take(pn as int)[j as int] != ps@[j as int]);
            return false;
        }
        j += 1;
    }
    assert(cs@.skip(i as int).take(pn as int) =~= ps@);
    true
}

/// Replace every occurrence of `pat` in `s` by `rep`
pub fn replace_text(s: &str, pat: &str, rep: &str) -> (res: String)
    ensures
        res@ == replace_all(s@, pat@, rep@),
{
    let cs = chars_of(s);
    let ps = chars_of(pat);
    let rs = chars_of(rep);
    let n = cs.len();
    let pn = ps.len();
    let mut out: Vec<char> = Vec::new();
    let mut i: usize = 0;
    assert(cs@.skip(0) =~= cs@);
    while i < n
        invariant
            cs@ == s@,
            ps@ == pat@,
            rs@ == rep@,
            n == cs@.len(),
            pn == ps@.len(),
            i <= n,
            out@ + replace_all(cs@.skip(i as int), ps@, rs@) == replace_all(s@, pat@, rep@),
        decreases n - i,
    {
        let ghost rest = cs@.skip(i as int);
        if pn == 0 || n - i < pn {
            // what is left stays as it is
            let mut k = i;
            while k < n
                invariant
                    cs@ == s@,
                    n == cs@.len(),
                    i <= k <= n,
                    out@ + cs@.skip(k as int) == replace_all(s@, pat@, rep@),
                decreases n - k,
            {
                let ghost before = out@;
                out.push(cs[k]);
                assert(before + cs@.skip(k as int) =~= out@ + cs@.skip(k + 1));
                k += 1;
            }
            assert(out@ + cs@.skip(n as int) =~= out@);
            return string_from_chars(&out);
        }
        if matches_at(&cs, i, &ps) {
            let ghost before = out@;
            let mut j: usize = 0;
            while j < rs.len()
                invariant
                    out@ == before + rs@.take(j as int),
                    j <= rs@.len(),
                decreases rs@.len() - j,
            {
                out.push(rs[j]);
                assert(out@ =~= before + rs@.take(j + 1));
                j += 1;
            }
            proof {
                assert(rs@.take(rs@.len() as int) =~= rs@);
                assert(rest.take(pn as int) == ps@);
                assert(rest.skip(pn as int) =~= cs@.skip(i + pn));
                assert(before + (rs@ + replace_all(cs@.skip(i + pn), ps@, rs@)) =~= out@ + replace_all(
                    cs@.skip(i + pn), ps@, rs@));
            }
            i += pn;
        } else {
            let ghost before = out@;
            out.push(cs[i]);
            proof {
                assert(rest[0] == cs@[i as int]);
                assert(rest.skip(1) =~= cs@.skip(i + 1));
                assert(before + (seq![cs@[i as int]] + replace_all(cs@.skip(i + 1), ps@, rs@)) =~= out@ + replace_all(
                    cs@.skip(i + 1), ps@, rs@));
            }
            i += 1;
        }
    }
    proof {
        assert(cs@.skip(n as int) =~= Seq::<char>::empty());
        assert(out@ + Seq::<char>::empty() =~= out@);
    }
    string_from_chars(&out)
}

pub open spec fn resolver_error(e: ResolverErrorView, span: Span) -> (ReqlangErrorView, Span) {
    (ReqlangErrorView::ResolverError(e), span)
}

/// The error of choosing an environment that the file does not define.
pub open spec fn env_error(f: ParsedRequestFileView, env: Option<Seq<char>>) -> Option<(ReqlangErrorView, Span)> {
    match env {
        None => None,
        Some(e) => match f.config {
            None => Some(resolver_error(ResolverErrorView::NoEnvironmentsDefined(e), 0..0usize)),
            Some((c, s)) => if c.env_names().len() == 0 {
                Some(resolver_error(ResolverErrorView::NoEnvironmentsDefined(e), s))
            } else if !c.env_names().contains(e) {
                Some(resolver_error(ResolverErrorView::InvalidEnvError(e), s))
            } else {
                None
            },
        },
    }
}

/// An error for each name that has no value passed: prompts (`secret`
/// false) or secrets.
pub open spec fn missing_errors(names: Seq<Seq<char>>, passed: Map<Seq<char>, Seq<char>>, secret: bool) -> Seq<(ReqlangErrorView, Span)>
    decreases names.len(),
{
    if names.len() == 0 {
        Seq::empty()
    } else {
        let rest = missing_errors(names.drop_last(), passed, secret);
        let n = names.last();
        if passed.contains_key(n) {
            rest
        } else if secret {
            rest.push(resolver_error(ResolverErrorView::SecretValueNotPassed(n), 0..0usize))
        } else {
            rest.push(resolver_error(ResolverErrorView::PromptValueNotPassed(n), 0..0usize))
        }
    }
}

/// The errors of prompts without a default and of secrets that have no value
/// passed.
pub open spec fn missing_values(f: ParsedRequestFileView, prompts: Map<Seq<char>, Seq<char>>, secrets: Map<Seq<char>, Seq<char>>) -> Seq<(ReqlangErrorView, Span)> {
    missing_errors(f.config_or_empty().prompt_names(1), prompts, false) + missing_errors(
        f.config_or_empty().secret_names(),
        secrets,
        true,
    )
}

/// The values of the variables in the chosen environment (or the variables'
/// defaults, empty where there is none, if it is not defined), none without
/// an environment.
pub open spec fn template_vars(f: ParsedRequestFileView, env: Option<Seq<char>>) -> Map<Seq<char>, Seq<char>> {
    match env {
        Some(e) => match f.config_or_empty().env(e) {
            Some(m) => m,
            None => match f.config_or_empty().vars {
                Some(v) => var_values_or_empty(v),
                None => Map::empty(),
            },
        },
        None => Map::empty(),
    }
}

/// The value of a name in `first`, else in `second`, else empty text.
pub open spec fn value_of(first: Map<Seq<char>, Seq<char>>, second: Map<Seq<char>, Seq<char>>, name: Seq<char>) -> Seq<char> {
    if first.contains_key(name) {
        first[name]
    } else if second.contains_key(name) {
        second[name]
    } else {
        Seq::empty()
    }
}

/// The default values of a file's prompts.
pub open spec fn file_prompt_defaults(f: ParsedRequestFileView) -> Map<Seq<char>, Seq<char>> {
    match f.config_or_empty().prompts {
        Some(p) => prompt_defaults(p),
        None => Map::empty(),
    }
}

/// The environment that references and expressions are evaluated in. Its
/// names are the file's variables, prompts and secrets, and the providers
/// (once each, see [inserted_pairs]) as client context, with `env` naming
/// the chosen environment. The variables take their values in the chosen
/// environment; without one they take the provider values, in order. Prompts
/// take the value passed, else their default, else empty text; secrets the
/// value passed (every secret has one by the time the file is evaluated).
pub open spec fn eval_env(
    f: ParsedRequestFileView,
    env: Option<Seq<char>>,
    prompts: Map<Seq<char>, Seq<char>>,
    secrets: Map<Seq<char>, Seq<char>>,
    providers: Seq<(Seq<char>, Seq<char>)>,
) -> ExprEnvView {
    let c = f.config_or_empty();
    let provided = inserted_pairs(providers);
    let base = ExprEnvView {
        var_names: c.var_names(),
        var_values: match env {
            Some(_) => c.var_names().map_values(|x: Seq<char>| value_of(template_vars(f, env), Map::empty(), x)),
            None => provided.map_values(|p: (Seq<char>, Seq<char>)| p.1),
        },
        prompt_names: c.prompt_names(0),
        prompt_values: c.prompt_names(0).map_values(|x: Seq<char>| value_of(prompts, file_prompt_defaults(f), x)),
        secret_names: c.secret_names(),
        secret_values: c.secret_names().map_values(|x: Seq<char>| value_of(secrets, Map::empty(), x)),
        context_names: provided.map_values(|p: (Seq<char>, Seq<char>)| p.0),
        context_values: provided.map_values(|p: (Seq<char>, Seq<char>)| p.1),
    };
    match env {
        Some(e) => with_context(base, "env"@, e),
        None => base,
    }
}

/// What is evaluated, in order: the lookup name of each template reference,
/// then each expression reference in parentheses, each at its span.
pub open spec fn eval_sources(f: ParsedRequestFileView) -> Seq<(Seq<char>, usize, usize)> {
    f.refs.map_values(|r: (ReferenceTypeView, Span)| (r.0.lookup_name(), r.1.start, r.1.end)) + f.exprs.map_values(
        |e: (Seq<char>, Span)| ("("@ + e.0 + ")"@, e.1.start, e.1.end),
    )
}

/// How each evaluated source is named in an error, with the span the error
/// is reported at.
pub open spec fn eval_labels(f: ParsedRequestFileView) -> Seq<(Seq<char>, Span)> {
    f.refs.map_values(|r: (ReferenceTypeView, Span)| (r.0.lookup_name(), r.1)) + f.exprs
}

/// The text that each evaluated source's value replaces: `{{` and the lookup
/// name and `}}` for a template reference, `{(` and the expression and `)}`
/// for an expression reference.
pub open spec fn eval_patterns(f: ParsedRequestFileView) -> Seq<Seq<char>> {
    f.refs.map_values(|r: (ReferenceTypeView, Span)| "{{"@ + r.0.lookup_name() + "}}"@) + f.exprs.map_values(
        |e: (Seq<char>, Span)| "{("@ + e.0 + ")}"@,
    )
}

/// An error for each evaluation that failed, in order.
pub open spec fn eval_errors(labels: Seq<(Seq<char>, Span)>, outcomes: Seq<ExprOutcomeView>) -> Seq<(ReqlangErrorView, Span)>
    decreases labels.len(),
{
    if labels.len() == 0 {
        Seq::empty()
    } else {
        let rest = eval_errors(labels.drop_last(), outcomes.drop_last());
        match outcomes.last() {
            ExprOutcomeView::Failed(m) => rest.push(
                resolver_error(ResolverErrorView::ExpressionEvaluationError(labels.last().0, m), labels.last().1),
            ),
            _ => rest,
        }
    }
}

/// The text after each pattern in turn has been replaced, wherever it
/// occurs, by the text its source evaluated to.
pub open spec fn apply_outcomes(text: Seq<char>, patterns: Seq<Seq<char>>, outcomes: Seq<ExprOutcomeView>) -> Seq<char>
    decreases patterns.len(),
{
    if patterns.len() == 0 {
        text
    } else {
        let t = apply_outcomes(text, patterns.drop_last(), outcomes.drop_last());
        match outcomes.last() {
            ExprOutcomeView::Text(v) => replace_all(t, patterns.last(), v),
            _ => t,
        }
    }
}

/// One of the first `n` sources evaluated to a value that is not text.
pub open spec fn some_not_text(outcomes: Seq<ExprOutcomeView>, n: int) -> bool {
    exists|i: int| 0 <= i < n && i < outcomes.len() && #[trigger] outcomes[i] is NotText
}

/// The text once each source has been evaluated: nothing when a source gave
/// a value that is not text; else the errors of the evaluations that failed,
/// each labelled and placed as its reference; else the text with each
/// pattern replaced, in turn, by the text its source gave.
pub open spec fn evaluated_text(
    text: Seq<char>,
    labels: Seq<(Seq<char>, Span)>,
    patterns: Seq<Seq<char>>,
    outcomes: Seq<ExprOutcomeView>,
) -> Option<Result<Seq<char>, Seq<(ReqlangErrorView, Span)>>> {
    if some_not_text(outcomes, labels.len() as int) {
        None
    } else if eval_errors(labels, outcomes).len() > 0 {
        Some(Err(eval_errors(labels, outcomes)))
    } else {
        Some(Ok(apply_outcomes(text, patterns, outcomes)))
    }
}

/// The outcomes of sources that are all lookups: the text of each value.
pub open spec fn lookup_texts(sources: Seq<(Seq<char>, usize, usize)>, env: ExprEnvView) -> Seq<ExprOutcomeView> {
    sources.map_values(|x: (Seq<char>, usize, usize)| ExprOutcomeView::Text(lookup_value(x.0, env)->Some_0))
}

/// Every source is a lookup of a name with a value (see [lookup_value]).
pub open spec fn all_lookups(sources: Seq<(Seq<char>, usize, usize)>, env: ExprEnvView) -> bool {
    forall|i: int| 0 <= i < sources.len() ==> (#[trigger] lookup_value(sources[i].0, env)) is Some
}

/// A file that templates by lookups only: it parses, its environment is
/// defined, every required prompt and every secret has a value, every name
/// has a value, and each reference it evaluates looks up a name.
pub open spec fn templates_by_lookups(
    input: Seq<char>,
    env: Option<Seq<char>>,
    prompts: Map<Seq<char>, Seq<char>>,
    secrets: Map<Seq<char>, Seq<char>>,
    providers: Seq<(Seq<char>, Seq<char>)>,
    decoded: Option<Result<crate::types::ParsedConfigView, crate::parser::config::ConfigDecodeErrorView>>,
) -> bool {
    match parse_spec(ast_spec(input), decoded) {
        Ok(f) => {
            let values = eval_env(f, env, prompts, secrets, providers);
            &&& env_error(f, env) is None
            &&& missing_values(f, prompts, secrets).len() == 0
            &&& env_fits(values)
            &&& all_lookups(eval_sources(f), values)
        },
        Err(_) => false,
    }
}

proof fn lemma_text_outcomes(labels: Seq<(Seq<char>, Span)>, outcomes: Seq<ExprOutcomeView>)
    requires
        labels.len() == outcomes.len(),
        forall|i: int| 0 <= i < outcomes.len() ==> (#[trigger] outcomes[i]) is Text,
    ensures
        eval_errors(labels, outcomes).len() == 0,
        !some_not_text(outcomes, labels.len() as int),
    decreases labels.len(),
{
    if labels.len() > 0 {
        let o = outcomes.drop_last();
        assert forall|i: int| 0 <= i < o.len() implies (#[trigger] o[i]) is Text by {
            assert(o[i] == outcomes[i]);
        }
        lemma_text_outcomes(labels.drop_last(), o);
        assert(outcomes.last() == outcomes[outcomes.len() - 1]);
    }
}

/// What [template_text] gives: the errors of parsing, of the environment or
/// of missing values; else the errors of evaluations that failed; else the
/// text with each reference replaced by its value. `None` where the file
/// cannot be evaluated: without an environment, when there are fewer
/// provider values than variables (which take them as values), or when a
/// source evaluates to a value that is not text.
pub open spec fn template_text_spec(
    input: Seq<char>,
    env: Option<Seq<char>>,
    prompts: Map<Seq<char>, Seq<char>>,
    secrets: Map<Seq<char>, Seq<char>>,
    providers: Seq<(Seq<char>, Seq<char>)>,
    decoded: Option<Result<crate::types::ParsedConfigView, crate::parser::config::ConfigDecodeErrorView>>,
) -> Option<Result<Seq<char>, Seq<(ReqlangErrorView, Span)>>> {
    match parse_spec(ast_spec(input), decoded) {
        Err(e) => Some(Err(e)),
        Ok(f) => match env_error(f, env) {
            Some(e) => Some(Err(seq![e])),
            None => {
                let missing = missing_values(f, prompts, secrets);
                let values = eval_env(f, env, prompts, secrets, providers);
                if missing.len() > 0 {
                    Some(Err(missing))
                } else if !env_fits(values) {
                    None
                } else {
                    evaluated_text(input, eval_labels(f), eval_patterns(f), expression_outcomes(eval_sources(f), values))
                }
            },
        },
    }
}

/// A templated text can be read again: it has a request block that reads as
/// a complete request head, and a response block, if any, whose status code
/// is between 100 and 599.
pub open spec fn templated_ok(t: Seq<char>) -> bool {
    &&& first_request(ast_spec(t)) matches Some(r) && request_spec(r.0, r.1) is Ok
    &&& first_response(ast_spec(t)) matches Some(b) ==> response_code_ok(b.0)
}

/// What [template] gives for a text that [template_text] gives.
pub open spec fn templated_file(t: Seq<char>) -> TemplatedRequestFileView {
    let nodes = ast_spec(t);
    let req = first_request(nodes).unwrap();
    TemplatedRequestFileView {
        request: request_spec(req.0, req.1)->Ok_0.0,
        response: match first_response(nodes) {
            Some(b) => match response_spec(b.0, b.1) {
                Some(r) => Some(r.0),
                None => None,
            },
            None => None,
        },
    }
}

/// What [template] gives.
pub open spec fn template_spec(
    input: Seq<char>,
    env: Option<Seq<char>>,
    prompts: Map<Seq<char>, Seq<char>>,
    secrets: Map<Seq<char>, Seq<char>>,
    providers: Seq<(Seq<char>, Seq<char>)>,
    decoded: Option<Result<crate::types::ParsedConfigView, crate::parser::config::ConfigDecodeErrorView>>,
) -> Option<Result<TemplatedRequestFileView, Seq<(ReqlangErrorView, Span)>>> {
    match template_text_spec(input, env, prompts, secrets, providers, decoded) {
        None => None,
        Some(Err(e)) => Some(Err(e)),
        Some(Ok(t)) => Some(Ok(templated_file(t))),
    }
}

/// Plain view of a map passed as pairs.
pub open spec fn passed_map(m: StringMap) -> Map<Seq<char>, Seq<char>> {
    pairs_map(pairs_view(m@))
}

/// Plain view of an optional name.
pub open spec fn opt_str(o: Option<&str>) -> Option<Seq<char>> {
    match o {
        Some(s) => Some(s@),
        None => None,
    }
}

/// Plain view of a templated text or errors.
pub open spec fn text_result_view(r: Result<String, Vec<Spanned<ReqlangError>>>) -> Result<Seq<char>, Seq<(ReqlangErrorView, Span)>> {
    match r {
        Ok(t) => Ok(t@),
        Err(e) => Err(errors_view(e@)),
    }
}

/// Plain view of what [template_text_checked] gives.
pub open spec fn checked_text_view(r: Option<Result<String, Vec<Spanned<ReqlangError>>>>) -> Option<Result<Seq<char>, Seq<(ReqlangErrorView, Span)>>> {
    match r {
        Some(t) => Some(text_result_view(t)),
        None => None,
    }
}

fn one_error(e: ReqlangError, span: Span) -> (res: Vec<Spanned<ReqlangError>>)
    ensures
        errors_view(res@) == seq![(e@, span)],
{
    let v = vec![(e, span)];
    assert(errors_view(v@) =~= seq![(e@, span)]);
    v
}

fn missing_value_errors(names: &Vec<String>, passed: &StringMap, secret: bool) -> (res: Vec<Spanned<ReqlangError>>)
    ensures
        errors_view(res@) == missing_errors(strings_view(names@), passed_map(*passed), secret),
{
    let ghost nv = strings_view(names@);
    let mut out: Vec<Spanned<ReqlangError>> = Vec::new();
    let n = names.len();
    let mut i: usize = 0;
    while i < n
        invariant
            n == names@.len(),
            nv == strings_view(names@),
            i <= n,
            errors_view(out@) == missing_errors(nv.take(i as int), passed_map(*passed), secret),
        decreases n - i,
    {
        proof {
            assert(nv.take(i + 1).drop_last() =~= nv.take(i as int));
        }
        if lookup(passed, names[i].as_str()).is_none() {
            let ghost before = errors_view(out@);
            let e = if secret {
                ResolverError::SecretValueNotPassed(names[i].clone())
            } else {
                ResolverError::PromptValueNotPassed(names[i].clone())
            };
            out.push((ReqlangError::ResolverError(e), 0..0));
            assert(errors_view(out@) =~= before.push((ReqlangErrorView::ResolverError(e@), 0..0usize)));
        }
        i += 1;
    }
    assert(nv.take(n as int) =~= nv);
    out
}

/// The value of each name: in `first`, else in `second`, else empty text.
fn values_of(names: &Vec<String>, first: &StringMap, second: &StringMap) -> (res: Vec<String>)
    ensures
        strings_view(res@) == strings_view(names@).map_values(
            |x: Seq<char>| value_of(passed_map(*first), passed_map(*second), x),
        ),
{
    let ghost target = strings_view(names@).map_values(
        |x: Seq<char>| value_of(passed_map(*first), passed_map(*second), x),
    );
    let mut out: Vec<String> = Vec::new();
    let n = names.len();
    let mut i: usize = 0;
    while i < n
        invariant
            n == names@.len(),
            target == strings_view(names@).map_values(
                |x: Seq<char>| value_of(passed_map(*first), passed_map(*second), x),
            ),
            i <= n,
            strings_view(out@) == target.take(i as int),
        decreases n - i,
    {
        let ghost before = out@;
        let v = match lookup(first, names[i].as_str()) {
            Some(v) => v.clone(),
            None => match lookup(second, names[i].as_str()) {
                Some(v) => v.clone(),
                None => String::new(),
            },
        };
        out.push(v);
        proof {
            assert(target[i as int] == value_of(passed_map(*first), passed_map(*second), names@[i as int]@));
            assert(strings_view(out@) =~= strings_view(before).push(v@));
            assert(target.take(i + 1) =~= target.take(i as int).push(target[i as int]));
        }
        i += 1;
    }
    assert(target.take(n as int) =~= target);
    out
}

/// The names and the values of pairs, apart.
fn split_pairs(pairs: &StringMap) -> (res: (Vec<String>, Vec<String>))
    ensures
        strings_view(res.0@) == pairs_view(pairs@).map_values(|p: (Seq<char>, Seq<char>)| p.0),
        strings_view(res.1@) == pairs_view(pairs@).map_values(|p: (Seq<char>, Seq<char>)| p.1),
{
    let ghost pv = pairs_view(pairs@);
    let mut names: Vec<String> = Vec::new();
    let mut values: Vec<String> = Vec::new();
    let n = pairs.len();
    let mut i: usize = 0;
    while i < n
        invariant
            n == pairs@.len(),
            pv == pairs_view(pairs@),
            i <= n,
            strings_view(names@) == pv.take(i as int).map_values(|p: (Seq<char>, Seq<char>)| p.0),
            strings_view(values@) == pv.take(i as int).map_values(|p: (Seq<char>, Seq<char>)| p.1),
        decreases n - i,
    {
        let ghost names_before = names@;
        let ghost values_before = values@;
        names.push(pairs[i].0.clone());
        values.push(pairs[i].1.clone());
        proof {
            assert(strings_view(names@) =~= strings_view(names_before).push(pv[i as int].0));
            assert(strings_view(values@) =~= strings_view(values_before).push(pv[i as int].1));
            assert(pv.take(i + 1) =~= pv.take(i as int).push(pv[i as int]));
            assert(strings_view(names@) =~= pv.take(i + 1).map_values(|p: (Seq<char>, Seq<char>)| p.0));
            assert(strings_view(values@) =~= pv.take(i + 1).map_values(|p: (Seq<char>, Seq<char>)| p.1));
        }
        i += 1;
    }
    assert(pv.take(n as int) =~= pv);
    (names, values)
}

/// The environment a parsed file is evaluated in (see [eval_env]).
fn evaluation_env(
    parsed: &ParsedRequestFile,
    env: Option<&str>,
    prompts: &StringMap,
    secrets: &StringMap,
    provider_values: &StringMap,
) -> (res: ExprEnv)
    ensures
        res@ == eval_env(parsed@, opt_str(env), passed_map(*prompts), passed_map(*secrets), pairs_view(provider_values@)),
{
    let ghost f = parsed@;
    let provided = inserted_pairs_of(provider_values);
    let (context_names, context_values) = split_pairs(&provided);
    let var_names = parsed.vars();
    let none: StringMap = Vec::new();
    proof {
        assert(pairs_view(none@) =~= Seq::<(Seq<char>, Seq<char>)>::empty());
        assert(passed_map(none) =~= Map::<Seq<char>, Seq<char>>::empty());
    }
    let var_values = match env {
        Some(e) => {
            let vars: StringMap = match parsed.env(e) {
                Some(m) => m,
                None => parsed.default_variable_values(),
            };
            assert(passed_map(vars) =~= template_vars(f, opt_str(env)));
            values_of(&var_names, &vars, &none)
        },
        None => {
            let (_, values) = split_pairs(&provided);
            values
        },
    };
    let prompt_names = parsed.prompts();
    let defaults = parsed.default_prompt_values();
    let prompt_values = values_of(&prompt_names, prompts, &defaults);
    let secret_names = parsed.secrets();
    let secret_values = values_of(&secret_names, secrets, &none);
    let mut out = ExprEnv {
        var_names,
        var_values,
        prompt_names,
        prompt_values,
        secret_names,
        secret_values,
        context_names,
        context_values,
    };
    proof {
        let base = ExprEnvView {
            var_names: f.config_or_empty().var_names(),
            var_values: match opt_str(env) {
                Some(_) => f.config_or_empty().var_names().map_values(
                    |x: Seq<char>| value_of(template_vars(f, opt_str(env)), Map::empty(), x),
                ),
                None => inserted_pairs(pairs_view(provider_values@)).map_values(|p: (Seq<char>, Seq<char>)| p.1),
            },
            prompt_names: f.config_or_empty().prompt_names(0),
            prompt_values: f.config_or_empty().prompt_names(0).map_values(
                |x: Seq<char>| value_of(passed_map(*prompts), file_prompt_defaults(f), x),
            ),
            secret_names: f.config_or_empty().secret_names(),
            secret_values: f.config_or_empty().secret_names().map_values(
                |x: Seq<char>| value_of(passed_map(*secrets), Map::empty(), x),
            ),
            context_names: inserted_pairs(pairs_view(provider_values@)).map_values(|p: (Seq<char>, Seq<char>)| p.0),
            context_values: inserted_pairs(pairs_view(provider_values@)).map_values(|p: (Seq<char>, Seq<char>)| p.1),
        };
        assert(out@ == base);
    }
    match env {
        Some(e) => {
            out.add_to_client_context("env", e.to_string());
        },
        None => {},
    }
    out
}

/// The sources to evaluate, the labels of their errors and the patterns
/// their values replace (see [eval_sources], [eval_labels] and
/// [eval_patterns]).
fn evaluation_parts(parsed: &ParsedRequestFile) -> (res: (Vec<(String, usize, usize)>, Vec<Spanned<String>>, Vec<String>))
    ensures
        sources_view(res.0@) == eval_sources(parsed@),
        spanned_strings_view(res.1@) == eval_labels(parsed@),
        strings_view(res.2@) == eval_patterns(parsed@),
{
    let ghost f = parsed@;
    let ghost ref_sources = f.refs.map_values(|r: (ReferenceTypeView, Span)| (r.0.lookup_name(), r.1.start, r.1.end));
    let ghost ref_labels = f.refs.map_values(|r: (ReferenceTypeView, Span)| (r.0.lookup_name(), r.1));
    let ghost ref_patterns = f.refs.map_values(|r: (ReferenceTypeView, Span)| "{{"@ + r.0.lookup_name() + "}}"@);
    let mut sources: Vec<(String, usize, usize)> = Vec::new();
    let mut labels: Vec<Spanned<String>> = Vec::new();
    let mut patterns: Vec<String> = Vec::new();
    let n = parsed.refs.len();
    let mut i: usize = 0;
    while i < n
        invariant
            n == parsed.refs@.len(),
            f == parsed@,
            ref_sources == f.refs.map_values(|r: (ReferenceTypeView, Span)| (r.0.lookup_name(), r.1.start, r.1.end)),
            ref_labels == f.refs.map_values(|r: (ReferenceTypeView, Span)| (r.0.lookup_name(), r.1)),
            ref_patterns == f.refs.map_values(|r: (ReferenceTypeView, Span)| "{{"@ + r.0.lookup_name() + "}}"@),
            i <= n,
            sources_view(sources@) == ref_sources.take(i as int),
            spanned_strings_view(labels@) == ref_labels.take(i as int),
            strings_view(patterns@) == ref_patterns.take(i as int),
        decreases n - i,
    {
        let r = &parsed.refs[i];
        let ghost sources_before = sources@;
        let ghost labels_before = labels@;
        let ghost patterns_before = patterns@;
        let name = r.0.lookup_name();
        let mut pattern = String::new();
        push_str(&mut pattern, "{{");
        push_str(&mut pattern, name.as_str());
        push_str(&mut pattern, "}}");
        sources.push((name.clone(), r.1.start, r.1.end));
        labels.push((name, copy_span(&r.1)));
        patterns.push(pattern);
        proof {
            assert(f.refs[i as int] == (r.0@, r.1));
            assert(sources_view(sources@) =~= sources_view(sources_before).push(ref_sources[i as int]));
            assert(spanned_strings_view(labels@) =~= spanned_strings_view(labels_before).push(ref_labels[i as int]));
            assert(strings_view(patterns@) =~= strings_view(patterns_before).push(ref_patterns[i as int]));
            assert(ref_sources.take(i + 1) =~= ref_sources.take(i as int).push(ref_sources[i as int]));
            assert(ref_labels.take(i + 1) =~= ref_labels.take(i as int).push(ref_labels[i as int]));
            assert(ref_patterns.take(i + 1) =~= ref_patterns.take(i as int).push(ref_patterns[i as int]));
            assert(sources_view(sources@) =~= ref_sources.take(i + 1));
            assert(spanned_strings_view(labels@) =~= ref_labels.take(i + 1));
            assert(strings_view(patterns@) =~= ref_patterns.take(i + 1));
        }
        i += 1;
    }
    proof {
        assert(ref_sources.take(n as int) =~= ref_sources);
        assert(ref_labels.take(n as int) =~= ref_labels);
        assert(ref_patterns.take(n as int) =~= ref_patterns);
    }
    let ghost expr_sources = f.exprs.map_values(|e: (Seq<char>, Span)| ("("@ + e.0 + ")"@, e.1.start, e.1.end));
    let ghost expr_patterns = f.exprs.map_values(|e: (Seq<char>, Span)| "{("@ + e.0 + ")}"@);
    let m = parsed.exprs.len();
    let mut j: usize = 0;
    while j < m
        invariant
            m == parsed.exprs@.len(),
            f == parsed@,
            expr_sources == f.exprs.map_values(|e: (Seq<char>, Span)| ("("@ + e.0 + ")"@, e.1.start, e.1.end)),
            expr_patterns == f.exprs.map_values(|e: (Seq<char>, Span)| "{("@ + e.0 + ")}"@),
            j <= m,
            sources_view(sources@) == ref_sources + expr_sources.take(j as int),
            spanned_strings_view(labels@) == ref_labels + f.exprs.take(j as int),
            strings_view(patterns@) == ref_patterns + expr_patterns.take(j as int),
        decreases m - j,
    {
        let e = &parsed.exprs[j];
        let ghost sources_before = sources@;
        let ghost labels_before = labels@;
        let ghost patterns_before = patterns@;
        let mut source = String::new();
        push_str(&mut source, "(");
        push_str(&mut source, e.0.as_str());
        push_str(&mut source, ")");
        let mut pattern = String::new();
        push_str(&mut pattern, "{(");
        push_str(&mut pattern, e.0.as_str());
        push_str(&mut pattern, ")}");
        sources.push((source, e.1.start, e.1.end));
        labels.push((e.0.clone(), copy_span(&e.1)));
        patterns.push(pattern);
        proof {
            assert(f.exprs[j as int] == (e.0@, e.1));
            assert(sources_view(sources@) =~= sources_view(sources_before).push(expr_sources[j as int]));
            assert(spanned_strings_view(labels@) =~= spanned_strings_view(labels_before).push(f.exprs[j as int]));
            assert(strings_view(patterns@) =~= strings_view(patterns_before).push(expr_patterns[j as int]));
            assert(expr_sources.take(j + 1) =~= expr_sources.take(j as int).push(expr_sources[j as int]));
            assert(f.exprs.take(j + 1) =~= f.exprs.take(j as int).push(f.exprs[j as int]));
            assert(expr_patterns.take(j + 1) =~= expr_patterns.take(j as int).push(expr_patterns[j as int]));
            assert(sources_view(sources@) =~= ref_sources + expr_sources.take(j + 1));
            assert(spanned_strings_view(labels@) =~= ref_labels + f.exprs.take(j + 1));
            assert(strings_view(patterns@) =~= ref_patterns + expr_patterns.take(j + 1));
        }
        j += 1;
    }
    proof {
        assert(expr_sources.take(m as int) =~= expr_sources);
        assert(f.exprs.take(m as int) =~= f.exprs);
        assert(expr_patterns.take(m as int) =~= expr_patterns);
    }
    (sources, labels, patterns)
}

/// Template a request file's text: parse it, check the environment and that
/// every required prompt and every secret has a value, then evaluate each
/// template reference and each expression reference with the expression
/// language and replace it, wherever it occurs in the text, with the text
/// it evaluates to. `None` where [template_text] requires more (see
/// [template_text_spec]).
///
/// `decoded` is what decoding the text of the file's config block as TOML
/// gave. Maps are given as pairs; a later pair for a name overrides an earlier
/// one.
pub fn template_text_checked(
    input: &str,
    env: Option<&str>,
    prompts: &StringMap,
    secrets: &StringMap,
    provider_values: &StringMap,
    decoded: DecodedConfig,
) -> (res: Option<Result<String, Vec<Spanned<ReqlangError>>>>)
    requires
        decoded_fits(first_config(ast_spec(input@)), decoded_view(decoded)),
        first_response(ast_spec(input@)) matches Some(b) ==> response_code_ok(b.0),
    ensures
        checked_text_view(res) == template_text_spec(
            input@,
            opt_str(env),
            passed_map(*prompts),
            passed_map(*secrets),
            pairs_view(provider_values@),
            decoded_view(decoded),
        ),
        templates_by_lookups(
            input@,
            opt_str(env),
            passed_map(*prompts),
            passed_map(*secrets),
            pairs_view(provider_values@),
            decoded_view(decoded),
        ) ==> ({
            let f = parse_spec(ast_spec(input@), decoded_view(decoded))->Ok_0;
            let values = eval_env(f, opt_str(env), passed_map(*prompts), passed_map(*secrets), pairs_view(provider_values@));
            checked_text_view(res) == Some(Ok::<Seq<char>, Seq<(ReqlangErrorView, Span)>>(
                apply_outcomes(input@, eval_patterns(f), lookup_texts(eval_sources(f), values)),
            ))
        }),
{
    let ghost dec = decoded_view(decoded);
    let ast = Ast::from(input);
    let parsed = match parse(&ast, decoded) {
        Ok(p) => p,
        Err(e) => return Some(Err(e)),
    };
    let ghost f = parsed@;
    assert(parse_spec(ast_spec(input@), dec) == Ok::<ParsedRequestFileView, Seq<(ReqlangErrorView, Span)>>(f));

    if let Some(env) = env {
        match &parsed.config {
            Some((config, span)) => {
                if config.envs().len() == 0 {
                    return Some(Err(one_error(
                        ReqlangError::ResolverError(ResolverError::NoEnvironmentsDefined(env.to_owned())),
                        copy_span(span),
                    )));
                }
                if !contains_name(&config.envs(), env) {
                    return Some(Err(one_error(
                        ReqlangError::ResolverError(ResolverError::InvalidEnvError(env.to_owned())),
                        copy_span(span),
                    )));
                }
            },
            None => {
                return Some(Err(one_error(
                    ReqlangError::ResolverError(ResolverError::NoEnvironmentsDefined(env.to_owned())),
                    0..0,
                )));
            },
        }
    }
    assert(env_error(f, opt_str(env)) is None);

    let mut missing = missing_value_errors(&parsed.required_prompts(), prompts, false);
    let mut missing_secrets = missing_value_errors(&parsed.secrets(), secrets, true);
    let ghost m1 = missing@;
    let ghost m2 = missing_secrets@;
    missing.append(&mut missing_secrets);
    assert(errors_view(missing@) =~= errors_view(m1) + errors_view(m2));
    if missing.len() > 0 {
        return Some(Err(missing));
    }

    let values = evaluation_env(&parsed, env, prompts, secrets, provider_values);
    if !(values.var_names.len() <= values.var_values.len() && values.prompt_names.len() <= values.prompt_values.len()
        && values.secret_names.len() <= values.secret_values.len() && values.context_names.len()
        <= values.context_values.len()) {
        return None;
    }
    let (sources, labels, patterns) = evaluation_parts(&parsed);
    let ghost env_view = values@;
    proof {
        let nodes = ast_spec(input@);
        lemma_eval_sources_safe(
            first_request(nodes).unwrap(),
            or_empty(first_response(nodes)),
            or_empty(first_config(nodes)),
            f,
        );
        assert forall|i: int| 0 <= i < sources@.len() implies source_safe(#[trigger] sources@[i].0@) by {
            assert(sources_view(sources@)[i].0 == sources@[i].0@);
        }
    }
    let outcomes = evaluate_expressions(&sources, values);
    assert(outcomes_view(outcomes@) == expression_outcomes(eval_sources(f), env_view));
    assert(eval_labels(f).len() == eval_sources(f).len());
    assert(eval_patterns(f).len() == eval_sources(f).len());
    assert(sources_view(sources@).len() == sources@.len());
    assert(missing_values(f, passed_map(*prompts), passed_map(*secrets)).len() == 0);
    proof {
        if all_lookups(eval_sources(f), env_view) {
            let texts = lookup_texts(eval_sources(f), env_view);
            assert forall|i: int| 0 <= i < outcomes@.len() implies outcomes_view(outcomes@)[i] == texts[i] by {
                assert(sources_view(sources@)[i].0 == sources@[i].0@);
                assert(lookup_value(eval_sources(f)[i].0, env_view) is Some);
            }
            assert(outcomes_view(outcomes@) =~= texts);
            assert forall|i: int| 0 <= i < texts.len() implies (#[trigger] texts[i]) is Text by {}
            lemma_text_outcomes(eval_labels(f), texts);
        }
    }
    apply_evaluations(input, &labels, &patterns, &outcomes)
}

/// Apply what evaluating each source gave to a text: `None` when a source
/// gave a value that is not text; else the errors of the evaluations that
/// failed, labelled and placed by `labels`; else the text with each pattern
/// replaced, wherever it occurs, by the text its source gave (see
/// [evaluated_text]).
pub fn apply_evaluations(
    input: &str,
    labels: &Vec<Spanned<String>>,
    patterns: &Vec<String>,
    outcomes: &Vec<ExprOutcome>,
) -> (res: Option<Result<String, Vec<Spanned<ReqlangError>>>>)
    requires
        labels@.len() == outcomes@.len(),
        patterns@.len() == outcomes@.len(),
    ensures
        checked_text_view(res) == evaluated_text(
            input@,
            spanned_strings_view(labels@),
            strings_view(patterns@),
            outcomes_view(outcomes@),
        ),
{
    let ghost outs = outcomes_view(outcomes@);
    let ghost labels_view = spanned_strings_view(labels@);
    let ghost patterns_view = strings_view(patterns@);
    let ghost spec_res = evaluated_text(input@, labels_view, patterns_view, outs);
    let n = outcomes.len();
    let mut errors: Vec<Spanned<ReqlangError>> = Vec::new();
    let mut text = input.to_owned();
    let mut i: usize = 0;
    while i < n
        invariant
            spec_res == evaluated_text(input@, labels_view, patterns_view, outs),
            n == outcomes@.len(),
            outs == outcomes_view(outcomes@),
            labels_view == spanned_strings_view(labels@),
            patterns_view == strings_view(patterns@),
            labels_view.len() == n,
            patterns_view.len() == n,
            i <= n,
            forall|k: int| 0 <= k < i ==> !(#[trigger] outs[k] is NotText),
            errors_view(errors@) == eval_errors(labels_view.take(i as int), outs.take(i as int)),
            text@ == apply_outcomes(input@, patterns_view.take(i as int), outs.take(i as int)),
        decreases n - i,
    {
        proof {
            assert(labels_view.take(i + 1).drop_last() =~= labels_view.take(i as int));
            assert(patterns_view.take(i + 1).drop_last() =~= patterns_view.take(i as int));
            assert(outs.take(i + 1).drop_last() =~= outs.take(i as int));
            assert(outs.take(i + 1).last() == outs[i as int]);
            assert(outs[i as int] == outcomes@[i as int]@);
        }
        match &outcomes[i] {
            ExprOutcome::Text(v) => {
                text = replace_text(text.as_str(), patterns[i].as_str(), v.as_str());
            },
            ExprOutcome::NotText => {
                assert(outs[i as int] is NotText);
                return None;
            },
            ExprOutcome::Failed(m) => {
                let ghost before = errors_view(errors@);
                errors.push((
                    ReqlangError::ResolverError(ResolverError::ExpressionEvaluationError(labels[i].0.clone(), m.clone())),
                    copy_span(&labels[i].1),
                ));
                assert(errors_view(errors@) =~= before.push(
                    resolver_error(ResolverErrorView::ExpressionEvaluationError(labels_view[i as int].0, m@), labels_view[i as int].1),
                ));
            },
        }
        i += 1;
    }
    proof {
        assert(labels_view.take(n as int) =~= labels_view);
        assert(patterns_view.take(n as int) =~= patterns_view);
        assert(outs.take(n as int) =~= outs);
    }
    if errors.len() > 0 {
        return Some(Err(errors));
    }
    Some(Ok(text))
}

/// Template a request file's text (see [template_text_checked]), where it
/// can be evaluated.
pub fn template_text(
    input: &str,
    env: Option<&str>,
    prompts: &StringMap,
    secrets: &StringMap,
    provider_values: &StringMap,
    decoded: DecodedConfig,
) -> (res: Result<String, Vec<Spanned<ReqlangError>>>)
    requires
        decoded_fits(first_config(ast_spec(input@)), decoded_view(decoded)),
        first_response(ast_spec(input@)) matches Some(b) ==> response_code_ok(b.0),
        template_text_spec(
            input@,
            opt_str(env),
            passed_map(*prompts),
            passed_map(*secrets),
            pairs_view(provider_values@),
            decoded_view(decoded),
        ) is Some,
    ensures
        Some(text_result_view(res)) == template_text_spec(
            input@,
            opt_str(env),
            passed_map(*prompts),
            passed_map(*secrets),
            pairs_view(provider_values@),
            decoded_view(decoded),
        ),
{
    match template_text_checked(input, env, prompts, secrets, provider_values, decoded) {
        Some(r) => r,
        None => {
            assert(false);
            Err(Vec::new())
        },
    }
}

/// Plain view of what [template] returns.
pub open spec fn templated_result_view(r: Result<TemplatedRequestFile, Vec<Spanned<ReqlangError>>>) -> Result<TemplatedRequestFileView, Seq<(ReqlangErrorView, Span)>> {
    match r {
        Ok(t) => Ok(t@),
        Err(e) => Err(errors_view(e@)),
    }
}

/// Template a request file string into a [TemplatedRequestFile]
///
/// The text that [template_text] gives is read again as a request file: its
/// request block gives the request and its response block, if any, the
/// response.
pub fn template(
    input: &str,
    env: Option<&str>,
    prompts: &StringMap,
    secrets: &StringMap,
    provider_values: &StringMap,
    decoded: DecodedConfig,
) -> (res: Result<TemplatedRequestFile, Vec<Spanned<ReqlangError>>>)
    requires
        decoded_fits(first_config(ast_spec(input@)), decoded_view(decoded)),
        first_response(ast_spec(input@)) matches Some(b) ==> response_code_ok(b.0),
        template_text_spec(
            input@,
            opt_str(env),
            passed_map(*prompts),
            passed_map(*secrets),
            pairs_view(provider_values@),
            decoded_view(decoded),
        ) matches Some(r) && (r matches Ok(t) ==> templated_ok(t)),
    ensures
        Some(templated_result_view(res)) == template_spec(
            input@,
            opt_str(env),
            passed_map(*prompts),
            passed_map(*secrets),
            pairs_view(provider_values@),
            decoded_view(decoded),
        ),
{
    let text = match template_text(input, env, prompts, secrets, provider_values, decoded) {
        Ok(t) => t,
        Err(e) => return Err(e),
    };
    let ast = Ast::from(text.as_str());
    let request = match ast.request() {
        Some(r) => (r.0.clone(), copy_span(&r.1)),
        None => {
            assert(false);
            return Err(Vec::new());
        },
    };
    let response: Option<Spanned<String>> = match ast.response() {
        Some(r) => Some((r.0.clone(), copy_span(&r.1))),
        None => None,
    };
    let request = match parse_request(&request) {
        Ok((r, _)) => r,
        Err(e) => {
            assert(false);
            return Err(e);
        },
    };
    let response = match parse_response(&response) {
        Some(Ok((r, _))) => Some(r),
        _ => None,
    };
    Ok(TemplatedRequestFile { request, response })
}

/// Whether the text that [template_text] gave can be read again by
/// [template]: see [templated_ok].
pub fn templated_text_ok(text: &str) -> (res: bool)
    ensures
        res == templated_ok(text@),
{
    let ast = Ast::from(text);
    let request = match ast.request() {
        Some(r) => (r.0.clone(), copy_span(&r.1)),
        None => return false,
    };
    if parse_request(&request).is_err() {
        return false;
    }
    match ast.response() {
        Some((block, _)) => crate::parser::message::response_block_ok(block),
        None => true,
    }
}

/// [template] for any request file: `Some` of what [template] gives, or
/// `None` when [template] requires more: the file's response block has a
/// status code outside 100 to 599, the file cannot be evaluated (see
/// [template_text_spec]), or the templated text has no complete request or
/// such a response block.
pub fn template_checked(
    input: &str,
    env: Option<&str>,
    prompts: &StringMap,
    secrets: &StringMap,
    provider_values: &StringMap,
    decoded: DecodedConfig,
) -> (res: Option<Result<TemplatedRequestFile, Vec<Spanned<ReqlangError>>>>)
    requires
        decoded_fits(first_config(ast_spec(input@)), decoded_view(decoded)),
    ensures
        res is None <==> ((first_response(ast_spec(input@)) matches Some(b) && !response_code_ok(b.0)) || (
        template_text_spec(
            input@,
            opt_str(env),
            passed_map(*prompts),
            passed_map(*secrets),
            pairs_view(provider_values@),
            decoded_view(decoded),
        ) matches None) || (template_text_spec(
            input@,
            opt_str(env),
            passed_map(*prompts),
            passed_map(*secrets),
            pairs_view(provider_values@),
            decoded_view(decoded),
        ) matches Some(Ok(t)) && !templated_ok(t))),
        res matches Some(r) ==> Some(templated_result_view(r)) == template_spec(
            input@,
            opt_str(env),
            passed_map(*prompts),
            passed_map(*secrets),
            pairs_view(provider_values@),
            decoded_view(decoded),
        ),
{
    let ast = Ast::from(input);
    if let Some((block, _)) = ast.response() {
        if !crate::parser::message::response_block_ok(block) {
            return None;
        }
    }
    let copy = crate::parser::config::copy_decoded(&decoded);
    match template_text_checked(input, env, prompts, secrets, provider_values, copy) {
        None => {
            return None;
        },
        Some(Ok(text)) => {
            if !templated_text_ok(text.as_str()) {
                return None;
            }
        },
        Some(Err(_)) => {},
    }
    Some(template(input, env, prompts, secrets, provider_values, decoded))
}

/// Replacing a pattern that does not occur leaves the text as it is: a
/// reference whose template is not in the text changes nothing.
pub proof fn lemma_replace_absent(s: Seq<char>, pat: Seq<char>, rep: Seq<char>)
    requires
        !crate::parser::request_file::contains_text(s, pat),
    ensures
        replace_all(s, pat, rep) == s,
    decreases s.len(),
{
    if pat.len() == 0 || s.len() < pat.len() {
    } else {
        assert(s.take(pat.len() as int) != pat) by {
            if s.take(pat.len() as int) == pat {
                assert(s.subrange(0int, 0int + pat.len()) =~= s.take(pat.len() as int));
            }
        }
        let t = s.skip(1);
        assert(!crate::parser::request_file::contains_text(t, pat)) by {
            if crate::parser::request_file::contains_text(t, pat) {
                let i = choose|i: int| 0 <= i && i + pat.len() <= t.len() && #[trigger] t.subrange(i, i + pat.len()) == pat;
                assert(s.subrange(i + 1, i + 1 + pat.len()) =~= t.subrange(i, i + pat.len()));
            }
        }
        lemma_replace_absent(t, pat, rep);
        assert(seq![s[0]] + t =~= s);
    }
}

proof fn lemma_prompt_names_len(p: Seq<PromptView>)
    ensures
        prompt_names(p, 0).len() == p.len(),
        prompt_names(p, 1).len() <= p.len(),
    decreases p.len(),
{
    if p.len() > 0 {
        lemma_prompt_names_len(p.drop_last());
    }
}

proof fn lemma_context_fits(e: ExprEnvView, key: Seq<char>, value: Seq<char>)
    requires
        e.context_names.len() <= e.context_values.len(),
    ensures
        with_context(e, key, value).context_names.len() <= with_context(e, key, value).context_values.len(),
{
    crate::expression::lemma_name_index(e.context_names, key);
}

/// Templating a file without template references and without expression
/// references gives its text unchanged, once the file parses and the chosen
/// environment, if any, is one it defines.
pub proof fn lemma_template_without_references(
    input: Seq<char>,
    env: Option<Seq<char>>,
    prompts: Map<Seq<char>, Seq<char>>,
    secrets: Map<Seq<char>, Seq<char>>,
    providers: Seq<(Seq<char>, Seq<char>)>,
    decoded: Option<Result<crate::types::ParsedConfigView, crate::parser::config::ConfigDecodeErrorView>>,
)
    requires
        parse_spec(ast_spec(input), decoded) is Ok,
        parse_spec(ast_spec(input), decoded)->Ok_0.refs.len() == 0,
        parse_spec(ast_spec(input), decoded)->Ok_0.exprs.len() == 0,
        env_error(parse_spec(ast_spec(input), decoded)->Ok_0, env) is None,
    ensures
        template_text_spec(input, env, prompts, secrets, providers, decoded) == Some(
            Ok::<Seq<char>, Seq<(ReqlangErrorView, Span)>>(input),
        ),
{
    let f = parse_spec(ast_spec(input), decoded)->Ok_0;
    let c = f.config_or_empty();
    let ref_names = f.refs.map_values(|r: (ReferenceTypeView, Span)| r.0.name());
    let sources = f.exprs.map_values(|e: (Seq<char>, Span)| e.0);
    assert(ref_names.len() == 0);
    assert(sources =~= Seq::<Seq<char>>::empty());
    if f.config is Some {
        crate::parser::request_file::lemma_parsed_values_used(ast_spec(input), decoded);
        if c.var_names().len() > 0 {
            assert(crate::parser::request_file::value_used(f, c.var_names()[0]));
            assert(!ref_names.contains(c.var_names()[0]));
        }
        if c.prompt_names(0).len() > 0 {
            assert(crate::parser::request_file::value_used(f, c.prompt_names(0)[0]));
            assert(!ref_names.contains(c.prompt_names(0)[0]));
        }
        if c.secret_names().len() > 0 {
            assert(crate::parser::request_file::value_used(f, c.secret_names()[0]));
            assert(!ref_names.contains(c.secret_names()[0]));
        }
    }
    assert(c.var_names().len() == 0);
    assert(c.secret_names().len() == 0);
    match c.prompts {
        Some(p) => lemma_prompt_names_len(p),
        None => {},
    }
    assert(c.prompt_names(1).len() == 0);
    assert(missing_values(f, prompts, secrets) =~= Seq::<(ReqlangErrorView, Span)>::empty());
    let provided = inserted_pairs(providers);
    let base = ExprEnvView {
        var_names: c.var_names(),
        var_values: match env {
            Some(_) => c.var_names().map_values(|x: Seq<char>| value_of(template_vars(f, env), Map::empty(), x)),
            None => provided.map_values(|p: (Seq<char>, Seq<char>)| p.1),
        },
        prompt_names: c.prompt_names(0),
        prompt_values: c.prompt_names(0).map_values(|x: Seq<char>| value_of(prompts, file_prompt_defaults(f), x)),
        secret_names: c.secret_names(),
        secret_values: c.secret_names().map_values(|x: Seq<char>| value_of(secrets, Map::empty(), x)),
        context_names: provided.map_values(|p: (Seq<char>, Seq<char>)| p.0),
        context_values: provided.map_values(|p: (Seq<char>, Seq<char>)| p.1),
    };
    assert(env_fits(base));
    match env {
        Some(e) => lemma_context_fits(base, "env"@, e),
        None => {},
    }
    assert(env_fits(eval_env(f, env, prompts, secrets, providers)));
    assert(eval_labels(f) =~= Seq::<(Seq<char>, Span)>::empty());
    assert(eval_patterns(f) =~= Seq::<Seq<char>>::empty());
}

/// Every referenced name is made of name characters.
pub open spec fn names_plain(refs: Seq<(ReferenceTypeView, Span)>) -> bool {
    forall|i: int, k: int| 0 <= i < refs.len() && 0 <= k < refs[i].0.name().len() ==> is_name_char(
        #[trigger] refs[i].0.name()[k],
    )
}

proof fn lemma_spanned_refs_plain(found: Seq<(char, Seq<char>)>, span: Span)
    requires
        forall|i: int, k: int| 0 <= i < found.len() && 0 <= k < found[i].1.len() ==> is_name_char(#[trigger] found[i].1[k]),
    ensures
        names_plain(spanned_refs(found, span)),
{
    let r = spanned_refs(found, span);
    assert forall|i: int, k: int| 0 <= i < r.len() && 0 <= k < r[i].0.name().len() implies is_name_char(
        #[trigger] r[i].0.name()[k],
    ) by {
        assert(r[i].0.name() == found[i].1);
    }
}

proof fn lemma_concat_plain(a: Seq<(ReferenceTypeView, Span)>, b: Seq<(ReferenceTypeView, Span)>)
    requires
        names_plain(a),
        names_plain(b),
    ensures
        names_plain(a + b),
{
    let c = a + b;
    assert forall|i: int, k: int| 0 <= i < c.len() && 0 <= k < c[i].0.name().len() implies is_name_char(
        #[trigger] c[i].0.name()[k],
    ) by {
        if i < a.len() {
            assert(c[i] == a[i]);
        } else {
            assert(c[i] == b[i - a.len()]);
        }
    }
}

proof fn lemma_expr_refs_plain(exprs: Seq<(Seq<char>, Span)>)
    ensures
        names_plain(expr_refs(exprs)),
    decreases exprs.len(),
{
    if exprs.len() > 0 {
        lemma_expr_refs_plain(exprs.drop_last());
        lemma_inner_ref_names(exprs.last().0, 0);
        lemma_spanned_refs_plain(inner_refs(exprs.last().0, 0), exprs.last().1);
        lemma_concat_plain(expr_refs(exprs.drop_last()), inner_references_spec(exprs.last().0, exprs.last().1));
    }
}

proof fn lemma_block_refs_plain(b: (Seq<char>, Span))
    ensures
        names_plain(references_spec(b.0, b.1)),
{
    lemma_group_ref_names(ref_groups(b.0, 0));
    lemma_spanned_refs_plain(refs_in_groups(ref_groups(b.0, 0)), b.1);
}

proof fn lemma_block_exprs_open(b: Seq<char>)
    ensures
        forall|i: int| 0 <= i < expressions_spec(b).len() ==> (#[trigger] expressions_spec(b)[i]).0.len() >= 2
            && expressions_spec(b)[i].0[0] == '{',
{
    lemma_expr_matches_open(b, 0);
    assert forall|i: int| 0 <= i < expressions_spec(b).len() implies (#[trigger] expressions_spec(b)[i]).0.len() >= 2
        && expressions_spec(b)[i].0[0] == '{' by {
        assert(expressions_spec(b)[i].0 == expr_matches(b, 0)[i]);
    }
}

/// Every source that a file that parses hands to the evaluator is one it
/// takes without panicking (see [source_safe]).
proof fn lemma_eval_sources_safe(req: (Seq<char>, Span), resp: (Seq<char>, Span), cfg: (Seq<char>, Span), f: ParsedRequestFileView)
    requires
        f.refs == refs_spec(req, resp, cfg),
        f.exprs == exprs_spec(req, resp, cfg),
    ensures
        forall|i: int| 0 <= i < eval_sources(f).len() ==> source_safe(#[trigger] eval_sources(f)[i].0),
{
    reveal_strlit(":");
    reveal_strlit("?");
    reveal_strlit("!");
    reveal_strlit("@");
    reveal_strlit("(");
    reveal_strlit(")");
    lemma_block_refs_plain(req);
    lemma_block_refs_plain(resp);
    lemma_block_refs_plain(cfg);
    lemma_expr_refs_plain(exprs_spec(req, resp, cfg));
    lemma_concat_plain(references_spec(req.0, req.1), references_spec(resp.0, resp.1));
    lemma_concat_plain(references_spec(req.0, req.1) + references_spec(resp.0, resp.1), references_spec(cfg.0, cfg.1));
    lemma_concat_plain(
        references_spec(req.0, req.1) + references_spec(resp.0, resp.1) + references_spec(cfg.0, cfg.1),
        expr_refs(exprs_spec(req, resp, cfg)),
    );
    assert(names_plain(f.refs));
    lemma_block_exprs_open(req.0);
    lemma_block_exprs_open(resp.0);
    lemma_block_exprs_open(cfg.0);
    let e1 = expressions_spec(req.0);
    let e2 = expressions_spec(resp.0);
    let e3 = expressions_spec(cfg.0);
    assert forall|j: int| 0 <= j < f.exprs.len() implies (#[trigger] f.exprs[j]).0.len() >= 2 && f.exprs[j].0[0] == '{' by {
        if j < e1.len() {
            assert(f.exprs[j] == e1[j]);
        } else if j < e1.len() + e2.len() {
            assert(f.exprs[j] == e2[j - e1.len()]);
        } else {
            assert(f.exprs[j] == e3[j - e1.len() - e2.len()]);
        }
    }
    let rs = f.refs.map_values(|r: (ReferenceTypeView, Span)| (r.0.lookup_name(), r.1.start, r.1.end));
    let es = f.exprs.map_values(|e: (Seq<char>, Span)| ("("@ + e.0 + ")"@, e.1.start, e.1.end));
    assert forall|i: int| 0 <= i < eval_sources(f).len() implies source_safe(#[trigger] eval_sources(f)[i].0) by {
        if i < rs.len() {
            assert(eval_sources(f)[i] == rs[i]);
            let r = f.refs[i].0;
            let n = r.name();
            let l = r.lookup_name();
            assert forall|k: int| 0 <= k < l.len() implies l[k] != '(' by {
                match r {
                    ReferenceTypeView::Unknown(_) => {
                        assert(is_name_char(n[k]));
                    },
                    _ => {
                        if k > 0 {
                            assert(l[k] == n[k - 1]);
                            assert(is_name_char(n[k - 1]));
                        }
                    },
                }
            }
            assert(!l.contains('('));
        } else {
            let j = i - rs.len();
            assert(eval_sources(f)[i] == es[j]);
            assert(es[j].0[1] == f.exprs[j].0[0]);
        }
    }
}

/// With a chosen environment that the config defines, every variable is
/// evaluated with the value that environment gives it (with defaults, as
/// `ParsedConfig::env` merges them), empty text where it gives none: looking
/// a declared variable up gives that environment's value.
pub proof fn lemma_eval_env_chosen(
    f: ParsedRequestFileView,
    e: Seq<char>,
    prompts: Map<Seq<char>, Seq<char>>,
    secrets: Map<Seq<char>, Seq<char>>,
    providers: Seq<(Seq<char>, Seq<char>)>,
)
    requires
        f.config_or_empty().env(e) is Some,
    ensures
        ({
            let names = f.config_or_empty().var_names();
            let m = f.config_or_empty().env(e)->Some_0;
            let v = eval_env(f, Some(e), prompts, secrets, providers);
            &&& v.var_names == names
            &&& v.var_values.len() == names.len()
            &&& forall|i: int| 0 <= i < names.len() && m.contains_key(#[trigger] names[i]) ==> v.var_values[i] == m[names[i]]
            &&& forall|i: int| 0 <= i < names.len() && !m.contains_key(#[trigger] names[i]) ==> v.var_values[i] == Seq::<char>::empty()
            &&& forall|i: int|
                0 <= i < names.len() && m.contains_key(#[trigger] names[i]) && name_index(names, names[i]) < 256
                    ==> looked_up(v.var_names, v.var_values, names[i]) == Some(m[names[i]])
        }),
{
    let names = f.config_or_empty().var_names();
    let m = f.config_or_empty().env(e)->Some_0;
    let v = eval_env(f, Some(e), prompts, secrets, providers);
    assert(template_vars(f, Some(e)) == m);
    assert forall|i: int|
        0 <= i < names.len() && m.contains_key(#[trigger] names[i]) && name_index(names, names[i]) < 256
            implies looked_up(v.var_names, v.var_values, names[i]) == Some(m[names[i]]) by {
        crate::expression::lemma_name_index(names, names[i]);
        let p = name_index(names, names[i]);
        assert(p >= 0);
        assert(names[p] == names[i]);
    }
}

/// Prompts are evaluated with the value passed for them, else their
/// default, else empty text; secrets with the value passed for them.
pub proof fn lemma_eval_env_prompts_secrets(
    f: ParsedRequestFileView,
    env: Option<Seq<char>>,
    prompts: Map<Seq<char>, Seq<char>>,
    secrets: Map<Seq<char>, Seq<char>>,
    providers: Seq<(Seq<char>, Seq<char>)>,
)
    ensures
        ({
            let c = f.config_or_empty();
            let v = eval_env(f, env, prompts, secrets, providers);
            let pn = c.prompt_names(0);
            let sn = c.secret_names();
            &&& v.prompt_names == pn
            &&& v.prompt_values.len() == pn.len()
            &&& forall|i: int| 0 <= i < pn.len() && prompts.contains_key(#[trigger] pn[i]) ==> v.prompt_values[i] == prompts[pn[i]]
            &&& forall|i: int|
                0 <= i < pn.len() && !prompts.contains_key(#[trigger] pn[i]) && file_prompt_defaults(f).contains_key(pn[i])
                    ==> v.prompt_values[i] == file_prompt_defaults(f)[pn[i]]
            &&& v.secret_names == sn
            &&& v.secret_values.len() == sn.len()
            &&& forall|i: int| 0 <= i < sn.len() && secrets.contains_key(#[trigger] sn[i]) ==> v.secret_values[i] == secrets[sn[i]]
        }),
{
}

} // verus!
