//! Resolving the environment, prompts and secrets of an unresolved request
//! file.
use crate::errors::{ReqlangError, ReqlangErrorView, ResolverError, ResolverErrorView};
use crate::maps::{lookup, lookup_first, pairs_map, pairs_view, StringMap};
use crate::parser::message::errors_view;
use crate::parser::request_file::contains_name;
use crate::span::{copy_span, Span, Spanned};
use crate::templater::passed_map;
use crate::types::http::{HttpRequestView, HttpResponseView};
use crate::types::{copy_refs, copy_string_map, env_map_view, refs_view, strings_view, ReferenceTypeView};
use crate::unresolved::{
    config_view_or_empty, name_refs_view, prompt_pairs_view, ResolvedRequestFile, ResolvedRequestFileConfig,
    UnresolvedConfigView, UnresolvedRequestFile,
};
use vstd::prelude::*;
use vstd::string::*;

verus! {

/// Resolve env vars, prompts and secrets in a request file
pub struct RequestFileResolver {}

/// What a [ResolvedRequestFile] holds, as plain values.
pub ghost struct ResolvedView {
    pub request: (HttpRequestView, Span),
    pub response: Option<(HttpResponseView, Span)>,
    pub env: Seq<char>,
    pub vars: Seq<(Seq<char>, Seq<char>)>,
    pub prompts: Seq<(Seq<char>, Seq<char>)>,
    pub secrets: Seq<(Seq<char>, Seq<char>)>,
    pub auth: Option<Seq<(Seq<char>, Seq<(Seq<char>, Seq<char>)>)>>,
    pub config_span: Span,
    pub refs: Seq<(ReferenceTypeView, Span)>,
}

/// Plain view of a resolved file.
pub open spec fn resolved_view(r: ResolvedRequestFile) -> ResolvedView {
    ResolvedView {
        request: (r.request.0@, r.request.1),
        response: match r.response {
            Some(x) => Some((x.0@, x.1)),
            None => None,
        },
        env: r.config.0.env@,
        vars: pairs_view(r.config.0.vars@),
        prompts: pairs_view(r.config.0.prompts@),
        secrets: pairs_view(r.config.0.secrets@),
        auth: match r.config.0.auth {
            Some(a) => Some(env_map_view(a@)),
            None => None,
        },
        config_span: r.config.1,
        refs: refs_view(r.refs@),
    }
}

/// An error for each name without a value in `passed`, prompts (`secret`
/// false) or secrets, in order.
pub open spec fn unpassed_errors(names: Seq<Seq<char>>, passed: Map<Seq<char>, Seq<char>>, secret: bool) -> Seq<(ReqlangErrorView, Span)>
    decreases names.len(),
{
    if names.len() == 0 {
        Seq::empty()
    } else {
        let rest = unpassed_errors(names.drop_last(), passed, secret);
        let n = names.last();
        if passed.contains_key(n) {
            rest
        } else {
            let e = if secret {
                ResolverErrorView::SecretValueNotPassed(n)
            } else {
                ResolverErrorView::PromptValueNotPassed(n)
            };
            rest.push((ReqlangErrorView::ResolverError(e), 0..0usize))
        }
    }
}

/// The values of an environment: those of the first environment of that
/// name, none when it is not defined.
pub open spec fn env_values(c: UnresolvedConfigView, env: Seq<char>) -> Seq<(Seq<char>, Seq<char>)> {
    match c.envs {
        Some(e) => match lookup_first(e, env) {
            Some(v) => v,
            None => Seq::empty(),
        },
        None => Seq::empty(),
    }
}

/// What [RequestFileResolver::resolve] gives: with a config, the error of an
/// environment it does not define, else the errors of prompts and secrets
/// without values; otherwise the file with the environment's variables and
/// the values passed, and no auth config.
pub open spec fn resolve_spec(
    f: UnresolvedRequestFile,
    env: Seq<char>,
    prompts: Seq<(Seq<char>, Seq<char>)>,
    secrets: Seq<(Seq<char>, Seq<char>)>,
) -> Result<ResolvedView, Seq<(ReqlangErrorView, Span)>> {
    let c = config_view_or_empty(f.config);
    let ok = ResolvedView {
        request: (f.request.0@, f.request.1),
        response: match f.response {
            Some(x) => Some((x.0@, x.1)),
            None => None,
        },
        env,
        vars: env_values(c, env),
        prompts,
        secrets,
        auth: None,
        config_span: match f.config {
            Some(x) => x.1,
            None => 0..0usize,
        },
        refs: refs_view(f.refs@),
    };
    match f.config {
        Some((_, span)) => if !c.env_names().contains(env) {
            Err(seq![(ReqlangErrorView::ResolverError(ResolverErrorView::InvalidEnvError(env)), span)])
        } else {
            let missing = unpassed_errors(c.prompt_names(), pairs_map(prompts), false) + unpassed_errors(
                c.secret_names(),
                pairs_map(secrets),
                true,
            );
            if missing.len() > 0 {
                Err(missing)
            } else {
                Ok(ok)
            }
        },
        None => Ok(ok),
    }
}

/// Plain view of what resolving gives.
pub open spec fn resolve_result_view(r: Result<ResolvedRequestFile, Vec<Spanned<ReqlangError>>>) -> Result<ResolvedView, Seq<(ReqlangErrorView, Span)>> {
    match r {
        Ok(f) => Ok(resolved_view(f)),
        Err(e) => Err(errors_view(e@)),
    }
}

fn unpassed_value_errors(names: &Vec<&String>, passed: &StringMap, secret: bool) -> (res: Vec<Spanned<ReqlangError>>)
    ensures
        errors_view(res@) == unpassed_errors(name_refs_view(names@), passed_map(*passed), secret),
{
    let ghost nv = name_refs_view(names@);
    let mut out: Vec<Spanned<ReqlangError>> = Vec::new();
    let n = names.len();
    let mut i: usize = 0;
    while i < n
        invariant
            n == names@.len(),
            nv == name_refs_view(names@),
            i <= n,
            errors_view(out@) == unpassed_errors(nv.take(i as int), passed_map(*passed), secret),
        decreases n - i,
    {
        proof {
            assert(nv.take(i + 1).drop_last() =~= nv.take(i as int));
        }
        if lookup(passed, names[i].as_str()).is_none() {
            let ghost before = errors_view(out@);
            let e = if secret {
                ResolverError::SecretValueNotPassed(names[i].clone())
            } else {
                ResolverError::PromptValueNotPassed(names[i].clone())
            };
            out.push((ReqlangError::ResolverError(e), 0..0));
            assert(errors_view(out@) =~= before.push((ReqlangErrorView::ResolverError(e@), 0..0usize)));
        }
        i += 1;
    }
    assert(nv.take(n as int) =~= nv);
    out
}

impl RequestFileResolver {
    pub fn new() -> (res: Self) {
        Self {  }
    }

    /// Resolve a request file with a new resolver
    pub fn resolve_request_file(
        reqfile: &UnresolvedRequestFile,
        env: &str,
        prompts: &StringMap,
        secrets: &StringMap,
    ) -> (res: Result<ResolvedRequestFile, Vec<Spanned<ReqlangError>>>)
        ensures
            resolve_result_view(res) == resolve_spec(*reqfile, env@, pairs_view(prompts@), pairs_view(secrets@)),
    {
        RequestFileResolver::new().resolve(reqfile, env, prompts, secrets)
    }

    /// Resolve a request file for an environment, with prompt and secret
    /// values
    pub fn resolve(
        &self,
        reqfile: &UnresolvedRequestFile,
        env: &str,
        prompts: &StringMap,
        secrets: &StringMap,
    ) -> (res: Result<ResolvedRequestFile, Vec<Spanned<ReqlangError>>>)
        ensures
            resolve_result_view(res) == resolve_spec(*reqfile, env@, pairs_view(prompts@), pairs_view(secrets@)),
    {
        let ghost c = config_view_or_empty(reqfile.config);
        if let Some((_, span)) = &reqfile.config {
            let env_names = reqfile.env_names();
            if !contains_env(&env_names, env) {
                let errs = vec![
                    (ReqlangError::ResolverError(ResolverError::InvalidEnvError(env.to_owned())), copy_span(span)),
                ];
                assert(errors_view(errs@) =~= seq![
                    (ReqlangErrorView::ResolverError(ResolverErrorView::InvalidEnvError(env@)), *span)]);
                return Err(errs);
            }
            let mut missing = unpassed_value_errors(&reqfile.prompt_names(), prompts, false);
            let mut missing_secrets = unpassed_value_errors(&reqfile.secret_names(), secrets, true);
            let ghost m1 = missing@;
            let ghost m2 = missing_secrets@;
            missing.append(&mut missing_secrets);
            assert(errors_view(missing@) =~= errors_view(m1) + errors_view(m2));
            if missing.len() > 0 {
                return Err(missing);
            }
        }
        let config = ResolvedRequestFileConfig {
            env: env.to_owned(),
            vars: self.resolve_vars_from_envs(reqfile, env),
            prompts: copy_string_map(prompts),
            secrets: copy_string_map(secrets),
            auth: None,
        };
        let config_span = match &reqfile.config {
            Some((_, s)) => copy_span(s),
            None => 0..0,
        };
        Ok(ResolvedRequestFile {
            config: (config, config_span),
            request: (reqfile.request.0.copy(), copy_span(&reqfile.request.1)),
            response: match &reqfile.response {
                Some((r, s)) => Some((r.copy(), copy_span(s))),
                None => None,
            },
            refs: copy_refs(&reqfile.refs),
        })
    }

    fn resolve_vars_from_envs(&self, reqfile: &UnresolvedRequestFile, env: &str) -> (res: StringMap)
        ensures
            pairs_view(res@) == env_values(config_view_or_empty(reqfile.config), env@),
    {
        if let Some((config, _)) = &reqfile.config {
            if let Some(envs) = &config.envs {
                let ghost ev = env_map_view(envs@);
                let n = envs.len();
                let mut i: usize = 0;
                assert(ev.skip(0) =~= ev);
                while i < n
                    invariant
                        n == envs@.len(),
                        ev == env_map_view(envs@),
                        config_view_or_empty(reqfile.config).envs == Some(ev),
                        i <= n,
                        lookup_first(ev.skip(i as int), env@) == lookup_first(ev, env@),
                    decreases n - i,
                {
                    proof {
                        assert(ev.skip(i as int).drop_first() =~= ev.skip(i + 1));
                        assert(ev.skip(i as int)[0] == ev[i as int]);
                    }
                    if crate::text::str_eq(envs[i].0.as_str(), env) {
                        return copy_string_map(&envs[i].1);
                    }
                    i += 1;
                }
                assert(ev.skip(n as int) =~= Seq::<(Seq<char>, Seq<(Seq<char>, Seq<char>)>)>::empty());
            }
        }
        let out: StringMap = Vec::new();
        assert(pairs_view(out@) =~= Seq::<(Seq<char>, Seq<char>)>::empty());
        out
    }
}

fn contains_env(names: &Vec<&String>, env: &str) -> (res: bool)
    ensures
        res == name_refs_view(names@).contains(env@),
{
    let n = names.len();
    let mut i: usize = 0;
    while i < n
        invariant
            n == names@.len(),
            i <= n,
            forall|j: int| 0 <= j < i ==> name_refs_view(names@)[j] != env@,
        decreases n - i,
    {
        if crate::text::str_eq(names[i].as_str(), env) {
            assert(name_refs_view(names@)[i as int] == env@);
            return true;
        }
        i += 1;
    }
    false
}

proof fn lemma_no_unpassed_errors(names: Seq<Seq<char>>, passed: Map<Seq<char>, Seq<char>>, secret: bool)
    requires
        unpassed_errors(names, passed, secret).len() == 0,
    ensures
        forall|i: int| 0 <= i < names.len() ==> passed.contains_key(#[trigger] names[i]),
    decreases names.len(),
{
    if names.len() > 0 {
        let t = names.drop_last();
        lemma_no_unpassed_errors(t, passed, secret);
        assert forall|i: int| 0 <= i < names.len() implies passed.contains_key(#[trigger] names[i]) by {
            if i < t.len() {
                assert(names[i] == t[i]);
            }
        }
    }
}

/// A file with a config that resolves carries a value for each prompt and
/// each secret that the config declares.
pub proof fn lemma_resolved_values_present(
    f: UnresolvedRequestFile,
    env: Seq<char>,
    prompts: Seq<(Seq<char>, Seq<char>)>,
    secrets: Seq<(Seq<char>, Seq<char>)>,
)
    requires
        f.config is Some,
        resolve_spec(f, env, prompts, secrets) is Ok,
    ensures
        ({
            let c = config_view_or_empty(f.config);
            let r = resolve_spec(f, env, prompts, secrets)->Ok_0;
            &&& forall|i: int| 0 <= i < c.prompt_names().len() ==> pairs_map(r.prompts).contains_key(
                #[trigger] c.prompt_names()[i],
            )
            &&& forall|i: int| 0 <= i < c.secret_names().len() ==> pairs_map(r.secrets).contains_key(
                #[trigger] c.secret_names()[i],
            )
        }),
{
    let c = config_view_or_empty(f.config);
    let missing = unpassed_errors(c.prompt_names(), pairs_map(prompts), false) + unpassed_errors(
        c.secret_names(),
        pairs_map(secrets),
        true,
    );
    assert(missing.len() == 0);
    lemma_no_unpassed_errors(c.prompt_names(), pairs_map(prompts), false);
    lemma_no_unpassed_errors(c.secret_names(), pairs_map(secrets), true);
}

/// Resolving for an environment gives the values of the (first) environment
/// of that name as the variables; and a file whose config declares no prompt
/// and no secret resolves for every environment it defines.
pub proof fn lemma_resolved_vars_of_chosen_env(
    f: UnresolvedRequestFile,
    env: Seq<char>,
    prompts: Seq<(Seq<char>, Seq<char>)>,
    secrets: Seq<(Seq<char>, Seq<char>)>,
    k: int,
)
    requires
        config_view_or_empty(f.config).envs is Some,
        0 <= k < config_view_or_empty(f.config).envs->Some_0.len(),
        config_view_or_empty(f.config).envs->Some_0[k].0 == env,
        forall|j: int| 0 <= j < k ==> config_view_or_empty(f.config).envs->Some_0[j].0 != env,
    ensures
        resolve_spec(f, env, prompts, secrets) matches Ok(r) ==> r.vars == config_view_or_empty(f.config).envs->Some_0[k].1,
        f.config is Some && config_view_or_empty(f.config).prompt_names().len() == 0 && config_view_or_empty(
            f.config,
        ).secret_names().len() == 0 ==> resolve_spec(f, env, prompts, secrets) is Ok,
{
    let c = config_view_or_empty(f.config);
    let envs = c.envs->Some_0;
    crate::types::lemma_lookup_first_at(envs, env, k);
    assert(c.env_names()[k] == env);
    assert(c.env_names().contains(env));
    assert(unpassed_errors(Seq::empty(), pairs_map(prompts), false) =~= Seq::empty());
    assert(unpassed_errors(Seq::empty(), pairs_map(secrets), true) =~= Seq::empty());
    if c.prompt_names().len() == 0 {
        assert(c.prompt_names() =~= Seq::empty());
    }
    if c.secret_names().len() == 0 {
        assert(c.secret_names() =~= Seq::empty());
    }
}

/// What resolving keeps: a file that resolves carries the chosen environment's
/// name, exactly the prompt and secret values passed, and the file's own
/// request, response and references.
pub proof fn lemma_resolved_keeps_inputs(
    f: UnresolvedRequestFile,
    env: Seq<char>,
    prompts: Seq<(Seq<char>, Seq<char>)>,
    secrets: Seq<(Seq<char>, Seq<char>)>,
)
    requires
        resolve_spec(f, env, prompts, secrets) is Ok,
    ensures
        ({
            let r = resolve_spec(f, env, prompts, secrets)->Ok_0;
            &&& r.env == env
            &&& r.prompts == prompts
            &&& r.secrets == secrets
            &&& r.request == (f.request.0@, f.request.1)
            &&& r.refs == refs_view(f.refs@)
            &&& r.auth is None
        }),
{
}

} // verus!
