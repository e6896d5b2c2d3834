//! Request files before and after their environment, prompts and secrets
//! are resolved.
use crate::maps::{pairs_view, StringMap};
use crate::span::{Span, Spanned};
use crate::types::http::{HttpRequest, HttpRequestView, HttpResponse, HttpResponseView};
use crate::types::{env_map_view, refs_view, strings_view, EnvMap, ReferenceType, ReferenceTypeView};
use vstd::prelude::*;

verus! {

/// The config of a request file before resolving
#[derive(Debug, PartialEq)]
pub struct UnresolvedRequestFileConfig {
    pub vars: Option<Vec<String>>,
    /// Environments by name, each with values by variable name
    pub envs: Option<EnvMap>,
    /// Prompts by name, each with an optional default value
    pub prompts: Option<Vec<(String, Option<String>)>>,
    pub secrets: Option<Vec<String>>,
    pub auth: Option<EnvMap>,
}

/// An unresolved request file represents the raw parsed request file without
/// resolving environmental, prompts or secrets.
///
/// This is before templating has been applied as well.
#[derive(Debug, PartialEq)]
pub struct UnresolvedRequestFile {
    pub config: Option<Spanned<UnresolvedRequestFileConfig>>,
    pub request: Spanned<HttpRequest>,
    pub response: Option<Spanned<HttpResponse>>,
    pub refs: Vec<Spanned<ReferenceType>>,
}

/// The config of a resolved request file: the environment chosen, its
/// variables and the prompt and secret values passed
#[derive(Debug, PartialEq)]
pub struct ResolvedRequestFileConfig {
    pub env: String,
    pub vars: StringMap,
    pub prompts: StringMap,
    pub secrets: StringMap,
    pub auth: Option<EnvMap>,
}

/// A resolved request file with resolved environmental, prompts and secrets values.
#[derive(Debug, PartialEq)]
pub struct ResolvedRequestFile {
    pub request: Spanned<HttpRequest>,
    pub response: Option<Spanned<HttpResponse>>,
    pub config: Spanned<ResolvedRequestFileConfig>,
    pub refs: Vec<Spanned<ReferenceType>>,
}

/// Plain view of prompts with optional defaults.
pub open spec fn prompt_pairs_view(p: Seq<(String, Option<String>)>) -> Seq<(Seq<char>, Option<Seq<char>>)> {
    p.map_values(|x: (String, Option<String>)| (x.0@, crate::types::opt_text(x.1)))
}

pub ghost struct UnresolvedConfigView {
    pub vars: Option<Seq<Seq<char>>>,
    pub envs: Option<Seq<(Seq<char>, Seq<(Seq<char>, Seq<char>)>)>>,
    pub prompts: Option<Seq<(Seq<char>, Option<Seq<char>>)>>,
    pub secrets: Option<Seq<Seq<char>>>,
    pub auth: Option<Seq<(Seq<char>, Seq<(Seq<char>, Seq<char>)>)>>,
}

impl View for UnresolvedRequestFileConfig {
    type V = UnresolvedConfigView;

    open spec fn view(&self) -> UnresolvedConfigView {
        UnresolvedConfigView {
            vars: match self.vars {
                Some(v) => Some(strings_view(v@)),
                None => None,
            },
            envs: match self.envs {
                Some(e) => Some(env_map_view(e@)),
                None => None,
            },
            prompts: match self.prompts {
                Some(p) => Some(prompt_pairs_view(p@)),
                None => None,
            },
            secrets: match self.secrets {
                Some(s) => Some(strings_view(s@)),
                None => None,
            },
            auth: match self.auth {
                Some(a) => Some(env_map_view(a@)),
                None => None,
            },
        }
    }
}

/// Plain view of borrowed names.
pub open spec fn name_refs_view(v: Seq<&String>) -> Seq<Seq<char>> {
    v.map_values(|s: &String| s@)
}

impl UnresolvedConfigView {
    pub open spec fn var_names(self) -> Seq<Seq<char>> {
        match self.vars {
            Some(v) => v,
            None => Seq::empty(),
        }
    }

    pub open spec fn env_names(self) -> Seq<Seq<char>> {
        match self.envs {
            Some(e) => e.map_values(|x: (Seq<char>, Seq<(Seq<char>, Seq<char>)>)| x.0),
            None => Seq::empty(),
        }
    }

    pub open spec fn prompt_names(self) -> Seq<Seq<char>> {
        match self.prompts {
            Some(p) => p.map_values(|x: (Seq<char>, Option<Seq<char>>)| x.0),
            None => Seq::empty(),
        }
    }

    pub open spec fn secret_names(self) -> Seq<Seq<char>> {
        match self.secrets {
            Some(s) => s,
            None => Seq::empty(),
        }
    }
}

/// The config of a file, or an empty one.
pub open spec fn config_view_or_empty(c: Option<Spanned<UnresolvedRequestFileConfig>>) -> UnresolvedConfigView {
    match c {
        Some(c) => c.0@,
        None => UnresolvedConfigView { vars: None, envs: None, prompts: None, secrets: None, auth: None },
    }
}

fn borrow_strings(v: &Vec<String>) -> (res: Vec<&String>)
    ensures
        name_refs_view(res@) == strings_view(v@),
{
    let mut out: Vec<&String> = Vec::new();
    let n = v.len();
    let mut i: usize = 0;
    while i < n
        invariant
            n == v@.len(),
            i <= n,
            name_refs_view(out@) == strings_view(v@.take(i as int)),
        decreases n - i,
    {
        let ghost before = out@;
        out.push(&v[i]);
        proof {
            assert(name_refs_view(out@) =~= name_refs_view(before).push(v@[i as int]@));
            assert(strings_view(v@.take(i + 1)) =~= strings_view(v@.take(i as int)).push(v@[i as int]@));
        }
        i += 1;
    }
    assert(v@.take(n as int) =~= v@);
    out
}

impl UnresolvedRequestFile {
    /// The variable names declared in the config
    pub fn var_names(&self) -> (res: Vec<&String>)
        ensures
            name_refs_view(res@) == config_view_or_empty(self.config).var_names(),
    {
        match &self.config {
            Some((config, _)) => match &config.vars {
                Some(vars) => borrow_strings(vars),
                None => {
                    let out: Vec<&String> = Vec::new();
                    assert(name_refs_view(out@) =~= Seq::<Seq<char>>::empty());
                    out
                },
            },
            None => {
                let out: Vec<&String> = Vec::new();
                assert(name_refs_view(out@) =~= Seq::<Seq<char>>::empty());
                out
            },
        }
    }

    /// The environment names defined in the config
    pub fn env_names(&self) -> (res: Vec<&String>)
        ensures
            name_refs_view(res@) == config_view_or_empty(self.config).env_names(),
    {
        let mut out: Vec<&String> = Vec::new();
        if let Some((config, _)) = &self.config {
            if let Some(envs) = &config.envs {
                let ghost target = env_map_view(envs@).map_values(
                    |x: (Seq<char>, Seq<(Seq<char>, Seq<char>)>)| x.0,
                );
                let n = envs.len();
                let mut i: usize = 0;
                while i < n
                    invariant
                        n == envs@.len(),
                        i <= n,
                        target == env_map_view(envs@).map_values(
                            |x: (Seq<char>, Seq<(Seq<char>, Seq<char>)>)| x.0,
                        ),
                        name_refs_view(out@) == target.take(i as int),
                    decreases n - i,
                {
                    let ghost before = out@;
                    out.push(&envs[i].0);
                    proof {
                        assert(name_refs_view(out@) =~= name_refs_view(before).push(envs@[i as int].0@));
                        assert(target.take(i + 1) =~= target.take(i as int).push(target[i as int]));
                    }
                    i += 1;
                }
                assert(target.take(n as int) =~= target);
                return out;
            }
        }
        assert(name_refs_view(out@) =~= Seq::<Seq<char>>::empty());
        out
    }

    /// The prompt names declared in the config
    pub fn prompt_names(&self) -> (res: Vec<&String>)
        ensures
            name_refs_view(res@) == config_view_or_empty(self.config).prompt_names(),
    {
        let mut out: Vec<&String> = Vec::new();
        if let Some((config, _)) = &self.config {
            if let Some(prompts) = &config.prompts {
                let ghost target = prompt_pairs_view(prompts@).map_values(
                    |x: (Seq<char>, Option<Seq<char>>)| x.0,
                );
                let n = prompts.len();
                let mut i: usize = 0;
                while i < n
                    invariant
                        n == prompts@.len(),
                        i <= n,
                        target == prompt_pairs_view(prompts@).map_values(
                            |x: (Seq<char>, Option<Seq<char>>)| x.0,
                        ),
                        name_refs_view(out@) == target.take(i as int),
                    decreases n - i,
                {
                    let ghost before = out@;
                    out.push(&prompts[i].0);
                    proof {
                        assert(name_refs_view(out@) =~= name_refs_view(before).push(prompts@[i as int].0@));
                        assert(target.take(i + 1) =~= target.take(i as int).push(target[i as int]));
                    }
                    i += 1;
                }
                assert(target.take(n as int) =~= target);
                return out;
            }
        }
        assert(name_refs_view(out@) =~= Seq::<Seq<char>>::empty());
        out
    }

    /// The secret names declared in the config
    pub fn secret_names(&self) -> (res: Vec<&String>)
        ensures
            name_refs_view(res@) == config_view_or_empty(self.config).secret_names(),
    {
        match &self.config {
            Some((config, _)) => match &config.secrets {
                Some(secrets) => borrow_strings(secrets),
                None => {
                    let out: Vec<&String> = Vec::new();
                    assert(name_refs_view(out@) =~= Seq::<Seq<char>>::empty());
                    out
                },
            },
            None => {
                let out: Vec<&String> = Vec::new();
                assert(name_refs_view(out@) =~= Seq::<Seq<char>>::empty());
                out
            },
        }
    }
}

} // verus!
