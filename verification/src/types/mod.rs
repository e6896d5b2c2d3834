use crate::maps::{insert_string, keys_unique, lookup_first, pairs_map, pairs_view, StringMap, lemma_pairs_map_concat};
use crate::span::{copy_span, Span, Spanned};
use crate::text::{push_str, str_eq};
use http::{HttpRequest, HttpRequestView, HttpResponse, HttpResponseView};
use vstd::prelude::*;
use vstd::string::*;

pub mod http;

verus! {

/// Template reference in a request file
///
/// Syntax: `{{:variable}}`, `{{?prompt}}`, `{{!secret}}`, `{{@provider}}`
#[derive(Debug, Clone, PartialEq)]
pub enum ReferenceType {
    Variable(String),
    Prompt(String),
    Secret(String),
    Provider(String),
    Unknown(String),
}

/// What a [ReferenceType] holds, as plain values.
pub ghost enum ReferenceTypeView {
    Variable(Seq<char>),
    Prompt(Seq<char>),
    Secret(Seq<char>),
    Provider(Seq<char>),
    Unknown(Seq<char>),
}

impl View for ReferenceType {
    type V = ReferenceTypeView;

    open spec fn view(&self) -> ReferenceTypeView {
        match self {
            ReferenceType::Variable(n) => ReferenceTypeView::Variable(n@),
            ReferenceType::Prompt(n) => ReferenceTypeView::Prompt(n@),
            ReferenceType::Secret(n) => ReferenceTypeView::Secret(n@),
            ReferenceType::Provider(n) => ReferenceTypeView::Provider(n@),
            ReferenceType::Unknown(n) => ReferenceTypeView::Unknown(n@),
        }
    }
}

impl ReferenceTypeView {
    /// The referenced name.
    pub open spec fn name(self) -> Seq<char> {
        match self {
            ReferenceTypeView::Variable(n) => n,
            ReferenceTypeView::Prompt(n) => n,
            ReferenceTypeView::Secret(n) => n,
            ReferenceTypeView::Provider(n) => n,
            ReferenceTypeView::Unknown(n) => n,
        }
    }

    /// The reference as written in a request file.
    pub open spec fn template(self) -> Seq<char> {
        match self {
            ReferenceTypeView::Variable(n) => "{{:"@ + n + "}}"@,
            ReferenceTypeView::Prompt(n) => "{{?"@ + n + "}}"@,
            ReferenceTypeView::Secret(n) => "{{!"@ + n + "}}"@,
            ReferenceTypeView::Provider(n) => "{{@"@ + n + "}}"@,
            ReferenceTypeView::Unknown(n) => "???"@ + n + "???"@,
        }
    }

    /// The name an expression looks the reference up by: its sigil and its
    /// name.
    pub open spec fn lookup_name(self) -> Seq<char> {
        match self {
            ReferenceTypeView::Variable(n) => ":"@ + n,
            ReferenceTypeView::Prompt(n) => "?"@ + n,
            ReferenceTypeView::Secret(n) => "!"@ + n,
            ReferenceTypeView::Provider(n) => "@"@ + n,
            ReferenceTypeView::Unknown(n) => n,
        }
    }
}

impl ReferenceType {
    /// The reference as written in a request file (what `Display` writes).
    pub fn to_template_string(&self) -> (res: String)
        ensures
            res@ == self@.template(),
    {
        let mut out = String::new();
        let (open, name, close) = match self {
            ReferenceType::Variable(n) => ("{{:", n, "}}"),
            ReferenceType::Prompt(n) => ("{{?", n, "}}"),
            ReferenceType::Secret(n) => ("{{!", n, "}}"),
            ReferenceType::Provider(n) => ("{{@", n, "}}"),
            ReferenceType::Unknown(n) => ("???", n, "???"),
        };
        push_str(&mut out, open);
        push_str(&mut out, name.as_str());
        push_str(&mut out, close);
        out
    }

    /// The name an expression looks the reference up by, e.g. `:name` for a
    /// variable.
    pub fn lookup_name(&self) -> (res: String)
        ensures
            res@ == self@.lookup_name(),
    {
        let mut out = String::new();
        let (sigil, name) = match self {
            ReferenceType::Variable(n) => (":", n),
            ReferenceType::Prompt(n) => ("?", n),
            ReferenceType::Secret(n) => ("!", n),
            ReferenceType::Provider(n) => ("@", n),
            ReferenceType::Unknown(n) => {
                return n.clone();
            },
        };
        push_str(&mut out, sigil);
        push_str(&mut out, name.as_str());
        out
    }

    /// The referenced name.
    pub fn name(&self) -> (res: &String)
        ensures
            res@ == self@.name(),
    {
        match self {
            ReferenceType::Variable(n) => n,
            ReferenceType::Prompt(n) => n,
            ReferenceType::Secret(n) => n,
            ReferenceType::Provider(n) => n,
            ReferenceType::Unknown(n) => n,
        }
    }

    /// A copy of this reference.
    pub fn copy(&self) -> (res: Self)
        ensures
            res@ == self@,
    {
        match self {
            ReferenceType::Variable(n) => ReferenceType::Variable(n.clone()),
            ReferenceType::Prompt(n) => ReferenceType::Prompt(n.clone()),
            ReferenceType::Secret(n) => ReferenceType::Secret(n.clone()),
            ReferenceType::Provider(n) => ReferenceType::Provider(n.clone()),
            ReferenceType::Unknown(n) => ReferenceType::Unknown(n.clone()),
        }
    }
}

/// Optional text as plain text.
pub open spec fn opt_text(o: Option<String>) -> Option<Seq<char>> {
    match o {
        Some(s) => Some(s@),
        None => None,
    }
}

fn copy_opt_text(o: &Option<String>) -> (res: Option<String>)
    ensures
        opt_text(res) == opt_text(*o),
{
    match o {
        Some(s) => Some(s.clone()),
        None => None,
    }
}

/// A parsed variable definition
#[derive(Debug, Clone, PartialEq)]
pub struct ParsedConfigVariable {
    pub name: String,
    pub default: Option<String>,
}

/// What a [ParsedConfigVariable] holds, as plain values.
pub ghost struct VariableView {
    pub name: Seq<char>,
    pub default: Option<Seq<char>>,
}

impl View for ParsedConfigVariable {
    type V = VariableView;

    open spec fn view(&self) -> VariableView {
        VariableView { name: self.name@, default: opt_text(self.default) }
    }
}

/// A parsed prompt definition
#[derive(Debug, Clone, PartialEq)]
pub struct ParsedConfigPrompt {
    pub name: String,
    pub description: Option<String>,
    pub default: Option<String>,
}

/// What a [ParsedConfigPrompt] holds, as plain values.
pub ghost struct PromptView {
    pub name: Seq<char>,
    pub description: Option<Seq<char>>,
    pub default: Option<Seq<char>>,
}

impl View for ParsedConfigPrompt {
    type V = PromptView;

    open spec fn view(&self) -> PromptView {
        PromptView {
            name: self.name@,
            description: opt_text(self.description),
            default: opt_text(self.default),
        }
    }
}

/// Environments by name, each a map of variable names to values.
pub type EnvMap = Vec<(String, StringMap)>;

/// Plain view of an [EnvMap].
pub open spec fn env_map_view(e: Seq<(String, StringMap)>) -> Seq<(Seq<char>, Seq<(Seq<char>, Seq<char>)>)> {
    e.map_values(|p: (String, StringMap)| (p.0@, pairs_view(p.1@)))
}

/// Request file config parsed from a string input
///
/// All template references are still in place
#[derive(Debug, PartialEq)]
pub struct ParsedConfig {
    /// The variable names declared in the config
    pub vars: Option<Vec<ParsedConfigVariable>>,
    /// Environments with values
    ///
    /// These values match the variable names in the config
    pub envs: Option<EnvMap>,
    /// The prompt names declared in the config
    pub prompts: Option<Vec<ParsedConfigPrompt>>,
    /// The secret names declared in the config
    pub secrets: Option<Vec<String>>,
    pub auth: Option<EnvMap>,
}

/// What a [ParsedConfig] holds, as plain values.
pub ghost struct ParsedConfigView {
    pub vars: Option<Seq<VariableView>>,
    pub envs: Option<Seq<(Seq<char>, Seq<(Seq<char>, Seq<char>)>)>>,
    pub prompts: Option<Seq<PromptView>>,
    pub secrets: Option<Seq<Seq<char>>>,
    pub auth: Option<Seq<(Seq<char>, Seq<(Seq<char>, Seq<char>)>)>>,
}

/// Plain view of a list of strings.
pub open spec fn strings_view(s: Seq<String>) -> Seq<Seq<char>> {
    s.map_values(|x: String| x@)
}

impl View for ParsedConfig {
    type V = ParsedConfigView;

    open spec fn view(&self) -> ParsedConfigView {
        ParsedConfigView {
            vars: match self.vars {
                Some(v) => Some(v@.map_values(|x: ParsedConfigVariable| x@)),
                None => None,
            },
            envs: match self.envs {
                Some(e) => Some(env_map_view(e@)),
                None => None,
            },
            prompts: match self.prompts {
                Some(p) => Some(p@.map_values(|x: ParsedConfigPrompt| x@)),
                None => None,
            },
            secrets: match self.secrets {
                Some(s) => Some(strings_view(s@)),
                None => None,
            },
            auth: match self.auth {
                Some(e) => Some(env_map_view(e@)),
                None => None,
            },
        }
    }
}

/// Names of prompts: all of them (`which` 0), those without a default (1), or
/// those with one (2).
pub open spec fn prompt_names(prompts: Seq<PromptView>, which: int) -> Seq<Seq<char>>
    decreases prompts.len(),
{
    if prompts.len() == 0 {
        Seq::empty()
    } else {
        let rest = prompt_names(prompts.drop_last(), which);
        let p = prompts.last();
        if which == 0 || (which == 1 && p.default is None) || (which == 2 && p.default is Some) {
            rest.push(p.name)
        } else {
            rest
        }
    }
}

/// Every prompt is either required (declared without a default) or
/// optional (with one): the names of the required and of the optional
/// prompts together are the names of all of them.
pub proof fn lemma_prompts_split(prompts: Seq<PromptView>)
    ensures
        prompt_names(prompts, 1).len() + prompt_names(prompts, 2).len() == prompt_names(prompts, 0).len(),
        forall|n: Seq<char>|
            prompt_names(prompts, 0).contains(n) <==> (prompt_names(prompts, 1).contains(n) || prompt_names(
                prompts,
                2,
            ).contains(n)),
    decreases prompts.len(),
{
    if prompts.len() > 0 {
        let q = prompts.drop_last();
        lemma_prompts_split(q);
        let p = prompts.last();
        let a = prompt_names(q, 0);
        let r = prompt_names(q, 1);
        let o = prompt_names(q, 2);
        assert forall|n: Seq<char>|
            prompt_names(prompts, 0).contains(n) <==> (prompt_names(prompts, 1).contains(n) || prompt_names(
                prompts,
                2,
            ).contains(n)) by {
            assert(prompt_names(prompts, 0) == a.push(p.name));
            if p.default is None {
                assert(prompt_names(prompts, 1) == r.push(p.name));
                assert(prompt_names(prompts, 2) == o);
                if r.push(p.name).contains(n) && n != p.name {
                    let k = choose|k: int| 0 <= k < r.push(p.name).len() && r.push(p.name)[k] == n;
                    assert(r[k] == n);
                }
                if a.push(p.name).contains(n) && n != p.name {
                    let k = choose|k: int| 0 <= k < a.push(p.name).len() && a.push(p.name)[k] == n;
                    assert(a[k] == n);
                }
                if r.contains(n) {
                    let k = choose|k: int| 0 <= k < r.len() && r[k] == n;
                    assert(r.push(p.name)[k] == n);
                }
                if a.contains(n) {
                    let k = choose|k: int| 0 <= k < a.len() && a[k] == n;
                    assert(a.push(p.name)[k] == n);
                }
                assert(r.push(p.name)[r.len() as int] == p.name);
                assert(a.push(p.name)[a.len() as int] == p.name);
            } else {
                assert(prompt_names(prompts, 2) == o.push(p.name));
                assert(prompt_names(prompts, 1) == r);
                if o.push(p.name).contains(n) && n != p.name {
                    let k = choose|k: int| 0 <= k < o.push(p.name).len() && o.push(p.name)[k] == n;
                    assert(o[k] == n);
                }
                if a.push(p.name).contains(n) && n != p.name {
                    let k = choose|k: int| 0 <= k < a.push(p.name).len() && a.push(p.name)[k] == n;
                    assert(a[k] == n);
                }
                if o.contains(n) {
                    let k = choose|k: int| 0 <= k < o.len() && o[k] == n;
                    assert(o.push(p.name)[k] == n);
                }
                if a.contains(n) {
                    let k = choose|k: int| 0 <= k < a.len() && a[k] == n;
                    assert(a.push(p.name)[k] == n);
                }
                assert(o.push(p.name)[o.len() as int] == p.name);
                assert(a.push(p.name)[a.len() as int] == p.name);
            }
        }
    }
}

/// The variables that have a default value are exactly the keys of their
/// default values.
pub proof fn lemma_var_defaults_keys(vars: Seq<VariableView>)
    ensures
        forall|k: Seq<char>| #[trigger] var_defaults(vars).contains_key(k) <==> exists|i: int|
            0 <= i < vars.len() && vars[i].name == k && vars[i].default is Some,
    decreases vars.len(),
{
    if vars.len() > 0 {
        let t = vars.drop_last();
        lemma_var_defaults_keys(t);
        assert forall|k: Seq<char>| #[trigger] var_defaults(vars).contains_key(k) <==> exists|i: int|
            0 <= i < vars.len() && vars[i].name == k && vars[i].default is Some by {
            if var_defaults(vars).contains_key(k) {
                if var_defaults(t).contains_key(k) {
                    let i = choose|i: int| 0 <= i < t.len() && t[i].name == k && t[i].default is Some;
                    assert(vars[i] == t[i]);
                } else {
                    assert(vars[vars.len() - 1] == vars.last());
                }
            }
            if exists|i: int| 0 <= i < vars.len() && vars[i].name == k && vars[i].default is Some {
                let i = choose|i: int| 0 <= i < vars.len() && vars[i].name == k && vars[i].default is Some;
                if i < t.len() {
                    assert(t[i] == vars[i]);
                }
            }
        }
    }
}

/// The variables that a config declares.
pub open spec fn declared_vars(c: ParsedConfigView) -> Seq<VariableView> {
    match c.vars {
        Some(v) => v,
        None => Seq::empty(),
    }
}

/// The values that an environment of a config gives (`None` when the config
/// does not define it), by name.
pub open spec fn env_entries(c: ParsedConfigView, env: Seq<char>) -> Option<Map<Seq<char>, Seq<char>>> {
    match c.envs {
        Some(envs) => match lookup_first(envs, env) {
            Some(values) => Some(pairs_map(values)),
            None => None,
        },
        None => None,
    }
}

/// The variables of an environment: none when the config does not define
/// the environment; otherwise their names are those the environment gives a
/// value and those of the variables with a default value, and each takes
/// its default value when it has one, else the environment's value.
pub proof fn lemma_env_values(c: ParsedConfigView, env: Seq<char>)
    ensures
        c.env(env) is None <==> env_entries(c, env) is None,
        c.env(env) is Some ==> forall|k: Seq<char>| #[trigger] c.env(env)->Some_0.contains_key(k) <==> (
            env_entries(c, env)->Some_0.contains_key(k) || exists|i: int|
                0 <= i < declared_vars(c).len() && declared_vars(c)[i].name == k && declared_vars(c)[i].default is Some),
        c.env(env) is Some ==> forall|k: Seq<char>| #[trigger] var_defaults(declared_vars(c)).contains_key(k)
            ==> c.env(env)->Some_0[k] == var_defaults(declared_vars(c))[k],
        c.env(env) is Some ==> forall|k: Seq<char>| env_entries(c, env)->Some_0.contains_key(k) && !(
            #[trigger] var_defaults(declared_vars(c)).contains_key(k)) ==> c.env(env)->Some_0[k] == env_entries(c, env)->Some_0[k],
{
    let vars = declared_vars(c);
    lemma_var_defaults_keys(vars);
    let d = var_defaults(vars);
    if c.vars is None {
        assert(d =~= Map::<Seq<char>, Seq<char>>::empty());
    }
    if c.env(env) is Some {
        let e = env_entries(c, env)->Some_0;
        let m = c.env(env)->Some_0;
        assert(m == e.union_prefer_right(d));
        assert forall|k: Seq<char>| #[trigger] m.contains_key(k) <==> (e.contains_key(k) || exists|i: int|
            0 <= i < vars.len() && vars[i].name == k && vars[i].default is Some) by {
            assert(d.contains_key(k) <==> exists|i: int| 0 <= i < vars.len() && vars[i].name == k && vars[i].default is Some);
        }
    }
}

/// Default values of variables that declare one, by name.
pub open spec fn var_defaults(vars: Seq<VariableView>) -> Map<Seq<char>, Seq<char>>
    decreases vars.len(),
{
    if vars.len() == 0 {
        Map::empty()
    } else {
        let rest = var_defaults(vars.drop_last());
        match vars.last().default {
            Some(d) => rest.insert(vars.last().name, d),
            None => rest,
        }
    }
}

/// Default values of all variables by name, empty for those without one.
pub open spec fn var_values_or_empty(vars: Seq<VariableView>) -> Map<Seq<char>, Seq<char>>
    decreases vars.len(),
{
    if vars.len() == 0 {
        Map::empty()
    } else {
        let rest = var_values_or_empty(vars.drop_last());
        match vars.last().default {
            Some(d) => rest.insert(vars.last().name, d),
            None => rest.insert(vars.last().name, Seq::empty()),
        }
    }
}

/// Default values of prompts that declare one, by name.
pub open spec fn prompt_defaults(prompts: Seq<PromptView>) -> Map<Seq<char>, Seq<char>>
    decreases prompts.len(),
{
    if prompts.len() == 0 {
        Map::empty()
    } else {
        let rest = prompt_defaults(prompts.drop_last());
        match prompts.last().default {
            Some(d) => rest.insert(prompts.last().name, d),
            None => rest,
        }
    }
}

/// The prompts that have a default value are exactly the keys of their
/// default values, and a prompt declared once more later takes the default
/// of its last declaration.
pub proof fn lemma_prompt_defaults(prompts: Seq<PromptView>)
    ensures
        forall|k: Seq<char>| #[trigger] prompt_defaults(prompts).contains_key(k) <==> exists|i: int|
            0 <= i < prompts.len() && prompts[i].name == k && prompts[i].default is Some,
        forall|i: int|
            0 <= i < prompts.len() && (#[trigger] prompts[i]).default is Some && (forall|j: int| i < j < prompts.len() ==> prompts[j].name
                != prompts[i].name) ==> prompt_defaults(prompts)[prompts[i].name] == prompts[i].default->Some_0,
    decreases prompts.len(),
{
    if prompts.len() > 0 {
        let t = prompts.drop_last();
        lemma_prompt_defaults(t);
        let last = prompts.last();
        assert forall|k: Seq<char>| #[trigger] prompt_defaults(prompts).contains_key(k) <==> exists|i: int|
            0 <= i < prompts.len() && prompts[i].name == k && prompts[i].default is Some by {
            if prompt_defaults(prompts).contains_key(k) {
                if prompt_defaults(t).contains_key(k) {
                    let i = choose|i: int| 0 <= i < t.len() && t[i].name == k && t[i].default is Some;
                    assert(prompts[i] == t[i]);
                } else {
                    assert(prompts[prompts.len() - 1] == last);
                }
            }
            if exists|i: int| 0 <= i < prompts.len() && prompts[i].name == k && prompts[i].default is Some {
                let i = choose|i: int| 0 <= i < prompts.len() && prompts[i].name == k && prompts[i].default is Some;
                if i < t.len() {
                    assert(t[i] == prompts[i]);
                    assert(prompt_defaults(t).contains_key(k));
                } else {
                    assert(prompts[i] == last);
                }
            }
        }
        assert forall|i: int|
            0 <= i < prompts.len() && (#[trigger] prompts[i]).default is Some && (forall|j: int| i < j < prompts.len() ==> prompts[j].name
                != prompts[i].name) implies prompt_defaults(prompts)[prompts[i].name] == prompts[i].default->Some_0 by {
            if i < t.len() {
                assert(t[i] == prompts[i]);
                assert(last.name != prompts[i].name) by {
                    assert(prompts[prompts.len() - 1] == last);
                }
                assert forall|j: int| i < j < t.len() implies t[j].name != t[i].name by {
                    assert(t[j] == prompts[j]);
                }
            }
        }
    }
}

/// A variable declared once more later takes the default of its last
/// declaration.
pub proof fn lemma_var_default_value(vars: Seq<VariableView>)
    ensures
        forall|i: int|
            0 <= i < vars.len() && (#[trigger] vars[i]).default is Some && (forall|j: int| i < j < vars.len() ==> vars[j].name != vars[i].name)
                ==> var_defaults(vars)[vars[i].name] == vars[i].default->Some_0,
    decreases vars.len(),
{
    if vars.len() > 0 {
        let t = vars.drop_last();
        lemma_var_default_value(t);
        let last = vars.last();
        assert forall|i: int|
            0 <= i < vars.len() && (#[trigger] vars[i]).default is Some && (forall|j: int| i < j < vars.len() ==> vars[j].name != vars[i].name)
                implies var_defaults(vars)[vars[i].name] == vars[i].default->Some_0 by {
            if i < t.len() {
                assert(t[i] == vars[i]);
                assert(last.name != vars[i].name) by {
                    assert(vars[vars.len() - 1] == last);
                }
                assert forall|j: int| i < j < t.len() implies t[j].name != t[i].name by {
                    assert(t[j] == vars[j]);
                }
            }
        }
    }
}

impl ParsedConfigView {
    /// The variable names declared.
    pub open spec fn var_names(self) -> Seq<Seq<char>> {
        match self.vars {
            Some(v) => v.map_values(|x: VariableView| x.name),
            None => Seq::empty(),
        }
    }

    /// The environment names defined.
    pub open spec fn env_names(self) -> Seq<Seq<char>> {
        match self.envs {
            Some(e) => e.map_values(|x: (Seq<char>, Seq<(Seq<char>, Seq<char>)>)| x.0),
            None => Seq::empty(),
        }
    }

    /// Names of the prompts selected as in [prompt_names].
    pub open spec fn prompt_names(self, which: int) -> Seq<Seq<char>> {
        match self.prompts {
            Some(p) => prompt_names(p, which),
            None => Seq::empty(),
        }
    }

    /// The secret names declared.
    pub open spec fn secret_names(self) -> Seq<Seq<char>> {
        match self.secrets {
            Some(s) => s,
            None => Seq::empty(),
        }
    }

    /// The variables of an environment merged with the variables' default
    /// values, the defaults taking precedence; `None` when the environment is
    /// not defined.
    pub open spec fn env(self, env: Seq<char>) -> Option<Map<Seq<char>, Seq<char>>> {
        let defaults = match self.vars {
            Some(v) => var_defaults(v),
            None => Map::empty(),
        };
        match self.envs {
            Some(envs) => match lookup_first(envs, env) {
                Some(values) => Some(pairs_map(values).union_prefer_right(defaults)),
                None => None,
            },
            None => None,
        }
    }
}

pub fn copy_strings(v: &Vec<String>) -> (res: Vec<String>)
    ensures
        strings_view(res@) == strings_view(v@),
{
    let mut out: Vec<String> = Vec::new();
    let n = v.len();
    let mut i: usize = 0;
    while i < n
        invariant
            n == v@.len(),
            i <= n,
            strings_view(out@) == strings_view(v@.take(i as int)),
        decreases n - i,
    {
        let ghost before = out@;
        let x = v[i].clone();
        out.push(x);
        proof {
            assert(strings_view(out@) =~= strings_view(before).push(v@[i as int]@));
            assert(strings_view(v@.take(i + 1)) =~= strings_view(v@.take(i as int)).push(v@[i as int]@));
        }
        i += 1;
    }
    proof {
        assert(v@.take(n as int) =~= v@);
    }
    out
}

/// A copy of a map of names to text.
pub fn copy_string_map(m: &StringMap) -> (res: StringMap)
    ensures
        pairs_view(res@) == pairs_view(m@),
{
    let mut out: StringMap = Vec::new();
    let n = m.len();
    let mut i: usize = 0;
    while i < n
        invariant
            n == m@.len(),
            i <= n,
            pairs_view(out@) == pairs_view(m@.take(i as int)),
        decreases n - i,
    {
        let ghost before = out@;
        let k = m[i].0.clone();
        let val = m[i].1.clone();
        out.push((k, val));
        proof {
            assert(pairs_view(out@) =~= pairs_view(before).push((m@[i as int].0@, m@[i as int].1@)));
            assert(pairs_view(m@.take(i + 1)) =~= pairs_view(m@.take(i as int)).push((m@[i as int].0@, m@[i as int].1@)));
        }
        i += 1;
    }
    proof {
        assert(m@.take(n as int) =~= m@);
    }
    out
}

fn copy_variables(v: &Vec<ParsedConfigVariable>) -> (res: Vec<ParsedConfigVariable>)
    ensures
        res@.map_values(|x: ParsedConfigVariable| x@) == v@.map_values(|x: ParsedConfigVariable| x@),
{
    let mut out: Vec<ParsedConfigVariable> = Vec::new();
    let n = v.len();
    let mut i: usize = 0;
    while i < n
        invariant
            n == v@.len(),
            i <= n,
            out@.map_values(|x: ParsedConfigVariable| x@) == v@.take(i as int).map_values(|x: ParsedConfigVariable| x@),
        decreases n - i,
    {
        let x = ParsedConfigVariable { name: v[i].name.clone(), default: copy_opt_text(&v[i].default) };
        let ghost before = out@;
        out.push(x);
        assert(out@.map_values(|x: ParsedConfigVariable| x@) =~= before.map_values(|x: ParsedConfigVariable| x@).push(v@[i as int]@));
        assert(v@.take(i + 1).map_values(|x: ParsedConfigVariable| x@) =~= v@.take(i as int).map_values(|x: ParsedConfigVariable| x@).push(v@[i as int]@));
        assert(out@.map_values(|x: ParsedConfigVariable| x@) =~= v@.take(i + 1).map_values(|x: ParsedConfigVariable| x@));
        i += 1;
    }
    assert(v@.take(n as int) =~= v@);
    out
}

fn copy_prompts(v: &Vec<ParsedConfigPrompt>) -> (res: Vec<ParsedConfigPrompt>)
    ensures
        res@.map_values(|x: ParsedConfigPrompt| x@) == v@.map_values(|x: ParsedConfigPrompt| x@),
{
    let mut out: Vec<ParsedConfigPrompt> = Vec::new();
    let n = v.len();
    let mut i: usize = 0;
    while i < n
        invariant
            n == v@.len(),
            i <= n,
            out@.map_values(|x: ParsedConfigPrompt| x@) == v@.take(i as int).map_values(|x: ParsedConfigPrompt| x@),
        decreases n - i,
    {
        let x = ParsedConfigPrompt {
            name: v[i].name.clone(),
            description: copy_opt_text(&v[i].description),
            default: copy_opt_text(&v[i].default),
        };
        let ghost before = out@;
        out.push(x);
        assert(out@.map_values(|x: ParsedConfigPrompt| x@) =~= before.map_values(|x: ParsedConfigPrompt| x@).push(v@[i as int]@));
        assert(v@.take(i + 1).map_values(|x: ParsedConfigPrompt| x@) =~= v@.take(i as int).map_values(|x: ParsedConfigPrompt| x@).push(v@[i as int]@));
        assert(out@.map_values(|x: ParsedConfigPrompt| x@) =~= v@.take(i + 1).map_values(|x: ParsedConfigPrompt| x@));
        i += 1;
    }
    assert(v@.take(n as int) =~= v@);
    out
}

pub fn copy_env_map(e: &EnvMap) -> (res: EnvMap)
    ensures
        env_map_view(res@) == env_map_view(e@),
{
    let mut out: EnvMap = Vec::new();
    let n = e.len();
    let mut i: usize = 0;
    while i < n
        invariant
            n == e@.len(),
            i <= n,
            env_map_view(out@) == env_map_view(e@.take(i as int)),
        decreases n - i,
    {
        let x = (e[i].0.clone(), copy_string_map(&e[i].1));
        let ghost before = out@;
        out.push(x);
        assert(env_map_view(out@) =~= env_map_view(before).push((e@[i as int].0@, pairs_view(e@[i as int].1@))));
        assert(env_map_view(e@.take(i + 1)) =~= env_map_view(e@.take(i as int)).push((e@[i as int].0@, pairs_view(e@[i as int].1@))));
        assert(env_map_view(out@) =~= env_map_view(e@.take(i + 1)));
        i += 1;
    }
    assert(e@.take(n as int) =~= e@);
    out
}

impl ParsedConfig {
    /// A copy of this config.
    pub fn copy(&self) -> (res: Self)
        ensures
            res@ == self@,
    {
        ParsedConfig {
            vars: match &self.vars {
                Some(v) => Some(copy_variables(v)),
                None => None,
            },
            envs: match &self.envs {
                Some(e) => Some(copy_env_map(e)),
                None => None,
            },
            prompts: match &self.prompts {
                Some(p) => Some(copy_prompts(p)),
                None => None,
            },
            secrets: match &self.secrets {
                Some(s) => Some(copy_strings(s)),
                None => None,
            },
            auth: match &self.auth {
                Some(e) => Some(copy_env_map(e)),
                None => None,
            },
        }
    }

    /// The variable names declared
    pub fn vars(&self) -> (res: Vec<String>)
        ensures
            strings_view(res@) == self@.var_names(),
    {
        let mut out: Vec<String> = Vec::new();
        if let Some(vars) = &self.vars {
            let n = vars.len();
            let mut i: usize = 0;
            while i < n
                invariant
                    n == vars@.len(),
                    i <= n,
                    strings_view(out@) == vars@.take(i as int).map_values(|x: ParsedConfigVariable| x@).map_values(
                        |x: VariableView| x.name),
                decreases n - i,
            {
                let ghost before = out@;
                let x = vars[i].name.clone();
                out.push(x);
                proof {
                    assert(strings_view(out@) =~= strings_view(before).push(vars@[i as int].name@));
                    assert(vars@.take(i + 1).map_values(|x: ParsedConfigVariable| x@).map_values(|x: VariableView| x.name)
                        =~= vars@.take(i as int).map_values(|x: ParsedConfigVariable| x@).map_values(|x: VariableView| x.name).push(vars@[i as int].name@));
                    assert(strings_view(out@) =~= vars@.take(i + 1).map_values(|x: ParsedConfigVariable| x@).map_values(
                        |x: VariableView| x.name));
                }
                i += 1;
            }
            proof {
                assert(vars@.take(n as int) =~= vars@);
            }
        } else {
            proof {
                assert(strings_view(out@) =~= Seq::<Seq<char>>::empty());
            }
        }
        out
    }

    /// The enviroment names defined
    pub fn envs(&self) -> (res: Vec<String>)
        ensures
            strings_view(res@) == self@.env_names(),
    {
        let mut out: Vec<String> = Vec::new();
        if let Some(envs) = &self.envs {
            let n = envs.len();
            let mut i: usize = 0;
            while i < n
                invariant
                    n == envs@.len(),
                    i <= n,
                    strings_view(out@) == env_map_view(envs@.take(i as int)).map_values(
                        |x: (Seq<char>, Seq<(Seq<char>, Seq<char>)>)| x.0),
                decreases n - i,
            {
                let ghost before = out@;
                let x = envs[i].0.clone();
                out.push(x);
                proof {
                    assert(strings_view(out@) =~= strings_view(before).push(envs@[i as int].0@));
                    assert(env_map_view(envs@.take(i + 1)).map_values(|x: (Seq<char>, Seq<(Seq<char>, Seq<char>)>)| x.0)
                        =~= env_map_view(envs@.take(i as int)).map_values(|x: (Seq<char>, Seq<(Seq<char>, Seq<char>)>)| x.0).push(envs@[i as int].0@));
                    assert(strings_view(out@) =~= env_map_view(envs@.take(i + 1)).map_values(
                        |x: (Seq<char>, Seq<(Seq<char>, Seq<char>)>)| x.0));
                }
                i += 1;
            }
            proof {
                assert(envs@.take(n as int) =~= envs@);
            }
        } else {
            proof {
                assert(strings_view(out@) =~= Seq::<Seq<char>>::empty());
            }
        }
        out
    }

    /// Get variables with values by environment name
    pub fn env(&self, env: &str) -> (res: Option<StringMap>)
        ensures
            match res {
                Some(m) => keys_unique(pairs_view(m@)) && self@.env(env@) == Some(pairs_map(pairs_view(m@))),
                None => self@.env(env@) is None,
            },
    {
        let ghost me = self@;
        // Default values of variables that define one
        let mut default_values: StringMap = Vec::new();
        if let Some(vars) = &self.vars {
            let n = vars.len();
            let mut i: usize = 0;
            while i < n
                invariant
                    n == vars@.len(),
                    i <= n,
                    keys_unique(pairs_view(default_values@)),
                    pairs_map(pairs_view(default_values@)) == var_defaults(
                        vars@.take(i as int).map_values(|x: ParsedConfigVariable| x@)),
                decreases n - i,
            {
                proof {
                    let vv = vars@.take(i + 1).map_values(|x: ParsedConfigVariable| x@);
                    assert(vv.drop_last() =~= vars@.take(i as int).map_values(|x: ParsedConfigVariable| x@));
                    assert(vv.last() == vars@[i as int]@);
                }
                if let Some(d) = &vars[i].default {
                    insert_string(&mut default_values, vars[i].name.clone(), d.clone());
                }
                i += 1;
            }
            proof {
                assert(vars@.take(n as int) =~= vars@);
            }
        } else {
            proof {
                assert(pairs_view(default_values@) =~= Seq::<(Seq<char>, Seq<char>)>::empty());
                assert(pairs_map(pairs_view(default_values@)) =~= Map::<Seq<char>, Seq<char>>::empty());
            }
        }
        let envs = match &self.envs {
            Some(envs) => envs,
            None => {
                return None;
            },
        };
        match crate::maps::find_key(envs, env) {
            Some(k) => {
                proof {
                    lemma_lookup_first_at(env_map_view(envs@), env@, k as int);
                }
                let values = &envs[k].1;
                let mut merged: StringMap = Vec::new();
                let ghost values_view = pairs_view(values@);
                proof {
                    assert(pairs_view(merged@) =~= Seq::<(Seq<char>, Seq<char>)>::empty());
                    assert(values_view.take(0) =~= Seq::<(Seq<char>, Seq<char>)>::empty());
                }
                let n = values.len();
                let mut i: usize = 0;
                while i < n
                    invariant
                        n == values@.len(),
                        i <= n,
                        values_view == pairs_view(values@),
                        keys_unique(pairs_view(merged@)),
                        pairs_map(pairs_view(merged@)) == pairs_map(values_view.take(i as int)),
                    decreases n - i,
                {
                    proof {
                        assert(values_view.take(i + 1).drop_last() =~= values_view.take(i as int));
                    }
                    insert_string(&mut merged, values[i].0.clone(), values[i].1.clone());
                    i += 1;
                }
                proof {
                    assert(values_view.take(n as int) =~= values_view);
                }
                let ghost merged_env = pairs_view(merged@);
                let m = default_values.len();
                let mut j: usize = 0;
                while j < m
                    invariant
                        m == default_values@.len(),
                        j <= m,
                        keys_unique(pairs_view(merged@)),
                        pairs_map(pairs_view(merged@)) == pairs_map(merged_env).union_prefer_right(
                            pairs_map(pairs_view(default_values@).take(j as int))),
                    decreases m - j,
                {
                    proof {
                        let dv = pairs_view(default_values@);
                        assert(dv.take(j + 1).drop_last() =~= dv.take(j as int));
                        assert(pairs_map(merged_env).union_prefer_right(pairs_map(dv.take(j + 1))) =~= pairs_map(
                            merged_env).union_prefer_right(pairs_map(dv.take(j as int))).insert(dv[j as int].0, dv[j as int].1));
                    }
                    insert_string(&mut merged, default_values[j].0.clone(), default_values[j].1.clone());
                    j += 1;
                }
                proof {
                    assert(pairs_view(default_values@).take(m as int) =~= pairs_view(default_values@));
                    assert(pairs_map(pairs_view(merged@)) =~= pairs_map(values_view).union_prefer_right(
                        pairs_map(pairs_view(default_values@))));
                }
                Some(merged)
            },
            None => {
                proof {
                    lemma_lookup_first_none(env_map_view(envs@), env@);
                }
                None
            },
        }
    }

    /// The prompt names declared
    pub fn prompts(&self) -> (res: Vec<String>)
        ensures
            strings_view(res@) == self@.prompt_names(0),
    {
        self.prompt_names_where(0)
    }

    /// A list of prompt names that don't have a default value defined
    pub fn required_prompts(&self) -> (res: Vec<String>)
        ensures
            strings_view(res@) == self@.prompt_names(1),
    {
        self.prompt_names_where(1)
    }

    /// A list of prompt names that do have a default value defined
    pub fn optional_prompts(&self) -> (res: Vec<String>)
        ensures
            strings_view(res@) == self@.prompt_names(2),
    {
        self.prompt_names_where(2)
    }

    fn prompt_names_where(&self, which: u8) -> (res: Vec<String>)
        ensures
            strings_view(res@) == self@.prompt_names(which as int),
    {
        let mut out: Vec<String> = Vec::new();
        if let Some(prompts) = &self.prompts {
            let n = prompts.len();
            let mut i: usize = 0;
            while i < n
                invariant
                    n == prompts@.len(),
                    i <= n,
                    strings_view(out@) == prompt_names(
                        prompts@.take(i as int).map_values(|x: ParsedConfigPrompt| x@),
                        which as int,
                    ),
                decreases n - i,
            {
                proof {
                    let pv = prompts@.take(i + 1).map_values(|x: ParsedConfigPrompt| x@);
                    assert(pv.drop_last() =~= prompts@.take(i as int).map_values(|x: ParsedConfigPrompt| x@));
                    assert(pv.last() == prompts@[i as int]@);
                }
                let p = &prompts[i];
                let keep = which == 0 || (which == 1 && p.default.is_none()) || (which == 2 && p.default.is_some());
                if keep {
                    let ghost before = out@;
                    out.push(p.name.clone());
                    proof {
                        assert(strings_view(out@) =~= strings_view(before).push(p.name@));
                    }
                }
                i += 1;
            }
            proof {
                assert(prompts@.take(n as int) =~= prompts@);
            }
        } else {
            proof {
                assert(strings_view(out@) =~= Seq::<Seq<char>>::empty());
            }
        }
        out
    }

    /// The secret names declared
    pub fn secrets(&self) -> (res: Vec<String>)
        ensures
            strings_view(res@) == self@.secret_names(),
    {
        match &self.secrets {
            Some(secrets) => copy_strings(secrets),
            None => {
                let out: Vec<String> = Vec::new();
                proof {
                    assert(strings_view(out@) =~= Seq::<Seq<char>>::empty());
                }
                out
            },
        }
    }
}

/// Request file parsed from a string input
///
/// All template references are still in place
#[derive(Debug, PartialEq)]
pub struct ParsedRequestFile {
    pub config: Option<Spanned<ParsedConfig>>,
    pub request: Spanned<HttpRequest>,
    pub response: Option<Spanned<HttpResponse>>,
    pub refs: Vec<Spanned<ReferenceType>>,
    pub exprs: Vec<Spanned<String>>,
}

/// What a [ParsedRequestFile] holds, as plain values.
pub ghost struct ParsedRequestFileView {
    pub config: Option<(ParsedConfigView, Span)>,
    pub request: (HttpRequestView, Span),
    pub response: Option<(HttpResponseView, Span)>,
    pub refs: Seq<(ReferenceTypeView, Span)>,
    pub exprs: Seq<(Seq<char>, Span)>,
}

/// Plain view of spanned references.
pub open spec fn refs_view(refs: Seq<Spanned<ReferenceType>>) -> Seq<(ReferenceTypeView, Span)> {
    refs.map_values(|r: Spanned<ReferenceType>| (r.0@, r.1))
}

/// Plain view of spanned strings.
pub open spec fn spanned_strings_view(s: Seq<Spanned<String>>) -> Seq<(Seq<char>, Span)> {
    s.map_values(|r: Spanned<String>| (r.0@, r.1))
}

impl View for ParsedRequestFile {
    type V = ParsedRequestFileView;

    open spec fn view(&self) -> ParsedRequestFileView {
        ParsedRequestFileView {
            config: match self.config {
                Some(c) => Some((c.0@, c.1)),
                None => None,
            },
            request: (self.request.0@, self.request.1),
            response: match self.response {
                Some(r) => Some((r.0@, r.1)),
                None => None,
            },
            refs: refs_view(self.refs@),
            exprs: spanned_strings_view(self.exprs@),
        }
    }
}

impl ParsedRequestFileView {
    /// The config, or an empty one.
    pub open spec fn config_or_empty(self) -> ParsedConfigView {
        match self.config {
            Some(c) => c.0,
            None => ParsedConfigView { vars: None, envs: None, prompts: None, secrets: None, auth: None },
        }
    }
}

impl ParsedRequestFile {
    /// The variable names declared in the config
    pub fn vars(&self) -> (res: Vec<String>)
        ensures
            strings_view(res@) == self@.config_or_empty().var_names(),
    {
        match &self.config {
            Some((config, _)) => config.vars(),
            None => {
                let out: Vec<String> = Vec::new();
                assert(strings_view(out@) =~= Seq::<Seq<char>>::empty());
                out
            },
        }
    }

    /// The environment names defined in the config
    pub fn envs(&self) -> (res: Vec<String>)
        ensures
            strings_view(res@) == self@.config_or_empty().env_names(),
    {
        match &self.config {
            Some((config, _)) => config.envs(),
            None => {
                let out: Vec<String> = Vec::new();
                assert(strings_view(out@) =~= Seq::<Seq<char>>::empty());
                out
            },
        }
    }

    /// Variables with values of an environment, if the config defines it
    pub fn env(&self, env: &str) -> (res: Option<StringMap>)
        ensures
            match res {
                Some(m) => keys_unique(pairs_view(m@)) && self@.config_or_empty().env(env@) == Some(
                    pairs_map(pairs_view(m@)),
                ),
                None => self@.config_or_empty().env(env@) is None,
            },
    {
        match &self.config {
            Some((config, _)) => config.env(env),
            None => None,
        }
    }

    /// The prompt names declared in the config
    pub fn prompts(&self) -> (res: Vec<String>)
        ensures
            strings_view(res@) == self@.config_or_empty().prompt_names(0),
    {
        match &self.config {
            Some((config, _)) => config.prompts(),
            None => {
                let out: Vec<String> = Vec::new();
                assert(strings_view(out@) =~= Seq::<Seq<char>>::empty());
                out
            },
        }
    }

    /// The prompt names without a default value
    pub fn required_prompts(&self) -> (res: Vec<String>)
        ensures
            strings_view(res@) == self@.config_or_empty().prompt_names(1),
    {
        match &self.config {
            Some((config, _)) => config.required_prompts(),
            None => {
                let out: Vec<String> = Vec::new();
                assert(strings_view(out@) =~= Seq::<Seq<char>>::empty());
                out
            },
        }
    }

    /// The prompt names with a default value
    pub fn optional_prompts(&self) -> (res: Vec<String>)
        ensures
            strings_view(res@) == self@.config_or_empty().prompt_names(2),
    {
        match &self.config {
            Some((config, _)) => config.optional_prompts(),
            None => {
                let out: Vec<String> = Vec::new();
                assert(strings_view(out@) =~= Seq::<Seq<char>>::empty());
                out
            },
        }
    }

    /// Default values of the prompts that define one, by prompt name
    pub fn default_prompt_values(&self) -> (res: StringMap)
        ensures
            keys_unique(pairs_view(res@)),
            pairs_map(pairs_view(res@)) == match self@.config_or_empty().prompts {
                Some(p) => prompt_defaults(p),
                None => Map::empty(),
            },
    {
        let mut out: StringMap = Vec::new();
        proof {
            assert(pairs_view(out@) =~= Seq::<(Seq<char>, Seq<char>)>::empty());
            assert(pairs_map(pairs_view(out@)) =~= Map::<Seq<char>, Seq<char>>::empty());
        }
        if let Some((config, _)) = &self.config {
            if let Some(prompts) = &config.prompts {
                let n = prompts.len();
                let mut i: usize = 0;
                while i < n
                    invariant
                        n == prompts@.len(),
                        i <= n,
                        keys_unique(pairs_view(out@)),
                        pairs_map(pairs_view(out@)) == prompt_defaults(
                            prompts@.take(i as int).map_values(|x: ParsedConfigPrompt| x@),
                        ),
                    decreases n - i,
                {
                    proof {
                        let pv = prompts@.take(i + 1).map_values(|x: ParsedConfigPrompt| x@);
                        assert(pv.drop_last() =~= prompts@.take(i as int).map_values(|x: ParsedConfigPrompt| x@));
                        assert(pv.last() == prompts@[i as int]@);
                    }
                    if let Some(d) = &prompts[i].default {
                        insert_string(&mut out, prompts[i].name.clone(), d.clone());
                    }
                    i += 1;
                }
                proof {
                    assert(prompts@.take(n as int) =~= prompts@);
                }
            }
        }
        out
    }

    /// Default values of all variables by name; empty for variables without one
    pub fn default_variable_values(&self) -> (res: StringMap)
        ensures
            keys_unique(pairs_view(res@)),
            pairs_map(pairs_view(res@)) == match self@.config_or_empty().vars {
                Some(v) => var_values_or_empty(v),
                None => Map::empty(),
            },
    {
        let mut out: StringMap = Vec::new();
        proof {
            assert(pairs_view(out@) =~= Seq::<(Seq<char>, Seq<char>)>::empty());
            assert(pairs_map(pairs_view(out@)) =~= Map::<Seq<char>, Seq<char>>::empty());
        }
        if let Some((config, _)) = &self.config {
            if let Some(vars) = &config.vars {
                let n = vars.len();
                let mut i: usize = 0;
                while i < n
                    invariant
                        n == vars@.len(),
                        i <= n,
                        keys_unique(pairs_view(out@)),
                        pairs_map(pairs_view(out@)) == var_values_or_empty(
                            vars@.take(i as int).map_values(|x: ParsedConfigVariable| x@),
                        ),
                    decreases n - i,
                {
                    proof {
                        let vv = vars@.take(i + 1).map_values(|x: ParsedConfigVariable| x@);
                        assert(vv.drop_last() =~= vars@.take(i as int).map_values(|x: ParsedConfigVariable| x@));
                        assert(vv.last() == vars@[i as int]@);
                    }
                    let value = match &vars[i].default {
                        Some(d) => d.clone(),
                        None => String::new(),
                    };
                    insert_string(&mut out, vars[i].name.clone(), value);
                    i += 1;
                }
                proof {
                    assert(vars@.take(n as int) =~= vars@);
                }
            }
        }
        out
    }

    /// The secret names declared in the config
    pub fn secrets(&self) -> (res: Vec<String>)
        ensures
            strings_view(res@) == self@.config_or_empty().secret_names(),
    {
        match &self.config {
            Some((config, _)) => config.secrets(),
            None => {
                let out: Vec<String> = Vec::new();
                assert(strings_view(out@) =~= Seq::<Seq<char>>::empty());
                out
            },
        }
    }
}

/// A simplified version of a [ParsedRequestFile]
///
/// This is useful for language server clients
#[derive(Debug, PartialEq)]
pub struct ParseResult {
    pub vars: Vec<String>,
    pub envs: Vec<String>,
    pub prompts: Vec<String>,
    pub required_prompts: Vec<String>,
    pub optional_prompts: Vec<String>,
    pub default_prompt_values: StringMap,
    pub secrets: Vec<String>,
    pub request: HttpRequest,
    pub full: ParsedRequestFile,
}

impl From<ParsedRequestFile> for ParseResult {
    fn from(value: ParsedRequestFile) -> (res: Self)
        ensures
            strings_view(res.vars@) == value@.config_or_empty().var_names(),
            strings_view(res.envs@) == value@.config_or_empty().env_names(),
            strings_view(res.prompts@) == value@.config_or_empty().prompt_names(0),
            strings_view(res.required_prompts@) == value@.config_or_empty().prompt_names(1),
            strings_view(res.optional_prompts@) == value@.config_or_empty().prompt_names(2),
            keys_unique(pairs_view(res.default_prompt_values@)),
            pairs_map(pairs_view(res.default_prompt_values@)) == match value@.config_or_empty().prompts {
                Some(p) => prompt_defaults(p),
                None => Map::empty(),
            },
            strings_view(res.secrets@) == value@.config_or_empty().secret_names(),
            res.request@ == value@.request.0,
            res.full == value,
    {
        let vars = value.vars();
        let envs = value.envs();
        let prompts = value.prompts();
        let required_prompts = value.required_prompts();
        let optional_prompts = value.optional_prompts();
        let default_prompt_values = value.default_prompt_values();
        let secrets = value.secrets();
        let request = value.request.0.copy();
        ParseResult {
            vars,
            envs,
            prompts,
            required_prompts,
            optional_prompts,
            default_prompt_values,
            secrets,
            request,
            full: value,
        }
    }
}

impl vstd::std_specs::convert::FromSpecImpl<ParsedRequestFile> for ParseResult {
    open spec fn obeys_from_spec() -> bool {
        false
    }

    open spec fn from_spec(v: ParsedRequestFile) -> Self {
        arbitrary()
    }
}

/// A templated request file.
#[derive(Debug, Clone, PartialEq)]
pub struct TemplatedRequestFile {
    pub request: HttpRequest,
    pub response: Option<HttpResponse>,
}

/// What a [TemplatedRequestFile] holds, as plain values.
pub ghost struct TemplatedRequestFileView {
    pub request: HttpRequestView,
    pub response: Option<HttpResponseView>,
}

impl View for TemplatedRequestFile {
    type V = TemplatedRequestFileView;

    open spec fn view(&self) -> TemplatedRequestFileView {
        TemplatedRequestFileView {
            request: self.request@,
            response: match self.response {
                Some(r) => Some(r@),
                None => None,
            },
        }
    }
}

/// Parameters sent from the client to execute a request.
///
/// This is useful for language server clients
#[derive(Debug, Clone, PartialEq)]
pub struct RequestParamsFromClient {
    /// The text content of the request file
    pub reqfile: String,
    pub env: Option<String>,
    pub vars: StringMap,
    pub prompts: StringMap,
    pub secrets: StringMap,
}

/// The first pair with a key gives its value.
pub proof fn lemma_lookup_first_at<V>(s: Seq<(Seq<char>, V)>, k: Seq<char>, i: int)
    requires
        0 <= i < s.len(),
        s[i].0 == k,
        forall|j: int| 0 <= j < i ==> s[j].0 != k,
    ensures
        lookup_first(s, k) == Some(s[i].1),
    decreases i,
{
    if i > 0 {
        let t = s.drop_first();
        assert forall|j: int| 0 <= j < i - 1 implies t[j].0 != k by {
            assert(t[j] == s[j + 1]);
        }
        assert(s[0].0 != k);
        lemma_lookup_first_at(t, k, i - 1);
    }
}

proof fn lemma_lookup_first_none<V>(s: Seq<(Seq<char>, V)>, k: Seq<char>)
    requires
        forall|j: int| 0 <= j < s.len() ==> s[j].0 != k,
    ensures
        lookup_first(s, k) is None,
    decreases s.len(),
{
    if s.len() > 0 {
        let t = s.drop_first();
        assert forall|j: int| 0 <= j < t.len() implies t[j].0 != k by {
            assert(t[j] == s[j + 1]);
        }
        assert(s[0].0 != k);
        lemma_lookup_first_none(t, k);
    }
}

/// A copy of a list of spanned references.
pub fn copy_refs(refs: &Vec<Spanned<ReferenceType>>) -> (res: Vec<Spanned<ReferenceType>>)
    ensures
        refs_view(res@) == refs_view(refs@),
{
    let mut out: Vec<Spanned<ReferenceType>> = Vec::new();
    let n = refs.len();
    let mut i: usize = 0;
    while i < n
        invariant
            n == refs@.len(),
            i <= n,
            refs_view(out@) == refs_view(refs@.take(i as int)),
        decreases n - i,
    {
        let ghost before = out@;
        let r = (refs[i].0.copy(), copy_span(&refs[i].1));
        out.push(r);
        proof {
            assert(refs_view(out@) =~= refs_view(before).push((refs@[i as int].0@, refs@[i as int].1)));
            assert(refs_view(refs@.take(i + 1)) =~= refs_view(refs@.take(i as int)).push(
                (refs@[i as int].0@, refs@[i as int].1)));
        }
        i += 1;
    }
    assert(refs@.take(n as int) =~= refs@);
    out
}

} // verus!
