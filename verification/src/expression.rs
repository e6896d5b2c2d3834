//! Evaluating template references and expression references with the
//! expression language of request files.
use crate::text::str_eq;
use crate::types::strings_view;
use self::ExprOutcome::{Failed, NotText, Text};
use reqlang_expr::compiler::{compile, CompileTimeEnv};
use reqlang_expr::parser;
use reqlang_expr::value::Value;
use reqlang_expr::vm::{RuntimeEnv, Vm};
use vstd::prelude::*;
use vstd::string::*;

verus! {

/// The names an expression can look up (variables, prompts, secrets and
/// client context), each list with the values that its names take while the
/// expression runs, by position.
pub struct ExprEnv {
    pub var_names: Vec<String>,
    pub var_values: Vec<String>,
    pub prompt_names: Vec<String>,
    pub prompt_values: Vec<String>,
    pub secret_names: Vec<String>,
    pub secret_values: Vec<String>,
    pub context_names: Vec<String>,
    pub context_values: Vec<String>,
}

/// What an [ExprEnv] holds, as plain values.
pub ghost struct ExprEnvView {
    pub var_names: Seq<Seq<char>>,
    pub var_values: Seq<Seq<char>>,
    pub prompt_names: Seq<Seq<char>>,
    pub prompt_values: Seq<Seq<char>>,
    pub secret_names: Seq<Seq<char>>,
    pub secret_values: Seq<Seq<char>>,
    pub context_names: Seq<Seq<char>>,
    pub context_values: Seq<Seq<char>>,
}

impl View for ExprEnv {
    type V = ExprEnvView;

    open spec fn view(&self) -> ExprEnvView {
        ExprEnvView {
            var_names: strings_view(self.var_names@),
            var_values: strings_view(self.var_values@),
            prompt_names: strings_view(self.prompt_names@),
            prompt_values: strings_view(self.prompt_values@),
            secret_names: strings_view(self.secret_names@),
            secret_values: strings_view(self.secret_values@),
            context_names: strings_view(self.context_names@),
            context_values: strings_view(self.context_values@),
        }
    }
}

/// Every name of an environment has a value to take while an expression runs.
pub open spec fn env_fits(e: ExprEnvView) -> bool {
    &&& e.var_names.len() <= e.var_values.len()
    &&& e.prompt_names.len() <= e.prompt_values.len()
    &&& e.secret_names.len() <= e.secret_values.len()
    &&& e.context_names.len() <= e.context_values.len()
}

/// What evaluating an expression gave: text, another kind of value, or
/// errors (their debug rendering).
pub enum ExprOutcome {
    Text(String),
    NotText,
    Failed(String),
}

/// What an [ExprOutcome] holds, as plain values.
pub ghost enum ExprOutcomeView {
    Text(Seq<char>),
    NotText,
    Failed(Seq<char>),
}

impl View for ExprOutcome {
    type V = ExprOutcomeView;

    open spec fn view(&self) -> ExprOutcomeView {
        match self {
            ExprOutcome::Text(t) => ExprOutcomeView::Text(t@),
            ExprOutcome::NotText => ExprOutcomeView::NotText,
            ExprOutcome::Failed(m) => ExprOutcomeView::Failed(m@),
        }
    }
}

/// Plain view of expression sources, each with the span it is reported at.
pub open spec fn sources_view(s: Seq<(String, usize, usize)>) -> Seq<(Seq<char>, usize, usize)> {
    s.map_values(|x: (String, usize, usize)| (x.0@, x.1, x.2))
}

/// Plain view of outcomes.
pub open spec fn outcomes_view(s: Seq<ExprOutcome>) -> Seq<ExprOutcomeView> {
    s.map_values(|o: ExprOutcome| o@)
}

/// A source that the evaluator takes without panicking: one without an
/// opening parenthesis (a lookup name or a literal: no builtin is called and
/// the compiled code is one instruction), or one whose second character is
/// `{`, a character that the lexer matches to no token, so that parsing fails
/// and nothing is compiled or run.
pub open spec fn source_safe(s: Seq<char>) -> bool {
    !s.contains('(') || (s.len() >= 2 && s[1] == '{')
}

/// A name that the expression language reads as one identifier after a
/// sigil: a lower case ASCII letter or `_`, then ASCII letters, digits or `_`.
pub open spec fn plain_identifier(n: Seq<char>) -> bool {
    &&& n.len() >= 1
    &&& ('a' <= n[0] <= 'z' || n[0] == '_')
    &&& forall|i: int| 1 <= i < n.len() ==> ('a' <= #[trigger] n[i] <= 'z' || 'A' <= n[i] <= 'Z' || '0' <= n[i] <= '9' || n[i] == '_')
}

/// The value a name takes in a list of names and values: that of the first
/// occurrence of the name, when it is among the first 256 names (lookups
/// are compiled to one-byte positions) and has a value.
pub open spec fn looked_up(names: Seq<Seq<char>>, values: Seq<Seq<char>>, name: Seq<char>) -> Option<Seq<char>> {
    let p = name_index(names, name);
    if 0 <= p < 256 && p < values.len() {
        Some(values[p])
    } else {
        None
    }
}

/// The text a source gives when it is a lookup: a sigil (`:` variable, `?`
/// prompt, `!` secret, `@` client context) followed by a plain identifier
/// that the environment gives a value; `None` for any other source.
pub open spec fn lookup_value(source: Seq<char>, env: ExprEnvView) -> Option<Seq<char>> {
    if source.len() >= 2 && plain_identifier(source.skip(1)) {
        let name = source.skip(1);
        if source[0] == ':' {
            looked_up(env.var_names, env.var_values, name)
        } else if source[0] == '?' {
            looked_up(env.prompt_names, env.prompt_values, name)
        } else if source[0] == '!' {
            looked_up(env.secret_names, env.secret_values, name)
        } else if source[0] == '@' {
            looked_up(env.context_names, env.context_values, name)
        } else {
            None
        }
    } else {
        None
    }
}

/// What the expression language gives for each source in turn, evaluated in
/// an environment by one virtual machine.
pub uninterp spec fn expression_outcomes(sources: Seq<(Seq<char>, usize, usize)>, env: ExprEnvView) -> Seq<ExprOutcomeView>;

/// Evaluates each source in turn with `reqlang_expr`: `parser::parse`, then
/// `compiler::compile` of the expression at its span in a `CompileTimeEnv`
/// of the names, then `Vm::interpret` on one `Vm` with a `RuntimeEnv` of the
/// values (the context values as strings). A string value is text; any other
/// value is not; errors are rendered with `{:#?}`, as the templater reports
/// them. Claimed: one outcome per source, as named by
/// [expression_outcomes]; a lookup source gives the text of the value it
/// looks up ([lookup_value]): it lexes as one identifier, compiles to one
/// `GET` of the name's first position, and the machine pushes that value as
/// a string and pops it. The evaluator panics when a looked-up name has no
/// value, on some builtin calls (such as `b64_decode` of text that is not
/// base64) and on compiled code longer than 255 bytes; `requires` admits
/// only sources that reach none of these (see [source_safe]) in an
/// environment where every name has a value.
#[verifier::external_body]
pub(crate) fn evaluate_expressions(sources: &Vec<(String, usize, usize)>, env: ExprEnv) -> (res: Vec<ExprOutcome>)
    requires
        env_fits(env@),
        forall|i: int| 0 <= i < sources@.len() ==> source_safe(#[trigger] sources@[i].0@),
    ensures
        outcomes_view(res@) == expression_outcomes(sources_view(sources@), env@),
        res@.len() == sources@.len(),
        forall|i: int| 0 <= i < sources@.len() && (#[trigger] lookup_value(sources@[i].0@, env@)) is Some ==> res@[i]@ == ExprOutcomeView::Text(
            lookup_value(sources@[i].0@, env@)->Some_0,
        ),
{
    let names = CompileTimeEnv::new(env.var_names, env.prompt_names, env.secret_names, env.context_names);
    let values = RuntimeEnv { vars: env.var_values, prompts: env.prompt_values, secrets: env.secret_values, client_context: env.context_values.into_iter().map(Value::String).collect() };
    let mut vm = Vm::new();
    sources.iter().map(|(source, start, end)| match parser::parse(source).and_then(|expr| compile(&mut (expr, *start..*end), &names)).and_then(|code| vm.interpret(code.into(), &names, &values)) {
        Ok(Value::String(text)) => Text(text),
        Ok(_) => NotText,
        Err(errs) => Failed(format!("{errs:#?}")),
    }).collect()
}

/// Position of the first occurrence of `k` in `s`, or -1 when it does not
/// occur.
pub open spec fn name_index(s: Seq<Seq<char>>, k: Seq<char>) -> int
    decreases s.len(),
{
    if s.len() == 0 {
        -1
    } else if name_index(s.drop_last(), k) >= 0 {
        name_index(s.drop_last(), k)
    } else if s.last() == k {
        s.len() - 1
    } else {
        -1
    }
}

pub(crate) proof fn lemma_name_index(s: Seq<Seq<char>>, k: Seq<char>)
    ensures
        -1 <= name_index(s, k) < s.len(),
        name_index(s, k) >= 0 ==> s[name_index(s, k)] == k,
        forall|j: int| 0 <= j < s.len() && (name_index(s, k) == -1 || j < name_index(s, k)) ==> s[j] != k,
    decreases s.len(),
{
    if s.len() > 0 {
        let t = s.drop_last();
        lemma_name_index(t, k);
        assert forall|j: int| 0 <= j < s.len() && (name_index(s, k) == -1 || j < name_index(s, k)) implies s[j] != k by {
            if j < t.len() {
                assert(s[j] == t[j]);
            }
        }
        if name_index(t, k) >= 0 {
            assert(s[name_index(t, k)] == t[name_index(t, k)]);
        }
    }
}

/// The environment with `key` in its client context taking `value`: the
/// name is added where it is missing (as `CompileTimeEnv::add_to_client_context`
/// does), and the value is set at the name's position, or added when there
/// is no value there yet (as `RuntimeEnv::add_to_client_context` does).
pub open spec fn with_context(e: ExprEnvView, key: Seq<char>, value: Seq<char>) -> ExprEnvView {
    let i = name_index(e.context_names, key);
    let index = if i >= 0 { i } else { e.context_names.len() as int };
    ExprEnvView {
        context_names: if i >= 0 { e.context_names } else { e.context_names.push(key) },
        context_values: if index < e.context_values.len() {
            e.context_values.update(index, value)
        } else {
            e.context_values.push(value)
        },
        ..e
    }
}

/// Position of the first name equal to `key`.
fn name_position(names: &Vec<String>, key: &str) -> (res: Option<usize>)
    ensures
        match res {
            Some(i) => i as int == name_index(strings_view(names@), key@),
            None => name_index(strings_view(names@), key@) == -1,
        },
{
    let ghost sv = strings_view(names@);
    proof {
        lemma_name_index(sv, key@);
    }
    let n = names.len();
    let mut i: usize = 0;
    while i < n
        invariant
            n == names@.len(),
            sv == strings_view(names@),
            i <= n,
            forall|j: int| 0 <= j < i ==> sv[j] != key@,
            -1 <= name_index(sv, key@) < sv.len(),
            name_index(sv, key@) >= 0 ==> sv[name_index(sv, key@)] == key@,
            forall|j: int| 0 <= j < sv.len() && (name_index(sv, key@) == -1 || j < name_index(sv, key@)) ==> sv[j] != key@,
        decreases n - i,
    {
        if str_eq(names[i].as_str(), key) {
            assert(sv[i as int] == key@);
            return Some(i);
        }
        i += 1;
    }
    proof {
        if name_index(sv, key@) >= 0 {
            assert(sv[name_index(sv, key@)] == key@);
        }
    }
    None
}

impl ExprEnv {
    /// Give `key` the value `value` in the client context.
    pub fn add_to_client_context(&mut self, key: &str, value: String)
        ensures
            final(self)@ == with_context(old(self)@, key@, value@),
    {
        let index = match name_position(&self.context_names, key) {
            Some(i) => i,
            None => {
                let n = self.context_names.len();
                self.context_names.push(key.to_string());
                n
            },
        };
        if index < self.context_values.len() {
            self.context_values.set(index, value);
        } else {
            self.context_values.push(value);
        }
        proof {
            assert(self@.context_names =~= with_context(old(self)@, key@, value@).context_names);
            assert(self@.context_values =~= with_context(old(self)@, key@, value@).context_values);
        }
    }
}

} // verus!
