use crate::text::push_str;
use crate::types::{ReferenceType, ReferenceTypeView};
use vstd::prelude::*;
use vstd::string::*;

verus! {

/// Common error for parsing and templating request files
#[derive(Debug, Clone, PartialEq)]
pub enum ReqlangError {
    ParseError(ParseError),
    ResolverError(ResolverError),
}

#[derive(Debug, Clone, PartialEq)]
pub enum ParseError {
    EmptyFileError,
    MissingRequest,
    InvalidRequestError { message: String },
    InvalidConfigError { message: String },
    UndefinedReferenceError(ReferenceType),
    UnusedValueError(ReferenceType),
    ForbiddenRequestHeaderNameError(String),
    VariableUndefinedInEnvironment(String, String),
    VariableNotDefinedInAnyEnvironment(String),
}

#[derive(Debug, Clone, PartialEq)]
pub enum ResolverError {
    InvalidEnvError(String),
    NoEnvironmentsDefined(String),
    PromptValueNotPassed(String),
    SecretValueNotPassed(String),
    ExpressionEvaluationError(String, String),
}

/// What a [ParseError] holds, as plain values.
pub ghost enum ParseErrorView {
    EmptyFileError,
    MissingRequest,
    InvalidRequestError { message: Seq<char> },
    InvalidConfigError { message: Seq<char> },
    UndefinedReferenceError(ReferenceTypeView),
    UnusedValueError(ReferenceTypeView),
    ForbiddenRequestHeaderNameError(Seq<char>),
    VariableUndefinedInEnvironment(Seq<char>, Seq<char>),
    VariableNotDefinedInAnyEnvironment(Seq<char>),
}

/// What a [ResolverError] holds, as plain values.
pub ghost enum ResolverErrorView {
    InvalidEnvError(Seq<char>),
    NoEnvironmentsDefined(Seq<char>),
    PromptValueNotPassed(Seq<char>),
    SecretValueNotPassed(Seq<char>),
    ExpressionEvaluationError(Seq<char>, Seq<char>),
}

/// What a [ReqlangError] holds, as plain values.
pub ghost enum ReqlangErrorView {
    ParseError(ParseErrorView),
    ResolverError(ResolverErrorView),
}

impl View for ParseError {
    type V = ParseErrorView;

    open spec fn view(&self) -> ParseErrorView {
        match self {
            ParseError::EmptyFileError => ParseErrorView::EmptyFileError,
            ParseError::MissingRequest => ParseErrorView::MissingRequest,
            ParseError::InvalidRequestError { message } => ParseErrorView::InvalidRequestError { message: message@ },
            ParseError::InvalidConfigError { message } => ParseErrorView::InvalidConfigError { message: message@ },
            ParseError::UndefinedReferenceError(r) => ParseErrorView::UndefinedReferenceError(r@),
            ParseError::UnusedValueError(r) => ParseErrorView::UnusedValueError(r@),
            ParseError::ForbiddenRequestHeaderNameError(h) => ParseErrorView::ForbiddenRequestHeaderNameError(h@),
            ParseError::VariableUndefinedInEnvironment(v, e) => ParseErrorView::VariableUndefinedInEnvironment(v@, e@),
            ParseError::VariableNotDefinedInAnyEnvironment(v) => ParseErrorView::VariableNotDefinedInAnyEnvironment(v@),
        }
    }
}

impl View for ResolverError {
    type V = ResolverErrorView;

    open spec fn view(&self) -> ResolverErrorView {
        match self {
            ResolverError::InvalidEnvError(e) => ResolverErrorView::InvalidEnvError(e@),
            ResolverError::NoEnvironmentsDefined(e) => ResolverErrorView::NoEnvironmentsDefined(e@),
            ResolverError::PromptValueNotPassed(p) => ResolverErrorView::PromptValueNotPassed(p@),
            ResolverError::SecretValueNotPassed(s) => ResolverErrorView::SecretValueNotPassed(s@),
            ResolverError::ExpressionEvaluationError(e, m) => ResolverErrorView::ExpressionEvaluationError(e@, m@),
        }
    }
}

impl View for ReqlangError {
    type V = ReqlangErrorView;

    open spec fn view(&self) -> ReqlangErrorView {
        match self {
            ReqlangError::ParseError(e) => ReqlangErrorView::ParseError(e@),
            ReqlangError::ResolverError(e) => ReqlangErrorView::ResolverError(e@),
        }
    }
}

/// The message of a parse error.
pub open spec fn parse_error_message(e: ParseErrorView) -> Seq<char> {
    match e {
        ParseErrorView::EmptyFileError => "Request file is an empty file"@,
        ParseErrorView::MissingRequest => "Request file requires a request be defined"@,
        ParseErrorView::InvalidRequestError { message } => "Request is invalid: "@ + message,
        ParseErrorView::InvalidConfigError { message } => "Config is invalid: "@ + message,
        ParseErrorView::UndefinedReferenceError(r) => "Undefined template reference: "@ + r.template(),
        ParseErrorView::UnusedValueError(r) => "Value was declared but not used. Try adding the template reference "@
            + r.template() + " to the request or response."@,
        ParseErrorView::ForbiddenRequestHeaderNameError(h) =>
            "This request header is calculated at request time and can not be specified by user: "@ + h,
        ParseErrorView::VariableUndefinedInEnvironment(v, env) => "Variable '"@ + v
            + "' is undefined in the environment '"@ + env + "'"@,
        ParseErrorView::VariableNotDefinedInAnyEnvironment(v) => "Variable '"@ + v
            + "' is not defined in any environment or no environments are defined"@,
    }
}

/// The message of a resolver error.
pub open spec fn resolver_error_message(e: ResolverErrorView) -> Seq<char> {
    match e {
        ResolverErrorView::InvalidEnvError(env) => "'"@ + env + "' is not a defined environment in the request file"@,
        ResolverErrorView::NoEnvironmentsDefined(env) => "Trying to resolve the environment '"@ + env
            + "' but no environments are defined in the request file"@,
        ResolverErrorView::PromptValueNotPassed(p) => "Prompt required but not passed: "@ + p,
        ResolverErrorView::SecretValueNotPassed(s) => "Secret required but not passed: "@ + s,
        ResolverErrorView::ExpressionEvaluationError(e, m) => "Error evaluating expression '"@ + e + "': "@ + m,
    }
}

/// The message of an error.
pub open spec fn error_message(e: ReqlangErrorView) -> Seq<char> {
    match e {
        ReqlangErrorView::ParseError(p) => "ParseError: "@ + parse_error_message(p),
        ReqlangErrorView::ResolverError(r) => "ResolverError: "@ + resolver_error_message(r),
    }
}

impl ParseError {
    /// The error's message (what `Display` writes).
    pub fn message(&self) -> (res: String)
        ensures
            res@ == parse_error_message(self@),
    {
        let mut out = String::new();
        match self {
            ParseError::EmptyFileError => push_str(&mut out, "Request file is an empty file"),
            ParseError::MissingRequest => push_str(&mut out, "Request file requires a request be defined"),
            ParseError::InvalidRequestError { message } => {
                push_str(&mut out, "Request is invalid: ");
                push_str(&mut out, message.as_str());
            },
            ParseError::InvalidConfigError { message } => {
                push_str(&mut out, "Config is invalid: ");
                push_str(&mut out, message.as_str());
            },
            ParseError::UndefinedReferenceError(r) => {
                push_str(&mut out, "Undefined template reference: ");
                push_str(&mut out, r.to_template_string().as_str());
            },
            ParseError::UnusedValueError(r) => {
                push_str(&mut out, "Value was declared but not used. Try adding the template reference ");
                push_str(&mut out, r.to_template_string().as_str());
                push_str(&mut out, " to the request or response.");
            },
            ParseError::ForbiddenRequestHeaderNameError(h) => {
                push_str(&mut out, "This request header is calculated at request time and can not be specified by user: ");
                push_str(&mut out, h.as_str());
            },
            ParseError::VariableUndefinedInEnvironment(v, env) => {
                push_str(&mut out, "Variable '");
                push_str(&mut out, v.as_str());
                push_str(&mut out, "' is undefined in the environment '");
                push_str(&mut out, env.as_str());
                push_str(&mut out, "'");
            },
            ParseError::VariableNotDefinedInAnyEnvironment(v) => {
                push_str(&mut out, "Variable '");
                push_str(&mut out, v.as_str());
                push_str(&mut out, "' is not defined in any environment or no environments are defined");
            },
        }
        out
    }
}

impl ResolverError {
    /// The error's message (what `Display` writes).
    pub fn message(&self) -> (res: String)
        ensures
            res@ == resolver_error_message(self@),
    {
        let mut out = String::new();
        match self {
            ResolverError::InvalidEnvError(env) => {
                push_str(&mut out, "'");
                push_str(&mut out, env.as_str());
                push_str(&mut out, "' is not a defined environment in the request file");
            },
            ResolverError::NoEnvironmentsDefined(env) => {
                push_str(&mut out, "Trying to resolve the environment '");
                push_str(&mut out, env.as_str());
                push_str(&mut out, "' but no environments are defined in the request file");
            },
            ResolverError::PromptValueNotPassed(p) => {
                push_str(&mut out, "Prompt required but not passed: ");
                push_str(&mut out, p.as_str());
            },
            ResolverError::SecretValueNotPassed(s) => {
                push_str(&mut out, "Secret required but not passed: ");
                push_str(&mut out, s.as_str());
            },
            ResolverError::ExpressionEvaluationError(e, m) => {
                push_str(&mut out, "Error evaluating expression '");
                push_str(&mut out, e.as_str());
                push_str(&mut out, "': ");
                push_str(&mut out, m.as_str());
            },
        }
        out
    }
}

impl ReqlangError {
    /// The error's message (what `Display` writes).
    pub fn message(&self) -> (res: String)
        ensures
            res@ == error_message(self@),
    {
        let mut out = String::new();
        match self {
            ReqlangError::ParseError(e) => {
                push_str(&mut out, "ParseError: ");
                push_str(&mut out, e.message().as_str());
            },
            ReqlangError::ResolverError(e) => {
                push_str(&mut out, "ResolverError: ");
                push_str(&mut out, e.message().as_str());
            },
        }
        out
    }
}

impl From<ParseError> for ReqlangError {
    fn from(e: ParseError) -> (res: Self)
        ensures
            res == ReqlangError::ParseError(e),
    {
        ReqlangError::ParseError(e)
    }
}

impl vstd::std_specs::convert::FromSpecImpl<ParseError> for ReqlangError {
    open spec fn obeys_from_spec() -> bool {
        true
    }

    open spec fn from_spec(e: ParseError) -> Self {
        ReqlangError::ParseError(e)
    }
}

impl From<ResolverError> for ReqlangError {
    fn from(e: ResolverError) -> (res: Self)
        ensures
            res == ReqlangError::ResolverError(e),
    {
        ReqlangError::ResolverError(e)
    }
}

impl vstd::std_specs::convert::FromSpecImpl<ResolverError> for ReqlangError {
    open spec fn obeys_from_spec() -> bool {
        true
    }

    open spec fn from_spec(e: ResolverError) -> Self {
        ReqlangError::ResolverError(e)
    }
}

} // verus!
