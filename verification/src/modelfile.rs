//! The semantic builder: folds a parsed command sequence into a typed,
//! validated configuration object.
//!
//! Scalar instructions (`FROM`, `TEMPLATE`, `SYSTEM`, `ADAPTER`, `LICENSE`)
//! overwrite their field, so the last occurrence wins. `PARAMETER` and
//! `MESSAGE` accumulate in document order. Validation failures inside the
//! fold are recorded one at a time, each overwriting the one before, and
//! only the most recently observed failure is returned: building fails if
//! anything failed, but reports just the last problem. A missing `FROM`
//! is reported only when no command failed.

use vstd::prelude::*;

use crate::grammar::{
    cmds_view, parse_document, spec_parse_document, Command, CommandV, Instruction, ParseError,
};
use crate::text::{
    is_float_token, is_float_token_exec, parse_i32, seq_eq_ci, seq_eq_ci_exec, skip_ws,
    skip_ws_exec, spec_parse_i32, token_end, token_end_exec,
};

verus! {

// ---------------------------------------------------------------------------
// The configuration object and its parts
// ---------------------------------------------------------------------------

/// Who speaks a `MESSAGE`: matched without regard to ASCII case.
#[derive(Clone, Copy, Debug, PartialEq, Eq, Structural)]
pub enum Role {
    System,
    User,
    Assistant,
}

/// A typed parameter value. Decimal parameters keep their source text,
/// validated against the grammar `f32::from_str` accepts; the text is what
/// downstream consumers (subprocess arguments, requests) need.
#[derive(Debug)]
pub enum ParamValue {
    Int(i32),
    Float(String),
    Str(String),
}

pub enum ParamValueV {
    Int(i32),
    Float(Seq<char>),
    Str(Seq<char>),
}

impl View for ParamValue {
    type V = ParamValueV;

    open spec fn view(&self) -> ParamValueV {
        match self {
            ParamValue::Int(v) => ParamValueV::Int(*v),
            ParamValue::Float(t) => ParamValueV::Float(t@),
            ParamValue::Str(t) => ParamValueV::Str(t@),
        }
    }
}

/// One `PARAMETER` entry: the canonical (lower-case) name and the typed
/// value.
#[derive(Debug)]
pub struct Parameter {
    pub name: String,
    pub value: ParamValue,
}

pub struct ParameterV {
    pub name: Seq<char>,
    pub value: ParamValueV,
}

impl View for Parameter {
    type V = ParameterV;

    open spec fn view(&self) -> ParameterV {
        ParameterV { name: self.name@, value: self.value@ }
    }
}

/// One `MESSAGE` entry.
#[derive(Debug)]
pub struct Message {
    pub role: Role,
    pub content: String,
}

pub struct MessageV {
    pub role: Role,
    pub content: Seq<char>,
}

impl View for Message {
    type V = MessageV;

    open spec fn view(&self) -> MessageV {
        MessageV { role: self.role, content: self.content@ }
    }
}

/// The built configuration object. Immutable once built: building is
/// all-or-nothing, so no partially filled object ever escapes.
#[derive(Debug)]
pub struct Modelfile {
    /// The base model identifier: the argument of the last `FROM`.
    pub source_model: String,
    /// All validated parameters, in document order, duplicates kept.
    pub parameters: Vec<Parameter>,
    pub template: Option<String>,
    pub system_prompt: Option<String>,
    pub adapter_path: Option<String>,
    pub license: Option<String>,
    /// All messages, in document order.
    pub messages: Vec<Message>,
    /// The original document text, retained for diagnostics.
    pub raw_text: String,
}

pub struct ModelfileV {
    pub source_model: Seq<char>,
    pub parameters: Seq<ParameterV>,
    pub template: Option<Seq<char>>,
    pub system_prompt: Option<Seq<char>>,
    pub adapter_path: Option<Seq<char>>,
    pub license: Option<Seq<char>>,
    pub messages: Seq<MessageV>,
    pub raw_text: Seq<char>,
}

pub open spec fn opt_view(o: Option<String>) -> Option<Seq<char>> {
    match o {
        Some(s) => Some(s@),
        None => None,
    }
}

impl View for Modelfile {
    type V = ModelfileV;

    open spec fn view(&self) -> ModelfileV {
        ModelfileV {
            source_model: self.source_model@,
            parameters: self.parameters@.map_values(|p: Parameter| p@),
            template: opt_view(self.template),
            system_prompt: opt_view(self.system_prompt),
            adapter_path: opt_view(self.adapter_path),
            license: opt_view(self.license),
            messages: self.messages@.map_values(|m: Message| m@),
            raw_text: self.raw_text@,
        }
    }
}

// ---------------------------------------------------------------------------
// Validation errors
// ---------------------------------------------------------------------------

/// Why building failed. Errors that name a parameter carry its canonical
/// name; `UnknownParameter` and `UnknownRole` carry the offending token as
/// written.
#[derive(Debug)]
pub enum ValidationError {
    /// A `PARAMETER` name outside the fixed table.
    UnknownParameter(String),
    /// A `PARAMETER` value that does not parse as a base-10 integer.
    NotInteger(String),
    /// A `PARAMETER` value that does not parse as a decimal number.
    NotFloat(String),
    /// A `PARAMETER` argument that is not exactly two tokens.
    MalformedParameter,
    /// A `MESSAGE` role outside system/user/assistant.
    UnknownRole(String),
    /// A `MESSAGE` argument with no role/content split.
    MalformedMessage,
    /// No `FROM` instruction was ever seen.
    MissingSource,
}

pub enum ValidationErrorV {
    UnknownParameter(Seq<char>),
    NotInteger(Seq<char>),
    NotFloat(Seq<char>),
    MalformedParameter,
    UnknownRole(Seq<char>),
    MalformedMessage,
    MissingSource,
}

impl View for ValidationError {
    type V = ValidationErrorV;

    open spec fn view(&self) -> ValidationErrorV {
        match self {
            ValidationError::UnknownParameter(t) => ValidationErrorV::UnknownParameter(t@),
            ValidationError::NotInteger(t) => ValidationErrorV::NotInteger(t@),
            ValidationError::NotFloat(t) => ValidationErrorV::NotFloat(t@),
            ValidationError::MalformedParameter => ValidationErrorV::MalformedParameter,
            ValidationError::UnknownRole(t) => ValidationErrorV::UnknownRole(t@),
            ValidationError::MalformedMessage => ValidationErrorV::MalformedMessage,
            ValidationError::MissingSource => ValidationErrorV::MissingSource,
        }
    }
}

/// Why `parse` failed: the grammar rejected the document, or the builder
/// did.
#[derive(Debug)]
pub enum ModelfileError {
    Parse(ParseError),
    Validation(ValidationError),
}

pub enum ModelfileErrorV {
    Parse(ParseError),
    Validation(ValidationErrorV),
}

impl View for ModelfileError {
    type V = ModelfileErrorV;

    open spec fn view(&self) -> ModelfileErrorV {
        match self {
            ModelfileError::Parse(e) => ModelfileErrorV::Parse(*e),
            ModelfileError::Validation(e) => ModelfileErrorV::Validation(e@),
        }
    }
}

// ---------------------------------------------------------------------------
// Argument splitting
// ---------------------------------------------------------------------------

/// A `PARAMETER` argument split into exactly two whitespace-separated
/// tokens; anything else is malformed.
pub open spec fn param_tokens(s: Seq<char>) -> Option<(Seq<char>, Seq<char>)> {
    let i0 = skip_ws(s, 0);
    let i1 = token_end(s, i0);
    let i2 = skip_ws(s, i1);
    let i3 = token_end(s, i2);
    if i0 < i1 && i2 < i3 && skip_ws(s, i3) == s.len() {
        Some((s.subrange(i0, i1), s.subrange(i2, i3)))
    } else {
        None
    }
}

fn param_tokens_exec(s: &str) -> (r: Option<(String, String)>)
    ensures
        r matches Some(p) ==> param_tokens(s@) == Some((p.0@, p.1@)),
        r is None ==> param_tokens(s@) is None,
{
    let n = s.unicode_len();
    let i0 = skip_ws_exec(s, 0);
    let i1 = token_end_exec(s, i0);
    let i2 = skip_ws_exec(s, i1);
    let i3 = token_end_exec(s, i2);
    if i0 < i1 && i2 < i3 && skip_ws_exec(s, i3) == n {
        let a = s.substring_char(i0, i1).to_owned();
        let b = s.substring_char(i2, i3).to_owned();
        Some((a, b))
    } else {
        None
    }
}

/// A `MESSAGE` argument split on the first whitespace run: the role token
/// and the content, which may itself contain whitespace.
pub open spec fn message_parts(s: Seq<char>) -> Option<(Seq<char>, Seq<char>)> {
    let i0 = skip_ws(s, 0);
    let i1 = token_end(s, i0);
    let i2 = skip_ws(s, i1);
    if i0 < i1 && i2 < s.len() {
        Some((s.subrange(i0, i1), s.subrange(i2, s.len() as int)))
    } else {
        None
    }
}

fn message_parts_exec(s: &str) -> (r: Option<(String, String)>)
    ensures
        r matches Some(p) ==> message_parts(s@) == Some((p.0@, p.1@)),
        r is None ==> message_parts(s@) is None,
{
    let n = s.unicode_len();
    let i0 = skip_ws_exec(s, 0);
    let i1 = token_end_exec(s, i0);
    let i2 = skip_ws_exec(s, i1);
    if i0 < i1 && i2 < n {
        let a = s.substring_char(i0, i1).to_owned();
        let b = s.substring_char(i2, n).to_owned();
        Some((a, b))
    } else {
        None
    }
}

// ---------------------------------------------------------------------------
// Quote stripping (for `stop` values)
// ---------------------------------------------------------------------------

/// First position at or after `i` holding a non-quote character.
pub open spec fn quote_run_end(s: Seq<char>, i: int) -> int
    recommends
        0 <= i <= s.len(),
    decreases s.len() - i when 0 <= i <= s.len()
{
    if i < s.len() && s[i] == '"' {
        quote_run_end(s, i + 1)
    } else {
        i
    }
}

proof fn lemma_quote_run_end_bounds(s: Seq<char>, i: int)
    requires
        0 <= i <= s.len(),
    ensures
        i <= quote_run_end(s, i) <= s.len(),
    decreases s.len() - i,
{
    if i < s.len() && s[i] == '"' {
        lemma_quote_run_end_bounds(s, i + 1);
    }
}

/// Walks back from `j` over trailing quote characters, never before `i`.
pub open spec fn quote_trim_back(s: Seq<char>, i: int, j: int) -> int
    recommends
        0 <= i <= j <= s.len(),
    decreases j - i when 0 <= i <= j <= s.len()
{
    if j > i && s[j - 1] == '"' {
        quote_trim_back(s, i, j - 1)
    } else {
        j
    }
}

proof fn lemma_quote_trim_back_bounds(s: Seq<char>, i: int, j: int)
    requires
        0 <= i <= j <= s.len(),
    ensures
        i <= quote_trim_back(s, i, j) <= j,
    decreases j - i,
{
    if j > i && s[j - 1] == '"' {
        lemma_quote_trim_back_bounds(s, i, j - 1);
    }
}

/// The token with all surrounding quote characters stripped, as
/// `str::trim_matches('"')` strips them.
pub open spec fn strip_quotes(s: Seq<char>) -> Seq<char> {
    let a = quote_run_end(s, 0);
    if a == s.len() {
        Seq::empty()
    } else {
        s.subrange(a, quote_trim_back(s, a, s.len() as int))
    }
}

fn strip_quotes_exec(s: &str) -> (r: String)
    ensures
        r@ == strip_quotes(s@),
{
    let n = s.unicode_len();
    proof {
        lemma_quote_run_end_bounds(s@, 0);
    }
    let mut a: usize = 0;
    while a < n && s.get_char(a) == '"'
        invariant
            0 <= a <= n,
            n == s@.len(),
            quote_run_end(s@, 0) == quote_run_end(s@, a as int),
        decreases n - a,
    {
        a = a + 1;
    }
    if a == n {
        proof {
            assert(strip_quotes(s@) =~= Seq::<char>::empty());
        }
        return String::new();
    }
    proof {
        lemma_quote_trim_back_bounds(s@, a as int, n as int);
    }
    let mut b: usize = n;
    while b > a && s.get_char(b - 1) == '"'
        invariant
            a <= b <= n,
            n == s@.len(),
            quote_trim_back(s@, a as int, n as int) == quote_trim_back(s@, a as int, b as int),
        decreases b,
    {
        b = b - 1;
    }
    s.substring_char(a, b).to_owned()
}

// ---------------------------------------------------------------------------
// The parameter table and roles
// ---------------------------------------------------------------------------

/// The declared type of a parameter.
#[derive(Clone, Copy, Debug, PartialEq, Eq, Structural)]
pub enum ParamType {
    Integer,
    Decimal,
    Text,
}

/// The fixed parameter table: canonical name and declared type, found from
/// a name token without regard to ASCII case.
pub open spec fn spec_param_type(tok: Seq<char>) -> Option<(Seq<char>, ParamType)> {
    if seq_eq_ci(tok, "stop"@) {
        Some(("stop"@, ParamType::Text))
    } else if seq_eq_ci(tok, "num_ctx"@) {
        Some(("num_ctx"@, ParamType::Integer))
    } else if seq_eq_ci(tok, "repeat_last_n"@) {
        Some(("repeat_last_n"@, ParamType::Integer))
    } else if seq_eq_ci(tok, "repeat_penalty"@) {
        Some(("repeat_penalty"@, ParamType::Decimal))
    } else if seq_eq_ci(tok, "temperature"@) {
        Some(("temperature"@, ParamType::Decimal))
    } else if seq_eq_ci(tok, "seed"@) {
        Some(("seed"@, ParamType::Integer))
    } else if seq_eq_ci(tok, "num_predict"@) {
        Some(("num_predict"@, ParamType::Integer))
    } else if seq_eq_ci(tok, "top_k"@) {
        Some(("top_k"@, ParamType::Integer))
    } else if seq_eq_ci(tok, "top_p"@) {
        Some(("top_p"@, ParamType::Decimal))
    } else if seq_eq_ci(tok, "min_p"@) {
        Some(("min_p"@, ParamType::Decimal))
    } else {
        None
    }
}

fn param_type_exec(tok: &str) -> (r: Option<(String, ParamType)>)
    ensures
        r matches Some(p) ==> spec_param_type(tok@) == Some((p.0@, p.1)),
        r is None ==> spec_param_type(tok@) is None,
{
    if seq_eq_ci_exec(tok, "stop") {
        Some(("stop".to_owned(), ParamType::Text))
    } else if seq_eq_ci_exec(tok, "num_ctx") {
        Some(("num_ctx".to_owned(), ParamType::Integer))
    } else if seq_eq_ci_exec(tok, "repeat_last_n") {
        Some(("repeat_last_n".to_owned(), ParamType::Integer))
    } else if seq_eq_ci_exec(tok, "repeat_penalty") {
        Some(("repeat_penalty".to_owned(), ParamType::Decimal))
    } else if seq_eq_ci_exec(tok, "temperature") {
        Some(("temperature".to_owned(), ParamType::Decimal))
    } else if seq_eq_ci_exec(tok, "seed") {
        Some(("seed".to_owned(), ParamType::Integer))
    } else if seq_eq_ci_exec(tok, "num_predict") {
        Some(("num_predict".to_owned(), ParamType::Integer))
    } else if seq_eq_ci_exec(tok, "top_k") {
        Some(("top_k".to_owned(), ParamType::Integer))
    } else if seq_eq_ci_exec(tok, "top_p") {
        Some(("top_p".to_owned(), ParamType::Decimal))
    } else if seq_eq_ci_exec(tok, "min_p") {
        Some(("min_p".to_owned(), ParamType::Decimal))
    } else {
        None
    }
}

/// The role a token names, without regard to ASCII case.
pub open spec fn spec_role_of(tok: Seq<char>) -> Option<Role> {
    if seq_eq_ci(tok, "system"@) {
        Some(Role::System)
    } else if seq_eq_ci(tok, "user"@) {
        Some(Role::User)
    } else if seq_eq_ci(tok, "assistant"@) {
        Some(Role::Assistant)
    } else {
        None
    }
}

fn role_of_exec(tok: &str) -> (r: Option<Role>)
    ensures
        r == spec_role_of(tok@),
{
    if seq_eq_ci_exec(tok, "system") {
        Some(Role::System)
    } else if seq_eq_ci_exec(tok, "user") {
        Some(Role::User)
    } else if seq_eq_ci_exec(tok, "assistant") {
        Some(Role::Assistant)
    } else {
        None
    }
}

// ---------------------------------------------------------------------------
// Validating single commands
// ---------------------------------------------------------------------------

/// What a `PARAMETER` argument builds to: the canonical parameter with its
/// coerced value, or the validation error naming what went wrong.
pub open spec fn spec_parameter_of(arg: Seq<char>) -> Result<ParameterV, ValidationErrorV> {
    match param_tokens(arg) {
        None => Err(ValidationErrorV::MalformedParameter),
        Some(toks) => match spec_param_type(toks.0) {
            None => Err(ValidationErrorV::UnknownParameter(toks.0)),
            Some(ct) => match ct.1 {
                ParamType::Integer => match spec_parse_i32(toks.1) {
                    Some(v) => Ok(ParameterV { name: ct.0, value: ParamValueV::Int(v) }),
                    None => Err(ValidationErrorV::NotInteger(ct.0)),
                },
                ParamType::Decimal => if is_float_token(toks.1) {
                    Ok(ParameterV { name: ct.0, value: ParamValueV::Float(toks.1) })
                } else {
                    Err(ValidationErrorV::NotFloat(ct.0))
                },
                ParamType::Text => Ok(
                    ParameterV { name: ct.0, value: ParamValueV::Str(strip_quotes(toks.1)) },
                ),
            },
        },
    }
}

fn parameter_of_exec(arg: &str) -> (r: Result<Parameter, ValidationError>)
    ensures
        r matches Ok(p) ==> spec_parameter_of(arg@) == Ok::<ParameterV, ValidationErrorV>(p@),
        r matches Err(e) ==> spec_parameter_of(arg@) == Err::<ParameterV, ValidationErrorV>(e@),
{
    match param_tokens_exec(arg) {
        None => Err(ValidationError::MalformedParameter),
        Some((name_tok, val_tok)) => match param_type_exec(name_tok.as_str()) {
            None => Err(ValidationError::UnknownParameter(name_tok)),
            Some((name, t)) => match t {
                ParamType::Integer => match parse_i32(val_tok.as_str()) {
                    Some(v) => Ok(Parameter { name, value: ParamValue::Int(v) }),
                    None => Err(ValidationError::NotInteger(name)),
                },
                ParamType::Decimal => if is_float_token_exec(val_tok.as_str()) {
                    Ok(Parameter { name, value: ParamValue::Float(val_tok) })
                } else {
                    Err(ValidationError::NotFloat(name))
                },
                ParamType::Text => Ok(
                    Parameter {
                        name,
                        value: ParamValue::Str(strip_quotes_exec(val_tok.as_str())),
                    },
                ),
            },
        },
    }
}

/// What a `MESSAGE` argument builds to.
pub open spec fn spec_message_of(arg: Seq<char>) -> Result<MessageV, ValidationErrorV> {
    match message_parts(arg) {
        None => Err(ValidationErrorV::MalformedMessage),
        Some(parts) => match spec_role_of(parts.0) {
            Some(role) => Ok(MessageV { role, content: parts.1 }),
            None => Err(ValidationErrorV::UnknownRole(parts.0)),
        },
    }
}

fn message_of_exec(arg: &str) -> (r: Result<Message, ValidationError>)
    ensures
        r matches Ok(m) ==> spec_message_of(arg@) == Ok::<MessageV, ValidationErrorV>(m@),
        r matches Err(e) ==> spec_message_of(arg@) == Err::<MessageV, ValidationErrorV>(e@),
{
    match message_parts_exec(arg) {
        None => Err(ValidationError::MalformedMessage),
        Some((role_tok, content)) => match role_of_exec(role_tok.as_str()) {
            Some(role) => Ok(Message { role, content }),
            None => Err(ValidationError::UnknownRole(role_tok)),
        },
    }
}

// ---------------------------------------------------------------------------
// The fold
// ---------------------------------------------------------------------------

/// Builder state after some prefix of the command sequence.
pub struct BuildAccV {
    pub source: Option<Seq<char>>,
    pub parameters: Seq<ParameterV>,
    pub template: Option<Seq<char>>,
    pub system_prompt: Option<Seq<char>>,
    pub adapter_path: Option<Seq<char>>,
    pub license: Option<Seq<char>>,
    pub messages: Seq<MessageV>,
    /// The most recently observed validation failure, if any.
    pub err: Option<ValidationErrorV>,
}

pub open spec fn init_acc() -> BuildAccV {
    BuildAccV {
        source: None,
        parameters: Seq::empty(),
        template: None,
        system_prompt: None,
        adapter_path: None,
        license: None,
        messages: Seq::empty(),
        err: None,
    }
}

/// One step of the fold.
pub open spec fn apply_command(acc: BuildAccV, c: CommandV) -> BuildAccV {
    match c.instruction {
        Instruction::Source => BuildAccV { source: Some(c.argument), ..acc },
        Instruction::Parameter => match spec_parameter_of(c.argument) {
            Ok(p) => BuildAccV { parameters: acc.parameters.push(p), ..acc },
            Err(e) => BuildAccV { err: Some(e), ..acc },
        },
        Instruction::Template => BuildAccV { template: Some(c.argument), ..acc },
        Instruction::System => BuildAccV { system_prompt: Some(c.argument), ..acc },
        Instruction::Adapter => BuildAccV { adapter_path: Some(c.argument), ..acc },
        Instruction::License => BuildAccV { license: Some(c.argument), ..acc },
        Instruction::Message => match spec_message_of(c.argument) {
            Ok(m) => BuildAccV { messages: acc.messages.push(m), ..acc },
            Err(e) => BuildAccV { err: Some(e), ..acc },
        },
        Instruction::Comment => acc,
    }
}

pub open spec fn fold_commands(cmds: Seq<CommandV>) -> BuildAccV
    decreases cmds.len(),
{
    if cmds.len() == 0 {
        init_acc()
    } else {
        apply_command(fold_commands(cmds.drop_last()), cmds.last())
    }
}

/// What building a command sequence yields: the configuration object, the
/// last failure the fold observed, or `MissingSource` when everything
/// succeeded but no `FROM` was ever seen.
pub open spec fn spec_build(cmds: Seq<CommandV>, raw: Seq<char>) -> Result<
    ModelfileV,
    ValidationErrorV,
> {
    let acc = fold_commands(cmds);
    match acc.err {
        Some(e) => Err(e),
        None => match acc.source {
            Some(src) => Ok(
                ModelfileV {
                    source_model: src,
                    parameters: acc.parameters,
                    template: acc.template,
                    system_prompt: acc.system_prompt,
                    adapter_path: acc.adapter_path,
                    license: acc.license,
                    messages: acc.messages,
                    raw_text: raw,
                },
            ),
            None => Err(ValidationErrorV::MissingSource),
        },
    }
}

/// Builds the configuration object from a parsed command sequence, exactly
/// as [`spec_build`] says.
pub fn build(raw: &str, commands: Vec<Command>) -> (r: Result<Modelfile, ValidationError>)
    ensures
        r matches Ok(m) ==> spec_build(cmds_view(commands@), raw@) == Ok::<
            ModelfileV,
            ValidationErrorV,
        >(m@),
        r matches Err(e) ==> spec_build(cmds_view(commands@), raw@) == Err::<
            ModelfileV,
            ValidationErrorV,
        >(e@),
{
    let ghost cv = cmds_view(commands@);
    let mut source: Option<String> = None;
    let mut parameters: Vec<Parameter> = Vec::new();
    let mut template: Option<String> = None;
    let mut system_prompt: Option<String> = None;
    let mut adapter_path: Option<String> = None;
    let mut license: Option<String> = None;
    let mut messages: Vec<Message> = Vec::new();
    let mut err: Option<ValidationError> = None;
    let n = commands.len();
    let mut k: usize = 0;
    while k < n
        invariant
            0 <= k <= n,
            n == commands.len(),
            cv == cmds_view(commands@),
            ({
                let acc = fold_commands(cv.take(k as int));
                &&& opt_view(source) == acc.source
                &&& parameters@.map_values(|p: Parameter| p@) == acc.parameters
                &&& opt_view(template) == acc.template
                &&& opt_view(system_prompt) == acc.system_prompt
                &&& opt_view(adapter_path) == acc.adapter_path
                &&& opt_view(license) == acc.license
                &&& messages@.map_values(|m: Message| m@) == acc.messages
                &&& match (err, acc.err) {
                    (Some(e), Some(ev)) => e@ == ev,
                    (None, None) => true,
                    _ => false,
                }
            }),
        decreases n - k,
    {
        let ghost pre = cv.take(k as int);
        let ghost cur = cv.take(k as int + 1);
        proof {
            assert(cur.drop_last() =~= pre);
            assert(cur.last() == cv[k as int]);
            assert(fold_commands(cur) == apply_command(fold_commands(pre), cv[k as int]));
        }
        let cmd = &commands[k];
        let arg = cmd.argument.as_str();
        match cmd.instruction {
            Instruction::Source => {
                source = Some(cmd.argument.clone());
            },
            Instruction::Parameter => {
                match parameter_of_exec(arg) {
                    Ok(p) => {
                        let ghost old_params = parameters@;
                        parameters.push(p);
                        proof {
                            assert(parameters@.map_values(|p: Parameter| p@) =~= old_params
                                .map_values(|p: Parameter| p@).push(parameters@.last()@));
                        }
                    },
                    Err(e) => {
                        err = Some(e);
                    },
                }
            },
            Instruction::Template => {
                template = Some(cmd.argument.clone());
            },
            Instruction::System => {
                system_prompt = Some(cmd.argument.clone());
            },
            Instruction::Adapter => {
                adapter_path = Some(cmd.argument.clone());
            },
            Instruction::License => {
                license = Some(cmd.argument.clone());
            },
            Instruction::Message => {
                match message_of_exec(arg) {
                    Ok(m) => {
                        let ghost old_msgs = messages@;
                        messages.push(m);
                        proof {
                            assert(messages@.map_values(|m: Message| m@) =~= old_msgs.map_values(
                                |m: Message| m@,
                            ).push(messages@.last()@));
                        }
                    },
                    Err(e) => {
                        err = Some(e);
                    },
                }
            },
            Instruction::Comment => {},
        }
        k = k + 1;
    }
    proof {
        assert(cv.take(n as int) =~= cv);
    }
    match err {
        Some(e) => Err(e),
        None => match source {
            Some(src) => Ok(
                Modelfile {
                    source_model: src,
                    parameters,
                    template,
                    system_prompt,
                    adapter_path,
                    license,
                    messages,
                    raw_text: raw.to_owned(),
                },
            ),
            None => Err(ValidationError::MissingSource),
        },
    }
}

// ---------------------------------------------------------------------------
// The whole pipeline
// ---------------------------------------------------------------------------

/// What parsing and building a whole document yields.
pub open spec fn spec_parse_modelfile(s: Seq<char>) -> Result<ModelfileV, ModelfileErrorV> {
    match spec_parse_document(s) {
        None => Err(ModelfileErrorV::Parse(ParseError::Syntax)),
        Some(cmds) => match spec_build(cmds, s) {
            Ok(m) => Ok(m),
            Err(e) => Err(ModelfileErrorV::Validation(e)),
        },
    }
}

/// Parses a Modelfile document and builds its configuration object.
///
/// Returns exactly what [`spec_parse_modelfile`] says; in particular,
/// empty input always fails with a syntax error, and building is
/// all-or-nothing.
pub fn parse(input: &str) -> (r: Result<Modelfile, ModelfileError>)
    ensures
        r matches Ok(m) ==> spec_parse_modelfile(input@) == Ok::<ModelfileV, ModelfileErrorV>(
            m@,
        ),
        r matches Err(e) ==> spec_parse_modelfile(input@) == Err::<ModelfileV, ModelfileErrorV>(
            e@,
        ),
        input@.len() == 0 ==> r is Err,
{
    match parse_document(input) {
        Err(e) => Err(ModelfileError::Parse(e)),
        Ok(commands) => match build(input, commands) {
            Ok(m) => Ok(m),
            Err(e) => Err(ModelfileError::Validation(e)),
        },
    }
}

// ---------------------------------------------------------------------------
// Laws
// ---------------------------------------------------------------------------

/// Parsing and building is deterministic: identical document text always
/// yields an identical configuration object (or the identical error).
pub proof fn lemma_parse_deterministic(a: Seq<char>, b: Seq<char>)
    requires
        a == b,
    ensures
        spec_parse_modelfile(a) == spec_parse_modelfile(b),
{
}

/// Empty input always fails.
pub proof fn lemma_empty_input_fails(s: Seq<char>)
    requires
        s.len() == 0,
    ensures
        spec_parse_modelfile(s) == Err::<ModelfileV, ModelfileErrorV>(
            ModelfileErrorV::Parse(ParseError::Syntax),
        ),
{
}

/// An unrecognized instruction keyword at the head of the document always
/// fails, whatever follows it.
pub proof fn lemma_unrecognized_instruction_fails(s: Seq<char>)
    requires
        skip_ws(s, 0) < s.len(),
        crate::grammar::keyword_at(s, skip_ws(s, 0)) is None,
    ensures
        spec_parse_modelfile(s) == Err::<ModelfileV, ModelfileErrorV>(
            ModelfileErrorV::Parse(ParseError::Syntax),
        ),
{
    crate::grammar::lemma_unrecognized_keyword_fails(s);
}

/// The argument of the last `Source` command in the sequence, if any.
pub open spec fn last_source(cmds: Seq<CommandV>) -> Option<Seq<char>>
    decreases cmds.len(),
{
    if cmds.len() == 0 {
        None
    } else if cmds.last().instruction == Instruction::Source {
        Some(cmds.last().argument)
    } else {
        last_source(cmds.drop_last())
    }
}

/// Scalar instructions overwrite: the built `source_model` is the argument
/// of the last `FROM` command, wherever it stands in the document.
pub proof fn lemma_last_source_wins(cmds: Seq<CommandV>)
    ensures
        fold_commands(cmds).source == last_source(cmds),
    decreases cmds.len(),
{
    if cmds.len() > 0 {
        lemma_last_source_wins(cmds.drop_last());
    }
}

} // verus!
