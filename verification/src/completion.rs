//! Interactive completion: locating the command node the cursor falls
//! within, and classifying what kind of completion is being asked for
//! against the located command's signature.

use vstd::prelude::*;
use crate::ast::{
    CommandNode, JobListNode, JobNode, Node, SpecCommand, SpecJob, SpecJobList, SpecNode,
    lemma_spec_command_seq, lemma_spec_job_seq, lemma_spec_node_seq, spec_command_seq,
    spec_job_seq, spec_node_seq,
};
use crate::errors::{argument_error, error, JobError};
use crate::patterns::{spec_regex_valid, CompiledRegex};
use crate::text::{
    float_text_ok, parse_integer_text, spec_float_text_ok, spec_int_value, spec_unescape, str_eq,
    unescape_text,
};
use crate::value::{
    CommandSignature, Scope, SpecCommandSignature, SpecArgumentDescription, SpecValue, Value,
    ArgumentDescription, spec_lookup, spec_value,
};

verus! {

/// Ghost counterpart of `CompletionCommand`.
pub enum SpecCompletionCommand {
    Unknown,
    Known(SpecCommandSignature),
}

/// The command a completion happens under, when it can be resolved.
pub enum CompletionCommand {
    Unknown,
    Known(CommandSignature),
}

impl View for CompletionCommand {
    type V = SpecCompletionCommand;

    open spec fn view(&self) -> SpecCompletionCommand {
        match self {
            CompletionCommand::Unknown => SpecCompletionCommand::Unknown,
            CompletionCommand::Known(c) => SpecCompletionCommand::Known(c@),
        }
    }
}

/// Ghost counterpart of `LastArgument`.
pub enum SpecLastArgument {
    Unknown,
    Label(Seq<char>),
    Field(SpecValue, Seq<char>),
    File(Seq<char>, bool),
    QuotedString(Seq<char>),
    Switch(Seq<char>),
}

/// The classification of the element directly under the cursor.
pub enum LastArgument {
    Unknown,
    Label(String),
    Field(Value, String),
    File(String, bool),
    QuotedString(String),
    Switch(String),
}

impl View for LastArgument {
    type V = SpecLastArgument;

    open spec fn view(&self) -> SpecLastArgument {
        match self {
            LastArgument::Unknown => SpecLastArgument::Unknown,
            LastArgument::Label(s) => SpecLastArgument::Label(s@),
            LastArgument::Field(v, s) => SpecLastArgument::Field(spec_value(*v), s@),
            LastArgument::File(s, q) => SpecLastArgument::File(s@, *q),
            LastArgument::QuotedString(s) => SpecLastArgument::QuotedString(s@),
            LastArgument::Switch(s) => SpecLastArgument::Switch(s@),
        }
    }
}

/// Ghost counterpart of `PreviousArgumentValue`.
pub enum SpecPreviousArgumentValue {
    Value(SpecValue),
    ValueType(crate::value::ValueType),
}

/// What is known about an argument written before the cursor: its value,
/// or only a declared type.
pub enum PreviousArgumentValue {
    Value(Value),
    ValueType(crate::value::ValueType),
}

impl View for PreviousArgumentValue {
    type V = SpecPreviousArgumentValue;

    open spec fn view(&self) -> SpecPreviousArgumentValue {
        match self {
            PreviousArgumentValue::Value(v) => SpecPreviousArgumentValue::Value(spec_value(*v)),
            PreviousArgumentValue::ValueType(t) => SpecPreviousArgumentValue::ValueType(*t),
        }
    }
}

/// Ghost counterpart of `PreviousArgument`.
pub struct SpecPreviousArgument {
    pub name: Option<Seq<char>>,
    pub value: SpecPreviousArgumentValue,
}

/// One argument written before the one being completed.
pub struct PreviousArgument {
    pub name: Option<String>,
    pub value: PreviousArgumentValue,
}

impl View for PreviousArgument {
    type V = SpecPreviousArgument;

    open spec fn view(&self) -> SpecPreviousArgument {
        SpecPreviousArgument {
            name: match &self.name {
                Option::Some(n) => Option::Some(n@),
                Option::None => Option::None,
            },
            value: self.value@,
        }
    }
}

pub open spec fn spec_previous_seq(s: Seq<PreviousArgument>, i: int) -> Seq<SpecPreviousArgument>
    decreases s.len() - i,
{
    if i < 0 || i >= s.len() {
        Seq::empty()
    } else {
        seq![s[i]@] + spec_previous_seq(s, i + 1)
    }
}

pub proof fn lemma_spec_previous_seq(s: Seq<PreviousArgument>, i: int)
    requires
        0 <= i <= s.len(),
    ensures
        spec_previous_seq(s, i).len() == s.len() - i,
        forall|j: int|
            0 <= j < s.len() - i ==> #[trigger] spec_previous_seq(s, i)[j] == s[i + j]@,
    decreases s.len() - i,
{
    if i < s.len() {
        lemma_spec_previous_seq(s, i + 1);
        assert forall|j: int| 0 <= j < s.len() - i implies #[trigger] spec_previous_seq(s, i)[j]
            == s[i + j]@ by {
            if j > 0 {
                assert(spec_previous_seq(s, i)[j] == spec_previous_seq(s, i + 1)[j - 1]);
            }
        }
    }
}

/// Ghost counterpart of `PartialCommandResult`.
pub struct SpecPartialCommandResult {
    pub command: SpecCompletionCommand,
    pub previous_arguments: Seq<SpecPreviousArgument>,
    pub last_argument_name: Option<Seq<char>>,
    pub last_argument: SpecLastArgument,
}

/// A classified in-progress command invocation.
pub struct PartialCommandResult {
    pub command: CompletionCommand,
    pub previous_arguments: Vec<PreviousArgument>,
    pub last_argument_name: Option<String>,
    pub last_argument: LastArgument,
}

impl View for PartialCommandResult {
    type V = SpecPartialCommandResult;

    open spec fn view(&self) -> SpecPartialCommandResult {
        SpecPartialCommandResult {
            command: self.command@,
            previous_arguments: spec_previous_seq(self.previous_arguments@, 0),
            last_argument_name: match &self.last_argument_name {
                Option::Some(n) => Option::Some(n@),
                Option::None => Option::None,
            },
            last_argument: self.last_argument@,
        }
    }
}

/// Ghost counterpart of `ParseResult`.
pub enum SpecParseResult {
    Nothing,
    PartialLabel(Seq<char>),
    PartialMember(SpecValue, Seq<char>),
    PartialFile(Seq<char>, bool),
    PartialQuotedString(Seq<char>),
    PartialArgument(SpecPartialCommandResult),
}

/// What kind of completion the cursor position asks for.
pub enum ParseResult {
    Nothing,
    PartialLabel(String),
    PartialMember(Value, String),
    PartialFile(String, bool),
    PartialQuotedString(String),
    PartialArgument(PartialCommandResult),
}

impl View for ParseResult {
    type V = SpecParseResult;

    open spec fn view(&self) -> SpecParseResult {
        match self {
            ParseResult::Nothing => SpecParseResult::Nothing,
            ParseResult::PartialLabel(s) => SpecParseResult::PartialLabel(s@),
            ParseResult::PartialMember(v, s) => SpecParseResult::PartialMember(spec_value(*v), s@),
            ParseResult::PartialFile(s, q) => SpecParseResult::PartialFile(s@, *q),
            ParseResult::PartialQuotedString(s) => SpecParseResult::PartialQuotedString(s@),
            ParseResult::PartialArgument(p) => SpecParseResult::PartialArgument(p@),
        }
    }
}

// ---------------------------------------------------------------------------
// Locating the command under the cursor
// ---------------------------------------------------------------------------

/// Whether an expression leads into a nested command containing the cursor:
/// substitutions and closures are entered when their span contains the
/// cursor, and an assignment is entered through its right-hand side.
pub open spec fn spec_locate_expression(e: SpecNode, cursor: usize) -> Result<
    Option<SpecCommand>,
    Seq<char>,
>
    decreases e, 0int,
{
    match e {
        SpecNode::Assignment(_, _, b) => spec_locate_expression(*b, cursor),
        SpecNode::Substitution(j) => if j.location.spec_contains(cursor) {
            match spec_locate_job(j, cursor, 0) {
                Ok(c) => Ok(Some(c)),
                Err(m) => Err(m),
            }
        } else {
            Ok(None)
        },
        SpecNode::Closure(_, jl) => if jl.location.spec_contains(cursor) {
            match spec_locate_job_list(jl, cursor, 0) {
                Ok(c) => Ok(Some(c)),
                Err(m) => Err(m),
            }
        } else {
            Ok(None)
        },
        _ => Ok(None),
    }
}

/// Scanning a command's expressions from `k`: the first nested hit wins,
/// else the command itself is the located one.
pub open spec fn spec_locate_command(c: SpecCommand, cursor: usize, k: int) -> Result<
    SpecCommand,
    Seq<char>,
>
    decreases c, c.expressions.len() - k,
{
    if k < 0 || k >= c.expressions.len() {
        Ok(c)
    } else {
        match spec_locate_expression(c.expressions[k], cursor) {
            Err(m) => Err(m),
            Ok(Some(r)) => Ok(r),
            Ok(None) => spec_locate_command(c, cursor, k + 1),
        }
    }
}

/// Scanning a job's commands from `k` for the first whose span contains
/// the cursor; the last command is the fallback.
pub open spec fn spec_locate_job(j: SpecJob, cursor: usize, k: int) -> Result<
    SpecCommand,
    Seq<char>,
>
    decreases j, j.commands.len() - k,
{
    if k < 0 || k >= j.commands.len() {
        if j.commands.len() == 0 {
            Err("Nothing to complete"@)
        } else {
            Ok(j.commands.last())
        }
    } else if j.commands[k].location.spec_contains(cursor) {
        spec_locate_command(j.commands[k], cursor, 0)
    } else {
        spec_locate_job(j, cursor, k + 1)
    }
}

/// Scanning a job list's jobs from `k` for the first whose span contains
/// the cursor; the last job's last command is the fallback.
pub open spec fn spec_locate_job_list(l: SpecJobList, cursor: usize, k: int) -> Result<
    SpecCommand,
    Seq<char>,
>
    decreases l, l.jobs.len() - k,
{
    if k < 0 || k >= l.jobs.len() {
        if l.jobs.len() > 0 && l.jobs.last().commands.len() > 0 {
            Ok(l.jobs.last().commands.last())
        } else {
            Err("Nothing to complete"@)
        }
    } else if l.jobs[k].location.spec_contains(cursor) {
        spec_locate_job(l.jobs[k], cursor, 0)
    } else {
        spec_locate_job_list(l, cursor, k + 1)
    }
}

/// Descends into the nested job a substitution, closure or assignment
/// right-hand side holds, when the cursor falls inside it.
pub fn find_command_in_expression<'a>(exp: &'a Node, cursor: usize) -> (r: Result<
    Option<&'a CommandNode>,
    JobError,
>)
    ensures
        (match spec_locate_expression(exp@, cursor) {
            Ok(Some(c)) => r matches Ok(Some(x)) && x@ == c,
            Ok(None) => r matches Ok(None::<&'a CommandNode>),
            Err(m) => r matches Err(e) && e.message@ == m,
        }),
    decreases *exp,
{
    match exp {
        Node::Assignment(_, _, b) => {
            proof {
                assert(exp@ matches SpecNode::Assignment(_, _, bb) && *bb == (&**b)@);
            }
            find_command_in_expression(&**b, cursor)
        },
        Node::Substitution(j) => {
            proof {
                assert(exp@ matches SpecNode::Substitution(jj) && jj == j@);
            }
            if j.location.contains(cursor) {
                match find_command_in_job(j, cursor) {
                    Ok(c) => Ok(Some(c)),
                    Err(e) => Err(e),
                }
            } else {
                Ok(None)
            }
        },
        Node::Closure(_, joblist) => {
            proof {
                assert(exp@ matches SpecNode::Closure(_, ll) && ll == joblist@);
            }
            if joblist.location.contains(cursor) {
                match find_command_in_job_list(joblist, cursor) {
                    Ok(c) => Ok(Some(c)),
                    Err(e) => Err(e),
                }
            } else {
                Ok(None)
            }
        },
        _ => Ok(None),
    }
}

/// Finds the command to complete inside one invocation: the first nested
/// hit, or the invocation itself.
pub fn find_command_in_command<'a>(ast: &'a CommandNode, cursor: usize) -> (r: Result<
    &'a CommandNode,
    JobError,
>)
    ensures
        (match spec_locate_command(ast@, cursor, 0) {
            Ok(c) => r matches Ok(x) && x@ == c,
            Err(m) => r matches Err(e) && e.message@ == m,
        }),
    decreases *ast,
{
    let own = &ast.expressions;
    proof {
        lemma_spec_node_seq(own@, 0);
        assert(ast@.expressions == spec_node_seq(own@, 0));
    }
    let mut k: usize = 0;
    let n = own.len();
    while k < n
        invariant
            k <= n,
            n == own@.len(),
            own == &ast.expressions,
            decreases_to!(*ast => *own),
            ast@.expressions == spec_node_seq(own@, 0),
            ast@.expressions.len() == n,
            forall|j: int| 0 <= j < n ==> #[trigger] ast@.expressions[j] == own@[j]@,
            spec_locate_command(ast@, cursor, 0) == spec_locate_command(ast@, cursor, k as int),
        decreases n - k,
    {
        match find_command_in_expression(&own[k], cursor) {
            Ok(Some(res)) => {
                return Ok(res);
            },
            Ok(None) => {},
            Err(e) => {
                return Err(e);
            },
        }
        k = k + 1;
    }
    Ok(ast)
}

/// Finds the command to complete inside a job: the first command whose
/// span contains the cursor, else the job's last command.
pub fn find_command_in_job<'a>(job: &'a JobNode, cursor: usize) -> (r: Result<
    &'a CommandNode,
    JobError,
>)
    ensures
        (match spec_locate_job(job@, cursor, 0) {
            Ok(c) => r matches Ok(x) && x@ == c,
            Err(m) => r matches Err(e) && e.message@ == m,
        }),
    decreases *job,
{
    let own = &job.commands;
    proof {
        lemma_spec_command_seq(own@, 0);
        assert(job@.commands == spec_command_seq(own@, 0));
    }
    let mut k: usize = 0;
    let n = own.len();
    while k < n
        invariant
            k <= n,
            n == own@.len(),
            own == &job.commands,
            decreases_to!(*job => *own),
            job@.commands == spec_command_seq(own@, 0),
            job@.commands.len() == n,
            forall|j: int| 0 <= j < n ==> #[trigger] job@.commands[j] == own@[j]@,
            spec_locate_job(job@, cursor, 0) == spec_locate_job(job@, cursor, k as int),
        decreases n - k,
    {
        if own[k].location.contains(cursor) {
            return find_command_in_command(&own[k], cursor);
        }
        k = k + 1;
    }
    if n == 0 {
        Err(error("Nothing to complete"))
    } else {
        proof {
            assert(job@.commands.last() == own@[n - 1]@);
        }
        Ok(&own[n - 1])
    }
}

/// Finds the command to complete inside a job list: the first job whose
/// span contains the cursor, else the last job's last command.
pub fn find_command_in_job_list<'a>(ast: &'a JobListNode, cursor: usize) -> (r: Result<
    &'a CommandNode,
    JobError,
>)
    ensures
        (match spec_locate_job_list(ast@, cursor, 0) {
            Ok(c) => r matches Ok(x) && x@ == c,
            Err(m) => r matches Err(e) && e.message@ == m,
        }),
    decreases *ast,
{
    let own = &ast.jobs;
    proof {
        lemma_spec_job_seq(own@, 0);
        assert(ast@.jobs == spec_job_seq(own@, 0));
    }
    let mut k: usize = 0;
    let n = own.len();
    while k < n
        invariant
            k <= n,
            n == own@.len(),
            own == &ast.jobs,
            decreases_to!(*ast => *own),
            ast@.jobs == spec_job_seq(own@, 0),
            ast@.jobs.len() == n,
            forall|j: int| 0 <= j < n ==> #[trigger] ast@.jobs[j] == own@[j]@,
            spec_locate_job_list(ast@, cursor, 0) == spec_locate_job_list(ast@, cursor, k as int),
        decreases n - k,
    {
        if own[k].location.contains(cursor) {
            return find_command_in_job(&own[k], cursor);
        }
        k = k + 1;
    }
    if n > 0 {
        let last_job = &own[n - 1];
        proof {
            assert(ast@.jobs.last() == last_job@);
            lemma_spec_command_seq(last_job.commands@, 0);
            assert(last_job@.commands == spec_command_seq(last_job.commands@, 0));
        }
        if last_job.commands.len() > 0 {
            let m = last_job.commands.len();
            proof {
                assert(last_job@.commands.last() == last_job.commands@[m - 1]@);
            }
            return Ok(&last_job.commands[m - 1]);
        }
    }
    Err(error("Nothing to complete"))
}

// ---------------------------------------------------------------------------
// Resolving values for classification
// ---------------------------------------------------------------------------

/// What a node evaluates to for completion purposes: labels resolve
/// through the scope, attribute chains through struct fields, and literal
/// nodes to their values; nodes needing execution resolve to nothing.
pub open spec fn spec_fetch(n: SpecNode, env: Seq<(Seq<char>, SpecValue)>) -> Result<
    Option<SpecValue>,
    Seq<char>,
>
    decreases n,
{
    match n {
        SpecNode::Label(l) => Ok(spec_lookup(env, l.text)),
        SpecNode::GetAttr(p, l) => match spec_fetch(*p, env) {
            Ok(Some(parent)) => Ok(parent.field_lookup(l.text)),
            Ok(None) => Ok(None),
            Err(m) => Err(m),
        },
        SpecNode::String(s) => Ok(Some(SpecValue::String(s.text))),
        SpecNode::Integer(s) => match spec_int_value(s.text) {
            Some(v) => if i128::MIN <= v <= i128::MAX {
                Ok(Some(SpecValue::Integer(v)))
            } else {
                Err("Invalid integer"@)
            },
            None => Err("Invalid integer"@),
        },
        SpecNode::Float(s) => if spec_float_text_ok(s.text) {
            Ok(Some(SpecValue::Float(s.text)))
        } else {
            Err("Invalid float"@)
        },
        SpecNode::Glob(f) => Ok(Some(SpecValue::Glob(f.text))),
        SpecNode::Regex(r) => if spec_regex_valid(r.text) {
            Ok(Some(SpecValue::Regex(r.text)))
        } else {
            Err("Invalid regular expression"@)
        },
        _ => Ok(None),
    }
}

/// Resolves a node to a value where completion can do so without running
/// anything.
pub fn fetch_value(node: &Node, scope: &Scope) -> (r: Result<Option<Value>, JobError>)
    ensures
        (match spec_fetch(node@, scope@) {
            Ok(Some(m)) => r matches Ok(Some(v)) && v@ == m,
            Ok(None) => r matches Ok(None::<Value>),
            Err(m) => r matches Err(e) && e.message@ == m,
        }),
    decreases *node,
{
    match node {
        Node::Label(l) => {
            proof {
                assert(node@ == SpecNode::Label(l@));
            }
            Ok(scope.get(l.string.as_str()))
        },
        Node::GetAttr(n, l) => {
            proof {
                assert(node@ matches SpecNode::GetAttr(pp, ll) && *pp == (&**n)@ && ll == l@);
            }
            match fetch_value(&**n, scope) {
                Ok(Some(parent)) => Ok(parent.field(l.string.as_str())),
                Ok(None) => Ok(None),
                Err(e) => Err(e),
            }
        },
        Node::String(s) => {
            proof {
                assert(node@ == SpecNode::String(s@));
            }
            Ok(Some(Value::string(s.string.as_str())))
        },
        Node::Integer(s) => {
            proof {
                assert(node@ == SpecNode::Integer(s@));
            }
            match parse_integer_text(s.string.as_str()) {
                Some(v) => Ok(Some(Value::Integer(v))),
                None => Err(error("Invalid integer")),
            }
        },
        Node::Float(s) => {
            proof {
                assert(node@ == SpecNode::Float(s@));
            }
            if float_text_ok(s.string.as_str()) {
                Ok(Some(Value::Float(s.string.clone())))
            } else {
                Err(error("Invalid float"))
            }
        },
        Node::Glob(f) => {
            proof {
                assert(node@ == SpecNode::Glob(f@));
            }
            Ok(Some(Value::Glob(f.string.clone())))
        },
        Node::Regex(r) => {
            proof {
                assert(node@ == SpecNode::Regex(r@));
            }
            match CompiledRegex::compile(r.string.as_str()) {
                Some(_) => Ok(Some(Value::Regex(r.string.clone()))),
                None => Err(error("Invalid regular expression")),
            }
        },
        _ => Ok(None),
    }
}

/// What the first expression of an invocation resolves to: the command's
/// signature when the scope knows one, else no information.
pub open spec fn spec_command_of(n: SpecNode, env: Seq<(Seq<char>, SpecValue)>) -> Result<
    SpecCompletionCommand,
    Seq<char>,
> {
    match spec_fetch(n, env) {
        Ok(Some(SpecValue::Command(sig))) => Ok(SpecCompletionCommand::Known(sig)),
        Ok(_) => Ok(SpecCompletionCommand::Unknown),
        Err(m) => Err(m),
    }
}

/// Resolves the command an invocation names.
pub fn parse_command_node(node: &Node, scope: &Scope) -> (r: Result<CompletionCommand, JobError>)
    ensures
        (match spec_command_of(node@, scope@) {
            Ok(c) => r matches Ok(x) && x@ == c,
            Err(m) => r matches Err(e) && e.message@ == m,
        }),
{
    match fetch_value(node, scope) {
        Ok(Some(Value::Command(command))) => Ok(CompletionCommand::Known(command)),
        Ok(_) => Ok(CompletionCommand::Unknown),
        Err(e) => Err(e),
    }
}

/// The slash-joined text of a label-or-path chain.
pub open spec fn spec_simple_path(n: SpecNode) -> Result<Seq<char>, Seq<char>>
    decreases n,
{
    match n {
        SpecNode::Label(l) => Ok(l.text),
        SpecNode::Path(p, a) => match spec_simple_path(*p) {
            Ok(front) => Ok(front + "/"@ + a.text),
            Err(m) => Err(m),
        },
        _ => Err("Invalid path"@),
    }
}

/// Flattens a path node into slash-joined text.
pub fn simple_path(node: &Node, cursor: usize) -> (r: Result<String, JobError>)
    ensures
        (match spec_simple_path(node@) {
            Ok(p) => r matches Ok(s) && s@ == p,
            Err(m) => r matches Err(e) && e.message@ == m,
        }),
    decreases *node,
{
    match node {
        Node::Label(label) => {
            proof {
                assert(node@ == SpecNode::Label(label@));
            }
            Ok(label.string.clone())
        },
        Node::Path(p, a) => {
            proof {
                assert(node@ matches SpecNode::Path(pp, aa) && *pp == (&**p)@ && aa == a@);
            }
            match simple_path(&**p, cursor) {
                Ok(front) => Ok(front.concat("/").concat(a.string.as_str())),
                Err(e) => Err(e),
            }
        },
        _ => Err(error("Invalid path")),
    }
}

/// How an expression before the cursor reads as a previous argument: a
/// `name=value` assignment with a bare label keeps the name; everything
/// else is an unnamed argument of unknown type.
pub open spec fn spec_previous_argument(n: SpecNode) -> SpecPreviousArgument
    decreases n,
{
    match n {
        SpecNode::Assignment(key, op, value) => match *key {
            SpecNode::Label(name) => if op == "="@ {
                SpecPreviousArgument {
                    name: Some(name.text),
                    value: spec_previous_argument(*value).value,
                }
            } else {
                SpecPreviousArgument {
                    name: None,
                    value: SpecPreviousArgumentValue::ValueType(crate::value::ValueType::Any),
                }
            },
            _ => SpecPreviousArgument {
                name: None,
                value: SpecPreviousArgumentValue::ValueType(crate::value::ValueType::Any),
            },
        },
        _ => SpecPreviousArgument {
            name: None,
            value: SpecPreviousArgumentValue::ValueType(crate::value::ValueType::Any),
        },
    }
}

/// Folds one already-written expression into a previous argument.
pub fn parse_previous_argument(arg: &Node) -> (r: PreviousArgument)
    ensures
        r@ == spec_previous_argument(arg@),
    decreases *arg,
{
    match arg {
        Node::Assignment(key, op, value) => {
            proof {
                assert(arg@ matches SpecNode::Assignment(kk, oo, vv)
                    && *kk == (&**key)@
                    && oo == op@
                    && *vv == (&**value)@);
            }
            match &**key {
                Node::Label(name) => {
                    if str_eq(op.as_str(), "=") {
                        let inner = parse_previous_argument(&**value);
                        return PreviousArgument {
                            name: Some(name.string.clone()),
                            value: inner.value,
                        };
                    }
                    PreviousArgument {
                        name: None,
                        value: PreviousArgumentValue::ValueType(crate::value::ValueType::Any),
                    }
                },
                _ => PreviousArgument {
                    name: None,
                    value: PreviousArgumentValue::ValueType(crate::value::ValueType::Any),
                },
            }
        },
        _ => PreviousArgument {
            name: None,
            value: PreviousArgumentValue::ValueType(crate::value::ValueType::Any),
        },
    }
}

// ---------------------------------------------------------------------------
// Inferring the argument slot being filled
// ---------------------------------------------------------------------------

/// The first descriptor with exactly the given name.
pub open spec fn spec_find_named(
    args: Seq<SpecArgumentDescription>,
    name: Seq<char>,
    k: int,
) -> Option<SpecArgumentDescription>
    decreases args.len() - k,
{
    if k < 0 || k >= args.len() {
        None
    } else if args[k].name == name {
        Some(args[k])
    } else {
        spec_find_named(args, name, k + 1)
    }
}

/// Whether some previous argument was passed under the given name.
pub open spec fn spec_prev_has_named(prev: Seq<SpecPreviousArgument>, name: Seq<char>) -> bool {
    exists|j: int| 0 <= j < prev.len() && prev[j].name == Some(name)
}

/// How many previous arguments from position `k` on are unnamed.
pub open spec fn spec_unnamed_count(prev: Seq<SpecPreviousArgument>, k: int) -> int
    decreases prev.len() - k,
{
    if k < 0 || k >= prev.len() {
        0
    } else {
        (if prev[k].name is None {
            1int
        } else {
            0int
        }) + spec_unnamed_count(prev, k + 1)
    }
}

/// Positional inference from descriptor `k` with `used` positional slots
/// consumed so far: a catch-all descriptor always wins; descriptors already
/// satisfied by a named argument are skipped; otherwise the first
/// positional slot beyond those already supplied is the one being filled.
pub open spec fn spec_positional(
    args: Seq<SpecArgumentDescription>,
    prev: Seq<SpecPreviousArgument>,
    used: int,
    k: int,
) -> Option<SpecArgumentDescription>
    decreases args.len() - k,
{
    if k < 0 || k >= args.len() {
        None
    } else if args[k].unnamed {
        Some(args[k])
    } else if spec_prev_has_named(prev, args[k].name) {
        spec_positional(args, prev, used, k + 1)
    } else if spec_unnamed_count(prev, 0) < used + 1 {
        Some(args[k])
    } else {
        spec_positional(args, prev, used + 1, k + 1)
    }
}

/// The descriptor of the argument being completed: by exact name when the
/// cursor sits in a `name=value` form, else by positional inference.
pub open spec fn spec_last_argument_description(p: SpecPartialCommandResult) -> Option<
    SpecArgumentDescription,
> {
    match p.command {
        SpecCompletionCommand::Known(sig) => match p.last_argument_name {
            Some(name) => spec_find_named(sig.arguments, name, 0),
            None => spec_positional(sig.arguments, p.previous_arguments, 0, 0),
        },
        SpecCompletionCommand::Unknown => None,
    }
}

fn prev_has_named(prev: &Vec<PreviousArgument>, name: &str) -> (r: bool)
    ensures
        r == spec_prev_has_named(spec_previous_seq(prev@, 0), name@),
{
    proof {
        lemma_spec_previous_seq(prev@, 0);
    }
    let ghost pm = spec_previous_seq(prev@, 0);
    let mut j: usize = 0;
    while j < prev.len()
        invariant
            j <= prev@.len(),
            pm == spec_previous_seq(prev@, 0),
            pm.len() == prev@.len(),
            forall|m: int| 0 <= m < prev@.len() ==> #[trigger] pm[m] == prev@[m]@,
            forall|m: int| 0 <= m < j ==> #[trigger] pm[m].name != Some(name@),
        decreases prev@.len() - j,
    {
        match &prev[j].name {
            Some(n) => {
                if str_eq(n.as_str(), name) {
                    proof {
                        assert(pm[j as int].name == Some(name@));
                    }
                    return true;
                }
            },
            None => {},
        }
        j = j + 1;
    }
    false
}

impl PartialCommandResult {
    /// The descriptor of the argument slot under completion, when the
    /// command and its signature determine one.
    pub fn last_argument_description(&self) -> (r: Option<ArgumentDescription>)
        ensures
            (match spec_last_argument_description(self@) {
                Some(d) => r matches Some(x) && x@ == d,
                None => r is None,
            }),
    {
        match &self.command {
            CompletionCommand::Known(cmd) => {
                proof {
                    crate::value::lemma_spec_description_seq(cmd.arguments@, 0);
                    assert(cmd@.arguments == crate::value::spec_description_seq(
                        cmd.arguments@,
                        0,
                    ));
                }
                let ghost sig = cmd@.arguments;
                match &self.last_argument_name {
                    Some(name) => {
                        let mut k: usize = 0;
                        while k < cmd.arguments.len()
                            invariant
                                k <= cmd.arguments@.len(),
                                sig == cmd@.arguments,
                                self@.command == SpecCompletionCommand::Known(cmd@),
                                self@.last_argument_name == Some(name@),
                                sig.len() == cmd.arguments@.len(),
                                forall|m: int|
                                    0 <= m < sig.len() ==> #[trigger] sig[m] == cmd.arguments@[m]@,
                                spec_find_named(sig, name@, 0) == spec_find_named(
                                    sig,
                                    name@,
                                    k as int,
                                ),
                            decreases cmd.arguments@.len() - k,
                        {
                            if str_eq(cmd.arguments[k].name.as_str(), name.as_str()) {
                                return Some((&cmd.arguments[k]).duplicate());
                            }
                            k = k + 1;
                        }
                        None
                    },
                    None => {
                        proof {
                            lemma_spec_previous_seq(self.previous_arguments@, 0);
                        }
                        let ghost prev = spec_previous_seq(self.previous_arguments@, 0);
                        let mut previous_unnamed: usize = 0;
                        let mut j: usize = 0;
                        while j < self.previous_arguments.len()
                            invariant
                                j <= self.previous_arguments@.len(),
                                prev == spec_previous_seq(self.previous_arguments@, 0),
                                prev.len() == self.previous_arguments@.len(),
                                forall|m: int|
                                    0 <= m < prev.len() ==> #[trigger] prev[m]
                                        == self.previous_arguments@[m]@,
                                previous_unnamed <= j,
                                spec_unnamed_count(prev, 0) == previous_unnamed
                                    + spec_unnamed_count(prev, j as int),
                            decreases self.previous_arguments@.len() - j,
                        {
                            match &self.previous_arguments[j].name {
                                Some(_) => {},
                                None => {
                                    previous_unnamed = previous_unnamed + 1;
                                },
                            }
                            j = j + 1;
                        }
                        proof {
                            assert(spec_unnamed_count(prev, prev.len() as int) == 0);
                            assert(spec_unnamed_count(prev, 0) == previous_unnamed);
                        }
                        let mut unnamed_used: usize = 0;
                        let mut k: usize = 0;
                        while k < cmd.arguments.len()
                            invariant
                                k <= cmd.arguments@.len(),
                                unnamed_used <= k,
                                sig == cmd@.arguments,
                                self@.command == SpecCompletionCommand::Known(cmd@),
                                self@.last_argument_name is None,
                                self@.previous_arguments == prev,
                                sig.len() == cmd.arguments@.len(),
                                forall|m: int|
                                    0 <= m < sig.len() ==> #[trigger] sig[m] == cmd.arguments@[m]@,
                                prev == spec_previous_seq(self.previous_arguments@, 0),
                                previous_unnamed == spec_unnamed_count(prev, 0),
                                spec_positional(sig, prev, 0, 0) == spec_positional(
                                    sig,
                                    prev,
                                    unnamed_used as int,
                                    k as int,
                                ),
                            decreases cmd.arguments@.len() - k,
                        {
                            if cmd.arguments[k].unnamed {
                                return Some((&cmd.arguments[k]).duplicate());
                            }
                            if prev_has_named(&self.previous_arguments, cmd.arguments[k].name.as_str()) {
                                k = k + 1;
                                continue;
                            }
                            unnamed_used = unnamed_used + 1;
                            if previous_unnamed < unnamed_used {
                                return Some((&cmd.arguments[k]).duplicate());
                            }
                            k = k + 1;
                        }
                        None
                    },
                }
            },
            CompletionCommand::Unknown => None,
        }
    }

    /// The declared type to complete against: the matched descriptor's
    /// type, or anything.
    pub fn last_argument_type(&self) -> (r: crate::value::ValueType)
        ensures
            r == (match spec_last_argument_description(self@) {
                None => crate::value::ValueType::Any,
                Some(d) => d.value_type,
            }),
    {
        match self.last_argument_description() {
            None => crate::value::ValueType::Any,
            Some(d) => d.value_type,
        }
    }
}

// ---------------------------------------------------------------------------
// Classifying the element under the cursor
// ---------------------------------------------------------------------------

/// Classifying a lone expression with the cursor inside it.
pub open spec fn spec_classify_single(
    e: SpecNode,
    cursor: usize,
    env: Seq<(Seq<char>, SpecValue)>,
) -> Result<SpecParseResult, Seq<char>> {
    match e {
        SpecNode::Label(label) => Ok(SpecParseResult::PartialLabel(label.prefix(cursor).text)),
        SpecNode::GetAttr(parent, field) => match spec_fetch(*parent, env) {
            Ok(Some(v)) => Ok(SpecParseResult::PartialMember(v, field.prefix(cursor).text)),
            Ok(None) => Err("Unknown value"@),
            Err(m) => Err(m),
        },
        SpecNode::Path(_, _) => match spec_simple_path(e) {
            Ok(p) => Ok(SpecParseResult::PartialFile(p, false)),
            Err(m) => Err(m),
        },
        SpecNode::File(path, quoted) => if quoted {
            match spec_unescape(path.text) {
                Some(u) => Ok(SpecParseResult::PartialFile(u, true)),
                None => Err("Invalid escape sequence"@),
            }
        } else {
            Ok(SpecParseResult::PartialFile(path.text, false))
        },
        SpecNode::String(string) => Ok(
            SpecParseResult::PartialQuotedString(string.prefix(cursor).text),
        ),
        SpecNode::GetItem(_, _) => Err("Unsupported construct"@),
        _ => Err("Can't extract command to complete"@),
    }
}

/// Classifying the last expression of a longer invocation, as the value
/// side of the argument being completed.
pub open spec fn spec_classify_last(
    e: SpecNode,
    cursor: usize,
    env: Seq<(Seq<char>, SpecValue)>,
) -> Result<SpecLastArgument, Seq<char>> {
    if !e.location().spec_contains(cursor) {
        Ok(SpecLastArgument::Unknown)
    } else {
        match e {
            SpecNode::Label(l) => Ok(SpecLastArgument::Label(l.text)),
            SpecNode::GetAttr(parent, field) => match spec_fetch(*parent, env) {
                Ok(Some(v)) => Ok(SpecLastArgument::Field(v, field.prefix(cursor).text)),
                Ok(None) => Err("unknown value"@),
                Err(m) => Err(m),
            },
            SpecNode::Path(_, _) => match spec_simple_path(e) {
                Ok(p) => Ok(SpecLastArgument::File(p, false)),
                Err(m) => Err(m),
            },
            SpecNode::File(path, quoted) => if quoted {
                match spec_unescape(path.text) {
                    Some(u) => Ok(SpecLastArgument::File(u, true)),
                    None => Err("Invalid escape sequence"@),
                }
            } else {
                Ok(SpecLastArgument::File(path.text, false))
            },
            SpecNode::String(s) => match spec_unescape(s.text) {
                Some(u) => Ok(SpecLastArgument::QuotedString(u)),
                None => Err("Invalid escape sequence"@),
            },
            _ => Err("Can't extract argument to complete"@),
        }
    }
}

fn classify_single(e: &Node, cursor: usize, scope: &Scope) -> (r: Result<ParseResult, JobError>)
    ensures
        (match spec_classify_single(e@, cursor, scope@) {
            Ok(v) => r matches Ok(x) && x@ == v,
            Err(m) => r matches Err(x) && x.message@ == m,
        }),
{
    match e {
        Node::Label(label) => {
            proof {
                assert(e@ == SpecNode::Label(label@));
            }
            Ok(ParseResult::PartialLabel(label.prefix(cursor).string))
        },
        Node::GetAttr(parent, field) => {
            proof {
                assert(e@ matches SpecNode::GetAttr(pp, ff) && *pp == (&**parent)@ && ff == field@);
            }
            match fetch_value(&**parent, scope) {
                Ok(Some(v)) => Ok(ParseResult::PartialMember(v, field.prefix(cursor).string)),
                Ok(None) => Err(error("Unknown value")),
                Err(er) => Err(er),
            }
        },
        Node::Path(_, _) => {
            match simple_path(e, cursor) {
                Ok(p) => Ok(ParseResult::PartialFile(p, false)),
                Err(er) => Err(er),
            }
        },
        Node::File(path, quoted) => {
            proof {
                assert(e@ == SpecNode::File(path@, *quoted));
            }
            if *quoted {
                match unescape_text(path.string.as_str()) {
                    Some(u) => Ok(ParseResult::PartialFile(u, true)),
                    None => Err(error("Invalid escape sequence")),
                }
            } else {
                Ok(ParseResult::PartialFile(path.string.clone(), false))
            }
        },
        Node::String(string) => {
            proof {
                assert(e@ == SpecNode::String(string@));
            }
            Ok(ParseResult::PartialQuotedString(string.prefix(cursor).string))
        },
        Node::GetItem(_, _) => Err(error("Unsupported construct")),
        _ => Err(error("Can't extract command to complete")),
    }
}

fn classify_last(e: &Node, cursor: usize, scope: &Scope) -> (r: Result<LastArgument, JobError>)
    ensures
        (match spec_classify_last(e@, cursor, scope@) {
            Ok(v) => r matches Ok(x) && x@ == v,
            Err(m) => r matches Err(x) && x.message@ == m,
        }),
{
    if !e.location().contains(cursor) {
        return Ok(LastArgument::Unknown);
    }
    match e {
        Node::Label(l) => {
            proof {
                assert(e@ == SpecNode::Label(l@));
            }
            Ok(LastArgument::Label(l.string.clone()))
        },
        Node::GetAttr(parent, field) => {
            proof {
                assert(e@ matches SpecNode::GetAttr(pp, ff) && *pp == (&**parent)@ && ff == field@);
            }
            match fetch_value(&**parent, scope) {
                Ok(Some(v)) => Ok(LastArgument::Field(v, field.prefix(cursor).string)),
                Ok(None) => Err(error("unknown value")),
                Err(er) => Err(er),
            }
        },
        Node::Path(_, _) => {
            match simple_path(e, cursor) {
                Ok(p) => Ok(LastArgument::File(p, false)),
                Err(er) => Err(er),
            }
        },
        Node::File(path, quoted) => {
            proof {
                assert(e@ == SpecNode::File(path@, *quoted));
            }
            if *quoted {
                match unescape_text(path.string.as_str()) {
                    Some(u) => Ok(LastArgument::File(u, true)),
                    None => Err(error("Invalid escape sequence")),
                }
            } else {
                Ok(LastArgument::File(path.string.clone(), false))
            }
        },
        Node::String(s) => {
            proof {
                assert(e@ == SpecNode::String(s@));
            }
            match unescape_text(s.string.as_str()) {
                Some(u) => Ok(LastArgument::QuotedString(u)),
                None => Err(error("Invalid escape sequence")),
            }
        },
        _ => Err(error("Can't extract argument to complete")),
    }
}

// ---------------------------------------------------------------------------
// The completion entry point
// ---------------------------------------------------------------------------

/// What completing inside a parsed job list yields: the command under the
/// cursor is located, then the element under the cursor is classified
/// against it.
pub open spec fn spec_parse(
    l: SpecJobList,
    cursor: usize,
    env: Seq<(Seq<char>, SpecValue)>,
) -> Result<SpecParseResult, Seq<char>> {
    if l.jobs.len() == 0 {
        Ok(SpecParseResult::Nothing)
    } else {
        match spec_locate_job_list(l, cursor, 0) {
            Err(m) => Err(m),
            Ok(cmd) => if cmd.expressions.len() == 0 {
                Ok(SpecParseResult::Nothing)
            } else if cmd.expressions.len() == 1 {
                let e = cmd.expressions[0];
                if e.location().spec_contains(cursor) {
                    spec_classify_single(e, cursor, env)
                } else {
                    match spec_command_of(e, env) {
                        Err(m) => Err(m),
                        Ok(c) => Ok(
                            SpecParseResult::PartialArgument(
                                SpecPartialCommandResult {
                                    command: c,
                                    previous_arguments: Seq::empty(),
                                    last_argument_name: None,
                                    last_argument: SpecLastArgument::Unknown,
                                },
                            ),
                        ),
                    }
                }
            } else {
                match spec_command_of(cmd.expressions[0], env) {
                    Err(m) => Err(m),
                    Ok(c) => {
                        let prev = Seq::new(
                            (cmd.expressions.len() - 2) as nat,
                            |j: int| spec_previous_argument(cmd.expressions[j + 1]),
                        );
                        let last = cmd.expressions.last();
                        match last {
                            SpecNode::Assignment(namebox, _, valuebox) => if namebox.location().spec_contains(cursor) {
                                match *namebox {
                                    SpecNode::Label(lab) => Ok(
                                        SpecParseResult::PartialArgument(
                                            SpecPartialCommandResult {
                                                command: c,
                                                previous_arguments: prev,
                                                last_argument_name: None,
                                                last_argument: SpecLastArgument::Switch(
                                                    lab.prefix(cursor).text,
                                                ),
                                            },
                                        ),
                                    ),
                                    _ => Err("Invalid argument name"@),
                                }
                            } else {
                                let lan = match *namebox {
                                    SpecNode::Label(nm) => Some(nm.text),
                                    _ => None,
                                };
                                match spec_classify_last(*valuebox, cursor, env) {
                                    Err(m) => Err(m),
                                    Ok(la) => Ok(
                                        SpecParseResult::PartialArgument(
                                            SpecPartialCommandResult {
                                                command: c,
                                                previous_arguments: prev,
                                                last_argument_name: lan,
                                                last_argument: la,
                                            },
                                        ),
                                    ),
                                }
                            },
                            _ => match spec_classify_last(last, cursor, env) {
                                Err(m) => Err(m),
                                Ok(la) => Ok(
                                    SpecParseResult::PartialArgument(
                                        SpecPartialCommandResult {
                                            command: c,
                                            previous_arguments: prev,
                                            last_argument_name: None,
                                            last_argument: la,
                                        },
                                    ),
                                ),
                            },
                        }
                    },
                }
            },
        }
    }
}

/// Classifies what is being completed at the cursor inside a parsed job
/// list: the caller parses the (healed) line up to the cursor and hands
/// the tree over, together with the scope names resolve against.
pub fn parse(ast: &JobListNode, cursor: usize, scope: &Scope) -> (r: Result<
    ParseResult,
    JobError,
>)
    ensures
        (match spec_parse(ast@, cursor, scope@) {
            Ok(v) => r matches Ok(x) && x@ == v,
            Err(m) => r matches Err(x) && x.message@ == m,
        }),
{
    proof {
        lemma_spec_job_seq(ast.jobs@, 0);
        assert(ast@.jobs == spec_job_seq(ast.jobs@, 0));
    }
    if ast.jobs.len() == 0 {
        return Ok(ParseResult::Nothing);
    }
    let cmd: &CommandNode = match find_command_in_job_list(ast, cursor) {
        Ok(c) => c,
        Err(e) => {
            return Err(e);
        },
    };
    proof {
        lemma_spec_node_seq(cmd.expressions@, 0);
        assert(cmd@.expressions == spec_node_seq(cmd.expressions@, 0));
    }
    let n = cmd.expressions.len();
    if n == 0 {
        return Ok(ParseResult::Nothing);
    }
    if n == 1 {
        let e = &cmd.expressions[0];
        proof {
            assert(cmd@.expressions[0] == e@);
        }
        if e.location().contains(cursor) {
            classify_single(e, cursor, scope)
        } else {
            match parse_command_node(e, scope) {
                Ok(c) => {
                    let res = PartialCommandResult {
                        command: c,
                        previous_arguments: Vec::new(),
                        last_argument: LastArgument::Unknown,
                        last_argument_name: None,
                    };
                    proof {
                        assert(spec_previous_seq(res.previous_arguments@, 0)
                            =~= Seq::<SpecPreviousArgument>::empty());
                    }
                    Ok(ParseResult::PartialArgument(res))
                },
                Err(er) => Err(er),
            }
        }
    } else {
        let c = match parse_command_node(&cmd.expressions[0], scope) {
            Ok(c) => c,
            Err(er) => {
                proof {
                    assert(cmd@.expressions[0] == cmd.expressions@[0]@);
                }
                return Err(er);
            },
        };
        proof {
            assert(cmd@.expressions[0] == cmd.expressions@[0]@);
        }
        let ghost prev_model = Seq::new(
            (cmd@.expressions.len() - 2) as nat,
            |j: int| spec_previous_argument(cmd@.expressions[j + 1]),
        );
        let mut previous_arguments: Vec<PreviousArgument> = Vec::new();
        let mut j: usize = 1;
        while j < n - 1
            invariant
                1 <= j <= n - 1,
                n == cmd.expressions@.len(),
                n >= 2,
                cmd@.expressions == spec_node_seq(cmd.expressions@, 0),
                cmd@.expressions.len() == n,
                forall|m: int| 0 <= m < n ==> #[trigger] cmd@.expressions[m] == cmd.expressions@[m]@,
                prev_model == Seq::new(
                    (n - 2) as nat,
                    |m: int| spec_previous_argument(cmd@.expressions[m + 1]),
                ),
                previous_arguments@.len() == j - 1,
                forall|m: int|
                    0 <= m < j - 1 ==> #[trigger] previous_arguments@[m]@ == prev_model[m],
            decreases n - j,
        {
            let pa = parse_previous_argument(&cmd.expressions[j]);
            previous_arguments.push(pa);
            j = j + 1;
        }
        proof {
            lemma_spec_previous_seq(previous_arguments@, 0);
            assert(spec_previous_seq(previous_arguments@, 0) =~= prev_model);
        }
        let last = &cmd.expressions[n - 1];
        proof {
            assert(cmd@.expressions.last() == last@);
        }
        match last {
            Node::Assignment(name, _op, value) => {
                proof {
                    assert(last@ matches SpecNode::Assignment(nn, _, vv)
                        && *nn == (&**name)@
                        && *vv == (&**value)@);
                }
                if name.location().contains(cursor) {
                    match &**name {
                        Node::Label(l) => {
                            proof {
                                assert((&**name)@ == SpecNode::Label(l@));
                            }
                            Ok(
                                ParseResult::PartialArgument(
                                    PartialCommandResult {
                                        command: c,
                                        previous_arguments,
                                        last_argument: LastArgument::Switch(
                                            l.prefix(cursor).string,
                                        ),
                                        last_argument_name: None,
                                    },
                                ),
                            )
                        },
                        _ => Err(argument_error("Invalid argument name")),
                    }
                } else {
                    let last_argument_name: Option<String> = match &**name {
                        Node::Label(nm) => Some(nm.string.clone()),
                        _ => None,
                    };
                    match classify_last(&**value, cursor, scope) {
                        Ok(la) => Ok(
                            ParseResult::PartialArgument(
                                PartialCommandResult {
                                    command: c,
                                    previous_arguments,
                                    last_argument: la,
                                    last_argument_name,
                                },
                            ),
                        ),
                        Err(er) => Err(er),
                    }
                }
            },
            _ => {
                match classify_last(last, cursor, scope) {
                    Ok(la) => Ok(
                        ParseResult::PartialArgument(
                            PartialCommandResult {
                                command: c,
                                previous_arguments,
                                last_argument: la,
                                last_argument_name: None,
                            },
                        ),
                    ),
                    Err(er) => Err(er),
                }
            },
        }
    }
}

/// Completion is a pure function of its inputs: any two results that meet
/// `parse`'s contract for the same job list, cursor and scope are the same
/// result. Re-running completion with identical arguments changes nothing.
pub proof fn lemma_complete_idempotent(
    ast: SpecJobList,
    cursor: usize,
    env: Seq<(Seq<char>, SpecValue)>,
    r1: Result<SpecParseResult, Seq<char>>,
    r2: Result<SpecParseResult, Seq<char>>,
)
    requires
        r1 == spec_parse(ast, cursor, env),
        r2 == spec_parse(ast, cursor, env),
    ensures
        r1 == r2,
{
}

/// Positional inference, once every descriptor before `u` is skipped as
/// satisfied, lands on the catch-all at `u`.
proof fn lemma_positional_reaches(
    args: Seq<SpecArgumentDescription>,
    prev: Seq<SpecPreviousArgument>,
    used: int,
    k: int,
    u: int,
)
    requires
        0 <= k <= u < args.len(),
        args[u].unnamed,
        forall|m: int|
            k <= m < u ==> !((#[trigger] args[m]).unnamed) && spec_prev_has_named(
                prev,
                args[m].name,
            ),
    ensures
        spec_positional(args, prev, used, k) == Some(args[u]),
    decreases u - k,
{
    if k < u {
        lemma_positional_reaches(args, prev, used, k + 1, u);
    }
}

/// A catch-all descriptor always wins: when every descriptor before the
/// sole accepts-unnamed one is satisfied by a named previous argument, the
/// slot under completion is that catch-all, no matter how many named
/// arguments were already supplied.
pub proof fn lemma_unnamed_descriptor_wins(p: SpecPartialCommandResult, u: int)
    requires
        p.command is Known,
        p.last_argument_name is None,
        0 <= u < p.command->Known_0.arguments.len(),
        p.command->Known_0.arguments[u].unnamed,
        forall|m: int|
            0 <= m < u ==> !((#[trigger] p.command->Known_0.arguments[m]).unnamed)
                && spec_prev_has_named(
                p.previous_arguments,
                p.command->Known_0.arguments[m].name,
            ),
    ensures
        spec_last_argument_description(p) == Some(p.command->Known_0.arguments[u]),
{
    lemma_positional_reaches(p.command->Known_0.arguments, p.previous_arguments, 0, 0, u);
}

} // verus!
