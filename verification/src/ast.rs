//! The syntax-node shapes that argument compilation and completion pattern
//! match over: expression nodes, command nodes, jobs and job lists, each
//! carrying a source span.
//!
//! Each executable type has a ghost counterpart (`SpecTracked`, `SpecNode`,
//! ...) holding character sequences in place of strings; the `View` impls
//! connect the two, and all contracts in this crate speak about the views.

use vstd::prelude::*;
use vstd::string::StrSliceExecFns;

verus! {

/// A source span: `start` and `end` are character offsets into the line the
/// node was parsed from.
#[derive(Debug, Clone, Copy, PartialEq, Eq, Structural)]
pub struct Location {
    pub start: usize,
    pub end: usize,
}

impl Location {
    pub open spec fn spec_contains(&self, cursor: usize) -> bool {
        self.start <= cursor <= self.end
    }

    pub open spec fn spec_union(self, other: Location) -> Location {
        Location {
            start: if self.start <= other.start {
                self.start
            } else {
                other.start
            },
            end: if self.end >= other.end {
                self.end
            } else {
                other.end
            },
        }
    }

    pub fn new(start: usize, end: usize) -> (r: Location)
        ensures
            r == (Location { start, end }),
    {
        Location { start, end }
    }

    /// Cursor containment is inclusive at both edges: a cursor sitting just
    /// after the last character of a token still belongs to that token, so
    /// that completion works at the end of a partially typed word.
    #[verifier::when_used_as_spec(spec_contains)]
    pub fn contains(&self, cursor: usize) -> (r: bool)
        ensures
            r == self.spec_contains(cursor),
    {
        self.start <= cursor && cursor <= self.end
    }

    /// The smallest span covering both spans.
    pub fn union(&self, other: &Location) -> (r: Location)
        ensures
            r == self.spec_union(*other),
    {
        Location {
            start: if self.start <= other.start {
                self.start
            } else {
                other.start
            },
            end: if self.end >= other.end {
                self.end
            } else {
                other.end
            },
        }
    }
}

/// Ghost counterpart of `TrackedString`.
pub struct SpecTracked {
    pub text: Seq<char>,
    pub location: Location,
}

/// A piece of source text together with the span it was read from.
#[derive(Debug, Clone)]
pub struct TrackedString {
    pub string: String,
    pub location: Location,
}

impl View for TrackedString {
    type V = SpecTracked;

    open spec fn view(&self) -> SpecTracked {
        SpecTracked { text: self.string@, location: self.location }
    }
}

impl SpecTracked {
    /// How many characters of the text lie before the cursor.
    pub open spec fn prefix_len(self, cursor: usize) -> int {
        if cursor <= self.location.start {
            0
        } else if cursor - self.location.start <= self.text.len() {
            cursor - self.location.start
        } else {
            self.text.len() as int
        }
    }

    /// The text truncated to the cursor, spanning from the original start to
    /// the cursor.
    pub open spec fn prefix(self, cursor: usize) -> SpecTracked {
        SpecTracked {
            text: self.text.take(self.prefix_len(cursor)),
            location: Location { start: self.location.start, end: cursor },
        }
    }
}

impl TrackedString {
    pub fn new(string: String, location: Location) -> (r: TrackedString)
        ensures
            r@.text == string@,
            r@.location == location,
    {
        TrackedString { string, location }
    }

    /// The part of this token that lies before the cursor.
    pub fn prefix(&self, cursor: usize) -> (r: TrackedString)
        ensures
            r@ == self@.prefix(cursor),
    {
        let n = self.string.as_str().unicode_len();
        let k: usize = if cursor <= self.location.start {
            0
        } else if cursor - self.location.start <= n {
            cursor - self.location.start
        } else {
            n
        };
        let t = self.string.as_str().substring_char(0, k);
        proof {
            assert(self.string@.take(k as int) =~= self.string@.subrange(0, k as int));
        }
        TrackedString {
            string: t.to_owned(),
            location: Location { start: self.location.start, end: cursor },
        }
    }
}

/// Ghost counterpart of `Node`.
pub enum SpecNode {
    Label(SpecTracked),
    Path(Box<SpecNode>, SpecTracked),
    GetAttr(Box<SpecNode>, SpecTracked),
    GetItem(Box<SpecNode>, Box<SpecNode>),
    String(SpecTracked),
    Integer(SpecTracked),
    Float(SpecTracked),
    Glob(SpecTracked),
    Regex(SpecTracked),
    File(SpecTracked, bool),
    Assignment(Box<SpecNode>, Seq<char>, Box<SpecNode>),
    Substitution(SpecJob),
    Closure(Option<Seq<SpecTracked>>, SpecJobList),
}

/// Ghost counterpart of `CommandNode`.
pub struct SpecCommand {
    pub expressions: Seq<SpecNode>,
    pub location: Location,
}

/// Ghost counterpart of `JobNode`.
pub struct SpecJob {
    pub commands: Seq<SpecCommand>,
    pub location: Location,
}

/// Ghost counterpart of `JobListNode`.
pub struct SpecJobList {
    pub jobs: Seq<SpecJob>,
    pub location: Location,
}

/// One expression of the command grammar: the closed set of shapes the
/// argument compiler and the completion classifier switch over.
pub enum Node {
    /// A bare identifier.
    Label(TrackedString),
    /// A slash-joined path: parent path, then one more segment.
    Path(Box<Node>, TrackedString),
    /// Attribute access `parent:field`.
    GetAttr(Box<Node>, TrackedString),
    /// Indexed access `parent[index]`.
    GetItem(Box<Node>, Box<Node>),
    /// A quoted string literal.
    String(TrackedString),
    /// An integer literal, kept as source text.
    Integer(TrackedString),
    /// A float literal, kept as source text.
    Float(TrackedString),
    /// A glob pattern.
    Glob(TrackedString),
    /// A regular-expression literal.
    Regex(TrackedString),
    /// A file name; the flag records whether it was quoted.
    File(TrackedString, bool),
    /// `lhs <operator> rhs`.
    Assignment(Box<Node>, String, Box<Node>),
    /// A command substitution `(job)`.
    Substitution(JobNode),
    /// A closure `{ ... }` with optional capture list.
    Closure(Option<Vec<TrackedString>>, JobListNode),
}

/// One command invocation: the first expression names the command, the rest
/// are its arguments.
pub struct CommandNode {
    pub expressions: Vec<Node>,
    pub location: Location,
}

/// One pipeline of commands.
pub struct JobNode {
    pub commands: Vec<CommandNode>,
    pub location: Location,
}

/// An ordered sequence of jobs: one parsed statement list.
pub struct JobListNode {
    pub jobs: Vec<JobNode>,
    pub location: Location,
}

pub open spec fn spec_tracked_seq(s: Seq<TrackedString>, i: int) -> Seq<SpecTracked>
    decreases s.len() - i,
{
    if i < 0 || i >= s.len() {
        Seq::empty()
    } else {
        seq![s[i]@] + spec_tracked_seq(s, i + 1)
    }
}

pub open spec fn spec_node_seq(s: Seq<Node>, i: int) -> Seq<SpecNode>
    decreases s, s.len() - i,
{
    if i < 0 || i >= s.len() {
        Seq::empty()
    } else {
        seq![spec_node(s[i])] + spec_node_seq(s, i + 1)
    }
}

pub open spec fn spec_node(n: Node) -> SpecNode
    decreases n, 0int,
{
    match n {
        Node::Label(ts) => SpecNode::Label(ts@),
        Node::Path(p, ts) => SpecNode::Path(Box::new(spec_node(*p)), ts@),
        Node::GetAttr(p, ts) => SpecNode::GetAttr(Box::new(spec_node(*p)), ts@),
        Node::GetItem(a, b) => SpecNode::GetItem(
            Box::new(spec_node(*a)),
            Box::new(spec_node(*b)),
        ),
        Node::String(ts) => SpecNode::String(ts@),
        Node::Integer(ts) => SpecNode::Integer(ts@),
        Node::Float(ts) => SpecNode::Float(ts@),
        Node::Glob(ts) => SpecNode::Glob(ts@),
        Node::Regex(ts) => SpecNode::Regex(ts@),
        Node::File(ts, q) => SpecNode::File(ts@, q),
        Node::Assignment(a, op, b) => SpecNode::Assignment(
            Box::new(spec_node(*a)),
            op@,
            Box::new(spec_node(*b)),
        ),
        Node::Substitution(j) => SpecNode::Substitution(spec_job(j)),
        Node::Closure(captures, l) => SpecNode::Closure(
            match captures {
                Option::Some(c) => Option::Some(spec_tracked_seq(c@, 0)),
                Option::None => Option::None,
            },
            spec_job_list(l),
        ),
    }
}

pub open spec fn spec_command_seq(s: Seq<CommandNode>, i: int) -> Seq<SpecCommand>
    decreases s, s.len() - i,
{
    if i < 0 || i >= s.len() {
        Seq::empty()
    } else {
        seq![spec_command(s[i])] + spec_command_seq(s, i + 1)
    }
}

pub open spec fn spec_command(c: CommandNode) -> SpecCommand
    decreases c, 0int,
{
    SpecCommand { expressions: spec_node_seq(c.expressions@, 0), location: c.location }
}

pub open spec fn spec_job_seq(s: Seq<JobNode>, i: int) -> Seq<SpecJob>
    decreases s, s.len() - i,
{
    if i < 0 || i >= s.len() {
        Seq::empty()
    } else {
        seq![spec_job(s[i])] + spec_job_seq(s, i + 1)
    }
}

pub open spec fn spec_job(j: JobNode) -> SpecJob
    decreases j, 0int,
{
    SpecJob { commands: spec_command_seq(j.commands@, 0), location: j.location }
}

pub open spec fn spec_job_list(l: JobListNode) -> SpecJobList
    decreases l, 0int,
{
    SpecJobList { jobs: spec_job_seq(l.jobs@, 0), location: l.location }
}

impl View for Node {
    type V = SpecNode;

    open spec fn view(&self) -> SpecNode {
        spec_node(*self)
    }
}

impl View for CommandNode {
    type V = SpecCommand;

    open spec fn view(&self) -> SpecCommand {
        spec_command(*self)
    }
}

impl View for JobNode {
    type V = SpecJob;

    open spec fn view(&self) -> SpecJob {
        spec_job(*self)
    }
}

impl View for JobListNode {
    type V = SpecJobList;

    open spec fn view(&self) -> SpecJobList {
        spec_job_list(*self)
    }
}

/// The sequence spec functions enumerate their input element by element.
pub proof fn lemma_spec_node_seq(s: Seq<Node>, i: int)
    requires
        0 <= i <= s.len(),
    ensures
        spec_node_seq(s, i).len() == s.len() - i,
        forall|j: int| i <= j < s.len() ==> spec_node_seq(s, i)[j - i] == spec_node(s[j]),
    decreases s.len() - i,
{
    if i < s.len() {
        lemma_spec_node_seq(s, i + 1);
    }
}

pub proof fn lemma_spec_command_seq(s: Seq<CommandNode>, i: int)
    requires
        0 <= i <= s.len(),
    ensures
        spec_command_seq(s, i).len() == s.len() - i,
        forall|j: int| i <= j < s.len() ==> spec_command_seq(s, i)[j - i] == spec_command(s[j]),
    decreases s.len() - i,
{
    if i < s.len() {
        lemma_spec_command_seq(s, i + 1);
    }
}

pub proof fn lemma_spec_job_seq(s: Seq<JobNode>, i: int)
    requires
        0 <= i <= s.len(),
    ensures
        spec_job_seq(s, i).len() == s.len() - i,
        forall|j: int| i <= j < s.len() ==> spec_job_seq(s, i)[j - i] == spec_job(s[j]),
    decreases s.len() - i,
{
    if i < s.len() {
        lemma_spec_job_seq(s, i + 1);
    }
}

impl SpecNode {
    /// The span a node covers, derived from the spans of its parts.
    pub open spec fn location(self) -> Location
        decreases self,
    {
        match self {
            SpecNode::Label(ts) => ts.location,
            SpecNode::Path(p, ts) => p.location().spec_union(ts.location),
            SpecNode::GetAttr(p, ts) => p.location().spec_union(ts.location),
            SpecNode::GetItem(a, b) => a.location().spec_union(b.location()),
            SpecNode::String(ts) => ts.location,
            SpecNode::Integer(ts) => ts.location,
            SpecNode::Float(ts) => ts.location,
            SpecNode::Glob(ts) => ts.location,
            SpecNode::Regex(ts) => ts.location,
            SpecNode::File(ts, _) => ts.location,
            SpecNode::Assignment(a, _, b) => a.location().spec_union(b.location()),
            SpecNode::Substitution(j) => j.location,
            SpecNode::Closure(_, l) => l.location,
        }
    }
}

impl Node {
    /// The span this node covers.
    pub fn location(&self) -> (r: Location)
        ensures
            r == self@.location(),
        decreases *self,
    {
        match self {
            Node::Label(ts) => ts.location,
            Node::Path(p, ts) => p.location().union(&ts.location),
            Node::GetAttr(p, ts) => p.location().union(&ts.location),
            Node::GetItem(a, b) => a.location().union(&b.location()),
            Node::String(ts) => ts.location,
            Node::Integer(ts) => ts.location,
            Node::Float(ts) => ts.location,
            Node::Glob(ts) => ts.location,
            Node::Regex(ts) => ts.location,
            Node::File(ts, _) => ts.location,
            Node::Assignment(a, _, b) => a.location().union(&b.location()),
            Node::Substitution(j) => {
                proof {
                    assert(self@->Substitution_0 == spec_job(*j));
                    assert(spec_job(*j).location == j.location);
                }
                j.location
            },
            Node::Closure(_, l) => {
                proof {
                    assert(self@->Closure_1 == spec_job_list(*l));
                    assert(spec_job_list(*l).location == l.location);
                }
                l.location
            },
        }
    }
}

} // verus!
