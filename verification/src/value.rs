//! The slice of the runtime value system that argument binding and
//! completion read: a closed value union, command signatures, the name
//! resolution scope, and unevaluated value definitions.
//!
//! The full value system lives outside this core; values here carry plain
//! data (text, integers, microsecond timestamps) so that every rule about
//! them can be stated and proved.

use vstd::prelude::*;
use crate::ast::{Location, SpecTracked, TrackedString};
use crate::errors::JobError;
use crate::text::str_eq;

verus! {

/// The declared type of a value or of a command argument.
#[derive(Debug, Clone, Copy, PartialEq, Eq, Structural)]
pub enum ValueType {
    Any,
    String,
    Integer,
    Float,
    Glob,
    Regex,
    List,
    Dict,
    Struct,
    Time,
    Command,
    Bool,
    Char,
    File,
}

/// Ghost counterpart of `ArgumentDescription`.
pub struct SpecArgumentDescription {
    pub name: Seq<char>,
    pub value_type: ValueType,
    pub unnamed: bool,
    pub named: bool,
    pub optional: bool,
    pub multiple: bool,
    pub allowed: Seq<SpecValue>,
    pub default: Option<SpecValue>,
}

/// One entry of a command signature: an argument's name, its declared type,
/// and how it may be filled.
pub struct ArgumentDescription {
    pub name: String,
    pub value_type: ValueType,
    /// Accepts the unnamed catch-all slot (a spread of positional values).
    pub unnamed: bool,
    /// Collects named arguments that match no other entry.
    pub named: bool,
    /// May be left out, binding to no value.
    pub optional: bool,
    /// Collects repeated values into a list.
    pub multiple: bool,
    /// When not empty, the only values accepted.
    pub allowed: Vec<Value>,
    /// The value bound when the argument is left out.
    pub default: Option<Value>,
}

/// Ghost counterpart of `CommandSignature`.
pub struct SpecCommandSignature {
    pub arguments: Seq<SpecArgumentDescription>,
}

/// The static signature of a command: its argument descriptions in declared
/// order.
pub struct CommandSignature {
    pub arguments: Vec<ArgumentDescription>,
}

/// Ghost counterpart of `Value`.
pub enum SpecValue {
    String(Seq<char>),
    Integer(int),
    Float(Seq<char>),
    Glob(Seq<char>),
    Regex(Seq<char>),
    Bool(bool),
    Char(char),
    File(Seq<char>),
    Time(int),
    List(Seq<SpecValue>),
    Dict(Seq<(SpecValue, SpecValue)>),
    Struct(Seq<(Seq<char>, SpecValue)>),
    Command(SpecCommandSignature),
}

/// One runtime value, as far as this core reads it. Floats stay as their
/// source text and times as microseconds since the epoch; what else the
/// runtime does with them happens outside this core.
pub enum Value {
    String(String),
    Integer(i128),
    Float(String),
    Glob(String),
    Regex(String),
    Bool(bool),
    Char(char),
    File(String),
    Time(i64),
    List(Vec<Value>),
    Dict(Vec<(Value, Value)>),
    Struct(Vec<(String, Value)>),
    Command(CommandSignature),
}

pub open spec fn spec_value_seq(s: Seq<Value>, i: int) -> Seq<SpecValue>
    decreases s, s.len() - i,
{
    if i < 0 || i >= s.len() {
        Seq::empty()
    } else {
        seq![spec_value(s[i])] + spec_value_seq(s, i + 1)
    }
}

pub open spec fn spec_entry_seq(s: Seq<(Value, Value)>, i: int) -> Seq<(SpecValue, SpecValue)>
    decreases s, s.len() - i,
{
    if i < 0 || i >= s.len() {
        Seq::empty()
    } else {
        seq![(spec_value(s[i].0), spec_value(s[i].1))] + spec_entry_seq(s, i + 1)
    }
}

pub open spec fn spec_field_seq(s: Seq<(String, Value)>, i: int) -> Seq<(Seq<char>, SpecValue)>
    decreases s, s.len() - i,
{
    if i < 0 || i >= s.len() {
        Seq::empty()
    } else {
        seq![(s[i].0@, spec_value(s[i].1))] + spec_field_seq(s, i + 1)
    }
}

pub open spec fn spec_description_seq(s: Seq<ArgumentDescription>, i: int) -> Seq<
    SpecArgumentDescription,
>
    decreases s, s.len() - i,
{
    if i < 0 || i >= s.len() {
        Seq::empty()
    } else {
        seq![spec_description(s[i])] + spec_description_seq(s, i + 1)
    }
}

pub open spec fn spec_description(d: ArgumentDescription) -> SpecArgumentDescription
    decreases d, 0int,
{
    SpecArgumentDescription {
        name: d.name@,
        value_type: d.value_type,
        unnamed: d.unnamed,
        named: d.named,
        optional: d.optional,
        multiple: d.multiple,
        allowed: spec_value_seq(d.allowed@, 0),
        default: match d.default {
            Option::Some(v) => Option::Some(spec_value(v)),
            Option::None => Option::None,
        },
    }
}

pub open spec fn spec_signature(c: CommandSignature) -> SpecCommandSignature
    decreases c, 0int,
{
    SpecCommandSignature { arguments: spec_description_seq(c.arguments@, 0) }
}

pub open spec fn spec_value(v: Value) -> SpecValue
    decreases v, 0int,
{
    match v {
        Value::String(s) => SpecValue::String(s@),
        Value::Integer(n) => SpecValue::Integer(n as int),
        Value::Float(s) => SpecValue::Float(s@),
        Value::Glob(s) => SpecValue::Glob(s@),
        Value::Regex(s) => SpecValue::Regex(s@),
        Value::Bool(b) => SpecValue::Bool(b),
        Value::Char(c) => SpecValue::Char(c),
        Value::File(s) => SpecValue::File(s@),
        Value::Time(t) => SpecValue::Time(t as int),
        Value::List(l) => SpecValue::List(spec_value_seq(l@, 0)),
        Value::Dict(d) => SpecValue::Dict(spec_entry_seq(d@, 0)),
        Value::Struct(f) => SpecValue::Struct(spec_field_seq(f@, 0)),
        Value::Command(c) => SpecValue::Command(spec_signature(c)),
    }
}

impl View for Value {
    type V = SpecValue;

    open spec fn view(&self) -> SpecValue {
        spec_value(*self)
    }
}

impl View for ArgumentDescription {
    type V = SpecArgumentDescription;

    open spec fn view(&self) -> SpecArgumentDescription {
        spec_description(*self)
    }
}

impl View for CommandSignature {
    type V = SpecCommandSignature;

    open spec fn view(&self) -> SpecCommandSignature {
        spec_signature(*self)
    }
}

pub proof fn lemma_spec_value_seq(s: Seq<Value>, i: int)
    requires
        0 <= i <= s.len(),
    ensures
        spec_value_seq(s, i).len() == s.len() - i,
        forall|j: int|
            0 <= j < s.len() - i ==> #[trigger] spec_value_seq(s, i)[j] == spec_value(s[i + j]),
    decreases s.len() - i,
{
    if i < s.len() {
        lemma_spec_value_seq(s, i + 1);
        assert forall|j: int| 0 <= j < s.len() - i implies #[trigger] spec_value_seq(s, i)[j]
            == spec_value(s[i + j]) by {
            if j > 0 {
                assert(spec_value_seq(s, i)[j] == spec_value_seq(s, i + 1)[j - 1]);
            }
        }
    }
}

/// Element-wise equal inputs give equal model sequences.
pub proof fn lemma_value_seq_congruent(a: Seq<Value>, b: Seq<Value>, i: int)
    requires
        a.len() == b.len(),
        forall|j: int| 0 <= j < a.len() ==> spec_value(#[trigger] a[j]) == spec_value(b[j]),
    ensures
        spec_value_seq(a, i) == spec_value_seq(b, i),
    decreases a.len() - i,
{
    if 0 <= i < a.len() {
        lemma_value_seq_congruent(a, b, i + 1);
    }
}

pub proof fn lemma_spec_entry_seq(s: Seq<(Value, Value)>, i: int)
    requires
        0 <= i <= s.len(),
    ensures
        spec_entry_seq(s, i).len() == s.len() - i,
        forall|j: int|
            0 <= j < s.len() - i ==> #[trigger] spec_entry_seq(s, i)[j] == (
            spec_value(s[i + j].0),
            spec_value(s[i + j].1),
            ),
    decreases s.len() - i,
{
    if i < s.len() {
        lemma_spec_entry_seq(s, i + 1);
        assert forall|j: int| 0 <= j < s.len() - i implies #[trigger] spec_entry_seq(s, i)[j] == (
            spec_value(s[i + j].0),
            spec_value(s[i + j].1),
        ) by {
            if j > 0 {
                assert(spec_entry_seq(s, i)[j] == spec_entry_seq(s, i + 1)[j - 1]);
            }
        }
    }
}

/// Element-wise equal inputs give equal model sequences.
pub proof fn lemma_entry_seq_congruent(a: Seq<(Value, Value)>, b: Seq<(Value, Value)>, i: int)
    requires
        a.len() == b.len(),
        forall|j: int|
            0 <= j < a.len() ==> spec_value(#[trigger] a[j].0) == spec_value(b[j].0) && spec_value(
                a[j].1,
            ) == spec_value(b[j].1),
    ensures
        spec_entry_seq(a, i) == spec_entry_seq(b, i),
    decreases a.len() - i,
{
    if 0 <= i < a.len() {
        lemma_entry_seq_congruent(a, b, i + 1);
    }
}

pub proof fn lemma_spec_field_seq(s: Seq<(String, Value)>, i: int)
    requires
        0 <= i <= s.len(),
    ensures
        spec_field_seq(s, i).len() == s.len() - i,
        forall|j: int|
            0 <= j < s.len() - i ==> #[trigger] spec_field_seq(s, i)[j] == (
            s[i + j].0@,
            spec_value(s[i + j].1),
            ),
    decreases s.len() - i,
{
    if i < s.len() {
        lemma_spec_field_seq(s, i + 1);
        assert forall|j: int| 0 <= j < s.len() - i implies #[trigger] spec_field_seq(s, i)[j] == (
            s[i + j].0@,
            spec_value(s[i + j].1),
        ) by {
            if j > 0 {
                assert(spec_field_seq(s, i)[j] == spec_field_seq(s, i + 1)[j - 1]);
            }
        }
    }
}

/// Element-wise equal inputs give equal model sequences.
pub proof fn lemma_field_seq_congruent(a: Seq<(String, Value)>, b: Seq<(String, Value)>, i: int)
    requires
        a.len() == b.len(),
        forall|j: int|
            0 <= j < a.len() ==> (#[trigger] a[j].0)@ == b[j].0@ && spec_value(a[j].1)
                == spec_value(b[j].1),
    ensures
        spec_field_seq(a, i) == spec_field_seq(b, i),
    decreases a.len() - i,
{
    if 0 <= i < a.len() {
        lemma_field_seq_congruent(a, b, i + 1);
    }
}

pub proof fn lemma_spec_description_seq(s: Seq<ArgumentDescription>, i: int)
    requires
        0 <= i <= s.len(),
    ensures
        spec_description_seq(s, i).len() == s.len() - i,
        forall|j: int|
            0 <= j < s.len() - i ==> #[trigger] spec_description_seq(s, i)[j] == spec_description(
                s[i + j],
            ),
    decreases s.len() - i,
{
    if i < s.len() {
        lemma_spec_description_seq(s, i + 1);
        assert forall|j: int| 0 <= j < s.len() - i implies #[trigger] spec_description_seq(s, i)[j]
            == spec_description(s[i + j]) by {
            if j > 0 {
                assert(spec_description_seq(s, i)[j] == spec_description_seq(s, i + 1)[j - 1]);
            }
        }
    }
}

/// Element-wise equal inputs give equal model sequences.
pub proof fn lemma_description_seq_congruent(
    a: Seq<ArgumentDescription>,
    b: Seq<ArgumentDescription>,
    i: int,
)
    requires
        a.len() == b.len(),
        forall|j: int|
            0 <= j < a.len() ==> spec_description(#[trigger] a[j]) == spec_description(b[j]),
    ensures
        spec_description_seq(a, i) == spec_description_seq(b, i),
    decreases a.len() - i,
{
    if 0 <= i < a.len() {
        lemma_description_seq_congruent(a, b, i + 1);
    }
}

impl SpecValue {
    pub open spec fn value_type(self) -> ValueType {
        match self {
            SpecValue::String(_) => ValueType::String,
            SpecValue::Integer(_) => ValueType::Integer,
            SpecValue::Float(_) => ValueType::Float,
            SpecValue::Glob(_) => ValueType::Glob,
            SpecValue::Regex(_) => ValueType::Regex,
            SpecValue::Bool(_) => ValueType::Bool,
            SpecValue::Char(_) => ValueType::Char,
            SpecValue::File(_) => ValueType::File,
            SpecValue::Time(_) => ValueType::Time,
            SpecValue::List(_) => ValueType::List,
            SpecValue::Dict(_) => ValueType::Dict,
            SpecValue::Struct(_) => ValueType::Struct,
            SpecValue::Command(_) => ValueType::Command,
        }
    }

    /// Field lookup on a struct value: the first field with the given name.
    pub open spec fn field_lookup(self, name: Seq<char>) -> Option<SpecValue> {
        match self {
            SpecValue::Struct(fields) => spec_first_field(fields, name, 0),
            _ => None,
        }
    }
}

pub open spec fn spec_first_field(
    fields: Seq<(Seq<char>, SpecValue)>,
    name: Seq<char>,
    i: int,
) -> Option<SpecValue>
    decreases fields.len() - i,
{
    if i < 0 || i >= fields.len() {
        None
    } else if fields[i].0 == name {
        Some(fields[i].1)
    } else {
        spec_first_field(fields, name, i + 1)
    }
}

impl Value {
    /// A string value from borrowed text.
    pub fn string(s: &str) -> (r: Value)
        ensures
            r@ == SpecValue::String(s@),
    {
        Value::String(s.to_owned())
    }

    /// The declared type this value belongs to.
    pub fn value_type(&self) -> (r: ValueType)
        ensures
            r == self@.value_type(),
    {
        match self {
            Value::String(_) => ValueType::String,
            Value::Integer(_) => ValueType::Integer,
            Value::Float(_) => ValueType::Float,
            Value::Glob(_) => ValueType::Glob,
            Value::Regex(_) => ValueType::Regex,
            Value::Bool(_) => ValueType::Bool,
            Value::Char(_) => ValueType::Char,
            Value::File(_) => ValueType::File,
            Value::Time(_) => ValueType::Time,
            Value::List(_) => ValueType::List,
            Value::Dict(_) => ValueType::Dict,
            Value::Struct(_) => ValueType::Struct,
            Value::Command(_) => ValueType::Command,
        }
    }

    /// A structurally equal copy.
    pub fn duplicate(&self) -> (r: Value)
        ensures
            r@ == self@,
        decreases *self,
    {
        match self {
            Value::String(s) => Value::String(s.clone()),
            Value::Integer(n) => Value::Integer(*n),
            Value::Float(s) => Value::Float(s.clone()),
            Value::Glob(s) => Value::Glob(s.clone()),
            Value::Regex(s) => Value::Regex(s.clone()),
            Value::Bool(b) => Value::Bool(*b),
            Value::Char(c) => Value::Char(*c),
            Value::File(s) => Value::File(s.clone()),
            Value::Time(t) => Value::Time(*t),
            Value::List(l) => {
                let mut out: Vec<Value> = Vec::new();
                let mut i: usize = 0;
                while i < l.len()
                    invariant
                        i <= l.len(),
                        out@.len() == i as int,
                        decreases_to!(*self => *l),
                        forall|j: int| 0 <= j < i ==> spec_value(out@[j]) == spec_value(l@[j]),
                    decreases l.len() - i,
                {
                    let d = (&l[i]).duplicate();
                    out.push(d);
                    i = i + 1;
                }
                proof {
                    lemma_value_seq_congruent(out@, l@, 0);
                }
                Value::List(out)
            },
            Value::Dict(d) => {
                let mut out: Vec<(Value, Value)> = Vec::new();
                let mut i: usize = 0;
                while i < d.len()
                    invariant
                        i <= d.len(),
                        out@.len() == i as int,
                        decreases_to!(*self => *d),
                        forall|j: int|
                            0 <= j < i ==> spec_value(#[trigger] out@[j].0) == spec_value(d@[j].0)
                                && spec_value(out@[j].1) == spec_value(d@[j].1),
                    decreases d.len() - i,
                {
                    let k = (&d[i].0).duplicate();
                    let v = (&d[i].1).duplicate();
                    out.push((k, v));
                    i = i + 1;
                }
                proof {
                    lemma_entry_seq_congruent(out@, d@, 0);
                }
                Value::Dict(out)
            },
            Value::Struct(f) => {
                let mut out: Vec<(String, Value)> = Vec::new();
                let mut i: usize = 0;
                while i < f.len()
                    invariant
                        i <= f.len(),
                        out@.len() == i as int,
                        decreases_to!(*self => *f),
                        forall|j: int|
                            0 <= j < i ==> (#[trigger] out@[j].0)@ == f@[j].0@ && spec_value(
                                out@[j].1,
                            ) == spec_value(f@[j].1),
                    decreases f.len() - i,
                {
                    let k = f[i].0.clone();
                    let v = (&f[i].1).duplicate();
                    out.push((k, v));
                    i = i + 1;
                }
                proof {
                    lemma_field_seq_congruent(out@, f@, 0);
                }
                Value::Struct(out)
            },
            Value::Command(c) => Value::Command(c.duplicate()),
        }
    }

    /// Field access on a struct value; `None` on anything else.
    pub fn field(&self, name: &str) -> (r: Option<Value>)
        ensures
            (match self@.field_lookup(name@) {
                Some(m) => r matches Some(v) && v@ == m,
                None => r is None,
            }),
    {
        match self {
            Value::Struct(fields) => {
                proof {
                    lemma_spec_field_seq(fields@, 0);
                }
                let mut i: usize = 0;
                while i < fields.len()
                    invariant
                        i <= fields.len(),
                        self@.field_lookup(name@) == spec_first_field(
                            spec_field_seq(fields@, 0),
                            name@,
                            i as int,
                        ),
                        spec_field_seq(fields@, 0).len() == fields@.len(),
                        forall|j: int|
                            0 <= j < fields@.len() ==> spec_field_seq(fields@, 0)[j] == (
                            fields@[j].0@,
                            spec_value(fields@[j].1),
                            ),
                    decreases fields.len() - i,
                {
                    if str_eq(fields[i].0.as_str(), name) {
                        return Some((&fields[i].1).duplicate());
                    }
                    i = i + 1;
                }
                None
            },
            _ => None,
        }
    }
}

impl ArgumentDescription {
    /// A structurally equal copy.
    pub fn duplicate(&self) -> (r: ArgumentDescription)
        ensures
            r@ == self@,
        decreases *self,
    {
        let own = &self.allowed;
        let mut allowed: Vec<Value> = Vec::new();
        let mut i: usize = 0;
        while i < own.len()
            invariant
                i <= own.len(),
                own == &self.allowed,
                allowed@.len() == i as int,
                decreases_to!(*self => *own),
                forall|j: int|
                    0 <= j < i ==> spec_value(allowed@[j]) == spec_value(own@[j]),
            decreases own.len() - i,
        {
            let d = (&own[i]).duplicate();
            allowed.push(d);
            i = i + 1;
        }
        proof {
            lemma_value_seq_congruent(allowed@, self.allowed@, 0);
        }
        let default = match &self.default {
            Some(v) => {
                proof {
                    assert(decreases_to!(*self => self.default));
                }
                Some(v.duplicate())
            },
            None => None,
        };
        ArgumentDescription {
            name: self.name.clone(),
            value_type: self.value_type,
            unnamed: self.unnamed,
            named: self.named,
            optional: self.optional,
            multiple: self.multiple,
            allowed,
            default,
        }
    }
}

impl CommandSignature {
    /// A structurally equal copy.
    pub fn duplicate(&self) -> (r: CommandSignature)
        ensures
            r@ == self@,
        decreases *self,
    {
        let own = &self.arguments;
        let mut arguments: Vec<ArgumentDescription> = Vec::new();
        let mut i: usize = 0;
        while i < own.len()
            invariant
                i <= own.len(),
                own == &self.arguments,
                arguments@.len() == i as int,
                decreases_to!(*self => *own),
                forall|j: int|
                    0 <= j < i ==> spec_description(arguments@[j]) == spec_description(
                        own@[j],
                    ),
            decreases own.len() - i,
        {
            let d = (&own[i]).duplicate();
            arguments.push(d);
            i = i + 1;
        }
        proof {
            lemma_description_seq_congruent(arguments@, self.arguments@, 0);
        }
        CommandSignature { arguments }
    }
}

/// Name lookup over an ordered binding list: the latest binding for a name
/// wins.
pub open spec fn spec_lookup(env: Seq<(Seq<char>, SpecValue)>, name: Seq<char>) -> Option<
    SpecValue,
>
    decreases env.len(),
{
    if env.len() == 0 {
        None
    } else if env.last().0 == name {
        Some(env.last().1)
    } else {
        spec_lookup(env.drop_last(), name)
    }
}

/// The name-resolution collaborator as this core reads it: an ordered list
/// of bindings from names to values.
pub struct Scope {
    pub bindings: Vec<(String, Value)>,
}

impl View for Scope {
    type V = Seq<(Seq<char>, SpecValue)>;

    open spec fn view(&self) -> Seq<(Seq<char>, SpecValue)> {
        spec_field_seq(self.bindings@, 0)
    }
}

impl Scope {
    pub fn new() -> (r: Scope)
        ensures
            r@ =~= Seq::<(Seq<char>, SpecValue)>::empty(),
    {
        Scope { bindings: Vec::new() }
    }

    /// Adds a binding, shadowing any earlier one for the same name.
    pub fn declare(&mut self, name: &str, value: Value)
        ensures
            final(self)@ =~= old(self)@.push((name@, value@)),
    {
        proof {
            lemma_spec_field_seq(old(self).bindings@, 0);
        }
        self.bindings.push((name.to_owned(), value));
        proof {
            lemma_spec_field_seq(self.bindings@, 0);
            assert forall|j: int| 0 <= j < self@.len() implies self@[j] == old(self)@.push(
                (name@, spec_value(value)),
            )[j] by {
                assert(self@[j] == (self.bindings@[j].0@, spec_value(self.bindings@[j].1)));
                if j < old(self).bindings@.len() {
                    assert(old(self)@[j] == (
                        old(self).bindings@[j].0@,
                        spec_value(old(self).bindings@[j].1),
                    ));
                }
            }
            assert(self@ =~= old(self)@.push((name@, spec_value(value))));
        }
    }

    /// Looks a name up, latest binding first.
    pub fn get(&self, name: &str) -> (r: Option<Value>)
        ensures
            (match spec_lookup(self@, name@) {
                Some(m) => r matches Some(v) && v@ == m,
                None => r is None,
            }),
    {
        proof {
            lemma_spec_field_seq(self.bindings@, 0);
            assert(self@.take(self.bindings@.len() as int) =~= self@);
        }
        let mut i: usize = self.bindings.len();
        while i > 0
            invariant
                i <= self.bindings.len(),
                self@.len() == self.bindings@.len(),
                forall|j: int|
                    0 <= j < self.bindings@.len() ==> self@[j] == (
                    self.bindings@[j].0@,
                    spec_value(self.bindings@[j].1),
                    ),
                spec_lookup(self@, name@) == spec_lookup(self@.take(i as int), name@),
            decreases i,
        {
            i = i - 1;
            proof {
                assert(self@.take(i + 1).drop_last() =~= self@.take(i as int));
                assert(self@.take(i + 1).last() == self@[i as int]);
            }
            if str_eq(self.bindings[i].0.as_str(), name) {
                return Some((&self.bindings[i].1).duplicate());
            }
        }
        proof {
            assert(self@.take(0) =~= Seq::<(Seq<char>, SpecValue)>::empty());
        }
        None
    }
}

/// Ghost counterpart of `ValueDefinition`.
pub enum SpecValueDefinition {
    Literal(SpecValue, Location),
    Lookup(SpecTracked),
}

/// An unevaluated argument value: either a value known at compile time or a
/// name to resolve against the execution context when the argument list is
/// compiled. Richer expressions are evaluated into one of these two shapes
/// by the execution engine before binding.
pub enum ValueDefinition {
    Literal(Value, Location),
    Lookup(TrackedString),
}

impl View for ValueDefinition {
    type V = SpecValueDefinition;

    open spec fn view(&self) -> SpecValueDefinition {
        match *self {
            ValueDefinition::Literal(v, loc) => SpecValueDefinition::Literal(spec_value(v), loc),
            ValueDefinition::Lookup(ts) => SpecValueDefinition::Lookup(ts@),
        }
    }
}

impl SpecValueDefinition {
    pub open spec fn location(self) -> Location {
        match self {
            SpecValueDefinition::Literal(_, loc) => loc,
            SpecValueDefinition::Lookup(ts) => ts.location,
        }
    }

    /// What evaluating this definition against the given environment
    /// yields; `None` when the name is not bound.
    pub open spec fn eval(self, env: Seq<(Seq<char>, SpecValue)>) -> Option<SpecValue> {
        match self {
            SpecValueDefinition::Literal(v, _) => Some(v),
            SpecValueDefinition::Lookup(ts) => spec_lookup(env, ts.text),
        }
    }
}

/// The execution context an argument list is compiled against.
pub struct CompileContext {
    pub env: Scope,
}

impl ValueDefinition {
    /// The span the definition was read from.
    pub fn location(&self) -> (r: Location)
        ensures
            r == self@.location(),
    {
        match self {
            ValueDefinition::Literal(_, loc) => *loc,
            ValueDefinition::Lookup(ts) => ts.location,
        }
    }

    /// Evaluates the definition against the context.
    pub fn compile_bound(&self, context: &CompileContext) -> (r: Result<Value, JobError>)
        ensures
            (match self@.eval(context.env@) {
                Some(m) => r matches Ok(v) && v@ == m,
                None => r matches Err(e) && e.message@ == "Unknown value"@,
            }),
    {
        match self {
            ValueDefinition::Literal(v, _) => Ok(v.duplicate()),
            ValueDefinition::Lookup(ts) => match context.env.get(ts.string.as_str()) {
                Some(v) => Ok(v),
                None => Err(crate::errors::error("Unknown value")),
            },
        }
    }
}

} // verus!
