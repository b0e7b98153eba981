//! Syntactic argument definitions, the runtime arguments they compile into,
//! and the derivation of unique column names from argument vectors.

use vstd::prelude::*;
use crate::ast::{Location, SpecTracked, TrackedString};
use crate::errors::{argument_error, error, JobError};
use crate::text::{spec_dec_seq, str_eq};
use crate::value::{
    CompileContext, SpecValue, SpecValueDefinition, Value, ValueDefinition, spec_value,
};

verus! {

/// Ghost counterpart of `ArgumentType`.
pub enum SpecArgumentType {
    Named(SpecTracked),
    Unnamed,
    ArgumentList,
    ArgumentDict,
}

/// How one syntactic argument definition binds: under a name, positionally,
/// or by spreading a list or dict value.
pub enum ArgumentType {
    Named(TrackedString),
    Unnamed,
    ArgumentList,
    ArgumentDict,
}

impl View for ArgumentType {
    type V = SpecArgumentType;

    open spec fn view(&self) -> SpecArgumentType {
        match self {
            ArgumentType::Named(ts) => SpecArgumentType::Named(ts@),
            ArgumentType::Unnamed => SpecArgumentType::Unnamed,
            ArgumentType::ArgumentList => SpecArgumentType::ArgumentList,
            ArgumentType::ArgumentDict => SpecArgumentType::ArgumentDict,
        }
    }
}

impl SpecArgumentType {
    pub open spec fn is_some(self) -> bool {
        self is Named
    }

    /// Whether this is a receiver binding: a definition named exactly `this`.
    pub open spec fn is_this(self) -> bool {
        match self {
            SpecArgumentType::Named(ts) => ts.text == "this"@,
            _ => false,
        }
    }
}

impl ArgumentType {
    /// Whether the definition carries a name.
    pub fn is_some(&self) -> (r: bool)
        ensures
            r == self@.is_some(),
    {
        matches!(self, ArgumentType::Named(_))
    }

    /// Whether the definition names the bound receiver.
    pub fn is_this(&self) -> (r: bool)
        ensures
            r == self@.is_this(),
    {
        if let ArgumentType::Named(v) = self {
            str_eq(v.string.as_str(), "this")
        } else {
            false
        }
    }
}

/// An argument at some stage of binding: `A` tells how it binds, `C` is the
/// value it carries, and the span records where it was written.
pub struct BaseArgument<A, C> {
    pub argument_type: A,
    pub value: C,
    pub location: Location,
}

impl<A, C> BaseArgument<A, C> {
    /// An argument-binding failure reported at this argument.
    pub fn error<T>(&self, message: &str) -> (r: Result<T, JobError>)
        ensures
            r matches Err(e) && e.message@ == message@,
    {
        Err(argument_error(message))
    }
}

/// A syntactic argument definition: how it binds plus the definition of its
/// value.
pub type ArgumentDefinition = BaseArgument<ArgumentType, ValueDefinition>;

/// Ghost counterpart of `ArgumentDefinition`.
pub struct SpecArgumentDefinition {
    pub argument_type: SpecArgumentType,
    pub value: SpecValueDefinition,
    pub location: Location,
}

impl View for ArgumentDefinition {
    type V = SpecArgumentDefinition;

    open spec fn view(&self) -> SpecArgumentDefinition {
        SpecArgumentDefinition {
            argument_type: self.argument_type@,
            value: self.value@,
            location: self.location,
        }
    }
}

/// A bound runtime argument: an optional name and a resolved value.
pub type Argument = BaseArgument<Option<String>, Value>;

/// Ghost counterpart of `Argument`.
pub struct SpecArgument {
    pub name: Option<Seq<char>>,
    pub value: SpecValue,
    pub location: Location,
}

impl View for Argument {
    type V = SpecArgument;

    open spec fn view(&self) -> SpecArgument {
        SpecArgument {
            name: match self.argument_type {
                Option::Some(n) => Option::Some(n@),
                Option::None => Option::None,
            },
            value: spec_value(self.value),
            location: self.location,
        }
    }
}

pub open spec fn spec_argument_seq(s: Seq<Argument>, i: int) -> Seq<SpecArgument>
    decreases s.len() - i,
{
    if i < 0 || i >= s.len() {
        Seq::empty()
    } else {
        seq![s[i]@] + spec_argument_seq(s, i + 1)
    }
}

pub proof fn lemma_spec_argument_seq(s: Seq<Argument>, i: int)
    requires
        0 <= i <= s.len(),
    ensures
        spec_argument_seq(s, i).len() == s.len() - i,
        forall|j: int|
            0 <= j < s.len() - i ==> #[trigger] spec_argument_seq(s, i)[j] == s[i + j]@,
    decreases s.len() - i,
{
    if i < s.len() {
        lemma_spec_argument_seq(s, i + 1);
        assert forall|j: int| 0 <= j < s.len() - i implies #[trigger] spec_argument_seq(s, i)[j]
            == s[i + j]@ by {
            if j > 0 {
                assert(spec_argument_seq(s, i)[j] == spec_argument_seq(s, i + 1)[j - 1]);
            }
        }
    }
}

pub open spec fn spec_definition_seq(s: Seq<ArgumentDefinition>, i: int) -> Seq<
    SpecArgumentDefinition,
>
    decreases s.len() - i,
{
    if i < 0 || i >= s.len() {
        Seq::empty()
    } else {
        seq![s[i]@] + spec_definition_seq(s, i + 1)
    }
}

pub proof fn lemma_spec_definition_seq(s: Seq<ArgumentDefinition>, i: int)
    requires
        0 <= i <= s.len(),
    ensures
        spec_definition_seq(s, i).len() == s.len() - i,
        forall|j: int|
            0 <= j < s.len() - i ==> #[trigger] spec_definition_seq(s, i)[j] == s[i + j]@,
    decreases s.len() - i,
{
    if i < s.len() {
        lemma_spec_definition_seq(s, i + 1);
        assert forall|j: int| 0 <= j < s.len() - i implies #[trigger] spec_definition_seq(s, i)[j]
            == s[i + j]@ by {
            if j > 0 {
                assert(spec_definition_seq(s, i)[j] == spec_definition_seq(s, i + 1)[j - 1]);
            }
        }
    }
}

impl ArgumentDefinition {
    /// A definition bound under a name.
    pub fn named(name: &TrackedString, value: ValueDefinition) -> (r: ArgumentDefinition)
        ensures
            r@.argument_type == SpecArgumentType::Named(name@),
            r@.value == value@,
            r@.location == name.location.spec_union(value@.location()),
    {
        let location = name.location.union(&value.location());
        ArgumentDefinition {
            argument_type: ArgumentType::Named(
                TrackedString { string: name.string.clone(), location: name.location },
            ),
            location,
            value,
        }
    }

    /// A positional definition.
    pub fn unnamed(value: ValueDefinition) -> (r: ArgumentDefinition)
        ensures
            r@.argument_type == SpecArgumentType::Unnamed,
            r@.value == value@,
            r@.location == value@.location(),
    {
        let location = value.location();
        ArgumentDefinition { argument_type: ArgumentType::Unnamed, location, value }
    }

    /// A list-spread definition.
    pub fn list(value: ValueDefinition) -> (r: ArgumentDefinition)
        ensures
            r@.argument_type == SpecArgumentType::ArgumentList,
            r@.value == value@,
            r@.location == value@.location(),
    {
        let location = value.location();
        BaseArgument { argument_type: ArgumentType::ArgumentList, location, value }
    }

    /// A dict-spread definition.
    pub fn dict(value: ValueDefinition) -> (r: ArgumentDefinition)
        ensures
            r@.argument_type == SpecArgumentType::ArgumentDict,
            r@.value == value@,
            r@.location == value@.location(),
    {
        let location = value.location();
        BaseArgument { argument_type: ArgumentType::ArgumentDict, location, value }
    }

    /// The value definition, provided this argument is positional.
    pub fn unnamed_value(&self) -> (r: Result<ValueDefinition, JobError>)
        ensures
            (if self@.argument_type.is_some() {
                r matches Err(e) && e.message@ == "Expected an unnamed argument"@
            } else {
                r matches Ok(v) && v@ == self@.value
            }),
    {
        if self.argument_type.is_some() {
            Err(error("Expected an unnamed argument"))
        } else {
            match &self.value {
                ValueDefinition::Literal(v, loc) => Ok(
                    ValueDefinition::Literal(v.duplicate(), *loc),
                ),
                ValueDefinition::Lookup(ts) => Ok(
                    ValueDefinition::Lookup(
                        TrackedString { string: ts.string.clone(), location: ts.location },
                    ),
                ),
            }
        }
    }
}

impl Argument {
    /// An argument with an optional name.
    pub fn new(name: Option<String>, value: Value, location: Location) -> (r: Argument)
        ensures
            r@ == (SpecArgument {
                name: match name {
                    Option::Some(n) => Option::Some(n@),
                    Option::None => Option::None::<Seq<char>>,
                },
                value: value@,
                location,
            }),
    {
        Argument { argument_type: name, value, location }
    }

    /// A positional argument.
    pub fn unnamed(value: Value, location: Location) -> (r: Argument)
        ensures
            r@ == (SpecArgument { name: Option::None::<Seq<char>>, value: value@, location }),
    {
        Argument { argument_type: None, value, location }
    }

    /// A named argument.
    pub fn named(name: &str, value: Value, location: Location) -> (r: Argument)
        ensures
            r@ == (SpecArgument { name: Option::Some(name@), value: value@, location }),
    {
        BaseArgument { argument_type: Some(name.to_owned()), value, location }
    }
}

/// What compiling one definition contributes: the arguments it emits and,
/// for a receiver binding, the value it binds. A failure carries the error
/// message.
pub open spec fn spec_expand(d: SpecArgumentDefinition, env: Seq<(Seq<char>, SpecValue)>) -> Result<
    (Seq<SpecArgument>, Option<SpecValue>),
    Seq<char>,
> {
    match d.value.eval(env) {
        Option::None => Err("Unknown value"@),
        Option::Some(v) => match d.argument_type {
            SpecArgumentType::Named(ts) => if ts.text == "this"@ {
                Ok((Seq::empty(), Some(v)))
            } else {
                Ok(
                    (
                        seq![SpecArgument { name: Some(ts.text), value: v, location: d.location }],
                        None,
                    ),
                )
            },
            SpecArgumentType::Unnamed => Ok(
                (seq![SpecArgument { name: None, value: v, location: d.location }], None),
            ),
            SpecArgumentType::ArgumentList => match v {
                SpecValue::List(items) => Ok(
                    (
                        Seq::new(
                            items.len(),
                            |j: int|
                                SpecArgument { name: None, value: items[j], location: d.location },
                        ),
                        None,
                    ),
                ),
                _ => Err("Argument list must be of type list"@),
            },
            SpecArgumentType::ArgumentDict => match v {
                SpecValue::Dict(entries) => if forall|j: int|
                    0 <= j < entries.len() ==> (#[trigger] entries[j].0) is String {
                    Ok(
                        (
                            Seq::new(
                                entries.len(),
                                |j: int|
                                    SpecArgument {
                                        name: Some(entries[j].0->String_0),
                                        value: entries[j].1,
                                        location: d.location,
                                    },
                            ),
                            None,
                        ),
                    )
                } else {
                    Err("Argument dict must have string keys"@)
                },
                _ => Err("Argument list must be of type list"@),
            },
        },
    }
}

/// Compiling a definition list: definitions are expanded left to right, the
/// first failure wins, every non-receiver contribution is kept in order, and
/// the receiver is the latest receiver binding.
pub open spec fn spec_compile(
    defs: Seq<SpecArgumentDefinition>,
    env: Seq<(Seq<char>, SpecValue)>,
) -> Result<(Seq<SpecArgument>, Option<SpecValue>), Seq<char>>
    decreases defs.len(),
{
    if defs.len() == 0 {
        Ok((Seq::empty(), None))
    } else {
        match spec_expand(defs[0], env) {
            Err(m) => Err(m),
            Ok((args0, this0)) => match spec_compile(defs.drop_first(), env) {
                Err(m) => Err(m),
                Ok((rest, this_rest)) => Ok(
                    (
                        args0 + rest,
                        if this_rest is Some {
                            this_rest
                        } else {
                            this0
                        },
                    ),
                ),
            },
        }
    }
}

pub open spec fn spec_opt_value(o: Option<Value>) -> Option<SpecValue> {
    match o {
        Option::Some(v) => Option::Some(spec_value(v)),
        Option::None => Option::None,
    }
}

/// How an already-compiled prefix combines with the compilation of the
/// remaining definitions.
pub open spec fn spec_combine(
    acc: Seq<SpecArgument>,
    acc_this: Option<SpecValue>,
    rest: Result<(Seq<SpecArgument>, Option<SpecValue>), Seq<char>>,
) -> Result<(Seq<SpecArgument>, Option<SpecValue>), Seq<char>> {
    match rest {
        Err(m) => Err(m),
        Ok((args, this)) => Ok(
            (
                acc + args,
                if this is Some {
                    this
                } else {
                    acc_this
                },
            ),
        ),
    }
}

/// Compiles syntactic argument definitions into a runtime argument vector
/// plus the optional bound receiver.
pub trait ArgumentVecCompiler {
    /// The outcome compiling is held to.
    spec fn spec_compiled(&self, env: Seq<(Seq<char>, SpecValue)>) -> Result<
        (Seq<SpecArgument>, Option<SpecValue>),
        Seq<char>,
    >;

    /// Evaluates each definition against the context, in order, expanding
    /// spreads and extracting the receiver; the first failure aborts.
    fn compile(&self, context: &CompileContext) -> (r: Result<
        (Vec<Argument>, Option<Value>),
        JobError,
    >)
        ensures
            (match self.spec_compiled(context.env@) {
                Ok((args, this)) => r matches Ok(p) && spec_argument_seq(p.0@, 0) == args
                    && spec_opt_value(p.1) == this,
                Err(m) => r matches Err(e) && e.message@ == m,
            }),
    ;
}

impl ArgumentVecCompiler for Vec<ArgumentDefinition> {
    open spec fn spec_compiled(&self, env: Seq<(Seq<char>, SpecValue)>) -> Result<
        (Seq<SpecArgument>, Option<SpecValue>),
        Seq<char>,
    > {
        spec_compile(spec_definition_seq(self@, 0), env)
    }

    fn compile(&self, context: &CompileContext) -> (r: Result<
        (Vec<Argument>, Option<Value>),
        JobError,
    >) {
        let ghost defs = spec_definition_seq(self@, 0);
        let ghost env = context.env@;
        let mut res: Vec<Argument> = Vec::new();
        let mut this: Option<Value> = None;
        let mut i: usize = 0;
        proof {
            lemma_spec_definition_seq(self@, 0);
            assert(defs.skip(0) =~= defs);
            lemma_combine_unit(spec_compile(defs, env));
        }
        let n = self.len();
        while i < n
            invariant
                i <= n,
                n == self@.len(),
                defs == spec_definition_seq(self@, 0),
                env == context.env@,
                defs.len() == n,
                forall|j: int| 0 <= j < n ==> #[trigger] defs[j] == self@[j]@,
                spec_compile(defs, env) == spec_combine(
                    spec_argument_seq(res@, 0),
                    spec_opt_value(this),
                    spec_compile(defs.skip(i as int), env),
                ),
            decreases n - i,
        {
            let a = &self[i];
            proof {
                assert(defs.skip(i as int)[0] == defs[i as int]);
                assert(defs.skip(i as int).drop_first() =~= defs.skip(i + 1));
                assert(defs.skip(i as int).len() > 0);
            }
            let v = match a.value.compile_bound(context) {
                Ok(v) => v,
                Err(e) => {
                    return Err(e);
                },
            };
            if a.argument_type.is_this() {
                proof {
                    lemma_step_this(
                        spec_argument_seq(res@, 0),
                        spec_opt_value(this),
                        v@,
                        defs,
                        env,
                        i as int,
                    );
                }
                this = Some(v);
            } else {
                match &a.argument_type {
                    ArgumentType::Named(name) => {
                        let ghost res0 = res@;
                        let arg = Argument {
                            argument_type: Some(name.string.clone()),
                            value: v,
                            location: a.location,
                        };
                        res.push(arg);
                        proof {
                            lemma_seq_snoc(res0, res@, arg);
                            lemma_step_args(
                                spec_argument_seq(res0, 0),
                                seq![arg@],
                                spec_opt_value(this),
                                defs,
                                env,
                                i as int,
                            );
                        }
                    },
                    ArgumentType::Unnamed => {
                        let ghost res0 = res@;
                        let arg = Argument { argument_type: None, value: v, location: a.location };
                        res.push(arg);
                        proof {
                            lemma_seq_snoc(res0, res@, arg);
                            lemma_step_args(
                                spec_argument_seq(res0, 0),
                                seq![arg@],
                                spec_opt_value(this),
                                defs,
                                env,
                                i as int,
                            );
                        }
                    },
                    ArgumentType::ArgumentList => {
                        match v {
                            Value::List(items) => {
                                let ghost res0 = res@;
                                let ghost delta = (match spec_expand(defs[i as int], env) {
                                    Ok(p) => p.0,
                                    Err(_) => Seq::empty(),
                                });
                                proof {
                                    crate::value::lemma_spec_value_seq(items@, 0);
                                    assert(v == Value::List(items));
                                    assert(defs[i as int].value.eval(env) == Some(
                                        SpecValue::List(crate::value::spec_value_seq(items@, 0)),
                                    ));
                                    assert(spec_expand(defs[i as int], env) matches Ok(p) && p.1
                                        is None);
                                }
                                let mut j: usize = 0;
                                while j < items.len()
                                    invariant
                                        j <= items.len(),
                                        res@.len() == res0.len() + j,
                                        forall|m: int| 0 <= m < res0.len() ==> res@[m] == res0[m],
                                        i < n,
                                        n == self@.len(),
                                        a.location == self@[i as int].location,
                                        delta.len() == items@.len(),
                                        forall|m: int|
                                            0 <= m < items@.len() ==> #[trigger] delta[m]
                                                == (SpecArgument {
                                                name: Option::None,
                                                value: spec_value(items@[m]),
                                                location: self@[i as int].location,
                                            }),
                                        forall|m: int|
                                            0 <= m < j ==> #[trigger] res@[res0.len() + m]@
                                                == delta[m],
                                    decreases items.len() - j,
                                {
                                    let arg = Argument {
                                        argument_type: None,
                                        value: (&items[j]).duplicate(),
                                        location: a.location,
                                    };
                                    res.push(arg);
                                    j = j + 1;
                                }
                                proof {
                                    lemma_seq_concat(res0, res@, delta);
                                    lemma_step_args(
                                        spec_argument_seq(res0, 0),
                                        delta,
                                        spec_opt_value(this),
                                        defs,
                                        env,
                                        i as int,
                                    );
                                }
                            },
                            _ => {
                                return Err(argument_error("Argument list must be of type list"));
                            },
                        }
                    },
                    ArgumentType::ArgumentDict => {
                        match v {
                            Value::Dict(entries) => {
                                let ghost res0 = res@;
                                let ghost ent = (match v@ {
                                    SpecValue::Dict(e) => e,
                                    _ => Seq::empty(),
                                });
                                proof {
                                    crate::value::lemma_spec_entry_seq(entries@, 0);
                                    assert(v == Value::Dict(entries));
                                    assert(defs[i as int].value.eval(env) == Some(
                                        SpecValue::Dict(ent),
                                    ));
                                }
                                let mut j: usize = 0;
                                while j < entries.len()
                                    invariant
                                        j <= entries.len(),
                                        res@.len() == res0.len() + j,
                                        forall|m: int| 0 <= m < res0.len() ==> res@[m] == res0[m],
                                        i < n,
                                        n == self@.len(),
                                        a.location == self@[i as int].location,
                                        env == context.env@,
                                        defs == spec_definition_seq(self@, 0),
                                        defs.len() == n,
                                        defs[i as int] == self@[i as int]@,
                                        defs[i as int].argument_type is ArgumentDict,
                                        defs[i as int].value.eval(env) == Some(
                                            SpecValue::Dict(ent),
                                        ),
                                        spec_compile(defs, env) == spec_combine(
                                            spec_argument_seq(res0, 0),
                                            spec_opt_value(this),
                                            spec_compile(defs.skip(i as int), env),
                                        ),
                                        ent == spec_entry_seq_of(entries@),
                                        ent.len() == entries@.len(),
                                        forall|m: int|
                                            0 <= m < entries@.len() ==> #[trigger] ent[m] == (
                                            spec_value(entries@[m].0),
                                            spec_value(entries@[m].1),
                                            ),
                                        forall|m: int| 0 <= m < j ==> (#[trigger] ent[m].0)
                                            is String,
                                        forall|m: int|
                                            0 <= m < j ==> #[trigger] res@[res0.len() + m]@
                                                == (SpecArgument {
                                                name: Option::Some(ent[m].0->String_0),
                                                value: ent[m].1,
                                                location: self@[i as int].location,
                                            }),
                                    decreases entries.len() - j,
                                {
                                    match &entries[j].0 {
                                        Value::String(name) => {
                                            let arg = Argument {
                                                argument_type: Some(name.clone()),
                                                value: (&entries[j].1).duplicate(),
                                                location: a.location,
                                            };
                                            res.push(arg);
                                        },
                                        _ => {
                                            proof {
                                                assert(!((#[trigger] ent[j as int].0) is String));
                                                assert(spec_expand(defs[i as int], env) == Err::<
                                                    (Seq<SpecArgument>, Option<SpecValue>),
                                                    _,
                                                >("Argument dict must have string keys"@));
                                                assert(defs.skip(i as int)[0] == defs[i as int]);
                                                assert(defs.skip(i as int).len() > 0);
                                            }
                                            return Err(
                                                argument_error("Argument dict must have string keys"),
                                            );
                                        },
                                    }
                                    j = j + 1;
                                }
                                proof {
                                    let delta = (match spec_expand(defs[i as int], env) {
                                        Ok(p) => p.0,
                                        Err(_) => Seq::empty(),
                                    });
                                    assert forall|m: int| 0 <= m < res@.len() - res0.len() implies
                                        #[trigger] res@[res0.len() + m]@ == delta[m] by {}
                                    lemma_seq_concat(res0, res@, delta);
                                    lemma_step_args(
                                        spec_argument_seq(res0, 0),
                                        delta,
                                        spec_opt_value(this),
                                        defs,
                                        env,
                                        i as int,
                                    );
                                }
                            },
                            _ => {
                                return Err(argument_error("Argument list must be of type list"));
                            },
                        }
                    },
                }
            }
            i = i + 1;
        }
        proof {
            assert(defs.skip(n as int) =~= Seq::<SpecArgumentDefinition>::empty());
            assert(spec_argument_seq(res@, 0) + Seq::<SpecArgument>::empty() =~= spec_argument_seq(
                res@,
                0,
            ));
        }
        Ok((res, this))
    }
}

pub open spec fn spec_entry_seq_of(s: Seq<(Value, Value)>) -> Seq<(SpecValue, SpecValue)> {
    crate::value::spec_entry_seq(s, 0)
}

/// A freshly started compilation combines into whatever the rest yields.
proof fn lemma_combine_unit(x: Result<(Seq<SpecArgument>, Option<SpecValue>), Seq<char>>)
    ensures
        spec_combine(Seq::empty(), Option::None, x) == x,
{
    match x {
        Ok(p) => {
            assert(Seq::<SpecArgument>::empty() + p.0 =~= p.0);
        },
        Err(_) => {},
    }
}

proof fn lemma_seq_snoc(before: Seq<Argument>, after: Seq<Argument>, arg: Argument)
    requires
        after == before.push(arg),
    ensures
        spec_argument_seq(after, 0) == spec_argument_seq(before, 0) + seq![arg@],
{
    lemma_spec_argument_seq(before, 0);
    lemma_spec_argument_seq(after, 0);
    assert(spec_argument_seq(after, 0) =~= spec_argument_seq(before, 0) + seq![arg@]);
}

proof fn lemma_seq_concat(before: Seq<Argument>, after: Seq<Argument>, delta: Seq<SpecArgument>)
    requires
        after.len() == before.len() + delta.len(),
        forall|m: int| 0 <= m < before.len() ==> after[m] == before[m],
        forall|m: int| 0 <= m < delta.len() ==> #[trigger] after[before.len() + m]@ == delta[m],
    ensures
        spec_argument_seq(after, 0) == spec_argument_seq(before, 0) + delta,
{
    lemma_spec_argument_seq(before, 0);
    lemma_spec_argument_seq(after, 0);
    assert forall|m: int| 0 <= m < after.len() implies #[trigger] spec_argument_seq(after, 0)[m]
        == (spec_argument_seq(before, 0) + delta)[m] by {
        if m >= before.len() {
            assert(after[before.len() + (m - before.len())]@ == delta[m - before.len()]);
        }
    }
    assert(spec_argument_seq(after, 0) =~= spec_argument_seq(before, 0) + delta);
}

/// One receiver-binding step preserves the combining invariant.
proof fn lemma_step_this(
    acc: Seq<SpecArgument>,
    acc_this: Option<SpecValue>,
    v: SpecValue,
    defs: Seq<SpecArgumentDefinition>,
    env: Seq<(Seq<char>, SpecValue)>,
    i: int,
)
    requires
        0 <= i < defs.len(),
        spec_expand(defs[i], env) == Ok::<_, Seq<char>>((Seq::<SpecArgument>::empty(), Some(v))),
    ensures
        spec_combine(acc, acc_this, spec_compile(defs.skip(i), env)) == spec_combine(
            acc,
            Some(v),
            spec_compile(defs.skip(i + 1), env),
        ),
{
    assert(defs.skip(i)[0] == defs[i]);
    assert(defs.skip(i).drop_first() =~= defs.skip(i + 1));
    match spec_compile(defs.skip(i + 1), env) {
        Err(_) => {},
        Ok((rest, t)) => {
            assert(Seq::<SpecArgument>::empty() + rest =~= rest);
            assert(acc + (Seq::<SpecArgument>::empty() + rest) =~= acc + rest);
        },
    }
}

/// The views of a vector of names.
pub open spec fn spec_names(s: Seq<String>) -> Seq<Seq<char>> {
    Seq::new(s.len(), |j: int| s[j]@)
}

/// Whether some element of the name vector reads as `x`.
pub open spec fn spec_taken_contains(t: Seq<String>, x: Seq<char>) -> bool {
    exists|j: int| 0 <= j < t.len() && t[j]@ == x
}

/// Whether `x` is claimed before position `i`: the reserved placeholder is
/// always claimed, and so is every name already chosen.
pub open spec fn spec_claimed(names: Seq<Seq<char>>, i: int, x: Seq<char>) -> bool {
    x == "_"@ || exists|j: int| 0 <= j < i && names[j] == x
}

/// The base name an argument asks for: its own name, or the placeholder.
pub open spec fn spec_candidate(a: SpecArgument) -> Seq<char> {
    match a.name {
        Option::Some(n) => n,
        Option::None => "_"@,
    }
}

/// What `column_names` promises of entry `i`: the base name when it is
/// free, else the base followed by the smallest decimal suffix that makes
/// it free.
pub open spec fn spec_column_ok(args: Seq<Argument>, names: Seq<Seq<char>>, i: int) -> bool {
    let base = spec_candidate(args[i]@);
    if !spec_claimed(names, i, base) {
        names[i] == base
    } else {
        exists|k: nat|
            #![auto]
            1 <= k && names[i] == base + spec_dec_seq(k) && !spec_claimed(
                names,
                i,
                base + spec_dec_seq(k),
            ) && (forall|m: nat|
                #![auto]
                1 <= m < k ==> spec_claimed(names, i, base + spec_dec_seq(m)))
    }
}

fn contains_name(v: &Vec<String>, s: &str) -> (r: bool)
    ensures
        r == spec_taken_contains(v@, s@),
{
    let mut i: usize = 0;
    while i < v.len()
        invariant
            i <= v@.len(),
            forall|j: int| 0 <= j < i ==> v@[j]@ != s@,
        decreases v@.len() - i,
    {
        if str_eq(v[i].as_str(), s) {
            return true;
        }
        i = i + 1;
    }
    false
}

/// Some decimal suffix always frees the base name: there are more candidate
/// suffixes than taken names.
proof fn lemma_free_probe_exists(taken: Seq<String>, base: Seq<char>)
    ensures
        exists|k: nat|
            #![auto]
            1 <= k <= taken.len() + 1 && !spec_taken_contains(taken, base + spec_dec_seq(k)),
{
    broadcast use vstd::seq_lib::seq_to_set_is_finite;

    let n = taken.len() as int;
    let f = |k: int| base + spec_dec_seq(k as nat);
    if forall|k: nat| #![auto] 1 <= k <= n + 1 ==> spec_taken_contains(taken, base + spec_dec_seq(k)) {
        assert forall|k: int| #![auto] rng_has(n, k) implies spec_taken_contains(taken, f(k)) by {
            assert(spec_taken_contains(taken, base + spec_dec_seq(k as nat)));
        }
        let rng = vstd::set_lib::set_int_range(1, n + 2);
        vstd::set_lib::lemma_int_range(1, n + 2);
        let img = rng.map(f);
        assert forall|a: int, b: int|
            #![auto]
            rng.contains(a) && rng.contains(b) && f(a) == f(b) implies a == b by {
            crate::text::lemma_concat_cancel(base, spec_dec_seq(a as nat), spec_dec_seq(b as nat));
            crate::text::lemma_dec_seq_value(a as nat);
            crate::text::lemma_dec_seq_value(b as nat);
        }
        assert(vstd::relations::injective_on(f, rng));
        vstd::set_lib::lemma_map_size(rng, img, f);
        let vs = Seq::new(taken.len(), |j: int| taken[j]@);
        vs.lemma_cardinality_of_set();
        assert forall|x: Seq<char>| img.contains(x) implies vs.to_set().contains(x) by {
            let k = choose|k: int| rng.contains(k) && f(k) == x;
            assert(rng_has(n, k));
            assert(spec_taken_contains(taken, f(k)));
            let j = choose|j: int| 0 <= j < taken.len() && taken[j]@ == f(k);
            assert(vs[j] == x);
            assert(vs.contains(x));
        }
        vstd::set_lib::lemma_len_subset(img, vs.to_set());
        assert(false);
    }
}

/// Whether `k` lies in the probe range for `n` taken names.
pub open spec fn rng_has(n: int, k: int) -> bool {
    1 <= k <= n + 1
}

/// Finds the smallest free decimal suffix for a taken base name, probing
/// upward from `idx`; `w` is a suffix already known to be free.
fn probe_name(taken: &Vec<String>, base: &str, idx: usize, Ghost(w): Ghost<nat>) -> (r: String)
    requires
        1 <= w <= taken@.len() + 1,
        taken@.len() + 1 <= usize::MAX,
        !spec_taken_contains(taken@, base@ + spec_dec_seq(w)),
        1 <= idx <= w,
        forall|m: nat|
            #![auto]
            1 <= m < idx ==> spec_taken_contains(taken@, base@ + spec_dec_seq(m)),
    ensures
        exists|k: nat|
            #![auto]
            1 <= k && r@ == base@ + spec_dec_seq(k) && !spec_taken_contains(
                taken@,
                base@ + spec_dec_seq(k),
            ) && (forall|m: nat|
                #![auto]
                1 <= m < k ==> spec_taken_contains(taken@, base@ + spec_dec_seq(m))),
    decreases w - idx,
{
    let suffix = crate::text::fmt_usize(idx);
    let probe = base.to_owned().concat(suffix.as_str());
    if !contains_name(taken, probe.as_str()) {
        proof {
            assert(1 <= idx as nat && probe@ == base@ + spec_dec_seq(idx as nat)
                && !spec_taken_contains(taken@, base@ + spec_dec_seq(idx as nat)));
        }
        probe
    } else {
        proof {
            assert(spec_taken_contains(taken@, base@ + spec_dec_seq(idx as nat)));
            assert(idx != w);
        }
        probe_name(taken, base, idx + 1, Ghost(w))
    }
}

/// Being claimed before `i` reads the same off the taken vector and off the
/// chosen names, while they correspond.
proof fn lemma_claimed_iff(taken: Seq<String>, names: Seq<Seq<char>>, i: int, x: Seq<char>)
    requires
        taken.len() == i + 1,
        0 <= i <= names.len(),
        taken[0]@ == "_"@,
        forall|j: int| 0 <= j < i ==> #[trigger] taken[j + 1]@ == names[j],
    ensures
        spec_taken_contains(taken, x) == spec_claimed(names, i, x),
{
    if spec_taken_contains(taken, x) {
        let j = choose|j: int| 0 <= j < taken.len() && taken[j]@ == x;
        if j == 0 {
            assert(x == "_"@);
        } else {
            assert(taken[(j - 1) + 1]@ == names[j - 1]);
            assert(names[j - 1] == x);
        }
        assert(spec_claimed(names, i, x));
    }
    if spec_claimed(names, i, x) {
        if x == "_"@ {
            assert(taken[0]@ == x);
        } else {
            let j = choose|j: int| 0 <= j < i && names[j] == x;
            assert(taken[j + 1]@ == names[j]);
        }
        assert(spec_taken_contains(taken, x));
    }
}

/// A settled column name stays good as later names are chosen.
proof fn lemma_column_ok_extend(
    args: Seq<Argument>,
    names1: Seq<Seq<char>>,
    names2: Seq<Seq<char>>,
    j: int,
)
    requires
        0 <= j < names1.len(),
        names1.len() <= names2.len(),
        forall|m: int| 0 <= m <= j ==> names2[m] == names1[m],
        spec_column_ok(args, names1, j),
    ensures
        spec_column_ok(args, names2, j),
{
    assert forall|x: Seq<char>| true implies spec_claimed(names2, j, x) == spec_claimed(
        names1,
        j,
        x,
    ) by {
        if spec_claimed(names2, j, x) && x != "_"@ {
            let m = choose|m: int| 0 <= m < j && names2[m] == x;
            assert(names1[m] == x);
        }
        if spec_claimed(names1, j, x) && x != "_"@ {
            let m = choose|m: int| 0 <= m < j && names1[m] == x;
            assert(names2[m] == x);
        }
    }
    let base = spec_candidate(args[j]@);
    if !spec_claimed(names1, j, base) {
    } else {
        let k = choose|k: nat|
            #![auto]
            1 <= k && names1[j] == base + spec_dec_seq(k) && !spec_claimed(
                names1,
                j,
                base + spec_dec_seq(k),
            ) && (forall|m: nat|
                #![auto]
                1 <= m < k ==> spec_claimed(names1, j, base + spec_dec_seq(m)));
        assert(1 <= k && names2[j] == base + spec_dec_seq(k) && !spec_claimed(
            names2,
            j,
            base + spec_dec_seq(k),
        ) && (forall|m: nat|
            #![auto]
            1 <= m < k ==> spec_claimed(names2, j, base + spec_dec_seq(m))));
    }
}

/// Derives one distinct output label per argument: the argument's name (or
/// the placeholder for unnamed ones), numbered upward from `1` whenever the
/// name is already claimed.
pub fn column_names(arguments: &Vec<Argument>) -> (r: Vec<String>)
    requires
        arguments@.len() < usize::MAX,
    ensures
        r@.len() == arguments@.len(),
        forall|i: int|
            0 <= i < arguments@.len() ==> spec_column_ok(arguments@, spec_names(r@), i),
{
    let mut taken: Vec<String> = Vec::new();
    taken.push("_".to_owned());
    let mut res: Vec<String> = Vec::new();
    let mut i: usize = 0;
    while i < arguments.len()
        invariant
            i <= arguments@.len(),
            arguments@.len() < usize::MAX,
            res@.len() == i as int,
            taken@.len() == i + 1,
            taken@[0]@ == "_"@,
            forall|j: int| 0 <= j < i ==> #[trigger] taken@[j + 1]@ == res@[j]@,
            forall|j: int| 0 <= j < i ==> spec_column_ok(arguments@, spec_names(res@), j),
        decreases arguments@.len() - i,
    {
        let arg = &arguments[i];
        let base: String = match &arg.argument_type {
            Some(n) => n.clone(),
            None => "_".to_owned(),
        };
        proof {
            assert(base@ == spec_candidate(arguments@[i as int]@));
        }
        let ghost names0 = spec_names(res@);
        let ghost tkpre = taken@;
        let chosen: String;
        if !contains_name(&taken, base.as_str()) {
            chosen = base;
        } else {
            proof {
                lemma_free_probe_exists(taken@, base@);
            }
            let ghost w = choose|k: nat|
                #![auto]
                1 <= k <= taken@.len() + 1 && !spec_taken_contains(
                    taken@,
                    base@ + spec_dec_seq(k),
                );
            chosen = probe_name(&taken, base.as_str(), 1, Ghost(w));
        }
        let keep = chosen.clone();
        res.push(chosen);
        taken.push(keep);
        proof {
            let names1 = spec_names(res@);
            assert(names1.len() == i + 1);
            assert(forall|m: int| 0 <= m < i ==> names1[m] == names0[m]);
            assert(names1[i as int] == chosen@);
            assert(tkpre.len() == i + 1);
            assert(tkpre[0]@ == "_"@);
            assert(forall|m: int| 0 <= m < i ==> #[trigger] tkpre[m + 1]@ == names1[m]);
            lemma_claimed_iff(tkpre, names1, i as int, base@);
            assert forall|j: int| 0 <= j < i + 1 implies spec_column_ok(
                arguments@,
                names1,
                j,
            ) by {
                if j < i {
                    lemma_column_ok_extend(arguments@, names0, names1, j);
                } else {
                    if !spec_claimed(names1, i as int, base@) {
                        assert(!spec_taken_contains(tkpre, base@));
                        assert(names1[i as int] == base@);
                    } else {
                        assert(spec_taken_contains(tkpre, base@));
                        let k = choose|k: nat|
                            #![auto]
                            1 <= k && chosen@ == base@ + spec_dec_seq(k) && !spec_taken_contains(
                                tkpre,
                                base@ + spec_dec_seq(k),
                            ) && (forall|m: nat|
                                #![auto]
                                1 <= m < k ==> spec_taken_contains(
                                    tkpre,
                                    base@ + spec_dec_seq(m),
                                ));
                        lemma_claimed_iff(tkpre, names1, i as int, base@ + spec_dec_seq(k));
                        assert forall|m: nat| #![auto] 1 <= m < k implies spec_claimed(
                            names1,
                            i as int,
                            base@ + spec_dec_seq(m),
                        ) by {
                            assert(spec_taken_contains(tkpre, base@ + spec_dec_seq(m)));
                            lemma_claimed_iff(tkpre, names1, i as int, base@ + spec_dec_seq(m));
                        }
                        assert(1 <= k && names1[i as int] == base@ + spec_dec_seq(k)
                            && !spec_claimed(names1, i as int, base@ + spec_dec_seq(k)) && (
                        forall|m: nat|
                            #![auto]
                            1 <= m < k ==> spec_claimed(names1, i as int, base@ + spec_dec_seq(m))));
                    }
                }
            }
        }
        i = i + 1;
    }
    res
}

/// No argument name is ever lost and no label repeats: every chosen label
/// is unclaimed at its position, so all labels are pairwise distinct and
/// none is the reserved placeholder.
pub proof fn lemma_column_names_distinct(args: Seq<Argument>, names: Seq<Seq<char>>)
    requires
        names.len() == args.len(),
        forall|i: int| 0 <= i < args.len() ==> spec_column_ok(args, names, i),
    ensures
        forall|i: int, j: int| 0 <= i < j < names.len() ==> names[i] != names[j],
        forall|i: int| 0 <= i < names.len() ==> names[i] != "_"@,
{
    assert forall|j: int| 0 <= j < names.len() implies !spec_claimed(names, j, names[j]) by {
        assert(spec_column_ok(args, names, j));
        let base = spec_candidate(args[j]@);
        if !spec_claimed(names, j, base) {
        } else {
            let k = choose|k: nat|
                #![auto]
                1 <= k && names[j] == base + spec_dec_seq(k) && !spec_claimed(
                    names,
                    j,
                    base + spec_dec_seq(k),
                ) && (forall|m: nat|
                    #![auto]
                    1 <= m < k ==> spec_claimed(names, j, base + spec_dec_seq(m)));
        }
    }
    assert forall|i: int, j: int| 0 <= i < j < names.len() implies names[i] != names[j] by {
        if names[i] == names[j] {
            assert(spec_claimed(names, j, names[j]));
        }
    }
}

/// One argument-emitting step preserves the combining invariant.
proof fn lemma_step_args(
    acc: Seq<SpecArgument>,
    delta: Seq<SpecArgument>,
    acc_this: Option<SpecValue>,
    defs: Seq<SpecArgumentDefinition>,
    env: Seq<(Seq<char>, SpecValue)>,
    i: int,
)
    requires
        0 <= i < defs.len(),
        spec_expand(defs[i], env) == Ok::<_, Seq<char>>((delta, Option::None::<SpecValue>)),
    ensures
        spec_combine(acc, acc_this, spec_compile(defs.skip(i), env)) == spec_combine(
            acc + delta,
            acc_this,
            spec_compile(defs.skip(i + 1), env),
        ),
{
    assert(defs.skip(i)[0] == defs[i]);
    assert(defs.skip(i).drop_first() =~= defs.skip(i + 1));
    match spec_compile(defs.skip(i + 1), env) {
        Err(_) => {},
        Ok((rest, t)) => {
            assert(acc + (delta + rest) =~= (acc + delta) + rest);
        },
    }
}

/// With no receiver definition in the list, a successful compile binds no
/// receiver.
pub proof fn lemma_no_receiver(defs: Seq<SpecArgumentDefinition>, env: Seq<(Seq<char>, SpecValue)>)
    requires
        forall|j: int| 0 <= j < defs.len() ==> !(#[trigger] defs[j].argument_type).is_this(),
        spec_compile(defs, env) is Ok,
    ensures
        spec_compile(defs, env)->Ok_0.1 is None,
    decreases defs.len(),
{
    if defs.len() > 0 {
        assert(!defs[0].argument_type.is_this());
        assert(forall|j: int|
            0 <= j < defs.drop_first().len() ==> !(#[trigger] defs.drop_first()[j].argument_type).is_this());
        lemma_no_receiver(defs.drop_first(), env);
    }
}

/// A definition named `this` never appears in the compiled argument
/// vector: taking any one receiver definition out changes nothing about
/// the arguments a successful compile yields.
pub proof fn lemma_receiver_never_emitted(
    defs: Seq<SpecArgumentDefinition>,
    env: Seq<(Seq<char>, SpecValue)>,
    i: int,
)
    requires
        0 <= i < defs.len(),
        defs[i].argument_type.is_this(),
        spec_compile(defs, env) is Ok,
    ensures
        spec_compile(defs.remove(i), env) is Ok,
        spec_compile(defs.remove(i), env)->Ok_0.0 == spec_compile(defs, env)->Ok_0.0,
    decreases defs.len(),
{
    if i == 0 {
        assert(defs.remove(0) =~= defs.drop_first());
        assert(spec_expand(defs[0], env) matches Ok(p) && p.0 == Seq::<SpecArgument>::empty());
        match spec_compile(defs.drop_first(), env) {
            Ok(p) => {
                assert(Seq::<SpecArgument>::empty() + p.0 =~= p.0);
            },
            Err(_) => {
                assert(false);
            },
        }
    } else {
        assert(defs.remove(i).drop_first() =~= defs.drop_first().remove(i - 1));
        assert(defs.remove(i)[0] == defs[0]);
        assert(defs.drop_first()[i - 1] == defs[i]);
        lemma_receiver_never_emitted(defs.drop_first(), env, i - 1);
    }
}

/// The latest receiver definition wins: with a receiver definition at `i`
/// and none after it, a successful compile binds exactly the value that
/// definition evaluates to.
pub proof fn lemma_latest_receiver_wins(
    defs: Seq<SpecArgumentDefinition>,
    env: Seq<(Seq<char>, SpecValue)>,
    i: int,
)
    requires
        0 <= i < defs.len(),
        defs[i].argument_type.is_this(),
        forall|j: int|
            i < j < defs.len() ==> !(#[trigger] defs[j].argument_type).is_this(),
        spec_compile(defs, env) is Ok,
    ensures
        defs[i].value.eval(env) is Some,
        spec_compile(defs, env)->Ok_0.1 == Some(defs[i].value.eval(env)->Some_0),
    decreases defs.len(),
{
    let rest = defs.drop_first();
    if i == 0 {
        assert(forall|j: int|
            0 <= j < rest.len() ==> !(#[trigger] rest[j].argument_type).is_this());
        lemma_no_receiver(rest, env);
    } else {
        assert(rest[i - 1] == defs[i]);
        assert(forall|j: int|
            i - 1 < j < rest.len() ==> !(#[trigger] rest[j].argument_type).is_this());
        lemma_latest_receiver_wins(rest, env, i - 1);
    }
}

} // verus!
