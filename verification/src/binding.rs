//! Binding a runtime argument vector against a command signature: each
//! argument is matched to a descriptor by name or position, converted to
//! the declared type, checked against the allowed values, collected into
//! lists and named maps, and defaulted when left out.

use vstd::prelude::*;
use vstd::pervasive::VecAdditionalExecFns;
use vstd::string::StrSliceExecFns;
use crate::argument::{Argument, SpecArgument, spec_argument_seq, lemma_spec_argument_seq};
use crate::errors::{argument_error, JobError};
use crate::text::str_eq;
use crate::value::{
    ArgumentDescription, CommandSignature, SpecArgumentDescription, SpecValue, Value, ValueType,
    spec_value, spec_value_seq, lemma_spec_value_seq, spec_field_seq, lemma_spec_field_seq,
    lemma_spec_description_seq, spec_description_seq,
};

verus! {

/// Ghost counterpart of `BoundValue`.
pub enum SpecBoundValue {
    Missing,
    Single(SpecValue),
    Repeated(Seq<SpecValue>),
    NamedMap(Seq<(Seq<char>, SpecValue)>),
}

/// What one signature entry ends up bound to.
pub enum BoundValue {
    /// An optional argument that was not given.
    Missing,
    /// One value.
    Single(Value),
    /// A list-collecting argument's values, in order.
    Repeated(Vec<Value>),
    /// A named catch-all's entries, in order.
    NamedMap(Vec<(String, Value)>),
}

impl View for BoundValue {
    type V = SpecBoundValue;

    open spec fn view(&self) -> SpecBoundValue {
        match self {
            BoundValue::Missing => SpecBoundValue::Missing,
            BoundValue::Single(v) => SpecBoundValue::Single(spec_value(*v)),
            BoundValue::Repeated(l) => SpecBoundValue::Repeated(spec_value_seq(l@, 0)),
            BoundValue::NamedMap(m) => SpecBoundValue::NamedMap(spec_field_seq(m@, 0)),
        }
    }
}

pub open spec fn spec_bound_seq(s: Seq<BoundValue>, i: int) -> Seq<SpecBoundValue>
    decreases s.len() - i,
{
    if i < 0 || i >= s.len() {
        Seq::empty()
    } else {
        seq![s[i]@] + spec_bound_seq(s, i + 1)
    }
}

pub proof fn lemma_spec_bound_seq(s: Seq<BoundValue>, i: int)
    requires
        0 <= i <= s.len(),
    ensures
        spec_bound_seq(s, i).len() == s.len() - i,
        forall|j: int| 0 <= j < s.len() - i ==> #[trigger] spec_bound_seq(s, i)[j] == s[i + j]@,
    decreases s.len() - i,
{
    if i < s.len() {
        lemma_spec_bound_seq(s, i + 1);
        assert forall|j: int| 0 <= j < s.len() - i implies #[trigger] spec_bound_seq(s, i)[j]
            == s[i + j]@ by {
            if j > 0 {
                assert(spec_bound_seq(s, i)[j] == spec_bound_seq(s, i + 1)[j - 1]);
            }
        }
    }
}

/// Value conversion to a declared type: anything fits `Any`, a value of
/// exactly the declared type fits, and a one-character string reads as a
/// character.
pub open spec fn spec_convert(v: SpecValue, t: ValueType) -> Option<SpecValue> {
    if t == ValueType::Any {
        Some(v)
    } else if v.value_type() == t {
        Some(v)
    } else if t == ValueType::Char && (v matches SpecValue::String(s) && s.len() == 1) {
        Some(SpecValue::Char(v->String_0[0]))
    } else {
        None
    }
}

/// Converts a value to a declared type where possible.
pub fn convert(value: &Value, t: ValueType) -> (r: Option<Value>)
    ensures
        (match spec_convert(value@, t) {
            Some(cv) => r matches Some(x) && x@ == cv,
            None => r is None,
        }),
{
    if matches!(t, ValueType::Any) {
        return Some(value.duplicate());
    }
    let vt = value.value_type();
    if vt == t {
        return Some(value.duplicate());
    }
    if matches!(t, ValueType::Char) {
        if let Value::String(s) = value {
            if s.as_str().unicode_len() == 1 {
                let c = s.as_str().get_char(0);
                return Some(Value::Char(c));
            }
        }
    }
    None
}

/// Equality on scalar values; collections and commands never compare
/// equal, which matches allowed-value sets only ever holding scalars.
pub open spec fn spec_scalar_eq(a: SpecValue, b: SpecValue) -> bool {
    match (a, b) {
        (SpecValue::String(x), SpecValue::String(y)) => x == y,
        (SpecValue::Integer(x), SpecValue::Integer(y)) => x == y,
        (SpecValue::Float(x), SpecValue::Float(y)) => x == y,
        (SpecValue::Glob(x), SpecValue::Glob(y)) => x == y,
        (SpecValue::Regex(x), SpecValue::Regex(y)) => x == y,
        (SpecValue::Bool(x), SpecValue::Bool(y)) => x == y,
        (SpecValue::Char(x), SpecValue::Char(y)) => x == y,
        (SpecValue::File(x), SpecValue::File(y)) => x == y,
        (SpecValue::Time(x), SpecValue::Time(y)) => x == y,
        _ => false,
    }
}

fn scalar_eq(a: &Value, b: &Value) -> (r: bool)
    ensures
        r == spec_scalar_eq(a@, b@),
{
    match (a, b) {
        (Value::String(x), Value::String(y)) => str_eq(x.as_str(), y.as_str()),
        (Value::Integer(x), Value::Integer(y)) => *x == *y,
        (Value::Float(x), Value::Float(y)) => str_eq(x.as_str(), y.as_str()),
        (Value::Glob(x), Value::Glob(y)) => str_eq(x.as_str(), y.as_str()),
        (Value::Regex(x), Value::Regex(y)) => str_eq(x.as_str(), y.as_str()),
        (Value::Bool(x), Value::Bool(y)) => *x == *y,
        (Value::Char(x), Value::Char(y)) => *x == *y,
        (Value::File(x), Value::File(y)) => str_eq(x.as_str(), y.as_str()),
        (Value::Time(x), Value::Time(y)) => *x == *y,
        _ => false,
    }
}

/// Whether the allowed-value set accepts a value: an empty set accepts
/// everything.
pub open spec fn spec_allowed_ok(allowed: Seq<SpecValue>, v: SpecValue) -> bool {
    allowed.len() == 0 || exists|i: int|
        0 <= i < allowed.len() && spec_scalar_eq(#[trigger] allowed[i], v)
}

fn allowed_ok(allowed: &Vec<Value>, v: &Value) -> (r: bool)
    ensures
        r == spec_allowed_ok(spec_value_seq(allowed@, 0), v@),
{
    proof {
        lemma_spec_value_seq(allowed@, 0);
    }
    let ghost am = spec_value_seq(allowed@, 0);
    if allowed.len() == 0 {
        return true;
    }
    let mut i: usize = 0;
    while i < allowed.len()
        invariant
            i <= allowed@.len(),
            am == spec_value_seq(allowed@, 0),
            am.len() == allowed@.len(),
            forall|j: int| 0 <= j < am.len() ==> #[trigger] am[j] == spec_value(allowed@[j]),
            forall|j: int| 0 <= j < i ==> !spec_scalar_eq(#[trigger] am[j], v@),
        decreases allowed@.len() - i,
    {
        if scalar_eq(&allowed[i], v) {
            proof {
                assert(spec_scalar_eq(am[i as int], v@));
            }
            return true;
        }
        i = i + 1;
    }
    false
}

/// The first descriptor index with the given name.
pub open spec fn spec_field_index(
    fields: Seq<SpecArgumentDescription>,
    name: Seq<char>,
    k: int,
) -> Option<int>
    decreases fields.len() - k,
{
    if k < 0 || k >= fields.len() {
        None
    } else if fields[k].name == name {
        Some(k)
    } else {
        spec_field_index(fields, name, k + 1)
    }
}

/// The first descriptor index accepting unnamed values.
pub open spec fn spec_unnamed_index(fields: Seq<SpecArgumentDescription>, k: int) -> Option<int>
    decreases fields.len() - k,
{
    if k < 0 || k >= fields.len() {
        None
    } else if fields[k].unnamed {
        Some(k)
    } else {
        spec_unnamed_index(fields, k + 1)
    }
}

/// The first named-catch-all descriptor index.
pub open spec fn spec_map_index(fields: Seq<SpecArgumentDescription>, k: int) -> Option<int>
    decreases fields.len() - k,
{
    if k < 0 || k >= fields.len() {
        None
    } else if fields[k].named {
        Some(k)
    } else {
        spec_map_index(fields, k + 1)
    }
}

/// Element-wise conversion of a list value's items.
pub open spec fn spec_convert_all(items: Seq<SpecValue>, t: ValueType) -> Option<Seq<SpecValue>>
    decreases items.len(),
{
    if items.len() == 0 {
        Some(Seq::empty())
    } else {
        match spec_convert(items[0], t) {
            Some(cv) => match spec_convert_all(items.drop_first(), t) {
                Some(rest) => Some(seq![cv] + rest),
                None => None,
            },
            None => None,
        }
    }
}

pub open spec fn spec_all_allowed(allowed: Seq<SpecValue>, items: Seq<SpecValue>) -> bool {
    forall|j: int| 0 <= j < items.len() ==> spec_allowed_ok(allowed, #[trigger] items[j])
}

/// The starting state: lists and maps start empty, everything else starts
/// missing.
pub open spec fn spec_initial_state(fields: Seq<SpecArgumentDescription>) -> Seq<SpecBoundValue> {
    Seq::new(
        fields.len(),
        |k: int|
            if fields[k].multiple {
                SpecBoundValue::Repeated(Seq::empty())
            } else if fields[k].named {
                SpecBoundValue::NamedMap(Seq::empty())
            } else {
                SpecBoundValue::Missing
            },
    )
}

/// Binding one argument into the state. An unnamed argument goes to the
/// unnamed catch-all. A named argument goes to the descriptor of that
/// name when its value converts to the declared type; otherwise — or when
/// no descriptor has the name — it falls through to the named catch-all.
pub open spec fn spec_bind_one(
    fields: Seq<SpecArgumentDescription>,
    state: Seq<SpecBoundValue>,
    name: Option<Seq<char>>,
    v: SpecValue,
) -> Result<Seq<SpecBoundValue>, Seq<char>> {
    match name {
        None => match spec_unnamed_index(fields, 0) {
            Some(k) => match spec_convert(v, fields[k].value_type) {
                Some(cv) => if spec_allowed_ok(fields[k].allowed, cv) && state[k] matches
                    SpecBoundValue::Repeated(xs) {
                    Ok(state.update(k, SpecBoundValue::Repeated(state[k]->Repeated_0.push(cv))))
                } else {
                    Err("Invalid argument"@)
                },
                None => Err("Invalid argument"@),
            },
            None => Err("Unknown argument"@),
        },
        Some(nm) => {
            let direct = (match spec_field_index(fields, nm, 0) {
                Some(k) => if !fields[k].named {
                    spec_bind_direct(fields, state, k, v)
                } else {
                    None
                },
                None => None,
            });
            match direct {
                Some(res) => res,
                None => match spec_map_index(fields, 0) {
                    Some(m) => match spec_convert(v, fields[m].value_type) {
                        Some(cv) => if state[m] matches SpecBoundValue::NamedMap(xs) {
                            Ok(
                                state.update(
                                    m,
                                    SpecBoundValue::NamedMap(state[m]->NamedMap_0.push((nm, cv))),
                                ),
                            )
                        } else {
                            Err("Invalid argument"@)
                        },
                        None => Err("Invalid argument"@),
                    },
                    None => Err("Unknown argument"@),
                },
            }
        },
    }
}

/// A named argument against its own descriptor: `None` means the value
/// does not fit and binding falls through to the named catch-all.
pub open spec fn spec_bind_direct(
    fields: Seq<SpecArgumentDescription>,
    state: Seq<SpecBoundValue>,
    k: int,
    v: SpecValue,
) -> Option<Result<Seq<SpecBoundValue>, Seq<char>>> {
    if fields[k].multiple {
        match v {
            SpecValue::List(items) => match spec_convert_all(items, fields[k].value_type) {
                Some(cvs) => if spec_all_allowed(fields[k].allowed, cvs) && state[k] matches
                    SpecBoundValue::Repeated(xs) {
                    Some(
                        Ok(state.update(k, SpecBoundValue::Repeated(state[k]->Repeated_0 + cvs))),
                    )
                } else {
                    Some(Err("Disallowed value"@))
                },
                None => Some(Err("Invalid argument"@)),
            },
            _ => match spec_convert(v, fields[k].value_type) {
                Some(cv) => if spec_allowed_ok(fields[k].allowed, cv) && state[k] matches
                    SpecBoundValue::Repeated(xs) {
                    Some(
                        Ok(
                            state.update(
                                k,
                                SpecBoundValue::Repeated(state[k]->Repeated_0.push(cv)),
                            ),
                        ),
                    )
                } else {
                    Some(Err("Disallowed value"@))
                },
                None => None,
            },
        }
    } else {
        match spec_convert(v, fields[k].value_type) {
            Some(cv) => if spec_allowed_ok(fields[k].allowed, cv) {
                Some(Ok(state.update(k, SpecBoundValue::Single(cv))))
            } else {
                Some(Err("Disallowed value"@))
            },
            None => None,
        }
    }
}

/// Folding every argument into the state, left to right; the first
/// failure wins.
pub open spec fn spec_bind_all(
    fields: Seq<SpecArgumentDescription>,
    state: Seq<SpecBoundValue>,
    args: Seq<SpecArgument>,
    i: int,
) -> Result<Seq<SpecBoundValue>, Seq<char>>
    decreases args.len() - i,
{
    if i < 0 || i >= args.len() {
        Ok(state)
    } else {
        match spec_bind_one(fields, state, args[i].name, args[i].value) {
            Err(m) => Err(m),
            Ok(st) => spec_bind_all(fields, st, args, i + 1),
        }
    }
}

/// Filling defaults: a missing entry takes its descriptor's default when
/// one is declared; a missing optional entry stays missing; anything else
/// missing is an error.
pub open spec fn spec_finalize(
    fields: Seq<SpecArgumentDescription>,
    state: Seq<SpecBoundValue>,
    k: int,
) -> Result<Seq<SpecBoundValue>, Seq<char>>
    decreases fields.len() - k,
{
    if k < 0 || k >= fields.len() {
        Ok(state)
    } else if state[k] is Missing {
        match fields[k].default {
            Some(d) => spec_finalize(fields, state.update(k, SpecBoundValue::Single(d)), k + 1),
            None => if fields[k].optional {
                spec_finalize(fields, state, k + 1)
            } else {
                Err("Missing argument"@)
            },
        }
    } else {
        spec_finalize(fields, state, k + 1)
    }
}

/// What binding an argument vector against a signature yields: one bound
/// value per descriptor, in declared order.
pub open spec fn spec_bind_arguments(
    fields: Seq<SpecArgumentDescription>,
    args: Seq<SpecArgument>,
) -> Result<Seq<SpecBoundValue>, Seq<char>> {
    match spec_bind_all(fields, spec_initial_state(fields), args, 0) {
        Err(m) => Err(m),
        Ok(st) => spec_finalize(fields, st, 0),
    }
}

fn find_field_index(fields: &Vec<ArgumentDescription>, name: &str) -> (r: Option<usize>)
    ensures
        (match spec_field_index(spec_description_seq(fields@, 0), name@, 0) {
            Some(k) => r matches Some(x) && x as int == k && x < fields@.len(),
            None => r is None,
        }),
{
    proof {
        lemma_spec_description_seq(fields@, 0);
    }
    let ghost fm = spec_description_seq(fields@, 0);
    let mut k: usize = 0;
    while k < fields.len()
        invariant
            k <= fields@.len(),
            fm == spec_description_seq(fields@, 0),
            fm.len() == fields@.len(),
            forall|j: int| 0 <= j < fm.len() ==> #[trigger] fm[j] == fields@[j]@,
            spec_field_index(fm, name@, 0) == spec_field_index(fm, name@, k as int),
        decreases fields@.len() - k,
    {
        if str_eq(fields[k].name.as_str(), name) {
            return Some(k);
        }
        k = k + 1;
    }
    None
}

fn find_unnamed_index(fields: &Vec<ArgumentDescription>) -> (r: Option<usize>)
    ensures
        (match spec_unnamed_index(spec_description_seq(fields@, 0), 0) {
            Some(k) => r matches Some(x) && x as int == k && x < fields@.len(),
            None => r is None,
        }),
{
    proof {
        lemma_spec_description_seq(fields@, 0);
    }
    let ghost fm = spec_description_seq(fields@, 0);
    let mut k: usize = 0;
    while k < fields.len()
        invariant
            k <= fields@.len(),
            fm == spec_description_seq(fields@, 0),
            fm.len() == fields@.len(),
            forall|j: int| 0 <= j < fm.len() ==> #[trigger] fm[j] == fields@[j]@,
            spec_unnamed_index(fm, 0) == spec_unnamed_index(fm, k as int),
        decreases fields@.len() - k,
    {
        if fields[k].unnamed {
            return Some(k);
        }
        k = k + 1;
    }
    None
}

fn find_map_index(fields: &Vec<ArgumentDescription>) -> (r: Option<usize>)
    ensures
        (match spec_map_index(spec_description_seq(fields@, 0), 0) {
            Some(k) => r matches Some(x) && x as int == k && x < fields@.len(),
            None => r is None,
        }),
{
    proof {
        lemma_spec_description_seq(fields@, 0);
    }
    let ghost fm = spec_description_seq(fields@, 0);
    let mut k: usize = 0;
    while k < fields.len()
        invariant
            k <= fields@.len(),
            fm == spec_description_seq(fields@, 0),
            fm.len() == fields@.len(),
            forall|j: int| 0 <= j < fm.len() ==> #[trigger] fm[j] == fields@[j]@,
            spec_map_index(fm, 0) == spec_map_index(fm, k as int),
        decreases fields@.len() - k,
    {
        if fields[k].named {
            return Some(k);
        }
        k = k + 1;
    }
    None
}

/// Element-wise conversion succeeding pointwise succeeds as a whole.
proof fn lemma_convert_all_ok(items: Seq<SpecValue>, cvs: Seq<SpecValue>, t: ValueType)
    requires
        items.len() == cvs.len(),
        forall|j: int| 0 <= j < items.len() ==> spec_convert(#[trigger] items[j], t) == Some(
            cvs[j],
        ),
    ensures
        spec_convert_all(items, t) == Some(cvs),
    decreases items.len(),
{
    if items.len() > 0 {
        lemma_convert_all_ok(items.drop_first(), cvs.drop_first(), t);
        assert(seq![cvs[0]] + cvs.drop_first() =~= cvs);
    }
}

/// One unconvertible element fails the whole list.
proof fn lemma_convert_all_fails(items: Seq<SpecValue>, t: ValueType, j: int)
    requires
        0 <= j < items.len(),
        spec_convert(items[j], t) is None,
        forall|m: int| 0 <= m < j ==> spec_convert(#[trigger] items[m], t) is Some,
    ensures
        spec_convert_all(items, t) is None,
    decreases j,
{
    if j > 0 {
        lemma_convert_all_fails(items.drop_first(), t, j - 1);
    }
}

/// Replacing one vector entry updates the model at that point alone.
proof fn lemma_bound_update(before: Seq<BoundValue>, after: Seq<BoundValue>, k: int, v: BoundValue)
    requires
        0 <= k < before.len(),
        after == before.update(k, v),
    ensures
        spec_bound_seq(after, 0) == spec_bound_seq(before, 0).update(k, v@),
{
    lemma_spec_bound_seq(before, 0);
    lemma_spec_bound_seq(after, 0);
    assert(spec_bound_seq(after, 0) =~= spec_bound_seq(before, 0).update(k, v@));
}

#[verifier::loop_isolation(false)]
fn bind_one(
    fields: &Vec<ArgumentDescription>,
    state: &mut Vec<BoundValue>,
    name: &Option<String>,
    value: &Value,
) -> (r: Result<(), JobError>)
    requires
        old(state)@.len() == fields@.len(),
    ensures
        (match spec_bind_one(
            spec_description_seq(fields@, 0),
            spec_bound_seq(old(state)@, 0),
            match name {
                Option::Some(n) => Option::Some(n@),
                Option::None => Option::None,
            },
            value@,
        ) {
            Ok(st2) => r is Ok && spec_bound_seq(final(state)@, 0) == st2 && final(state)@.len()
                == fields@.len(),
            Err(m) => r matches Err(e) && e.message@ == m && final(state)@.len() == fields@.len()
                && spec_bound_seq(final(state)@, 0) == spec_bound_seq(old(state)@, 0),
        }),
{
    let ghost fm = spec_description_seq(fields@, 0);
    let ghost sm = spec_bound_seq(state@, 0);
    proof {
        lemma_spec_description_seq(fields@, 0);
        lemma_spec_bound_seq(state@, 0);
    }
    match name {
        None => {
            match find_unnamed_index(fields) {
                Some(k) => {
                    match convert(value, fields[k].value_type) {
                        Some(cv) => {
                            if allowed_ok(&fields[k].allowed, &cv) {
                                let cur = state.remove(k);
                                match cur {
                                    BoundValue::Repeated(mut xs) => {
                                        let ghost xs0 = xs@;
                                        let ghost cvm = cv@;
                                        xs.push(cv);
                                        proof {
                                            lemma_spec_value_seq(xs0, 0);
                                            lemma_spec_value_seq(xs@, 0);
                                            assert(spec_value_seq(xs@, 0) =~= spec_value_seq(
                                                xs0,
                                                0,
                                            ).push(cvm));
                                        }
                                        state.insert(k, BoundValue::Repeated(xs));
                                        proof {
                                            assert(state@ =~= old(state)@.update(
                                                k as int,
                                                state@[k as int],
                                            ));
                                            lemma_bound_update(
                                                old(state)@,
                                                state@,
                                                k as int,
                                                state@[k as int],
                                            );
                                            assert(sm[k as int] matches SpecBoundValue::Repeated(
                                                ys,
                                            ) && ys == spec_value_seq(xs0, 0));
                                        }
                                        Ok(())
                                    },
                                    other => {
                                        state.insert(k, other);
                                        proof {
                                            assert(state@ =~= old(state)@);
                                            assert(spec_bound_seq(state@, 0) == sm);
                                        }
                                        Err(argument_error("Invalid argument"))
                                    },
                                }
                            } else {
                                Err(argument_error("Invalid argument"))
                            }
                        },
                        None => Err(argument_error("Invalid argument")),
                    }
                },
                None => Err(argument_error("Unknown argument")),
            }
        },
        Some(nm) => {
            let direct_idx = find_field_index(fields, nm.as_str());
            if let Some(k) = direct_idx {
                if !fields[k].named {
                    if fields[k].multiple {
                        match value {
                            Value::List(items) => {
                                proof {
                                    lemma_spec_value_seq(items@, 0);
                                }
                                let ghost im = spec_value_seq(items@, 0);
                                proof {
                                    assert(*value == Value::List(*items));
                                    assert(value@ == SpecValue::List(im));
                                }
                                let mut cvs: Vec<Value> = Vec::new();
                                let mut j: usize = 0;
                                while j < items.len()
                                    invariant
                                        j <= items@.len(),
                                        im == spec_value_seq(items@, 0),
                                        im.len() == items@.len(),
                                        forall|m: int|
                                            0 <= m < im.len() ==> #[trigger] im[m] == spec_value(
                                                items@[m],
                                            ),
                                        cvs@.len() == j as int,
                                        k < fields@.len(),
                                        forall|m: int|
                                            0 <= m < j ==> spec_convert(
                                                #[trigger] im[m],
                                                fields@[k as int].value_type,
                                            ) == Some(spec_value(cvs@[m])),
                                    decreases items@.len() - j,
                                {
                                    match convert(&items[j], fields[k].value_type) {
                                        Some(cv) => {
                                            cvs.push(cv);
                                        },
                                        None => {
                                            proof {
                                                lemma_convert_all_fails(
                                                    im,
                                                    fields@[k as int].value_type,
                                                    j as int,
                                                );
                                            }
                                            return Err(argument_error("Invalid argument"));
                                        },
                                    }
                                    j = j + 1;
                                }
                                let ghost cvsm = spec_value_seq(cvs@, 0);
                                proof {
                                    lemma_spec_value_seq(cvs@, 0);
                                    lemma_convert_all_ok(im, cvsm, fields@[k as int].value_type);
                                }
                                let mut all_ok = true;
                                let mut j2: usize = 0;
                                while j2 < cvs.len()
                                    invariant
                                        j2 <= cvs@.len(),
                                        cvsm == spec_value_seq(cvs@, 0),
                                        cvsm.len() == cvs@.len(),
                                        forall|m: int|
                                            0 <= m < cvsm.len() ==> #[trigger] cvsm[m]
                                                == spec_value(cvs@[m]),
                                        k < fields@.len(),
                                        fm == spec_description_seq(fields@, 0),
                                        fm.len() == fields@.len(),
                                        forall|m: int|
                                            0 <= m < fm.len() ==> #[trigger] fm[m] == fields@[m]@,
                                        all_ok ==> (forall|m: int|
                                            0 <= m < j2 ==> spec_allowed_ok(
                                                fm[k as int].allowed,
                                                #[trigger] cvsm[m],
                                            )),
                                        !all_ok ==> !spec_all_allowed(fm[k as int].allowed, cvsm),
                                    decreases cvs@.len() - j2,
                                {
                                    if !allowed_ok(&fields[k].allowed, &cvs[j2]) {
                                        all_ok = false;
                                        proof {
                                            assert(!spec_allowed_ok(
                                                fm[k as int].allowed,
                                                cvsm[j2 as int],
                                            ));
                                        }
                                        break;
                                    }
                                    proof {
                                        assert(spec_allowed_ok(
                                            fm[k as int].allowed,
                                            cvsm[j2 as int],
                                        ));
                                    }
                                    j2 = j2 + 1;
                                }
                                if !all_ok {
                                    return Err(argument_error("Disallowed value"));
                                }
                                let cur = state.remove(k);
                                match cur {
                                    BoundValue::Repeated(mut xs) => {
                                        let ghost xs0 = xs@;
                                        let mut j3: usize = 0;
                                        while j3 < cvs.len()
                                            invariant
                                                j3 <= cvs@.len(),
                                                cvsm == spec_value_seq(cvs@, 0),
                                                cvsm.len() == cvs@.len(),
                                                forall|m: int|
                                                    0 <= m < cvsm.len() ==> #[trigger] cvsm[m]
                                                        == spec_value(cvs@[m]),
                                                xs@.len() == xs0.len() + j3,
                                                forall|m: int|
                                                    0 <= m < xs0.len() ==> #[trigger] xs@[m]
                                                        == xs0[m],
                                                forall|m: int|
                                                    0 <= m < j3 ==> spec_value(
                                                        #[trigger] xs@[xs0.len() + m],
                                                    ) == cvsm[m],
                                            decreases cvs@.len() - j3,
                                        {
                                            xs.push((&cvs[j3]).duplicate());
                                            j3 = j3 + 1;
                                        }
                                        proof {
                                            lemma_spec_value_seq(xs0, 0);
                                            lemma_spec_value_seq(xs@, 0);
                                            assert forall|mi: int| 0 <= mi < xs@.len() implies
                                                #[trigger] spec_value_seq(xs@, 0)[mi] == (
                                            spec_value_seq(xs0, 0) + cvsm)[mi] by {
                                                if mi >= xs0.len() {
                                                    assert(spec_value(
                                                        xs@[xs0.len() + (mi - xs0.len())],
                                                    ) == cvsm[mi - xs0.len()]);
                                                }
                                            }
                                            assert(spec_value_seq(xs@, 0) =~= spec_value_seq(
                                                xs0,
                                                0,
                                            ) + cvsm);
                                        }
                                        state.insert(k, BoundValue::Repeated(xs));
                                        proof {
                                            assert(state@ =~= old(state)@.update(
                                                k as int,
                                                state@[k as int],
                                            ));
                                            lemma_bound_update(
                                                old(state)@,
                                                state@,
                                                k as int,
                                                state@[k as int],
                                            );
                                            assert(sm[k as int] matches SpecBoundValue::Repeated(
                                                ys,
                                            ) && ys == spec_value_seq(xs0, 0));
                                        }
                                        Ok(())
                                    },
                                    other => {
                                        state.insert(k, other);
                                        proof {
                                            assert(state@ =~= old(state)@);
                                            assert(spec_bound_seq(state@, 0) == sm);
                                        }
                                        Err(argument_error("Disallowed value"))
                                    },
                                }
                            },
                            _ => {
                                match convert(value, fields[k].value_type) {
                                    Some(cv) => {
                                        if allowed_ok(&fields[k].allowed, &cv) {
                                            let cur = state.remove(k);
                                            match cur {
                                                BoundValue::Repeated(mut xs) => {
                                                    let ghost xs0 = xs@;
                                                    let ghost cvm = cv@;
                                                    xs.push(cv);
                                                    proof {
                                                        lemma_spec_value_seq(xs0, 0);
                                                        lemma_spec_value_seq(xs@, 0);
                                                        assert(spec_value_seq(xs@, 0)
                                                            =~= spec_value_seq(xs0, 0).push(cvm));
                                                    }
                                                    state.insert(k, BoundValue::Repeated(xs));
                                                    proof {
                                                        assert(state@ =~= old(state)@.update(
                                                            k as int,
                                                            state@[k as int],
                                                        ));
                                                        lemma_bound_update(
                                                            old(state)@,
                                                            state@,
                                                            k as int,
                                                            state@[k as int],
                                                        );
                                                        assert(sm[k as int] matches
                                                            SpecBoundValue::Repeated(ys) && ys
                                                            == spec_value_seq(xs0, 0));
                                                    }
                                                    Ok(())
                                                },
                                                other => {
                                                    state.insert(k, other);
                                                    proof {
                                                        assert(state@ =~= old(state)@);
                                                        assert(spec_bound_seq(state@, 0) == sm);
                                                    }
                                                    Err(argument_error("Disallowed value"))
                                                },
                                            }
                                        } else {
                                            Err(argument_error("Disallowed value"))
                                        }
                                    },
                                    None => {
                                        bind_into_map(fields, state, nm, value, Ghost(fm), Ghost(sm))
                                    },
                                }
                            },
                        }
                    } else {
                        match convert(value, fields[k].value_type) {
                            Some(cv) => {
                                if allowed_ok(&fields[k].allowed, &cv) {
                                    let ghost cvm = cv@;
                                    state.set(k, BoundValue::Single(cv));
                                    proof {
                                        lemma_bound_update(
                                            old(state)@,
                                            state@,
                                            k as int,
                                            state@[k as int],
                                        );
                                    }
                                    Ok(())
                                } else {
                                    Err(argument_error("Disallowed value"))
                                }
                            },
                            None => bind_into_map(fields, state, nm, value, Ghost(fm), Ghost(sm)),
                        }
                    }
                } else {
                    bind_into_map(fields, state, nm, value, Ghost(fm), Ghost(sm))
                }
            } else {
                bind_into_map(fields, state, nm, value, Ghost(fm), Ghost(sm))
            }
        },
    }
}

/// Routes a named argument into the named catch-all.
fn bind_into_map(
    fields: &Vec<ArgumentDescription>,
    state: &mut Vec<BoundValue>,
    nm: &String,
    value: &Value,
    Ghost(fm): Ghost<Seq<SpecArgumentDescription>>,
    Ghost(sm): Ghost<Seq<SpecBoundValue>>,
) -> (r: Result<(), JobError>)
    requires
        old(state)@.len() == fields@.len(),
        fm == spec_description_seq(fields@, 0),
        sm == spec_bound_seq(old(state)@, 0),
    ensures
        (match (match spec_map_index(fm, 0) {
            Some(m) => match spec_convert(value@, fm[m].value_type) {
                Some(cv) => if sm[m] matches SpecBoundValue::NamedMap(xs) {
                    Ok(sm.update(m, SpecBoundValue::NamedMap(sm[m]->NamedMap_0.push((nm@, cv)))))
                } else {
                    Err("Invalid argument"@)
                },
                None => Err("Invalid argument"@),
            },
            None => Err("Unknown argument"@),
        }) {
            Ok(st2) => r is Ok && spec_bound_seq(final(state)@, 0) == st2 && final(state)@.len()
                == fields@.len(),
            Err(m) => r matches Err(e) && e.message@ == m && final(state)@.len() == fields@.len()
                && spec_bound_seq(final(state)@, 0) == sm,
        }),
{
    proof {
        lemma_spec_description_seq(fields@, 0);
        lemma_spec_bound_seq(state@, 0);
    }
    match find_map_index(fields) {
        Some(m) => {
            match convert(value, fields[m].value_type) {
                Some(cv) => {
                    let cur = state.remove(m);
                    match cur {
                        BoundValue::NamedMap(mut xs) => {
                            let ghost xs0 = xs@;
                            let ghost cvm = cv@;
                            xs.push((nm.clone(), cv));
                            proof {
                                lemma_spec_field_seq(xs0, 0);
                                lemma_spec_field_seq(xs@, 0);
                                assert(spec_field_seq(xs@, 0) =~= spec_field_seq(xs0, 0).push(
                                    (nm@, cvm),
                                ));
                            }
                            state.insert(m, BoundValue::NamedMap(xs));
                            proof {
                                assert(state@ =~= old(state)@.update(m as int, state@[m as int]));
                                lemma_bound_update(old(state)@, state@, m as int, state@[m as int]);
                                assert(sm[m as int] matches SpecBoundValue::NamedMap(ys) && ys
                                    == spec_field_seq(xs0, 0));
                            }
                            Ok(())
                        },
                        other => {
                            state.insert(m, other);
                            proof {
                                assert(state@ =~= old(state)@);
                                assert(spec_bound_seq(state@, 0) == sm);
                            }
                            Err(argument_error("Invalid argument"))
                        },
                    }
                },
                None => Err(argument_error("Invalid argument")),
            }
        },
        None => Err(argument_error("Unknown argument")),
    }
}

/// Binds a runtime argument vector against a signature: one bound value
/// per descriptor, in declared order.
#[verifier::loop_isolation(false)]
pub fn bind_arguments(signature: &CommandSignature, arguments: &Vec<Argument>) -> (r: Result<
    Vec<BoundValue>,
    JobError,
>)
    ensures
        (match spec_bind_arguments(
            spec_description_seq(signature.arguments@, 0),
            spec_argument_seq(arguments@, 0),
        ) {
            Ok(st) => r matches Ok(out) && spec_bound_seq(out@, 0) == st,
            Err(m) => r matches Err(e) && e.message@ == m,
        }),
{
    let fields = &signature.arguments;
    let ghost fm = spec_description_seq(fields@, 0);
    let ghost am = spec_argument_seq(arguments@, 0);
    proof {
        lemma_spec_description_seq(fields@, 0);
        lemma_spec_argument_seq(arguments@, 0);
    }
    let mut state: Vec<BoundValue> = Vec::new();
    let mut k: usize = 0;
    let n = fields.len();
    while k < n
        invariant
            k <= n,
            n == fields@.len(),
            fm == spec_description_seq(fields@, 0),
            fm.len() == n,
            forall|j: int| 0 <= j < n ==> #[trigger] fm[j] == fields@[j]@,
            state@.len() == k as int,
            forall|j: int| 0 <= j < k ==> #[trigger] state@[j]@ == spec_initial_state(fm)[j],
        decreases n - k,
    {
        if fields[k].multiple {
            state.push(BoundValue::Repeated(Vec::new()));
        } else if fields[k].named {
            state.push(BoundValue::NamedMap(Vec::new()));
        } else {
            state.push(BoundValue::Missing);
        }
        proof {
            assert(spec_value_seq(Seq::<Value>::empty(), 0) =~= Seq::<SpecValue>::empty());
            assert(spec_field_seq(Seq::<(String, Value)>::empty(), 0) =~= Seq::<
                (Seq<char>, SpecValue),
            >::empty());
            assert(state@[k as int]@ == spec_initial_state(fm)[k as int]);
        }
        k = k + 1;
    }
    proof {
        lemma_spec_bound_seq(state@, 0);
        assert(spec_bound_seq(state@, 0) =~= spec_initial_state(fm));
    }
    let mut i: usize = 0;
    let a = arguments.len();
    while i < a
        invariant
            i <= a,
            a == arguments@.len(),
            fm == spec_description_seq(fields@, 0),
            fields == &signature.arguments,
            am == spec_argument_seq(arguments@, 0),
            am.len() == a,
            forall|j: int| 0 <= j < a ==> #[trigger] am[j] == arguments@[j]@,
            state@.len() == fields@.len(),
            spec_bind_all(fm, spec_initial_state(fm), am, 0) == spec_bind_all(
                fm,
                spec_bound_seq(state@, 0),
                am,
                i as int,
            ),
        decreases a - i,
    {
        let arg = &arguments[i];
        match bind_one(fields, &mut state, &arg.argument_type, &arg.value) {
            Ok(()) => {},
            Err(e) => {
                return Err(e);
            },
        }
        i = i + 1;
    }
    let ghost bound = spec_bound_seq(state@, 0);
    proof {
        assert(spec_bind_all(fm, bound, am, a as int) == Ok::<_, Seq<char>>(bound));
        assert(spec_bind_all(fm, spec_initial_state(fm), am, 0) == Ok::<_, Seq<char>>(bound));
    }
    let mut k2: usize = 0;
    while k2 < n
        invariant
            k2 <= n,
            n == fields@.len(),
            fm == spec_description_seq(fields@, 0),
            fm.len() == n,
            fields == &signature.arguments,
            forall|j: int| 0 <= j < n ==> #[trigger] fm[j] == fields@[j]@,
            state@.len() == n,
            spec_finalize(fm, bound, 0) == spec_finalize(fm, spec_bound_seq(state@, 0), k2 as int),
        decreases n - k2,
    {
        let is_missing = matches!(&state[k2], BoundValue::Missing);
        proof {
            lemma_spec_bound_seq(state@, 0);
        }
        if is_missing {
            match &fields[k2].default {
                Some(d) => {
                    let ghost st0 = state@;
                    state.set(k2, BoundValue::Single(d.duplicate()));
                    proof {
                        lemma_bound_update(st0, state@, k2 as int, state@[k2 as int]);
                    }
                },
                None => {
                    if !fields[k2].optional {
                        return Err(argument_error("Missing argument"));
                    }
                },
            }
        }
        k2 = k2 + 1;
    }
    Ok(state)
}

} // verus!
