use crush::argument::{Argument, ArgumentDefinition, ArgumentVecCompiler};
use crush::ast::{Location, TrackedString};
use crush::binding::{bind_arguments, BoundValue};
use crush::value::{
    ArgumentDescription, CommandSignature, CompileContext, Scope, Value, ValueDefinition,
    ValueType,
};

fn err_message<T>(r: Result<T, crush::JobError>) -> String {
    match r {
        Err(e) => e.message,
        Ok(_) => panic!("expected an error"),
    }
}

fn loc() -> Location {
    Location::new(0, 0)
}

fn field(name: &str, value_type: ValueType) -> ArgumentDescription {
    ArgumentDescription {
        name: name.to_string(),
        value_type,
        unnamed: false,
        named: false,
        optional: false,
        multiple: false,
        allowed: Vec::new(),
        default: None,
    }
}

fn signature_of(fields: Vec<ArgumentDescription>) -> CommandSignature {
    CommandSignature { arguments: fields }
}

#[test]
fn allowed_values() {
    let mut str_field = field("str_val", ValueType::String);
    str_field.allowed = vec![Value::string("aa"), Value::string("bb"), Value::string("cc")];
    let str_sig = signature_of(vec![str_field]);
    let bound = bind_arguments(
        &str_sig,
        &vec![Argument::named("str_val", Value::string("aa"), loc())],
    )
    .unwrap();
    match &bound[0] {
        BoundValue::Single(Value::String(s)) => assert_eq!(s, "aa"),
        _ => panic!("expected a bound string"),
    }
    assert!(bind_arguments(
        &str_sig,
        &vec![Argument::named("str_val", Value::string("zz"), loc())],
    )
    .is_err());

    let mut char_field = field("char_val", ValueType::Char);
    char_field.allowed = vec![Value::Char('a'), Value::Char('b'), Value::Char('c')];
    let char_sig = signature_of(vec![char_field]);
    let bound = bind_arguments(
        &char_sig,
        &vec![Argument::named("char_val", Value::string("a"), loc())],
    )
    .unwrap();
    match &bound[0] {
        BoundValue::Single(Value::Char(c)) => assert_eq!(*c, 'a'),
        _ => panic!("expected a bound char"),
    }
    assert!(bind_arguments(
        &char_sig,
        &vec![Argument::named("char_val", Value::string("z"), loc())],
    )
    .is_err());

    let mut int_field = field("int_val", ValueType::Integer);
    int_field.allowed = vec![Value::Integer(1), Value::Integer(2), Value::Integer(3)];
    let int_sig = signature_of(vec![int_field]);
    let bound = bind_arguments(
        &int_sig,
        &vec![Argument::named("int_val", Value::Integer(1), loc())],
    )
    .unwrap();
    match &bound[0] {
        BoundValue::Single(Value::Integer(v)) => assert_eq!(*v, 1),
        _ => panic!("expected a bound integer"),
    }
    assert!(bind_arguments(
        &int_sig,
        &vec![Argument::named("int_val", Value::Integer(9), loc())],
    )
    .is_err());
}

#[test]
fn option_signature() {
    let mut int_field = field("int_val", ValueType::Integer);
    int_field.optional = true;
    let sig = signature_of(vec![int_field]);
    let bound = bind_arguments(
        &sig,
        &vec![Argument::named("int_val", Value::Integer(9), loc())],
    )
    .unwrap();
    match &bound[0] {
        BoundValue::Single(Value::Integer(v)) => assert_eq!(*v, 9),
        _ => panic!("expected a bound integer"),
    }
    let bound = bind_arguments(&sig, &vec![]).unwrap();
    assert!(matches!(&bound[0], BoundValue::Missing));
}

#[test]
fn default_signature() {
    let mut int_field = field("int_val", ValueType::Integer);
    int_field.default = Some(Value::Integer(8));
    let sig = signature_of(vec![int_field]);
    let bound = bind_arguments(
        &sig,
        &vec![Argument::named("int_val", Value::Integer(9), loc())],
    )
    .unwrap();
    match &bound[0] {
        BoundValue::Single(Value::Integer(v)) => assert_eq!(*v, 9),
        _ => panic!("expected a bound integer"),
    }
    let bound = bind_arguments(&sig, &vec![]).unwrap();
    match &bound[0] {
        BoundValue::Single(Value::Integer(v)) => assert_eq!(*v, 8),
        _ => panic!("expected the default"),
    }
}

fn repeated_strings(bound: &BoundValue) -> Vec<String> {
    match bound {
        BoundValue::Repeated(items) => items
            .iter()
            .map(|v| match v {
                Value::String(s) => s.clone(),
                _ => panic!("expected a string element"),
            })
            .collect(),
        _ => panic!("expected a repeated binding"),
    }
}

#[test]
fn list_signature() {
    let mut list_field = field("list_val", ValueType::String);
    list_field.multiple = true;
    let sig = signature_of(vec![list_field]);
    let bound = bind_arguments(
        &sig,
        &vec![
            Argument::named("list_val", Value::string("a"), loc()),
            Argument::named("list_val", Value::string("b"), loc()),
            Argument::named("list_val", Value::string("c"), loc()),
        ],
    )
    .unwrap();
    assert_eq!(repeated_strings(&bound[0]), vec!["a", "b", "c"]);

    let bound = bind_arguments(&sig, &vec![]).unwrap();
    assert_eq!(repeated_strings(&bound[0]), Vec::<String>::new());

    let bound = bind_arguments(
        &sig,
        &vec![
            Argument::named("list_val", Value::string("a"), loc()),
            Argument::named(
                "list_val",
                Value::List(vec![Value::string("b"), Value::string("c")]),
                loc(),
            ),
            Argument::named("list_val", Value::string("d"), loc()),
        ],
    )
    .unwrap();
    assert_eq!(repeated_strings(&bound[0]), vec!["a", "b", "c", "d"]);
}

fn map_entries(bound: &BoundValue) -> Vec<(String, String)> {
    match bound {
        BoundValue::NamedMap(entries) => entries
            .iter()
            .map(|(k, v)| match v {
                Value::String(s) => (k.clone(), s.clone()),
                _ => panic!("expected a string entry"),
            })
            .collect(),
        _ => panic!("expected a named-map binding"),
    }
}

#[test]
fn named_signature() {
    let mut map_field = field("unnamed_val", ValueType::String);
    map_field.named = true;
    let sig = signature_of(vec![map_field]);
    let bound = bind_arguments(
        &sig,
        &vec![
            Argument::named("a", Value::string("A"), loc()),
            Argument::named("b", Value::string("B"), loc()),
            Argument::named("c", Value::string("C"), loc()),
        ],
    )
    .unwrap();
    assert_eq!(
        map_entries(&bound[0]),
        vec![
            ("a".to_string(), "A".to_string()),
            ("b".to_string(), "B".to_string()),
            ("c".to_string(), "C".to_string()),
        ]
    );
}

#[test]
fn named_signature_type_check() {
    let mut foo_field = field("foo", ValueType::Integer);
    foo_field.optional = true;
    let mut map_field = field("unnamed_val", ValueType::String);
    map_field.named = true;
    let sig = signature_of(vec![foo_field, map_field]);
    let bound = bind_arguments(
        &sig,
        &vec![Argument::named("foo", Value::string("s"), loc())],
    )
    .unwrap();
    assert!(matches!(&bound[0], BoundValue::Missing));
    assert_eq!(
        map_entries(&bound[1]),
        vec![("foo".to_string(), "s".to_string())]
    );
}

#[test]
fn named_signature_with_bad_type() {
    let mut foo_field = field("foo", ValueType::Integer);
    foo_field.optional = true;
    let mut map_field = field("unnamed_val", ValueType::String);
    map_field.named = true;
    let sig = signature_of(vec![foo_field, map_field]);
    assert!(bind_arguments(
        &sig,
        &vec![Argument::named("foo", Value::Bool(true), loc())],
    )
    .is_err());
}

fn token(s: &str, a: usize, b: usize) -> TrackedString {
    TrackedString::new(s.to_string(), Location::new(a, b))
}

fn literal(v: Value) -> ValueDefinition {
    ValueDefinition::Literal(v, Location::new(0, 0))
}

fn empty_context() -> CompileContext {
    CompileContext { env: Scope::new() }
}

#[test]
fn compile_spread_list_keeps_order() {
    let defs = vec![
        ArgumentDefinition::named(&token("lead", 0, 4), literal(Value::Integer(1))),
        ArgumentDefinition::list(literal(Value::List(vec![
            Value::Integer(2),
            Value::Integer(3),
        ]))),
        ArgumentDefinition::unnamed(literal(Value::Integer(4))),
    ];
    let (args, this) = defs.compile(&empty_context()).unwrap();
    assert!(this.is_none());
    assert_eq!(args.len(), 4);
    let expected = [
        (Some("lead"), 1i128),
        (None, 2),
        (None, 3),
        (None, 4),
    ];
    for (arg, (name, value)) in args.iter().zip(expected.iter()) {
        assert_eq!(arg.argument_type.as_deref(), *name);
        match &arg.value {
            Value::Integer(v) => assert_eq!(v, value),
            _ => panic!("expected integers"),
        }
    }
}

#[test]
fn compile_later_receiver_wins() {
    let defs = vec![
        ArgumentDefinition::named(&token("this", 0, 4), literal(Value::Integer(1))),
        ArgumentDefinition::named(&token("this", 5, 9), literal(Value::Integer(2))),
        ArgumentDefinition::named(&token("a", 10, 11), literal(Value::Integer(3))),
    ];
    let (args, this) = defs.compile(&empty_context()).unwrap();
    match this {
        Some(Value::Integer(v)) => assert_eq!(v, 2),
        _ => panic!("expected the later receiver to win"),
    }
    assert_eq!(args.len(), 1);
    assert_eq!(args[0].argument_type.as_deref(), Some("a"));
}

#[test]
fn compile_spread_errors() {
    let not_a_list = vec![ArgumentDefinition::list(literal(Value::Integer(1)))];
    assert_eq!(
        err_message(not_a_list.compile(&empty_context())),
        "Argument list must be of type list"
    );

    let not_a_dict = vec![ArgumentDefinition::dict(literal(Value::Integer(1)))];
    assert_eq!(
        err_message(not_a_dict.compile(&empty_context())),
        "Argument list must be of type list"
    );

    let bad_key = vec![ArgumentDefinition::dict(literal(Value::Dict(vec![(
        Value::Integer(1),
        Value::Integer(2),
    )])))];
    assert_eq!(
        err_message(bad_key.compile(&empty_context())),
        "Argument dict must have string keys"
    );
}

#[test]
fn compile_spread_dict_emits_named() {
    let defs = vec![ArgumentDefinition::dict(literal(Value::Dict(vec![
        (Value::string("k1"), Value::Integer(10)),
        (Value::string("k2"), Value::Integer(20)),
    ])))];
    let (args, this) = defs.compile(&empty_context()).unwrap();
    assert!(this.is_none());
    assert_eq!(args.len(), 2);
    assert_eq!(args[0].argument_type.as_deref(), Some("k1"));
    assert_eq!(args[1].argument_type.as_deref(), Some("k2"));
}

#[test]
fn compile_lookup_aborts_on_unknown() {
    let mut env = Scope::new();
    env.declare("known", Value::Integer(5));
    let context = CompileContext { env };
    let defs = vec![
        ArgumentDefinition::unnamed(ValueDefinition::Lookup(token("known", 0, 5))),
        ArgumentDefinition::unnamed(ValueDefinition::Lookup(token("missing", 6, 13))),
    ];
    assert_eq!(err_message(defs.compile(&context)), "Unknown value");
}

#[test]
fn column_names_probes_collisions() {
    let args = vec![
        Argument::unnamed(Value::Integer(0), loc()),
        Argument::named("a", Value::Integer(0), loc()),
        Argument::unnamed(Value::Integer(0), loc()),
        Argument::named("a", Value::Integer(0), loc()),
    ];
    let names = crush::argument::column_names(&args);
    assert_eq!(names, vec!["_1", "a", "_2", "a1"]);
}

#[test]
fn column_names_distinct_even_when_claimed() {
    let args = vec![
        Argument::named("x", Value::Integer(0), loc()),
        Argument::named("x1", Value::Integer(0), loc()),
        Argument::named("x", Value::Integer(0), loc()),
    ];
    let names = crush::argument::column_names(&args);
    assert_eq!(names, vec!["x", "x1", "x2"]);
    for i in 0..names.len() {
        for j in 0..i {
            assert_ne!(names[i], names[j]);
        }
    }
}

#[test]
fn unnamed_value_rejects_named() {
    let named = ArgumentDefinition::named(&token("a", 0, 1), literal(Value::Integer(1)));
    assert_eq!(err_message(named.unnamed_value()), "Expected an unnamed argument");
    let unnamed = ArgumentDefinition::unnamed(literal(Value::Integer(1)));
    assert!(unnamed.unnamed_value().is_ok());
}
