use std::collections::HashMap;

use starlark::collections::hash::Hashed;
use starlark::collections::small_map::SmallMap;
use starlark::collections::symbol_map::Symbol;
use starlark::eval::arguments::{Arguments, FunctionError, ParametersParser};
use starlark::eval::parameters::{docs_by_name, ParameterKind, ParametersSpec};
use starlark::values::dict::{Dict, DictKey};
use starlark::values::docs::{DocString, Param, Type};
use starlark::values::heap::{Heap, Object};
use starlark::values::unpack::ValueError;
use starlark::values::value::{FrozenValue, Value};

fn num(i: i32) -> Value {
    Value::new_int(i)
}

fn ints(values: &[i32]) -> Vec<Value> {
    values.iter().map(|i| Value::new_int(*i)).collect()
}

/// `f(a, b=2, *args, **kwargs)`
fn spec_f() -> ParametersSpec<Value> {
    let mut p = ParametersSpec::new("f".to_owned());
    p.required("a");
    p.defaulted("b", num(2));
    p.args();
    p.kwargs();
    p
}

/// `g(a, b)`
fn spec_g() -> ParametersSpec<Value> {
    let mut p = ParametersSpec::new("g".to_owned());
    p.required("a");
    p.required("b");
    p
}

fn tuple_of(heap: &Heap, v: Option<Value>) -> Vec<Value> {
    match heap.get(v.unwrap()) {
        Some(Object::Tuple(items)) => items.clone(),
        _ => panic!("not a tuple"),
    }
}

fn dict_of(heap: &Heap, v: Option<Value>) -> Vec<(String, Value)> {
    let dict = heap.unpack_dict(v.unwrap()).unwrap();
    dict.iter_hashed()
        .into_iter()
        .map(|(k, v)| (k.key().unpack_str().unwrap().to_owned(), v))
        .collect()
}

#[test]
fn test_parameter_unpack() {
    fn f<F: Fn(&Arguments, &Heap), const N: usize>(op: F) {
        for i in 0..=N {
            let mut heap = Heap::new();
            let mut p = Arguments::default();
            let pos = (0..i).map(|x| Value::new_int(x as i32)).collect::<Vec<_>>();
            let args = (i..N).map(|x| Value::new_int(x as i32)).collect::<Vec<_>>();
            let empty_args = args.is_empty();
            p.pos = &pos;
            p.args = Some(heap.alloc_list(&args));
            op(&p, &heap);
            if empty_args {
                p.args = None;
                op(&p, &heap);
            }
        }
    }

    f::<_, 0>(|p, heap| {
        assert_eq!(&p.positional::<0>(heap).unwrap(), &[]);
        assert!(&p.positional::<1>(heap).is_err());
        assert!(&p.positional::<2>(heap).is_err());
        assert_eq!(&p.optional::<0, 1>(heap).unwrap(), &([], [None]));
        assert!(&p.optional::<1, 1>(heap).is_err());
        assert_eq!(&p.optional::<0, 2>(heap).unwrap(), &([], [None, None]));
    });
    f::<_, 1>(|p, heap| {
        assert!(&p.positional::<0>(heap).is_err());
        assert_eq!(&p.positional::<1>(heap).unwrap(), &[Value::new_int(0)]);
        assert!(&p.positional::<2>(heap).is_err());
        assert_eq!(
            &p.optional::<0, 1>(heap).unwrap(),
            &([], [Some(Value::new_int(0))])
        );
        assert_eq!(
            &p.optional::<1, 1>(heap).unwrap(),
            &([Value::new_int(0)], [None])
        );
        assert_eq!(
            &p.optional::<0, 2>(heap).unwrap(),
            &([], [Some(Value::new_int(0)), None])
        );
    });
    f::<_, 2>(|p, heap| {
        assert!(&p.positional::<0>(heap).is_err());
        assert!(&p.positional::<1>(heap).is_err());
        assert_eq!(
            &p.positional::<2>(heap).unwrap(),
            &[Value::new_int(0), Value::new_int(1)]
        );
        assert!(p.optional::<0, 1>(heap).is_err());
        assert_eq!(
            &p.optional::<1, 1>(heap).unwrap(),
            &([Value::new_int(0)], [Some(Value::new_int(1))])
        );
        assert_eq!(
            &p.optional::<0, 2>(heap).unwrap(),
            &([], [Some(Value::new_int(0)), Some(Value::new_int(1))])
        );
    });
    f::<_, 3>(|p, heap| {
        assert!(&p.positional::<0>(heap).is_err());
        assert!(&p.positional::<1>(heap).is_err());
        assert!(&p.positional::<2>(heap).is_err());
        assert!(p.optional::<0, 1>(heap).is_err());
        assert!(p.optional::<1, 1>(heap).is_err());
        assert!(p.optional::<0, 2>(heap).is_err());
    });
}

#[test]
fn test_parameter_no_named() {
    let mut heap = Heap::new();
    let mut p = Arguments::default();
    assert!(p.no_named_args(&heap).is_ok());

    // Test lots of forms of kwargs work properly
    p.kwargs = Some(Value::new_none());
    assert!(p.no_named_args(&heap).is_err());
    p.kwargs = Some(heap.alloc_dict(Dict::empty()));
    assert!(p.no_named_args(&heap).is_ok());
    let mut sm = SmallMap::new();
    sm.insert_hashed(
        Hashed::new(DictKey::Str("test".to_owned())),
        Value::new_none(),
    );
    p.kwargs = Some(heap.alloc_dict(Dict::new(sm)));
    assert!(p.no_named_args(&heap).is_err());

    // Test named arguments work properly
    p.kwargs = None;
    let named = [Value::new_none()];
    p.named = &named;
    let names = [Symbol::new("test")];
    p.names = &names;
    assert!(p.no_named_args(&heap).is_err());
}

#[test]
fn test_parameter_iteration() {
    let mut p = ParametersSpec::<FrozenValue>::new("f".to_owned());
    p.required("a");
    p.optional("b");
    p.no_args();
    p.optional("c");
    p.kwargs();

    let params: Vec<(usize, String, &ParameterKind<FrozenValue>)> = p.iter_params();
    let params: Vec<(usize, &str, &ParameterKind<FrozenValue>)> =
        params.iter().map(|(i, s, k)| (*i, s.as_str(), *k)).collect();

    let expected: Vec<(usize, &str, &ParameterKind<FrozenValue>)> = vec![
        (0, "a", &ParameterKind::Required),
        (1, "b", &ParameterKind::Optional),
        (2, "c", &ParameterKind::Optional),
        (3, "**kwargs", &ParameterKind::KWargs),
    ];

    assert_eq!(expected, params);
    assert_eq!(Some(2), p.no_args_param_index());

    let mut p = ParametersSpec::<FrozenValue>::new("f".to_owned());
    p.required("a");
    p.args();
    p.kwargs();

    let params: Vec<(usize, String, &ParameterKind<FrozenValue>)> = p.iter_params();
    let params: Vec<(usize, &str, &ParameterKind<FrozenValue>)> =
        params.iter().map(|(i, s, k)| (*i, s.as_str(), *k)).collect();

    let expected: Vec<(usize, &str, &ParameterKind<FrozenValue>)> = vec![
        (0, "a", &ParameterKind::Required),
        (1, "*args", &ParameterKind::Args),
        (2, "**kwargs", &ParameterKind::KWargs),
    ];

    assert_eq!(expected, params);
    assert_eq!(None, p.no_args_param_index());

    let mut p = ParametersSpec::<FrozenValue>::new("f".to_owned());
    p.args();
    p.optional("a");
    p.optional("b");

    let params: Vec<(usize, String, &ParameterKind<FrozenValue>)> = p.iter_params();
    let params: Vec<(usize, &str, &ParameterKind<FrozenValue>)> =
        params.iter().map(|(i, s, k)| (*i, s.as_str(), *k)).collect();

    let expected: Vec<(usize, &str, &ParameterKind<FrozenValue>)> = vec![
        (0, "*args", &ParameterKind::Args),
        (1, "a", &ParameterKind::Optional),
        (2, "b", &ParameterKind::Optional),
    ];

    assert_eq!(expected, params);
}

#[test]
fn test_documentation() {
    // Make sure that documentation for some odder parameter specs works properly.
    let mut p = ParametersSpec::<FrozenValue>::new("f".to_owned());
    p.args();
    p.optional("a");
    p.optional("b");

    let b_docs = DocString {
        summary: "param b docs".to_owned(),
        details: None,
    };
    let expected = vec![
        Param::Args {
            name: "*args".to_owned(),
            docs: None,
            typ: None,
        },
        Param::Arg {
            name: "a".to_owned(),
            docs: None,
            typ: Some(Type {
                raw_type: "int".to_owned(),
            }),
            default_value: Some("None".to_owned()),
        },
        Param::Arg {
            name: "b".to_owned(),
            docs: Some(b_docs.clone()),
            typ: None,
            default_value: Some("None".to_owned()),
        },
    ];
    let mut types = HashMap::new();
    types.insert(
        1,
        Type {
            raw_type: "int".to_owned(),
        },
    );
    let docs = docs_by_name(vec![
        ("a".to_owned(), None),
        ("b".to_owned(), Some(b_docs)),
    ]);

    let params = p.documentation(types, docs, |_| "?".to_owned());
    assert_eq!(expected, params);
}

#[test]
fn documentation_shows_the_star_and_the_defaults() {
    let mut p = ParametersSpec::<Value>::new("f".to_owned());
    p.required("$x");
    p.no_args();
    p.defaulted("y", num(7));
    let params = p.documentation(HashMap::new(), docs_by_name(vec![]), |v| {
        v.unpack_int().unwrap().to_string()
    });
    assert_eq!(
        params,
        vec![
            Param::Arg {
                name: "x".to_owned(),
                docs: None,
                typ: None,
                default_value: None
            },
            Param::NoArgs,
            Param::Arg {
                name: "y".to_owned(),
                docs: None,
                typ: None,
                default_value: Some("7".to_owned())
            },
        ]
    );
}

#[test]
fn call_with_one_positional_takes_the_defaults() {
    // f(1) binds to [1, 2, (), {}]
    let p = spec_f();
    let mut heap = Heap::new();
    let pos = ints(&[1]);
    let mut args = Arguments::default();
    args.pos = &pos;
    let mut slots = [None; 4];
    p.collect(&args, &mut slots, &mut heap).unwrap();
    assert_eq!(slots[0], Some(num(1)));
    assert_eq!(slots[1], Some(num(2)));
    assert_eq!(tuple_of(&heap, slots[2]), vec![]);
    assert_eq!(dict_of(&heap, slots[3]), vec![]);
    assert_eq!(heap.allocated(), 2);
}

#[test]
fn call_with_extra_positional_and_named_fills_args_and_kwargs() {
    // f(1, 2, 3, 4, x=5) binds to [1, 2, (3, 4), {"x": 5}]
    let p = spec_f();
    let mut heap = Heap::new();
    let pos = ints(&[1, 2, 3, 4]);
    let named = ints(&[5]);
    let names = [Symbol::new("x")];
    let args = Arguments {
        pos: &pos,
        named: &named,
        names: &names,
        args: None,
        kwargs: None,
    };
    let mut slots = [None; 4];
    p.collect(&args, &mut slots, &mut heap).unwrap();
    assert_eq!(slots[0], Some(num(1)));
    assert_eq!(slots[1], Some(num(2)));
    assert_eq!(tuple_of(&heap, slots[2]), ints(&[3, 4]));
    assert_eq!(dict_of(&heap, slots[3]), vec![("x".to_owned(), num(5))]);
}

#[test]
fn positional_and_named_for_the_same_parameter_is_repeated() {
    // f(1, a=10) fails with RepeatedParameter("a")
    let p = spec_f();
    let mut heap = Heap::new();
    let pos = ints(&[1]);
    let named = ints(&[10]);
    let names = [Symbol::new("a")];
    let args = Arguments {
        pos: &pos,
        named: &named,
        names: &names,
        args: None,
        kwargs: None,
    };
    let mut slots = [None; 4];
    match p.collect(&args, &mut slots, &mut heap) {
        Err(FunctionError::RepeatedParameter { name }) => assert_eq!(name, "a"),
        other => panic!("{:?}", other),
    }
}

#[test]
fn missing_required_parameter_is_reported() {
    // g(1) fails with MissingParameter("b")
    let p = spec_g();
    let mut heap = Heap::new();
    let pos = ints(&[1]);
    let mut args = Arguments::default();
    args.pos = &pos;
    let mut slots = [None; 2];
    match p.collect(&args, &mut slots, &mut heap) {
        Err(FunctionError::MissingParameter { name, function }) => {
            assert_eq!(name, "b");
            assert_eq!(function, "g");
        }
        other => panic!("{:?}", other),
    }
    assert_eq!(slots[0], Some(num(1)));
    assert_eq!(slots[1], None);
}

#[test]
fn exact_positional_call_is_bound_slot_by_slot() {
    let p = spec_g();
    let mut heap = Heap::new();
    let pos = ints(&[8, 9]);
    let mut args = Arguments::default();
    args.pos = &pos;
    let mut slots = [None; 3];
    p.collect_inline(&args, &mut slots, &mut heap).unwrap();
    assert_eq!(slots, [Some(num(8)), Some(num(9)), None]);
    assert_eq!(heap.allocated(), 0);
    let again = p.collect_into::<2>(&args, &mut heap).unwrap();
    assert_eq!(again, [Some(num(8)), Some(num(9))]);
}

#[test]
fn missing_is_reported_before_extra() {
    // g(b=1, c=2): `a` is missing and `c` is unknown; the missing one wins.
    let p = spec_g();
    let mut heap = Heap::new();
    let named = ints(&[1, 2]);
    let names = [Symbol::new("b"), Symbol::new("c")];
    let mut args = Arguments::default();
    args.named = &named;
    args.names = &names;
    let mut slots = [None; 2];
    match p.collect(&args, &mut slots, &mut heap) {
        Err(FunctionError::MissingParameter { name, .. }) => assert_eq!(name, "a"),
        other => panic!("{:?}", other),
    }
    // g(1, 2, 3): nothing is missing, so the extra argument is reported.
    let pos = ints(&[1, 2, 3]);
    let mut args = Arguments::default();
    args.pos = &pos;
    let mut slots = [None; 2];
    match p.collect(&args, &mut slots, &mut heap) {
        Err(FunctionError::ExtraPositionalParameters { count, function }) => {
            assert_eq!(count, 1);
            assert_eq!(function, "g");
        }
        other => panic!("{:?}", other),
    }
    // g(1, 2, c=3, d=4): the extra names are reported in the order given.
    let pos = ints(&[1, 2]);
    let named = ints(&[3, 4]);
    let names = [Symbol::new("c"), Symbol::new("d")];
    let args = Arguments {
        pos: &pos,
        named: &named,
        names: &names,
        args: None,
        kwargs: None,
    };
    let mut slots = [None; 2];
    match p.collect(&args, &mut slots, &mut heap) {
        Err(FunctionError::ExtraNamedParameters { names, function }) => {
            assert_eq!(names, vec!["c".to_owned(), "d".to_owned()]);
            assert_eq!(function, "g");
        }
        other => panic!("{:?}", other),
    }
}

#[test]
fn star_args_continue_the_positional_arguments() {
    let p = spec_f();
    let mut heap = Heap::new();
    let star = heap.alloc_tuple(&ints(&[20, 30, 40]));
    let pos = ints(&[10]);
    let mut args = Arguments::default();
    args.pos = &pos;
    args.args = Some(star);
    let mut slots = [None; 4];
    p.collect(&args, &mut slots, &mut heap).unwrap();
    assert_eq!(slots[0], Some(num(10)));
    assert_eq!(slots[1], Some(num(20)));
    assert_eq!(tuple_of(&heap, slots[2]), ints(&[30, 40]));
    // What is not iterable cannot be `*args`.
    args.args = Some(num(3));
    let mut slots = [None; 4];
    assert!(matches!(
        p.collect(&args, &mut slots, &mut heap),
        Err(FunctionError::ArgsArrayIsNotIterable)
    ));
}

#[test]
fn kwargs_entries_bind_like_named_arguments() {
    let p = spec_f();
    let mut heap = Heap::new();
    let mut sm = SmallMap::new();
    sm.insert(DictKey::Str("b".to_owned()), num(5));
    sm.insert(DictKey::Str("z".to_owned()), num(6));
    let kw = heap.alloc_dict(Dict::new(sm));
    let pos = ints(&[1]);
    let mut args = Arguments::default();
    args.pos = &pos;
    args.kwargs = Some(kw);
    let mut slots = [None; 4];
    p.collect(&args, &mut slots, &mut heap).unwrap();
    assert_eq!(slots[1], Some(num(5)));
    assert_eq!(dict_of(&heap, slots[3]), vec![("z".to_owned(), num(6))]);

    // A name that is both explicit and in `**kwargs` is repeated.
    let named = ints(&[9]);
    let names = [Symbol::new("b")];
    args.named = &named;
    args.names = &names;
    let mut slots = [None; 4];
    match p.collect(&args, &mut slots, &mut heap) {
        Err(FunctionError::RepeatedParameter { name }) => assert_eq!(name, "b"),
        other => panic!("{:?}", other),
    }
    let names = [Symbol::new("z")];
    args.names = &names;
    let mut slots = [None; 4];
    match p.collect(&args, &mut slots, &mut heap) {
        Err(FunctionError::RepeatedParameter { name }) => assert_eq!(name, "z"),
        other => panic!("{:?}", other),
    }
}

#[test]
fn kwargs_must_be_a_dict_with_string_keys() {
    let p = spec_f();
    let mut heap = Heap::new();
    let pos = ints(&[1]);
    let mut args = Arguments::default();
    args.pos = &pos;
    args.kwargs = Some(num(1));
    let mut slots = [None; 4];
    assert!(matches!(
        p.collect(&args, &mut slots, &mut heap),
        Err(FunctionError::KwArgsIsNotDict)
    ));
    let mut sm = SmallMap::new();
    sm.insert(DictKey::Int(1), num(5));
    args.kwargs = Some(heap.alloc_dict(Dict::new(sm)));
    let mut slots = [None; 4];
    assert!(matches!(
        p.collect(&args, &mut slots, &mut heap),
        Err(FunctionError::ArgsValueIsNotString)
    ));
    assert!(matches!(
        args.names_map(&heap),
        Err(FunctionError::ArgsValueIsNotString)
    ));
    assert!(matches!(
        args.no_named_args(&heap),
        Err(FunctionError::ArgsValueIsNotString)
    ));
}

#[test]
fn binding_the_same_call_twice_gives_the_same_slots() {
    let p = spec_f();
    let pos = ints(&[1, 2, 3]);
    let named = ints(&[5, 6]);
    let names = [Symbol::new("x"), Symbol::new("y")];
    let args = Arguments {
        pos: &pos,
        named: &named,
        names: &names,
        args: None,
        kwargs: None,
    };
    let mut heap1 = Heap::new();
    let mut heap2 = Heap::new();
    let mut slots1 = [None; 4];
    let mut slots2 = [None; 4];
    p.collect(&args, &mut slots1, &mut heap1).unwrap();
    p.collect(&args, &mut slots2, &mut heap2).unwrap();
    assert_eq!(slots1, slots2);
    let words1: Vec<u64> = slots1.iter().map(|s| s.unwrap().ptr_value()).collect();
    let words2: Vec<u64> = slots2.iter().map(|s| s.unwrap().ptr_value()).collect();
    assert_eq!(words1, words2);
    assert_eq!(dict_of(&heap1, slots1[3]), dict_of(&heap2, slots2[3]));
}

#[test]
fn names_map_puts_explicit_names_before_kwargs() {
    let mut heap = Heap::new();
    let mut sm = SmallMap::new();
    sm.insert(DictKey::Str("k".to_owned()), num(3));
    let kw = heap.alloc_dict(Dict::new(sm));
    let named = ints(&[1, 2]);
    let names = [Symbol::new("n"), Symbol::new("m")];
    let mut args = Arguments::default();
    args.named = &named;
    args.names = &names;
    args.kwargs = Some(kw);
    let map = args.names_map(&heap).unwrap();
    let keys: Vec<String> = map.keys().into_iter().cloned().collect();
    assert_eq!(keys, vec!["n", "m", "k"]);
    assert_eq!(map.get(&"k".to_owned()), Some(&num(3)));
    let dict = args.names(&heap).unwrap();
    assert_eq!(dict.len(), 3);
    // A name of `**kwargs` that is explicit too is repeated.
    let names = [Symbol::new("n"), Symbol::new("k")];
    args.names = &names;
    match args.names_map(&heap) {
        Err(FunctionError::RepeatedParameter { name }) => assert_eq!(name, "k"),
        _ => panic!(),
    }
    args.kwargs = Some(num(0));
    assert!(matches!(
        args.names_map(&heap),
        Err(FunctionError::KwArgsIsNotDict)
    ));
    assert!(matches!(
        args.unpack_kwargs(&heap),
        Err(FunctionError::KwArgsIsNotDict)
    ));
}

#[test]
fn positional_helpers_count_the_arguments() {
    let mut heap = Heap::new();
    let star = heap.alloc_list(&ints(&[2, 3]));
    let pos = ints(&[1]);
    let mut args = Arguments::default();
    args.pos = &pos;
    assert_eq!(args.positional1(&heap).unwrap(), num(1));
    assert_eq!(args.optional1(&heap).unwrap(), Some(num(1)));
    assert!(args.no_positional_args(&heap).is_err());
    args.args = Some(star);
    assert_eq!(args.positions(&heap).unwrap(), ints(&[1, 2, 3]));
    match args.positional1(&heap) {
        Err(FunctionError::WrongNumberOfParameters { min, max, got }) => {
            assert_eq!((min, max, got), (1, 1, 1));
        }
        _ => panic!(),
    }
    match args.optional::<1, 1>(&heap) {
        Err(FunctionError::WrongNumberOfParameters { min, max, got }) => {
            assert_eq!((min, max, got), (1, 2, 3));
        }
        _ => panic!(),
    }
    assert!(Arguments::default().no_positional_args(&heap).is_ok());
    assert_eq!(Arguments::default().optional1(&heap).unwrap(), None);
    assert!(matches!(
        Arguments::unpack_kwargs_key(&DictKey::Int(3)),
        Err(FunctionError::ArgsValueIsNotString)
    ));
    assert_eq!(
        Arguments::unpack_kwargs_key(&DictKey::Str("s".to_owned())).unwrap(),
        "s"
    );
}

#[test]
fn parser_reads_the_bound_slots_in_order() {
    let mut p = ParametersSpec::<Value>::new("h".to_owned());
    p.required("a");
    p.optional("b");
    p.defaulted("c", Value::new_bool(true));
    let mut heap = Heap::new();
    let pos = ints(&[4]);
    let mut args = Arguments::default();
    args.pos = &pos;
    let r = p
        .parser(&args, &mut heap, |mut parser: ParametersParser, heap: &mut Heap| {
            let a: i32 = parser.next("a", heap).unwrap();
            let b: Option<i32> = parser.next_opt("b", heap).unwrap();
            let c: Result<i32, ValueError> = parser.next("c", heap);
            (a, b, c)
        })
        .unwrap();
    assert_eq!(r.0, 4);
    assert_eq!(r.1, None);
    match r.2 {
        Err(ValueError::IncorrectParameterTypeNamedWithExpected(name, expected, got)) => {
            assert_eq!((name.as_str(), expected.as_str(), got.as_str()), ("c", "int", "bool"));
        }
        _ => panic!(),
    }
    // A call that does not bind never reaches the continuation.
    let args = Arguments::default();
    let r = p.parser(&args, &mut heap, |_, _| panic!("not reached"));
    assert!(matches!(r, Err(FunctionError::MissingParameter { .. })));
}

#[test]
fn check_helpers_unpack_or_explain() {
    let mut heap = Heap::new();
    let s = heap.alloc_str("text");
    assert_eq!(Arguments::check_this::<i32>(num(3), &heap).unwrap(), 3);
    match Arguments::check_this::<i32>(s, &heap) {
        Err(ValueError::IncorrectParameterTypeNamedWithExpected(name, expected, got)) => {
            assert_eq!((name.as_str(), expected.as_str(), got.as_str()), ("this", "int", "string"));
        }
        _ => panic!(),
    }
    match Arguments::check_required::<i32>("n", None, &heap) {
        Err(ValueError::MissingRequired(name)) => assert_eq!(name, "n"),
        _ => panic!(),
    }
    assert_eq!(
        Arguments::check_required::<bool>("n", Some(Value::new_bool(false)), &heap).unwrap(),
        false
    );
    assert_eq!(Arguments::check_optional::<i32>("n", None, &heap).unwrap(), None);
    assert_eq!(
        Arguments::check_optional::<i32>("n", Some(num(-5)), &heap).unwrap(),
        Some(-5)
    );
    assert!(Arguments::check_optional::<i32>("n", Some(Value::new_none()), &heap).is_err());
    let slots = [Some(num(1))];
    let parser = ParametersParser::new(&slots);
    assert!(matches!(
        parser.this::<i32>(None, &heap),
        Err(ValueError::MissingThis)
    ));
    assert_eq!(parser.this::<Value>(Some(s), &heap).unwrap(), s);
}

#[test]
fn spec_describes_itself() {
    let mut p = ParametersSpec::<Value>::with_capacity("fun".to_owned(), 4);
    p.required("$pos");
    p.args();
    p.optional("named");
    p.kwargs();
    assert_eq!(p.len(), 4);
    assert_eq!(p.signature(), "fun");
    let mut collector = "call to ".to_owned();
    p.collect_signature(&mut collector);
    assert_eq!(collector, "call to fun");
    assert_eq!(p.param_name_at(0), "$pos");
    assert_eq!(p.param_name_at(1), "args");
    assert_eq!(p.param_name_at(2), "named");
    assert_eq!(p.param_name_at(3), "kwargs");
    assert_eq!(p.no_args_param_index(), None);
    let shown: Vec<String> = p.iter_params().into_iter().map(|e| e.1).collect();
    assert_eq!(shown, vec!["pos", "*args", "named", "**kwargs"]);
}

#[test]
fn freeze_keeps_the_spec_and_freezes_the_defaults() {
    let mut p = ParametersSpec::<Value>::new("f".to_owned());
    p.required("a");
    p.defaulted("b", num(2));
    p.kwargs();
    let frozen = p
        .freeze(|v: Value| v.unpack_frozen().ok_or("not frozen"))
        .unwrap();
    assert_eq!(frozen.len(), 3);
    let kinds: Vec<ParameterKind<FrozenValue>> =
        frozen.iter_params().into_iter().map(|e| e.2.clone()).collect();
    assert_eq!(
        kinds,
        vec![
            ParameterKind::Required,
            ParameterKind::Defaulted(FrozenValue::new_int(2)),
            ParameterKind::KWargs
        ]
    );
    let mut heap = Heap::new();
    let mut q = ParametersSpec::<Value>::new("f".to_owned());
    q.defaulted("s", heap.alloc_str("on the heap"));
    assert_eq!(
        q.freeze(|v: Value| v.unpack_frozen().ok_or("not frozen")).err(),
        Some("not frozen")
    );
}

#[test]
fn names_map_refuses_an_explicit_name_passed_twice() {
    // f(a=1, a=2)
    let mut heap = Heap::new();
    let named = ints(&[1, 2]);
    let names = [Symbol::new("a"), Symbol::new("a")];
    let mut args = Arguments::default();
    args.named = &named;
    args.names = &names;
    match args.names_map(&heap) {
        Err(FunctionError::RepeatedParameter { name }) => assert_eq!(name, "a"),
        _ => panic!(),
    }
    match args.names(&heap) {
        Err(FunctionError::RepeatedParameter { name }) => assert_eq!(name, "a"),
        _ => panic!(),
    }
    // The first name that comes twice is the one reported.
    let named = ints(&[1, 2, 3, 4, 5]);
    let names = [
        Symbol::new("x"),
        Symbol::new("b"),
        Symbol::new("c"),
        Symbol::new("c"),
        Symbol::new("b"),
    ];
    args.named = &named;
    args.names = &names;
    match args.names_map(&heap) {
        Err(FunctionError::RepeatedParameter { name }) => assert_eq!(name, "c"),
        _ => panic!(),
    }
    // A `**kwargs` that is no dictionary is reported first.
    args.kwargs = Some(num(0));
    assert!(matches!(
        args.names_map(&heap),
        Err(FunctionError::KwArgsIsNotDict)
    ));
    // A repeated explicit name is reported before a bad key of `**kwargs`.
    let mut sm = SmallMap::new();
    sm.insert(DictKey::Int(1), num(5));
    args.kwargs = Some(heap.alloc_dict(Dict::new(sm)));
    match args.names_map(&heap) {
        Err(FunctionError::RepeatedParameter { name }) => assert_eq!(name, "c"),
        _ => panic!(),
    }
    // Different names are all kept, in the order given.
    let names = [Symbol::new("p"), Symbol::new("q")];
    let named = ints(&[1, 2]);
    args.names = &names;
    args.named = &named;
    args.kwargs = None;
    let map = args.names_map(&heap).unwrap();
    assert_eq!(map.keys(), vec!["p", "q"]);
    assert_eq!(map.values(), vec![&num(1), &num(2)]);
}

#[test]
fn a_signature_counts_its_variadic_parameters() {
    let mut p = ParametersSpec::<Value>::new("f".to_owned());
    p.required("a");
    assert_eq!(p.variadic_count(), 0);
    p.args();
    assert_eq!(p.variadic_count(), 1);
    p.optional("b");
    p.kwargs();
    assert_eq!(p.variadic_count(), 2);
    let mut q = ParametersSpec::<Value>::new("g".to_owned());
    q.kwargs();
    assert_eq!(q.variadic_count(), 1);
    // Binding allocates one object for each of them, and none without.
    let mut heap = Heap::new();
    let pos = ints(&[1, 2]);
    let mut args = Arguments::default();
    args.pos = &pos;
    let mut slots = [None; 4];
    assert!(p.collect(&args, &mut slots, &mut heap).is_ok());
    assert_eq!(heap.allocated(), 2);
    let mut plain = ParametersSpec::<Value>::new("h".to_owned());
    plain.required("a");
    plain.optional("b");
    let mut slots = [None; 2];
    assert!(plain.collect(&args, &mut slots, &mut heap).is_ok());
    assert_eq!(heap.allocated(), 2);
    assert_eq!(slots, [Some(num(1)), Some(num(2))]);
}

#[test]
fn documentation_is_taken_by_name_and_only_once() {
    let doc = |s: &str| DocString {
        summary: s.to_owned(),
        details: Some("more".to_owned()),
    };
    // `$x` and `x` are both shown as `x`: the first takes what the map has.
    let mut p = ParametersSpec::<Value>::new("f".to_owned());
    p.required("$x");
    p.required("x");
    p.kwargs();
    let docs = docs_by_name(vec![
        ("x".to_owned(), Some(doc("old"))),
        ("**kwargs".to_owned(), Some(doc("rest"))),
        ("x".to_owned(), Some(doc("new"))),
        ("unused".to_owned(), None),
    ]);
    let mut types = HashMap::new();
    types.insert(1, Type { raw_type: "str".to_owned() });
    types.insert(9, Type { raw_type: "int".to_owned() });
    let params = p.documentation(types, docs, |_| "?".to_owned());
    assert_eq!(
        params,
        vec![
            Param::Arg {
                name: "x".to_owned(),
                docs: Some(doc("new")),
                typ: None,
                default_value: None
            },
            Param::Arg {
                name: "x".to_owned(),
                docs: None,
                typ: Some(Type { raw_type: "str".to_owned() }),
                default_value: None
            },
            Param::Kwargs {
                name: "**kwargs".to_owned(),
                docs: Some(doc("rest")),
                typ: None
            },
        ]
    );
}
