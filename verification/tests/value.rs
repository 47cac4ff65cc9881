use jsl::number::Relation;
use jsl::token::{copy_names, copy_properties, copy_tokens, Token};
use jsl::types::{find_binding, find_function, find_macro, Function, Let, Macro};
use jsl::value::{copy_items, StackType};

fn num(x: f64) -> StackType {
    StackType::Float(x.to_bits())
}

fn text(s: &str) -> StackType {
    StackType::String(s.to_string())
}

fn array(items: Vec<StackType>) -> StackType {
    StackType::Array(items)
}

#[test]
fn numbers_compare_as_doubles() {
    assert_eq!(num(1.0).compare(&num(2.0)), Relation::Less);
    assert_eq!(num(2.0).compare(&num(2.0)), Relation::Equal);
    assert_eq!(num(-0.0).compare(&num(0.0)), Relation::Equal);
    assert_eq!(num(3.0).compare(&num(-3.0)), Relation::Greater);
    assert_eq!(num(f64::NAN).compare(&num(f64::NAN)), Relation::Unordered);
}

#[test]
fn texts_compare_character_by_character() {
    let words = ["", "a", "ab", "abc", "b", "B", "\u{e9}", "z", "\u{1F600}", "a\u{e9}", "az"];
    for s in words {
        for t in words {
            let expected = if s < t {
                Relation::Less
            } else if s == t {
                Relation::Equal
            } else {
                Relation::Greater
            };
            assert_eq!(text(s).compare(&text(t)), expected, "{:?} {:?}", s, t);
        }
    }
}

#[test]
fn arrays_compare_element_by_element() {
    let a = array(vec![num(1.0), num(2.0)]);
    let b = array(vec![num(1.0), num(3.0)]);
    let short = array(vec![num(1.0)]);
    assert_eq!(a.compare(&a.copy()), Relation::Equal);
    assert_eq!(a.compare(&b), Relation::Less);
    assert_eq!(b.compare(&a), Relation::Greater);
    assert_eq!(short.compare(&a), Relation::Less);
    assert_eq!(a.compare(&short), Relation::Greater);
    assert_eq!(array(vec![]).compare(&array(vec![])), Relation::Equal);
    let with_nan = array(vec![num(f64::NAN)]);
    assert_eq!(with_nan.compare(&with_nan.copy()), Relation::Unordered);
    let nested = array(vec![array(vec![text("x")]), num(1.0)]);
    let other = array(vec![array(vec![text("y")]), num(0.0)]);
    assert_eq!(nested.compare(&other), Relation::Less);
}

#[test]
fn kinds_are_ordered_among_themselves() {
    assert_eq!(num(9.0).compare(&text("a")), Relation::Less);
    assert_eq!(num(9.0).compare(&array(vec![])), Relation::Less);
    assert_eq!(text("a").compare(&num(9.0)), Relation::Greater);
    assert_eq!(text("a").compare(&array(vec![])), Relation::Less);
    assert_eq!(array(vec![]).compare(&num(9.0)), Relation::Greater);
    assert_eq!(array(vec![]).compare(&text("a")), Relation::Greater);
}

#[test]
fn size_of_each_kind() {
    assert_eq!(text("hello").get_size(), 5);
    assert_eq!(text("").get_size(), 0);
    assert_eq!(text("h\u{e9}llo").get_size(), 6);
    assert_eq!(text("\u{1F600}").get_size(), 4);
    assert_eq!(array(vec![num(1.0), text("a"), array(vec![])]).get_size(), 3);
    assert_eq!(array(vec![]).get_size(), 0);
    assert_eq!(num(7.9).get_size(), 7);
    assert_eq!(num(-1.0).get_size(), 0);
    assert_eq!(num(f64::INFINITY).get_size(), u64::MAX);
}

#[test]
fn a_copy_is_the_same_value() {
    let v = array(vec![num(1.5), text("a"), array(vec![text("b")])]);
    let c = v.copy();
    assert_eq!(format!("{:?}", c), format!("{:?}", v));
    assert_eq!(v.compare(&c), Relation::Equal);
    let items = vec![num(1.0), text("x")];
    assert_eq!(format!("{:?}", copy_items(&items)), format!("{:?}", items));
}

#[test]
fn token_copies_are_the_same_tokens() {
    let tokens = vec![
        Token::Number("1".to_string()),
        Token::Scope(vec![Token::Add, Token::Array(vec![Token::Str("s".to_string())])]),
        Token::Object(vec![("a".to_string(), Token::True)]),
        Token::Function("f".to_string(), vec!["x".to_string(), "y".to_string()]),
        Token::Import(vec![Token::Let("v".to_string()), Token::Assign("v".to_string())]),
        Token::Call("f".to_string()),
        Token::Get("a".to_string()),
        Token::Ident("v".to_string()),
    ];
    assert_eq!(format!("{:?}", copy_tokens(&tokens)), format!("{:?}", tokens));
    let properties = vec![("a".to_string(), Token::True), ("b".to_string(), Token::Scope(vec![]))];
    assert_eq!(format!("{:?}", copy_properties(&properties)), format!("{:?}", properties));
    let names = vec!["a".to_string(), "b".to_string()];
    assert_eq!(copy_names(&names), names);
}

#[test]
fn function_starts_without_a_body() {
    let args = vec![Let { name: "n".to_string(), value: num(0.0) }];
    let mut f = Function::new("add1".to_string(), args);
    assert_eq!(f.name, "add1");
    assert_eq!(f.args.len(), 1);
    assert_eq!(f.args[0].name, "n");
    assert!(f.scope.is_empty());
    f.set_scope(vec![Token::Ident("n".to_string()), Token::Add]);
    assert_eq!(format!("{:?}", f.scope), "[Ident(\"n\"), Add]");
    assert_eq!(f.name, "add1");
    assert_eq!(f.args.len(), 1);
    f.set_scope(vec![]);
    assert!(f.scope.is_empty());
}

#[test]
fn a_name_finds_the_first_of_its_kind() {
    let bindings = vec![
        Let { name: "a".to_string(), value: num(1.0) },
        Let { name: "b".to_string(), value: num(2.0) },
        Let { name: "a".to_string(), value: num(3.0) },
    ];
    assert_eq!(find_binding(&bindings, &"a".to_string()), Some(0));
    assert_eq!(find_binding(&bindings, &"b".to_string()), Some(1));
    assert_eq!(find_binding(&bindings, &"c".to_string()), None);
    assert_eq!(find_binding(&vec![], &"a".to_string()), None);
    let functions = vec![Function::new("f".to_string(), vec![]), Function::new("g".to_string(), vec![])];
    assert_eq!(find_function(&functions, &"g".to_string()), Some(1));
    assert_eq!(find_function(&functions, &"h".to_string()), None);
    let macros = vec![
        Macro { name: "m".to_string(), body: vec![] },
        Macro { name: "m".to_string(), body: vec![Token::True] },
    ];
    assert_eq!(find_macro(&macros, &"m".to_string()), Some(0));
    assert_eq!(find_macro(&macros, &"".to_string()), None);
}
