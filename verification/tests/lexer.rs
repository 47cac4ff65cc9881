use jsl::error::Error;
use jsl::lexer::{Lexer, Resource};
use jsl::token::Token;

fn lex(source: &str) -> String {
    format!("{:?}", Lexer::new(source.to_string()).lex().unwrap())
}

fn lex_error(source: &str) -> Error {
    Lexer::new(source.to_string()).lex().unwrap_err()
}

fn resource(name: &str, text: &str) -> Resource {
    Resource { name: name.to_string(), text: text.to_string() }
}

fn lex_with(source: &str, resources: Vec<Resource>) -> Result<String, Error> {
    match Lexer::with_resources(source.to_string(), resources).lex() {
        Ok(tokens) => Ok(format!("{:?}", tokens)),
        Err(e) => Err(e),
    }
}

#[test]
fn empty_source_has_no_tokens() {
    assert_eq!(lex(""), "[]");
    assert_eq!(lex("  \n\t "), "[]");
}

#[test]
fn each_operator_by_its_name() {
    assert_eq!(lex("add minus div mul mod"), "[Add, Minus, Div, Mul, Mod]");
    assert_eq!(lex("swap rot dup drop"), "[Swap, Rot, Dup, Drop]");
    assert_eq!(lex("eq noteq bigger smaller"), "[Eq, Noteq, Bigger, Smaller]");
    assert_eq!(lex("true false put then times"), "[True, False, Put, Then, Times]");
    assert_eq!(lex("mempop memusage"), "[Mempop, Memusage]");
}

#[test]
fn numbers_and_names() {
    assert_eq!(
        lex("1 2.5 -3 1e3 nan inf"),
        "[Number(\"1\"), Number(\"2.5\"), Number(\"-3\"), Number(\"1e3\"), Number(\"nan\"), Number(\"inf\")]"
    );
    assert_eq!(
        lex("abc 1a Add array::nth ."),
        "[Ident(\"abc\"), Ident(\"1a\"), Ident(\"Add\"), Ident(\"array::nth\"), Ident(\".\")]"
    );
}

#[test]
fn closing_words_alone_are_names() {
    assert_eq!(lex("} ] end do ="), "[Ident(\"}\"), Ident(\"]\"), Ident(\"end\"), Ident(\"do\"), Ident(\"=\")]");
}

#[test]
fn words_that_take_the_next_word() {
    assert_eq!(
        lex("str hello let x set x call f get p"),
        "[Str(\"hello\"), Let(\"x\"), Assign(\"x\"), Call(\"f\"), Get(\"p\")]"
    );
    assert_eq!(lex("str add str str str 12"), "[Str(\"add\"), Str(\"str\"), Str(\"12\")]");
    assert_eq!(lex("let { 1"), "[Let(\"{\"), Number(\"1\")]");
}

#[test]
fn a_word_that_takes_the_next_needs_one() {
    for source in ["str", "let", "set", "call", "get", "import", "1 2 str", "fn"] {
        assert_eq!(lex_error(source), Error::MalformedProgram, "{}", source);
    }
}

#[test]
fn scope_runs_to_its_own_brace() {
    assert_eq!(lex("{ }"), "[Scope([])]");
    assert_eq!(lex("{ 1 }"), "[Scope([Number(\"1\")])]");
    assert_eq!(
        lex("{ 1 { 2 } 3 } 4"),
        "[Scope([Number(\"1\"), Scope([Number(\"2\")]), Number(\"3\")]), Number(\"4\")]"
    );
    assert_eq!(lex("{ { } { { } } } dup"), "[Scope([Scope([]), Scope([Scope([])])]), Dup]");
    assert_eq!(lex("1 then { 2 }"), "[Number(\"1\"), Then, Scope([Number(\"2\")])]");
}

#[test]
fn array_runs_to_the_first_bracket() {
    assert_eq!(lex("[ ]"), "[Array([])]");
    assert_eq!(lex("[ 1 2 3 ]"), "[Array([Number(\"1\"), Number(\"2\"), Number(\"3\")])]");
    assert_eq!(lex("[ { 1 } ] 2"), "[Array([Scope([Number(\"1\")])]), Number(\"2\")]");
    assert_eq!(lex_error("[ [ 1 ] ]"), Error::MalformedProgram);
}

#[test]
fn function_has_name_parameters_and_body() {
    assert_eq!(
        lex("fn add1 n do n 1 add end"),
        "[Function(\"add1\", [\"n\"]), Scope([Ident(\"n\"), Number(\"1\"), Add])]"
    );
    assert_eq!(lex("fn f do end"), "[Function(\"f\", []), Scope([])]");
    assert_eq!(
        lex("fn f a b c do a end 5"),
        "[Function(\"f\", [\"a\", \"b\", \"c\"]), Scope([Ident(\"a\")]), Number(\"5\")]"
    );
    assert_eq!(
        lex("fn f do fn g do 1 end 2 end 3"),
        "[Function(\"f\", []), Scope([Function(\"g\", []), Scope([Number(\"1\")]), Number(\"2\")]), Number(\"3\")]"
    );
}

#[test]
fn object_has_named_single_tokens() {
    assert_eq!(lex("object { }"), "[Object([])]");
    assert_eq!(
        lex("object { a = 1 b = add c = x } 2"),
        "[Object([(\"a\", Number(\"1\")), (\"b\", Add), (\"c\", Ident(\"x\"))]), Number(\"2\")]"
    );
}

#[test]
fn malformed_objects() {
    for source in [
        "object",
        "object x",
        "object {",
        "object { a",
        "object { a =",
        "object { a = 1",
        "object { a 1 }",
        "object { a : 1 }",
        "object { a = str }",
        "object { a = { }",
        "object { a = [ }",
    ] {
        assert_eq!(lex_error(source), Error::MalformedProgram, "{}", source);
    }
}

#[test]
fn unterminated_blocks() {
    for source in ["{", "{ 1", "{ { 1 }", "[", "[ 1", "fn f", "fn f a b", "fn f do", "fn f do 1", "fn f do fn g do end"] {
        assert_eq!(lex_error(source), Error::MalformedProgram, "{}", source);
    }
}

#[test]
fn import_takes_the_text_of_a_resource() {
    assert_eq!(
        lex_with("import lib dup", vec![resource("lib", "1 2 add")]),
        Ok("[Import([Number(\"1\"), Number(\"2\"), Add]), Dup]".to_string())
    );
    assert_eq!(lex_with("import empty", vec![resource("empty", "")]), Ok("[Import([])]".to_string()));
    assert_eq!(
        lex_with("import a", vec![resource("b", "2"), resource("a", "1"), resource("a", "3")]),
        Ok("[Import([Number(\"1\")])]".to_string())
    );
    assert_eq!(
        lex_with("import a import a", vec![resource("a", "1")]),
        Ok("[Import([Number(\"1\")]), Import([Number(\"1\")])]".to_string())
    );
    assert_eq!(
        lex_with("{ import a }", vec![resource("a", "import b"), resource("b", "true")]),
        Ok("[Scope([Import([Import([True])])])]".to_string())
    );
}

#[test]
fn import_failures() {
    assert_eq!(lex_error("import nothing"), Error::ResourceError);
    assert_eq!(lex_with("import b", vec![resource("a", "1")]), Err(Error::ResourceError));
    assert_eq!(lex_with("import a", vec![resource("a", "import a")]), Err(Error::ResourceError));
    assert_eq!(
        lex_with("import a", vec![resource("a", "import b"), resource("b", "import a")]),
        Err(Error::ResourceError)
    );
    assert_eq!(lex_with("import a", vec![resource("a", "{ 1")]), Err(Error::MalformedProgram));
}

#[test]
fn tokens_come_out_as_values() {
    let tokens = Lexer::new("str hi 3 times { dup }".to_string()).lex().unwrap();
    assert_eq!(tokens.len(), 4);
    assert!(matches!(&tokens[0], Token::Str(s) if s == "hi"));
    assert!(matches!(&tokens[1], Token::Number(s) if s == "3"));
    assert!(matches!(&tokens[2], Token::Times));
    match &tokens[3] {
        Token::Scope(body) => {
            assert_eq!(body.len(), 1);
            assert!(matches!(&body[0], Token::Dup));
        }
        _ => panic!("expected a block"),
    }
    let copy = tokens[3].copy();
    assert_eq!(format!("{:?}", copy), "Scope([Dup])");
}

#[test]
fn imports_are_the_words_after_import() {
    let names = |source: &str| Lexer::new(source.to_string()).imports();
    assert_eq!(names(""), Vec::<String>::new());
    assert_eq!(names("1 2 add"), Vec::<String>::new());
    assert_eq!(names("import"), Vec::<String>::new());
    assert_eq!(names("import a"), vec!["a"]);
    assert_eq!(names("import a 1 { import b } import c"), vec!["a", "b", "c"]);
    assert_eq!(names("import import import x"), vec!["import", "x"]);
    assert_eq!(names("1 import"), Vec::<String>::new());
    let with = Lexer::with_resources("import std".to_string(), vec![resource("std", "import more")]);
    assert_eq!(with.imports(), vec!["std"]);
}
