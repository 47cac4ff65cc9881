use jsl::context::Context;
use jsl::error::Error;
use jsl::frame::Action;
use jsl::interpreter::Interpreter;
use jsl::lexer::Lexer;
use jsl::machine::{MemoryScope, Operator};
use jsl::token::Token;
use jsl::value::StackType;

fn num(x: f64) -> StackType {
    StackType::Float(x.to_bits())
}

fn text(s: &str) -> StackType {
    StackType::String(s.to_string())
}

fn show(v: &StackType) -> String {
    match v {
        StackType::Float(bits) => format!("{}", f64::from_bits(*bits)),
        StackType::String(s) => s.clone(),
        StackType::Array(items) => {
            let parts: Vec<String> = items.iter().map(show).collect();
            format!("[{}]", parts.join(", "))
        }
    }
}

fn shown(stack: &Vec<StackType>) -> Vec<String> {
    stack.iter().map(show).collect()
}

fn compute(op: Operator, left: u64, right: u64) -> u64 {
    let a = f64::from_bits(left);
    let b = f64::from_bits(right);
    let r = match op {
        Operator::Add => a + b,
        Operator::Minus => a - b,
        Operator::Div => a / b,
        Operator::Mul => a * b,
        Operator::Mod => a % b,
    };
    r.to_bits()
}

struct Host {
    printed: Vec<String>,
    files: Vec<(String, String)>,
}

fn drive(interp: &mut Interpreter, host: &mut Host) -> Result<(), Error> {
    loop {
        match interp.run(1000) {
            Action::Continue => {}
            Action::Paused => {}
            Action::Done => return Ok(()),
            Action::Literal(word) => {
                let x: f64 = word.parse().unwrap();
                interp.context.push(num(x));
            }
            Action::Arith(op, left, right) => {
                interp.context.push(StackType::Float(compute(op, left, right)));
            }
            Action::Print(v) => host.printed.push(show(&v)),
            Action::ReadFile(path) => {
                let found = host.files.iter().find(|f| f.0 == path).unwrap();
                interp.context.push(text(&found.1));
            }
            Action::WriteFile(path, content) => host.files.push((path, content)),
            Action::Fail(e) => return Err(e),
        }
    }
}

fn feed(interp: &mut Interpreter, host: &mut Host, source: &str) -> Result<(), Error> {
    let tokens = Lexer::new(source.to_string()).lex().unwrap();
    interp.parse(tokens);
    drive(interp, host)
}

fn eval(source: &str) -> (Interpreter, Host) {
    let mut interp = Interpreter::new();
    let mut host = Host { printed: vec![], files: vec![] };
    feed(&mut interp, &mut host, source).unwrap();
    (interp, host)
}

fn stack_of(source: &str) -> Vec<String> {
    let (interp, _) = eval(source);
    shown(&interp.context.stack)
}

fn failure(source: &str) -> Error {
    let mut interp = Interpreter::new();
    let mut host = Host { printed: vec![], files: vec![] };
    feed(&mut interp, &mut host, source).unwrap_err()
}

#[test]
fn new_interpreter_is_empty() {
    let interp = Interpreter::new();
    assert!(interp.context.stack.is_empty());
    assert!(interp.context.memory.is_empty());
    assert!(interp.context.functions.is_empty());
    assert!(interp.context.macros.is_empty());
    assert!(interp.context.locals.is_empty());
    assert_eq!(interp.context.mem_scope, MemoryScope::Global);
    assert!(interp.frames.is_empty());
}

#[test]
fn step_on_nothing_is_done() {
    let mut interp = Interpreter::new();
    assert!(matches!(interp.step(), Action::Done));
    assert!(matches!(interp.run(5), Action::Done));
}

#[test]
fn run_with_no_steps_pauses() {
    let mut interp = Interpreter::new();
    interp.parse(vec![Token::True]);
    assert!(matches!(interp.run(0), Action::Paused));
    assert!(interp.context.stack.is_empty());
    assert!(matches!(interp.run(1), Action::Paused));
    assert_eq!(shown(&interp.context.stack), vec!["1"]);
    assert!(matches!(interp.run(10), Action::Done));
}

#[test]
fn add_yields_the_sum() {
    for (a, b) in [(1.0, 2.0), (0.5, 0.25), (-3.0, 7.5), (1e300, 1e300)] {
        let (interp, _) = eval(&format!("{:?} {:?} add", a, b));
        assert_eq!(interp.context.stack.len(), 1);
        assert_eq!(show(&interp.context.stack[0]), format!("{}", a + b));
    }
}

#[test]
fn minus_takes_the_first_from_the_second() {
    for (a, b) in [(1.0, 2.0), (10.0, 3.0), (-3.0, 7.5)] {
        let (interp, _) = eval(&format!("{:?} {:?} minus", a, b));
        assert_eq!(show(&interp.context.stack[0]), format!("{}", b - a));
    }
}

#[test]
fn arithmetic_hands_the_top_over_as_left_operand() {
    let mut interp = Interpreter::new();
    interp.context.push(num(2.0));
    interp.context.push(num(8.0));
    interp.parse(vec![Token::Div]);
    match interp.step() {
        Action::Arith(op, left, right) => {
            assert_eq!(op, Operator::Div);
            assert_eq!(f64::from_bits(left), 8.0);
            assert_eq!(f64::from_bits(right), 2.0);
        }
        _ => panic!("expected a request for arithmetic"),
    }
    assert!(interp.context.stack.is_empty());
}

#[test]
fn div_mul_mod() {
    assert_eq!(stack_of("2 8 div"), vec!["4"]);
    assert_eq!(stack_of("3 4 mul"), vec!["12"]);
    assert_eq!(stack_of("3 10 mod"), vec!["1"]);
}

#[test]
fn dup_leaves_two_ones() {
    assert_eq!(stack_of("1 dup"), vec!["1", "1"]);
}

#[test]
fn drop_undoes_a_push() {
    assert_eq!(stack_of("7 drop"), Vec::<String>::new());
    assert_eq!(stack_of("5 str x drop"), vec!["5"]);
    assert_eq!(stack_of("5 [ 1 2 ] drop"), vec!["5"]);
}

#[test]
fn swap_and_rot() {
    assert_eq!(stack_of("1 2 swap"), vec!["2", "1"]);
    assert_eq!(stack_of("1 2 3 rot"), vec!["3", "2", "1"]);
}

#[test]
fn then_runs_its_block_on_one_only() {
    assert_eq!(stack_of("1 then { 2 } "), vec!["2"]);
    assert_eq!(stack_of("0 then { 2 }"), Vec::<String>::new());
    assert_eq!(stack_of("2 then { 2 }"), Vec::<String>::new());
    assert_eq!(stack_of("str 1 then { 2 }"), Vec::<String>::new());
    assert_eq!(stack_of("true then { 5 } 6"), vec!["5", "6"]);
}

#[test]
fn times_repeats_its_block() {
    let mut interp = Interpreter::new();
    let mut host = Host { printed: vec![], files: vec![] };
    interp.context.push(num(0.0));
    feed(&mut interp, &mut host, "3 times { 1 add } ").unwrap();
    assert_eq!(shown(&interp.context.stack), vec!["3"]);
}

#[test]
fn times_truncates_its_count() {
    assert_eq!(stack_of("0 2.9 times { 1 add }"), vec!["2"]);
    assert_eq!(stack_of("0 0.9 times { 1 add }"), vec!["0"]);
    assert_eq!(stack_of("0 -4 times { 1 add }"), vec!["0"]);
    assert_eq!(stack_of("0 nan times { 1 add }"), vec!["0"]);
    assert_eq!(stack_of("0 0 times { 1 add }"), vec!["0"]);
}

#[test]
fn str_pushes_a_text_and_put_prints_it() {
    let (interp, _) = eval("str hello");
    assert_eq!(interp.context.stack.len(), 1);
    match &interp.context.stack[0] {
        StackType::String(s) => assert_eq!(s, "hello"),
        _ => panic!("expected a text"),
    }
    let (interp, host) = eval("str hello put");
    assert!(interp.context.stack.is_empty());
    assert_eq!(host.printed, vec!["hello"]);
}

#[test]
fn put_prints_in_order() {
    let (_, host) = eval("1 put 2.5 put [ 1 2 ] put");
    assert_eq!(host.printed, vec!["1", "2.5", "[1, 2]"]);
}

#[test]
fn array_literal_and_nth() {
    let (interp, _) = eval("[ 1 2 3 ]");
    match &interp.context.stack[0] {
        StackType::Array(items) => assert_eq!(shown(items), vec!["1", "2", "3"]),
        _ => panic!("expected an array"),
    }
    assert_eq!(stack_of("[ 1 2 3 ] 1 array::nth"), vec!["2"]);
    assert_eq!(stack_of("[ 1 2 3 ] 2.7 array::nth"), vec!["3"]);
}

#[test]
fn array_literal_sees_nothing_outside() {
    assert_eq!(failure("5 let x [ x ]"), Error::UnresolvedIdentifier);
    assert_eq!(failure("5 [ dup ]"), Error::StackUnderflow);
    assert_eq!(stack_of("5 let x [ 1 let y y ] memusage"), vec!["[1]", "1"]);
}

#[test]
fn array_pop_and_push() {
    assert_eq!(stack_of("[ 1 2 3 ] array::pop"), vec!["3", "[1, 2]"]);
    assert_eq!(stack_of("[ 1 2 ] 9 array::push"), vec!["[1, 2, 9]"]);
    assert_eq!(stack_of("[ 1 ] dup 9 array::push"), vec!["[1]", "[1, 9]"]);
    assert_eq!(failure("[ ] array::pop"), Error::OutOfRange);
    assert_eq!(failure("[ 1 ] 1 array::nth"), Error::OutOfRange);
    assert_eq!(failure("1 1 array::nth"), Error::TypeMismatch);
    assert_eq!(failure("[ 1 ] str a array::nth"), Error::TypeMismatch);
    assert_eq!(failure("1 array::pop"), Error::TypeMismatch);
    assert_eq!(failure("1 2 array::push"), Error::TypeMismatch);
}

#[test]
fn length_of_each_kind() {
    assert_eq!(stack_of("str hello length"), vec!["5"]);
    assert_eq!(stack_of("str h\u{e9}llo length"), vec!["6"]);
    assert_eq!(stack_of("[ 1 2 3 ] length"), vec!["3"]);
    assert_eq!(stack_of("7.9 length"), vec!["7"]);
    assert_eq!(stack_of("-7.9 length"), vec!["0"]);
    assert_eq!(failure("length"), Error::StackUnderflow);
}

#[test]
fn function_call_binds_its_parameter() {
    assert_eq!(stack_of("fn add1 n do n 1 add end 5 call add1"), vec!["6"]);
}

#[test]
fn function_definition_runs_nothing() {
    let (interp, _) = eval("fn f do 1 2 3 end");
    assert!(interp.context.stack.is_empty());
    assert_eq!(interp.context.functions.len(), 1);
    assert_eq!(interp.context.functions[0].name, "f");
    assert_eq!(interp.context.functions[0].scope.len(), 3);
}

#[test]
fn call_binds_the_top_to_the_first_parameter() {
    assert_eq!(stack_of("fn f a b do a b end 1 2 call f"), vec!["2", "1"]);
    assert_eq!(stack_of("fn sub a b do b a minus end 10 3 call sub"), vec!["-7"]);
}

#[test]
fn call_restores_the_scope_of_the_caller() {
    let (interp, _) = eval("7 let g fn f n do n end 1 call f g");
    assert_eq!(shown(&interp.context.stack), vec!["1", "7"]);
    assert_eq!(interp.context.mem_scope, MemoryScope::Global);
    assert!(interp.context.locals.is_empty());
}

#[test]
fn each_call_has_bindings_of_its_own() {
    assert_eq!(
        stack_of("fn inner n do n end fn outer n do 2 call inner n end 1 call outer"),
        vec!["2", "1"]
    );
}

#[test]
fn function_body_does_not_see_globals() {
    assert_eq!(failure("7 let g fn f do g end call f"), Error::UnresolvedIdentifier);
}

#[test]
fn let_inside_a_call_is_local() {
    let (interp, _) = eval("fn f do 5 let x x end call f memusage");
    assert_eq!(shown(&interp.context.stack), vec!["5", "0"]);
    assert_eq!(
        failure("fn f do 5 let x end call f x"),
        Error::UnresolvedIdentifier
    );
}

#[test]
fn call_failures() {
    assert_eq!(failure("call nowhere"), Error::UnresolvedIdentifier);
    assert_eq!(failure("fn f a b do a end 1 call f"), Error::StackUnderflow);
}

#[test]
fn let_set_and_lookup() {
    assert_eq!(stack_of("5 let x x x"), vec!["5", "5"]);
    assert_eq!(stack_of("5 let x 6 set x x"), vec!["6"]);
    assert_eq!(failure("6 set x"), Error::UndefinedBinding);
    assert_eq!(failure("set x"), Error::UndefinedBinding);
    assert_eq!(failure("5 let x set x"), Error::StackUnderflow);
    assert_eq!(failure("let x"), Error::StackUnderflow);
}

#[test]
fn first_binding_of_a_name_wins() {
    assert_eq!(stack_of("1 let x 2 let x x"), vec!["1"]);
    assert_eq!(stack_of("1 let x 2 let x 3 set x x mempop"), vec!["3", "2"]);
}

#[test]
fn mempop_and_memusage() {
    assert_eq!(stack_of("memusage"), vec!["0"]);
    assert_eq!(stack_of("1 let a 2 let b memusage"), vec!["2"]);
    assert_eq!(stack_of("1 let a 2 let b mempop memusage"), vec!["2", "1"]);
    assert_eq!(stack_of("mempop"), vec!["0"]);
}

#[test]
fn comparisons() {
    assert_eq!(stack_of("1 1 eq"), vec!["1"]);
    assert_eq!(stack_of("1 2 eq"), vec!["0"]);
    assert_eq!(stack_of("1 2 noteq"), vec!["1"]);
    assert_eq!(stack_of("2 1 bigger"), vec!["1"]);
    assert_eq!(stack_of("1 2 bigger"), vec!["0"]);
    assert_eq!(stack_of("1 2 smaller"), vec!["1"]);
    assert_eq!(stack_of("2 1 smaller"), vec!["0"]);
    assert_eq!(stack_of("2 2 smaller"), vec!["0"]);
    assert_eq!(stack_of("0 -0 eq"), vec!["1"]);
    assert_eq!(stack_of("nan nan eq"), vec!["0"]);
    assert_eq!(stack_of("nan nan noteq"), vec!["1"]);
    assert_eq!(stack_of("nan 1 bigger"), vec!["0"]);
    assert_eq!(stack_of("str a str a eq"), vec!["1"]);
    assert_eq!(stack_of("str b str a bigger"), vec!["1"]);
    assert_eq!(stack_of("str ab str a bigger"), vec!["1"]);
    assert_eq!(stack_of("[ 1 2 ] [ 1 2 ] eq"), vec!["1"]);
    assert_eq!(stack_of("[ 1 3 ] [ 1 2 ] bigger"), vec!["1"]);
    assert_eq!(stack_of("[ 1 ] [ 1 2 ] smaller"), vec!["1"]);
    assert_eq!(failure("1 str a eq"), Error::TypeMismatch);
    assert_eq!(failure("[ 1 ] 1 bigger"), Error::TypeMismatch);
    assert_eq!(failure("1 eq"), Error::StackUnderflow);
}

#[test]
fn true_and_false() {
    assert_eq!(stack_of("true false"), vec!["1", "0"]);
}

#[test]
fn stack_underflow_is_reported() {
    for source in ["add", "1 add", "dup", "drop", "swap", "1 swap", "1 2 rot", "put", "then { }", "times { }"] {
        assert_eq!(failure(source), Error::StackUnderflow, "{}", source);
    }
}

#[test]
fn type_mismatch_is_reported() {
    assert_eq!(failure("1 str a add"), Error::TypeMismatch);
    assert_eq!(failure("str a 1 mul"), Error::TypeMismatch);
    assert_eq!(failure("str a times { }"), Error::TypeMismatch);
    assert_eq!(failure("1 fs::readFile"), Error::TypeMismatch);
    assert_eq!(failure("str p 1 fs::createFile"), Error::TypeMismatch);
    assert_eq!(failure("1 get x"), Error::TypeMismatch);
    assert_eq!(failure("[ 1 ] get x"), Error::TypeMismatch);
}

#[test]
fn malformed_programs_are_reported() {
    let mut interp = Interpreter::new();
    interp.context.push(num(1.0));
    interp.parse(vec![Token::Then, Token::Add]);
    assert!(matches!(interp.step(), Action::Fail(Error::MalformedProgram)));
    let mut interp = Interpreter::new();
    interp.context.push(num(1.0));
    interp.parse(vec![Token::Times]);
    assert!(matches!(interp.step(), Action::Fail(Error::MalformedProgram)));
    let mut interp = Interpreter::new();
    interp.parse(vec![Token::Function("f".to_string(), vec![])]);
    assert!(matches!(interp.step(), Action::Fail(Error::MalformedProgram)));
}

#[test]
fn unresolved_identifier_is_reported() {
    assert_eq!(failure("nothing"), Error::UnresolvedIdentifier);
    assert_eq!(failure("exit"), Error::UnresolvedIdentifier);
}

#[test]
fn a_failed_step_changes_nothing() {
    let mut interp = Interpreter::new();
    interp.context.push(text("a"));
    interp.context.push(num(1.0));
    interp.parse(vec![Token::Add, Token::True]);
    assert!(matches!(interp.step(), Action::Fail(Error::TypeMismatch)));
    assert_eq!(shown(&interp.context.stack), vec!["a", "1"]);
    assert_eq!(interp.frames.len(), 1);
    assert_eq!(interp.frames[0].pos, 0);
    assert!(matches!(interp.step(), Action::Fail(Error::TypeMismatch)));
}

#[test]
fn abort_gives_the_outer_state_back() {
    let mut interp = Interpreter::new();
    let mut host = Host { printed: vec![], files: vec![] };
    let r = feed(&mut interp, &mut host, "7 fn f do [ 1 add ] end call f");
    assert_eq!(r, Err(Error::StackUnderflow));
    assert!(!interp.frames.is_empty());
    interp.abort();
    assert!(interp.frames.is_empty());
    assert_eq!(shown(&interp.context.stack), vec!["7"]);
    assert_eq!(interp.context.mem_scope, MemoryScope::Global);
    assert!(interp.context.locals.is_empty());
    assert_eq!(interp.context.functions.len(), 1);
    feed(&mut interp, &mut host, "1 add").unwrap();
    assert_eq!(shown(&interp.context.stack), vec!["8"]);
}

#[test]
fn scope_shares_the_state_around_it() {
    assert_eq!(stack_of("1 { 2 add } 3"), vec!["3", "3"]);
    assert_eq!(stack_of("{ 5 let x } x"), vec!["5"]);
    assert_eq!(stack_of("{ { 1 } { 2 } }"), vec!["1", "2"]);
}

#[test]
fn macro_is_evaluated_in_place() {
    let mut interp = Interpreter::new();
    let mut host = Host { printed: vec![], files: vec![] };
    let body = Lexer::new("dup mul".to_string()).lex().unwrap();
    interp.context.define_macro("square".to_string(), body);
    feed(&mut interp, &mut host, "3 square 4 square").unwrap();
    assert_eq!(shown(&interp.context.stack), vec!["9", "16"]);
}

#[test]
fn macro_twice_from_the_same_stack_gives_the_same() {
    let body = Lexer::new("1 add dup".to_string()).lex().unwrap();
    let mut first = Interpreter::new();
    let mut second = Interpreter::new();
    let mut host = Host { printed: vec![], files: vec![] };
    first.context.define_macro("m".to_string(), Lexer::new("1 add dup".to_string()).lex().unwrap());
    second.context.define_macro("m".to_string(), body);
    feed(&mut first, &mut host, "5 m").unwrap();
    feed(&mut second, &mut host, "5 { m } 9").unwrap();
    assert_eq!(shown(&first.context.stack), vec!["6", "6"]);
    assert_eq!(shown(&second.context.stack), vec!["6", "6", "9"]);
}

#[test]
fn macro_twice_in_one_program_gives_the_same() {
    let mut interp = Interpreter::new();
    let mut host = Host { printed: vec![], files: vec![] };
    interp.context.define_macro("m".to_string(), Lexer::new("dup 1 add swap drop".to_string()).lex().unwrap());
    feed(&mut interp, &mut host, "5 m 5 m").unwrap();
    assert_eq!(shown(&interp.context.stack), vec!["6", "6"]);
}

#[test]
fn macro_reads_the_bindings_of_its_caller() {
    let mut interp = Interpreter::new();
    let mut host = Host { printed: vec![], files: vec![] };
    interp.context.define_macro("count".to_string(), vec![Token::Memusage]);
    feed(&mut interp, &mut host, "count 1 let x count").unwrap();
    assert_eq!(shown(&interp.context.stack), vec!["0", "1"]);
}

#[test]
fn define_macro_keeps_the_first_of_a_name() {
    let mut interp = Interpreter::new();
    let mut host = Host { printed: vec![], files: vec![] };
    interp.context.define_macro("m".to_string(), vec![Token::True]);
    interp.context.define_macro("m".to_string(), vec![Token::False]);
    assert_eq!(interp.context.macros.len(), 2);
    assert_eq!(interp.context.macros[1].name, "m");
    feed(&mut interp, &mut host, "m").unwrap();
    assert_eq!(shown(&interp.context.stack), vec!["1"]);
}

#[test]
fn binding_comes_before_macro_and_primitive() {
    let mut interp = Interpreter::new();
    let mut host = Host { printed: vec![], files: vec![] };
    interp.context.define_macro("length".to_string(), vec![Token::True]);
    feed(&mut interp, &mut host, "str abc length").unwrap();
    assert_eq!(shown(&interp.context.stack), vec!["abc", "1"]);
    feed(&mut interp, &mut host, "7 let length length").unwrap();
    assert_eq!(shown(&interp.context.stack), vec!["abc", "1", "7"]);
}

#[test]
fn object_literal_and_get() {
    assert_eq!(stack_of("object { a = 1 b = 2 }"), vec!["[[a, 1], [b, 2]]"]);
    assert_eq!(stack_of("object { a = 1 b = 2 } get b"), vec!["2"]);
    assert_eq!(stack_of("object { a = 1 a = 2 } get a"), vec!["1"]);
    assert_eq!(stack_of("5 object { ok = true } get ok"), vec!["5", "1"]);
    assert_eq!(stack_of("object { }"), vec!["[]"]);
    assert_eq!(failure("object { a = 1 } get b"), Error::UndefinedBinding);
    assert_eq!(failure("get b"), Error::StackUnderflow);
    assert_eq!(failure("object { a = dup }"), Error::StackUnderflow);
    assert_eq!(failure("1 let x object { a = x }"), Error::UnresolvedIdentifier);
}

#[test]
fn object_property_is_evaluated_alone() {
    let mut interp = Interpreter::new();
    let mut host = Host { printed: vec![], files: vec![] };
    interp.parse(vec![Token::Object(vec![
        ("a".to_string(), Token::Scope(vec![Token::True, Token::False])),
        ("b".to_string(), Token::Str("x".to_string())),
    ])]);
    drive(&mut interp, &mut host).unwrap();
    assert_eq!(shown(&interp.context.stack), vec!["[[a, 0], [b, x]]"]);
    let mut interp = Interpreter::new();
    interp.parse(vec![Token::Object(vec![
        ("a".to_string(), Token::Function("f".to_string(), vec![])),
        ("b".to_string(), Token::Scope(vec![])),
    ])]);
    assert_eq!(drive(&mut interp, &mut host), Err(Error::MalformedProgram));
}

#[test]
fn files_go_through_the_host() {
    let mut interp = Interpreter::new();
    let mut host = Host { printed: vec![], files: vec![("in.txt".to_string(), "content".to_string())] };
    feed(&mut interp, &mut host, "str in.txt fs::readFile").unwrap();
    assert_eq!(shown(&interp.context.stack), vec!["content"]);
    feed(&mut interp, &mut host, "str out.txt str written fs::createFile").unwrap();
    assert_eq!(shown(&interp.context.stack), vec!["content"]);
    assert_eq!(host.files[1], ("out.txt".to_string(), "written".to_string()));
    assert_eq!(failure("fs::readFile"), Error::StackUnderflow);
    assert_eq!(failure("str a fs::createFile"), Error::StackUnderflow);
}

#[test]
fn import_is_evaluated_in_place() {
    let mut interp = Interpreter::new();
    let mut host = Host { printed: vec![], files: vec![] };
    interp.context.push(num(2.0));
    interp.parse(vec![Token::Import(vec![Token::Dup, Token::Mul]), Token::Dup]);
    drive(&mut interp, &mut host).unwrap();
    assert_eq!(shown(&interp.context.stack), vec!["4", "4"]);
}

#[test]
fn parse_schedules_before_what_is_pending() {
    let mut interp = Interpreter::new();
    let mut host = Host { printed: vec![], files: vec![] };
    interp.parse(vec![Token::Str("second".to_string())]);
    interp.parse(vec![Token::Str("first".to_string())]);
    drive(&mut interp, &mut host).unwrap();
    assert_eq!(shown(&interp.context.stack), vec!["first", "second"]);
}

#[test]
fn context_can_be_used_alone() {
    let mut ctx = Context::new();
    ctx.push(num(1.0));
    ctx.push(num(2.0));
    assert_eq!(ctx.depth(), 2);
    assert_eq!(show(ctx.peek(0)), "2");
    assert_eq!(show(ctx.peek(1)), "1");
    assert_eq!(show(&ctx.pop()), "2");
    assert_eq!(ctx.depth(), 1);
}
