use exprlang::ast::{Node, Ntype, Program, RetType, VarTable};
use exprlang::error::ErrorKind;
use exprlang::tokenize::TokenGen;

struct Outcome {
    result: Result<(), ErrorKind>,
    var: VarTable,
    mem: Vec<i32>,
}

fn run(source: &str) -> Outcome {
    let mut tokens = TokenGen::new(source.chars().collect()).unwrap();
    let program = Program::from_tokens(&mut tokens).unwrap();
    let mut var = VarTable::new();
    let mut mem = Vec::new();
    let result = program.compile(&mut var, &mut mem).map_err(|e| e.kind());
    Outcome { result, var, mem }
}

impl Outcome {
    fn value(&self, name: &str) -> i32 {
        let name: Vec<char> = name.chars().collect();
        self.mem[self.var.get(&name).unwrap()]
    }
}

/// The value of the one statement `source`, evaluated on an empty store.
fn value_of(source: &str) -> Result<i32, ErrorKind> {
    let mut tokens = TokenGen::new(source.chars().collect()).unwrap();
    let node = Node::stmt(&mut tokens).unwrap();
    let mut var = VarTable::new();
    let mut mem = Vec::new();
    match node.compile(&mut var, &mut mem) {
        Ok(r) => Ok(r.rvalue(&mem).unwrap()),
        Err(e) => Err(e.kind()),
    }
}

#[test]
fn round_trip_scenario() {
    let out = run("a = 3; b = a + 2 * 5; c = b - a;");
    assert_eq!(out.result, Ok(()));
    assert_eq!(out.value("a"), 3);
    assert_eq!(out.value("b"), 13);
    assert_eq!(out.value("c"), 10);
    assert_eq!(out.var.len(), 3);
    assert_eq!(out.mem, vec![3, 13, 10]);
}

#[test]
fn chained_assignment_sets_both() {
    let out = run("a = b = 5;");
    assert_eq!(out.result, Ok(()));
    assert_eq!(out.value("a"), 5);
    assert_eq!(out.value("b"), 5);
    assert_eq!(out.var.len(), 2);
    assert_eq!(value_of("a = b = 5;"), Ok(5));
}

#[test]
fn less_than_is_greater_than_with_operands_exchanged() {
    assert_eq!(value_of("1 < 2;"), Ok(1));
    assert_eq!(value_of("2 > 1;"), Ok(1));
    assert_eq!(value_of("2 < 1;"), Ok(0));
    assert_eq!(value_of("1 > 2;"), Ok(0));
    assert_eq!(value_of("1 <= 1;"), Ok(1));
    assert_eq!(value_of("1 >= 1;"), Ok(1));
    assert_eq!(value_of("2 <= 1;"), Ok(0));
    assert_eq!(value_of("1 >= 2;"), Ok(0));
    assert_eq!(value_of("1 < 1;"), Ok(0));
}

#[test]
fn reference_declares_a_variable_with_zero() {
    let out = run("x;");
    assert_eq!(out.result, Ok(()));
    assert_eq!(out.value("x"), 0);
    assert_eq!(out.var.len(), 1);
    assert_eq!(out.mem, vec![0]);
    let out = run("y = x + 1;");
    assert_eq!(out.value("x"), 0);
    assert_eq!(out.value("y"), 1);
}

#[test]
fn unary_minus_is_zero_minus() {
    assert_eq!(value_of("-5;"), Ok(-5));
    assert_eq!(value_of("-(2+3);"), Ok(-5));
    assert_eq!(value_of("+5;"), Ok(5));
    assert_eq!(value_of("3 - -2;"), Ok(5));
}

#[test]
fn division_truncates_toward_zero() {
    assert_eq!(value_of("7 / 2;"), Ok(3));
    assert_eq!(value_of("-7 / 2;"), Ok(-3));
    assert_eq!(value_of("7 / -2;"), Ok(-3));
    assert_eq!(value_of("-7 / -2;"), Ok(3));
    assert_eq!(value_of("0 / 5;"), Ok(0));
    assert_eq!(value_of("6 / 3;"), Ok(2));
    assert_eq!(value_of("-1 / 2;"), Ok(0));
}

#[test]
fn division_by_zero_is_a_failure() {
    assert_eq!(value_of("1 / 0;"), Err(ErrorKind::DivisionByZero));
    assert_eq!(value_of("0 / 0;"), Err(ErrorKind::DivisionByZero));
    assert_eq!(value_of("1 / (2 - 2);"), Err(ErrorKind::DivisionByZero));
    let out = run("a = 1; b = a / 0; c = 3;");
    assert_eq!(out.result, Err(ErrorKind::DivisionByZero));
    assert_eq!(out.value("a"), 1);
    assert_eq!(out.var.len(), 1);
}

#[test]
fn arithmetic_values() {
    assert_eq!(value_of("1 + 2;"), Ok(3));
    assert_eq!(value_of("1 - 2;"), Ok(-1));
    assert_eq!(value_of("6 * 7;"), Ok(42));
    assert_eq!(value_of("2 + 3 * 4;"), Ok(14));
    assert_eq!(value_of("(2 + 3) * 4;"), Ok(20));
    assert_eq!(value_of("10 - 2 - 3;"), Ok(5));
    assert_eq!(value_of("100 / 5 / 2;"), Ok(10));
    assert_eq!(value_of("1 == 1;"), Ok(1));
    assert_eq!(value_of("1 == 2;"), Ok(0));
    assert_eq!(value_of("1 != 2;"), Ok(1));
    assert_eq!(value_of("1 != 1;"), Ok(0));
    assert_eq!(value_of("1 + 1 == 2;"), Ok(1));
    assert_eq!(value_of("3 > 2 > 1;"), Ok(1));
    assert_eq!(value_of("1 < 2 < 3;"), Ok(0));
}

#[test]
fn arithmetic_wraps_around() {
    assert_eq!(value_of("2147483647 + 1;"), Ok(i32::MIN));
    assert_eq!(value_of("-2147483647 - 2;"), Ok(i32::MAX));
    assert_eq!(value_of("65536 * 65536;"), Ok(0));
    assert_eq!(value_of("65536 * 32768;"), Ok(i32::MIN));
    assert_eq!(value_of("2147483647 * 2147483647;"), Ok(1));
    assert_eq!(value_of("(-2147483647 - 1) / -1;"), Ok(i32::MIN));
    assert_eq!(value_of("(-2147483647 - 1) / 1;"), Ok(i32::MIN));
}

#[test]
fn assignment_to_something_that_is_no_variable() {
    assert_eq!(value_of("5 = 3;"), Err(ErrorKind::TypeError));
    assert_eq!(value_of("a + 1 = 3;"), Err(ErrorKind::TypeError));
    assert_eq!(value_of("(a == 1) = 3;"), Err(ErrorKind::TypeError));
    assert_eq!(value_of("(a) = 3;"), Ok(3));
    assert_eq!(value_of("(a = 1) = 3;"), Ok(3));
    let out = run("a = 2; 5 = a; b = 1;");
    assert_eq!(out.result, Err(ErrorKind::TypeError));
    assert_eq!(out.value("a"), 2);
    assert_eq!(out.var.len(), 1);
}

#[test]
fn the_value_is_evaluated_before_the_target() {
    let out = run("a = b;");
    assert_eq!(out.result, Ok(()));
    assert_eq!(out.var.get(&['b']), Some(0));
    assert_eq!(out.var.get(&['a']), Some(1));
    assert_eq!(out.var.name_at(0), &vec!['b']);
    assert_eq!(out.var.name_at(1), &vec!['a']);
    assert_eq!(value_of("5 = 1 / 0;"), Err(ErrorKind::DivisionByZero));
}

#[test]
fn operands_are_evaluated_left_to_right() {
    assert_eq!(value_of("a + (a = 5);"), Ok(5));
    assert_eq!(value_of("(a = 5) + a;"), Ok(10));
    assert_eq!(value_of("(a = 2) * (a = 3) + a;"), Ok(9));
    assert_eq!(value_of("1 / 0 + (5 = 1);"), Err(ErrorKind::DivisionByZero));
    assert_eq!(value_of("(5 = 1) + 1 / 0;"), Err(ErrorKind::TypeError));
}

#[test]
fn variables_keep_their_slots() {
    let out = run("a = 1; b = 2; a = a + b; c; b = a * 2;");
    assert_eq!(out.result, Ok(()));
    assert_eq!(out.var.get(&['a']), Some(0));
    assert_eq!(out.var.get(&['b']), Some(1));
    assert_eq!(out.var.get(&['c']), Some(2));
    assert_eq!(out.var.get(&['d']), None);
    assert_eq!(out.mem, vec![3, 6, 0]);
    assert_eq!(out.var.len(), out.mem.len());
}

#[test]
fn results_are_values_or_addresses() {
    let mut var = VarTable::new();
    let mut mem = Vec::new();
    let r = Node::number(7).compile(&mut var, &mut mem).unwrap();
    assert_eq!(r, RetType::Num(7));
    let r = Node::lvar(vec!['x']).compile(&mut var, &mut mem).unwrap();
    assert_eq!(r, RetType::Address(0));
    let r = Node::lvar(vec!['y']).compile(&mut var, &mut mem).unwrap();
    assert_eq!(r, RetType::Address(1));
    let r = Node::lvar(vec!['x']).compile(&mut var, &mut mem).unwrap();
    assert_eq!(r, RetType::Address(0));
    assert_eq!(mem, vec![0, 0]);
    let assign = Node::from_child(Node::number(9), Node::lvar(vec!['y']), Ntype::Assign);
    assert_eq!(assign.compile(&mut var, &mut mem).unwrap(), RetType::Address(1));
    assert_eq!(mem, vec![0, 9]);
    let sum = Node::from_child(Node::lvar(vec!['y']), Node::number(1), Ntype::Add);
    assert_eq!(sum.compile(&mut var, &mut mem).unwrap(), RetType::Num(10));
}

#[test]
fn nodes_without_what_their_kind_requires() {
    let mut var = VarTable::new();
    let mut mem = Vec::new();
    let e = Node::new(Ntype::Add).compile(&mut var, &mut mem).unwrap_err();
    assert_eq!(e.kind(), ErrorKind::UnexpectedError);
    let e = Node::new(Ntype::Lvar).compile(&mut var, &mut mem).unwrap_err();
    assert_eq!(e.kind(), ErrorKind::UnexpectedError);
    let e = Node::new(Ntype::Assign).compile(&mut var, &mut mem).unwrap_err();
    assert_eq!(e.kind(), ErrorKind::UnexpectedError);
    assert_eq!(Node::new(Ntype::Num).compile(&mut var, &mut mem).unwrap(), RetType::Num(0));
    let odd = Node::from_child(Node::number(1), Node::number(2), Ntype::Num);
    assert_eq!(odd.compile(&mut var, &mut mem).unwrap_err().kind(), ErrorKind::UnexpectedError);
    let odd = Node::from_child(Node::number(1), Node::number(2), Ntype::Lvar);
    assert_eq!(odd.compile(&mut var, &mut mem).unwrap_err().kind(), ErrorKind::UnexpectedError);
    assert!(mem.is_empty());
}

#[test]
fn result_coercions() {
    let mem = vec![4, 5];
    assert_eq!(RetType::Num(3).expect_num().unwrap(), 3);
    assert_eq!(RetType::Address(1).expect_num().unwrap_err().kind(), ErrorKind::TypeError);
    assert_eq!(RetType::Num(3).rvalue(&mem).unwrap(), 3);
    assert_eq!(RetType::Address(1).rvalue(&mem).unwrap(), 5);
    assert_eq!(RetType::Address(0).rvalue(&mem).unwrap(), 4);
    assert_eq!(RetType::Address(1).expect_address().unwrap(), 1);
    assert_eq!(RetType::Num(3).expect_address().unwrap_err().kind(), ErrorKind::TypeError);
}

#[test]
fn variable_table() {
    let mut t = VarTable::new();
    assert_eq!(t.len(), 0);
    assert!(!t.contains_key(&['a']));
    assert_eq!(t.insert(vec!['a'], 0), None);
    assert_eq!(t.insert(vec!['b', 'c'], 1), None);
    assert_eq!(t.len(), 2);
    assert!(t.contains_key(&['a']));
    assert_eq!(t.get(&['a']), Some(0));
    assert_eq!(t.get(&['b', 'c']), Some(1));
    assert_eq!(t.get(&['b']), None);
    assert_eq!(t.insert(vec!['a'], 7), Some(0));
    assert_eq!(t.get(&['a']), Some(7));
    assert_eq!(t.len(), 2);
    assert_eq!(t.name_at(0), &vec!['a']);
    assert_eq!(t.name_at(1), &vec!['b', 'c']);
}
