use exprlang::array::Array;
use exprlang::ast::{Node, Ntype, Program, VarTable};
use exprlang::datatype::DataUnion;
use exprlang::error::{Error, ErrorKind};
use exprlang::tokenize::{Token, TokenGen, TokenKind, TokenList};

const CODE: &str = "a = 3;\nb = a + 2 * 5;\nc = (b - a) / 2 >= 5;\n";

#[test]
fn lib_it_works() {
    let node = Node::new(Ntype::Add);
    println!("{:?}", node);
    assert_eq!(node.kind(), Ntype::Add);
    assert!(node.get_child().is_none());
    assert_eq!(*node.value(), DataUnion::Empty);

    let error = Error::from(ErrorKind::SyntaxError);
    assert_eq!(error.kind(), ErrorKind::SyntaxError);

    let token = Token::with_str(TokenKind::Number, "123");
    println!("{:?}", token);
    assert_eq!(token.tk, TokenKind::Number);
    assert_eq!(token.data, DataUnion::String(vec!['1', '2', '3']));
}

#[test]
fn it_works() {
    let mut tokens = TokenGen::new(CODE.chars().collect()).unwrap();
    let tree = Program::from_tokens(&mut tokens).unwrap();
    println!("{:?}", tree);
    let mut var = VarTable::new();
    let mut mem = Vec::new();
    tree.compile(&mut var, &mut mem).unwrap();
    println!("{:?}", mem);
    assert_eq!(tree.len(), 3);
    assert_eq!(mem, vec![3, 13, 1]);
}

#[test]
fn ptr_test() {
    let bo = Array::from_box(Box::new([10, 20, 30]));
    let mut seen = Vec::new();
    for e in bo.iter() {
        println!("{}", e);
        seen.push(*e);
    }
    assert_eq!(seen, vec![10, 20, 30]);
}

#[test]
fn gen_tree_test() {
    let mut tokens = TokenGen::new(CODE.chars().collect()).unwrap();
    let tree = Program::from_tokens(&mut tokens).unwrap();
    println!("{:?}", tree);
    assert_eq!(tree.len(), 3);
    assert_eq!(tree.statement(0).kind(), Ntype::Assign);
}

#[test]
fn gen_token_test() {
    let tokens = TokenList::gen_tokens(CODE.chars().collect()).unwrap();
    println!("{:?}", tokens);
    assert_eq!(tokens.get_index(), 0);
    assert_eq!(tokens.current(), TokenKind::Ident);
}

#[test]
fn simple_math() {
    let mut tokens = TokenList::gen_tokens("10 + 20 - 5".chars().collect()).unwrap();
    println!("{:?}", tokens);
    let n = tokens.calculate().unwrap();
    println!("{}", n);
    assert_eq!(n, 25);
}
