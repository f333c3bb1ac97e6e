use exprlang::ast::{Node, Ntype, Program};
use exprlang::datatype::DataUnion;
use exprlang::error::ErrorKind;
use exprlang::tokenize::{TokenGen, TokenKind};

fn show(node: &Node) -> String {
    match node.get_child() {
        Some(pair) => format!("({:?} {} {})", node.kind(), show(&pair.0), show(&pair.1)),
        None => match node.value() {
            DataUnion::Num(n) => format!("{}", n),
            DataUnion::String(s) => s.iter().collect(),
            DataUnion::Empty => format!("{:?}", node.kind()),
        },
    }
}

fn parse(source: &str) -> Result<Vec<String>, ErrorKind> {
    let mut tokens = match TokenGen::new(source.chars().collect()) {
        Ok(t) => t,
        Err(e) => return Err(e.kind()),
    };
    match Program::from_tokens(&mut tokens) {
        Ok(p) => {
            assert!(tokens.current().is_kind(TokenKind::Eof));
            let mut out = Vec::new();
            for i in 0..p.len() {
                out.push(show(p.statement(i)));
            }
            Ok(out)
        }
        Err(e) => Err(e.kind()),
    }
}

fn one(source: &str) -> String {
    let mut all = parse(source).unwrap();
    assert_eq!(all.len(), 1);
    all.pop().unwrap()
}

/// The failure of parsing `source` and the report of where it happened.
fn failure(source: &str) -> (ErrorKind, String) {
    let mut tokens = TokenGen::new(source.chars().collect()).unwrap();
    let e = Program::from_tokens(&mut tokens).unwrap_err();
    let report: String = tokens.error_at("", None).into_iter().collect();
    (e.kind(), report)
}

#[test]
fn empty_program() {
    assert_eq!(parse(""), Ok(vec![]));
    assert_eq!(parse("   \n"), Ok(vec![]));
}

#[test]
fn leaves() {
    assert_eq!(one("5;"), "5");
    assert_eq!(one("x;"), "x");
    assert_eq!(one("(x);"), "x");
    assert_eq!(one("((7));"), "7");
}

#[test]
fn assignment_is_right_associative_with_value_first() {
    assert_eq!(one("a = 5;"), "(Assign 5 a)");
    assert_eq!(one("a = b = 5;"), "(Assign (Assign 5 b) a)");
    assert_eq!(one("a = b + 1;"), "(Assign (Add b 1) a)");
    assert_eq!(one("a + 1 = 2;"), "(Assign 2 (Add a 1))");
}

#[test]
fn equality_is_left_associative() {
    assert_eq!(one("a == b;"), "(Eq a b)");
    assert_eq!(one("a != b;"), "(Neq a b)");
    assert_eq!(one("a == b != c;"), "(Neq (Eq a b) c)");
    assert_eq!(one("a == b < c;"), "(Eq a (Greater c b))");
    assert_eq!(one("a = b == c;"), "(Assign (Eq b c) a)");
}

#[test]
fn relational_operators_are_canonical_and_right_associative() {
    assert_eq!(one("1 > 2;"), "(Greater 1 2)");
    assert_eq!(one("1 < 2;"), "(Greater 2 1)");
    assert_eq!(one("1 >= 2;"), "(GreaterEq 1 2)");
    assert_eq!(one("1 <= 2;"), "(GreaterEq 2 1)");
    assert_eq!(one("1 > 2 > 3;"), "(Greater 1 (Greater 2 3))");
    assert_eq!(one("1 < 2 < 3;"), "(Greater (Greater 3 2) 1)");
    assert_eq!(one("1 < 2 >= 3;"), "(Greater (GreaterEq 2 3) 1)");
    assert_eq!(one("1 + 2 < 3 * 4;"), "(Greater (Mul 3 4) (Add 1 2))");
}

#[test]
fn additive_and_multiplicative_are_left_associative() {
    assert_eq!(one("1 + 2 - 3;"), "(Sub (Add 1 2) 3)");
    assert_eq!(one("1 - 2 + 3;"), "(Add (Sub 1 2) 3)");
    assert_eq!(one("8 / 4 * 2;"), "(Mul (Div 8 4) 2)");
    assert_eq!(one("1 + 2 * 3;"), "(Add 1 (Mul 2 3))");
    assert_eq!(one("1 * 2 + 3;"), "(Add (Mul 1 2) 3)");
    assert_eq!(one("(1 + 2) * 3;"), "(Mul (Add 1 2) 3)");
    assert_eq!(one("a = 3 + 2 * 5;"), "(Assign (Add 3 (Mul 2 5)) a)");
}

#[test]
fn unary_operators() {
    assert_eq!(one("-5;"), "(Sub 0 5)");
    assert_eq!(one("+5;"), "5");
    assert_eq!(one("-(2+3);"), "(Sub 0 (Add 2 3))");
    assert_eq!(one("-x * 2;"), "(Mul (Sub 0 x) 2)");
    assert_eq!(one("1 - -2;"), "(Sub 1 (Sub 0 2))");
    assert_eq!(one("1 + +2;"), "(Add 1 2)");
    assert_eq!(one("++5;"), "5");
    assert_eq!(one("+ + +x;"), "x");
    assert_eq!(one("+-5;"), "(Sub 0 5)");
    assert_eq!(one("+(1 + 2) * 3;"), "(Mul (Add 1 2) 3)");
    assert_eq!(parse("--5;"), Err(ErrorKind::SyntaxError));
    assert_eq!(parse("-+5;"), Err(ErrorKind::SyntaxError));
    assert_eq!(parse("+;"), Err(ErrorKind::SyntaxError));
}

#[test]
fn several_statements() {
    assert_eq!(
        parse("a = 3; b = a + 2 * 5; c = b - a;"),
        Ok(vec![
            "(Assign 3 a)".to_string(),
            "(Assign (Add a (Mul 2 5)) b)".to_string(),
            "(Assign (Sub b a) c)".to_string()
        ])
    );
}

#[test]
fn syntax_error_after_the_assignment_sign() {
    assert_eq!(failure("a = ;"), (ErrorKind::SyntaxError, "a =  >>>;<<< \n".to_string()));
}

#[test]
fn invalid_character_in_a_statement() {
    assert_eq!(failure("a @ 3;"), (ErrorKind::InvalidChar, "a  >>><<< @ 3;\n".to_string()));
}

#[test]
fn syntax_errors() {
    assert_eq!(failure("a = 3"), (ErrorKind::SyntaxError, "a = 3 >>><<< \n".to_string()));
    assert_eq!(failure("(a + 1;"), (ErrorKind::SyntaxError, "(a + 1 >>>;<<< \n".to_string()));
    assert_eq!(failure("a + ;"), (ErrorKind::SyntaxError, "a +  >>>;<<< \n".to_string()));
    assert_eq!(failure(";"), (ErrorKind::SyntaxError, " >>>;<<< \n".to_string()));
    assert_eq!(failure("a b;"), (ErrorKind::SyntaxError, "a  >>>b<<< ;\n".to_string()));
    assert_eq!(failure("1 2;"), (ErrorKind::SyntaxError, "1  >>>2<<< ;\n".to_string()));
    assert_eq!(failure("a;)"), (ErrorKind::SyntaxError, "a; >>>)<<< \n".to_string()));
    assert_eq!(failure("a = 1; b = ;"), (ErrorKind::SyntaxError, "a = 1; b =  >>>;<<< \n".to_string()));
    assert_eq!(failure("a == ;"), (ErrorKind::SyntaxError, "a ==  >>>;<<< \n".to_string()));
    assert_eq!(failure("a < ;"), (ErrorKind::SyntaxError, "a <  >>>;<<< \n".to_string()));
}

#[test]
fn the_first_error_wins() {
    assert_eq!(parse("a = ; @"), Err(ErrorKind::SyntaxError));
    assert_eq!(parse("a = 1; @"), Err(ErrorKind::InvalidChar));
    assert_eq!(parse("@ a = ;"), Err(ErrorKind::InvalidChar));
    assert_eq!(parse("a = (1 ! 2);"), Err(ErrorKind::InvalidChar));
}

#[test]
fn gen_tree_parses_the_whole_input() {
    let mut tokens = TokenGen::new("a = 1; a + 2;".chars().collect()).unwrap();
    let nodes = Node::gen_tree(&mut tokens).unwrap();
    assert_eq!(nodes.len(), 2);
    assert_eq!(show(&nodes[0]), "(Assign 1 a)");
    assert_eq!(show(&nodes[1]), "(Add a 2)");
    let mut tokens = TokenGen::new("a = 1; a + ".chars().collect()).unwrap();
    assert_eq!(Node::gen_tree(&mut tokens).unwrap_err().kind(), ErrorKind::SyntaxError);
    let mut tokens = TokenGen::new("".chars().collect()).unwrap();
    assert_eq!(Node::program(&mut tokens).unwrap().len(), 0);
}

#[test]
fn single_levels_of_the_grammar() {
    let mut tokens = TokenGen::new("1 + 2 * 3 = 4 ; x".chars().collect()).unwrap();
    assert_eq!(show(&Node::mul(&mut tokens).unwrap()), "1");
    assert_eq!(tokens.current().data, DataUnion::char('+'));
    assert_eq!(show(&Node::unary(&mut tokens).unwrap()), "2");
    assert_eq!(tokens.current().data, DataUnion::char('*'));
    assert!(tokens.consume(DataUnion::char('*')).unwrap());
    assert_eq!(show(&Node::stmt(&mut tokens).unwrap()), "(Assign 4 3)");
    assert_eq!(show(&Node::primary(&mut tokens).unwrap()), "x");
    assert_eq!(Node::expr(&mut tokens).unwrap_err().kind(), ErrorKind::SyntaxError);
}

#[test]
fn node_constructors() {
    let n = Node::new(Ntype::Num);
    assert_eq!(n.kind(), Ntype::Num);
    assert_eq!(*n.value(), DataUnion::Num(0));
    assert!(n.get_child().is_none());
    let n = Node::new(Ntype::Lvar);
    assert_eq!(*n.value(), DataUnion::Empty);
    assert_eq!(n.expect_child().unwrap_err().kind(), ErrorKind::UnexpectedError);
    let n = Node::number(-4);
    assert_eq!(show(&n), "-4");
    let n = Node::lvar(vec!['a', 'b']);
    assert_eq!(n.kind(), Ntype::Lvar);
    assert_eq!(show(&n), "ab");
    let n = Node::from_child(Node::number(1), Node::lvar(vec!['x']), Ntype::Mul);
    assert_eq!(show(&n), "(Mul 1 x)");
    assert_eq!(*n.value(), DataUnion::Empty);
    assert_eq!(show(&n.expect_child().unwrap().1), "x");
    let copy = n.clone();
    assert_eq!(show(&copy), show(&n));
    assert!(Ntype::Num < Ntype::Lvar && Ntype::Lvar < Ntype::Add && Ntype::GreaterEq < Ntype::Assign);
    assert!(TokenKind::Number < TokenKind::Reserved && TokenKind::Ident < TokenKind::Eof);
    assert!(!Ntype::Num.has_childs());
    assert!(Ntype::Lvar.has_childs());
    assert!(Ntype::Add.has_childs());
    assert!(Ntype::Assign.has_childs());
}

fn sign(ty: Ntype) -> &'static str {
    match ty {
        Ntype::Add => "+",
        Ntype::Sub => "-",
        Ntype::Mul => "*",
        Ntype::Div => "/",
        Ntype::Eq => "==",
        Ntype::Neq => "!=",
        Ntype::Greater => ">",
        Ntype::GreaterEq => ">=",
        Ntype::Assign => "=",
        Ntype::Num | Ntype::Lvar => unreachable!(),
    }
}

/// The fully parenthesised spelling of a tree.
fn spell(node: &Node) -> String {
    match node.get_child() {
        None => show(node),
        Some(pair) => {
            let (left, right) = if node.kind() == Ntype::Assign {
                (&pair.1, &pair.0)
            } else {
                (&pair.0, &pair.1)
            };
            format!("({}){}({})", spell(left), sign(node.kind()), spell(right))
        }
    }
}

/// Some trees of every shape up to the given depth.
fn trees(depth: usize) -> Vec<Node> {
    let mut out = vec![Node::number(7), Node::lvar(vec!['x', '1'])];
    if depth == 0 {
        return out;
    }
    let kinds = [
        Ntype::Add,
        Ntype::Sub,
        Ntype::Mul,
        Ntype::Div,
        Ntype::Eq,
        Ntype::Neq,
        Ntype::Greater,
        Ntype::GreaterEq,
        Ntype::Assign,
    ];
    let below = trees(depth - 1).len();
    for (k, ty) in kinds.iter().enumerate() {
        for i in 0..below {
            let j = (i * 7 + k * 3 + 1) % below;
            let mut operands = trees(depth - 1);
            let second = operands.swap_remove(j.max(i));
            let first = if i == j { Node::number(0) } else { operands.swap_remove(j.min(i)) };
            out.push(Node::from_child(first, second, *ty));
        }
    }
    out
}

#[test]
fn every_tree_is_read_back_from_its_spelling() {
    let all = trees(2);
    assert!(all.len() > 150);
    for tree in all {
        let source = format!("{};", spell(&tree));
        assert_eq!(one(&source), show(&tree), "{}", source);
    }
}
