//! What evaluating a syntax tree means: its result and its effect on the
//! variables and on memory.

use vstd::prelude::*;
use crate::arith::{quotient, wrap32};
use crate::ast::nodetype::Ntype;
use crate::ast::rettype::RetType;
use crate::ast::tree::Tree;
use crate::datatype::Data;
use crate::error::ErrorKind;

verus! {

/// The variables and the memory that a program works on.
pub struct Store {
    /// The slot of each variable.
    pub vars: Map<Seq<char>, usize>,
    /// The value in each slot.
    pub mem: Seq<i32>,
}

impl Store {
    /// Whether every variable has a slot that memory holds.
    pub open spec fn in_range(self) -> bool {
        forall|name: Seq<char>| #[trigger]
            self.vars.contains_key(name) ==> self.vars[name] < self.mem.len()
    }

    /// Whether each variable has a slot of its own and each slot belongs
    /// to a variable, so that there are as many slots as variables.
    pub open spec fn one_to_one(self) -> bool {
        &&& self.in_range()
        &&& forall|a: Seq<char>, b: Seq<char>|
            #![trigger self.vars[a], self.vars[b]]
            self.vars.contains_key(a) && self.vars.contains_key(b) && self.vars[a]
                == self.vars[b] ==> a == b
        &&& forall|slot: int| 0 <= slot < self.mem.len() ==> #[trigger] self.owned(slot)
    }

    /// Whether the slot `slot` belongs to a variable.
    pub open spec fn owned(self, slot: int) -> bool {
        exists|name: Seq<char>| #[trigger] self.vars.contains_key(name) && self.vars[name] == slot
    }

    /// The value of the variable `name`, which must be declared.
    pub open spec fn value(self, name: Seq<char>) -> i32
        recommends
            self.vars.contains_key(name),
    {
        self.mem[self.vars[name] as int]
    }

    /// The store after a reference to the variable `name`: a name that is
    /// new gets the next free slot, which holds zero.
    pub open spec fn declare(self, name: Seq<char>) -> Store {
        if self.vars.contains_key(name) {
            self
        } else {
            Store { vars: self.vars.insert(name, self.mem.len() as usize), mem: self.mem.push(0) }
        }
    }

    /// The slot of the variable `name` after a reference to it.
    pub open spec fn slot(self, name: Seq<char>) -> usize {
        if self.vars.contains_key(name) {
            self.vars[name]
        } else {
            self.mem.len() as usize
        }
    }

    /// The store with `value` written to slot `slot`.
    pub open spec fn write(self, slot: usize, value: i32) -> Store {
        Store { vars: self.vars, mem: self.mem.update(slot as int, value) }
    }
}

/// What an evaluation gives: its result, or the kind of its failure, and
/// the store that it leaves.
pub struct Evaluated {
    pub result: Result<RetType, ErrorKind>,
    pub store: Store,
}

/// One for true, zero for false.
pub open spec fn truth(b: bool) -> i32 {
    if b {
        1
    } else {
        0
    }
}

/// The value of the operator `ty` on the values `a` and `b`. Sums,
/// differences, products and quotients wrap around; a quotient rounds
/// toward zero and fails on a zero divisor; a comparison gives one or
/// zero.
pub open spec fn operate(ty: Ntype, a: i32, b: i32) -> Result<i32, ErrorKind> {
    match ty {
        Ntype::Add => Ok(wrap32(a + b)),
        Ntype::Sub => Ok(wrap32(a - b)),
        Ntype::Mul => Ok(wrap32(a * b)),
        Ntype::Div => if b == 0 {
            Err(ErrorKind::DivisionByZero)
        } else {
            Ok(wrap32(quotient(a as int, b as int)))
        },
        Ntype::Eq => Ok(truth(a == b)),
        Ntype::Neq => Ok(truth(a != b)),
        Ntype::Greater => Ok(truth(a > b)),
        Ntype::GreaterEq => Ok(truth(a >= b)),
        _ => Err(ErrorKind::UnexpectedError),
    }
}

/// The evaluation of `tree` in `store`.
///
/// A literal gives its value. A variable gives its address and is
/// declared by the reference if it is new. An assignment evaluates its
/// first operand to a value, then its second operand, which must give an
/// address, writes the value there and gives the address. Any other
/// operator evaluates its first operand to a value, then its second, and
/// gives the value of the operator on the two. The first failure ends the
/// evaluation, and what was done before it stays done.
pub open spec fn eval(tree: Tree, store: Store) -> Evaluated
    decreases tree,
{
    match tree.ty {
        Ntype::Num => match tree.value {
            Data::Num(n) => Evaluated { result: Ok(RetType::Num(n)), store },
            _ => Evaluated { result: Err(ErrorKind::UnexpectedError), store },
        },
        Ntype::Lvar => match tree.value {
            Data::String(name) => Evaluated {
                result: Ok(RetType::Address(store.slot(name))),
                store: store.declare(name),
            },
            _ => Evaluated { result: Err(ErrorKind::UnexpectedError), store },
        },
        _ => if tree.childs is None {
            Evaluated { result: Err(ErrorKind::UnexpectedError), store }
        } else {
            let first = eval(tree.childs.unwrap().0, store);
            match first.result {
                Err(k) => Evaluated { result: Err(k), store: first.store },
                Ok(r1) => {
                    let a = r1.value_in(first.store.mem);
                    let second = eval(tree.childs.unwrap().1, first.store);
                    match second.result {
                        Err(k) => Evaluated { result: Err(k), store: second.store },
                        Ok(r2) => if tree.ty == Ntype::Assign {
                            match r2 {
                                RetType::Address(slot) => Evaluated {
                                    result: Ok(r2),
                                    store: second.store.write(slot, a),
                                },
                                RetType::Num(_) => Evaluated {
                                    result: Err(ErrorKind::TypeError),
                                    store: second.store,
                                },
                            }
                        } else {
                            Evaluated {
                                result: match operate(
                                    tree.ty,
                                    a,
                                    r2.value_in(second.store.mem),
                                ) {
                                    Ok(v) => Ok(RetType::Num(v)),
                                    Err(k) => Err(k),
                                },
                                store: second.store,
                            }
                        },
                    }
                },
            }
        },
    }
}

/// What running a program gives: success, or the kind of its failure, and
/// the store that it leaves.
pub struct Ran {
    pub result: Result<(), ErrorKind>,
    pub store: Store,
}

/// Evaluating the statements `stmts` in order, each in the store that
/// the one before it left, up to the first failure.
pub open spec fn run(stmts: Seq<Tree>, store: Store) -> Ran
    decreases stmts.len(),
{
    if stmts.len() == 0 {
        Ran { result: Ok(()), store }
    } else {
        let first = eval(stmts[0], store);
        match first.result {
            Err(k) => Ran { result: Err(k), store: first.store },
            Ok(_) => run(stmts.drop_first(), first.store),
        }
    }
}

/// Evaluation keeps every variable in a slot that memory holds, gives an
/// address only of such a slot, never forgets a variable or moves it to
/// another slot, and never shrinks memory.
pub proof fn lemma_eval_keeps_range(tree: Tree, store: Store)
    requires
        store.in_range(),
    ensures
        eval(tree, store).store.in_range(),
        eval(tree, store).result is Ok ==> eval(tree, store).result->Ok_0.fits(
            eval(tree, store).store.mem.len(),
        ),
        store.vars.submap_of(eval(tree, store).store.vars),
        store.mem.len() <= eval(tree, store).store.mem.len(),
    decreases tree,
{
    if tree.ty != Ntype::Num && tree.ty != Ntype::Lvar && tree.childs is Some {
        let first = eval(tree.childs.unwrap().0, store);
        lemma_eval_keeps_range(tree.childs.unwrap().0, store);
        if first.result is Ok {
            lemma_eval_keeps_range(tree.childs.unwrap().1, first.store);
        }
    }
}

/// Declaring a variable keeps the variables and the slots one to one.
pub proof fn lemma_declare_one_to_one(store: Store, name: Seq<char>)
    requires
        store.one_to_one(),
        store.mem.len() <= usize::MAX,
    ensures
        store.declare(name).one_to_one(),
{
    let after = store.declare(name);
    if !store.vars.contains_key(name) {
        assert forall|slot: int| 0 <= slot < after.mem.len() implies #[trigger] after.owned(
            slot,
        ) by {
            if slot < store.mem.len() {
                assert(store.owned(slot));
                let owner = choose|n: Seq<char>| #[trigger]
                    store.vars.contains_key(n) && store.vars[n] == slot;
                assert(after.vars.contains_key(owner) && after.vars[owner] == slot);
            } else {
                assert(after.vars.contains_key(name) && after.vars[name] == slot);
            }
        }
    }
}

/// Writing to a slot keeps the variables and the slots one to one.
pub proof fn lemma_write_one_to_one(store: Store, slot: usize, value: i32)
    requires
        store.one_to_one(),
        slot < store.mem.len(),
    ensures
        store.write(slot, value).one_to_one(),
{
    let after = store.write(slot, value);
    assert forall|s: int| 0 <= s < after.mem.len() implies #[trigger] after.owned(s) by {
        assert(store.owned(s));
        let owner = choose|n: Seq<char>| #[trigger]
            store.vars.contains_key(n) && store.vars[n] == s;
        assert(after.vars.contains_key(owner) && after.vars[owner] == s);
    }
}

/// Evaluation keeps the invariant of the store: every variable has one
/// slot of its own, and there are as many slots as variables.
pub proof fn lemma_eval_one_to_one(tree: Tree, store: Store)
    requires
        store.one_to_one(),
        eval(tree, store).store.mem.len() <= usize::MAX,
    ensures
        eval(tree, store).store.one_to_one(),
    decreases tree,
{
    lemma_eval_keeps_range(tree, store);
    match tree.ty {
        Ntype::Num => {},
        Ntype::Lvar => {
            if let Data::String(name) = tree.value {
                lemma_declare_one_to_one(store, name);
            }
        },
        _ => {
            if tree.childs is Some {
                let first = eval(tree.childs.unwrap().0, store);
                lemma_eval_keeps_range(tree.childs.unwrap().0, store);
                if first.result is Ok {
                    let second = eval(tree.childs.unwrap().1, first.store);
                    lemma_eval_keeps_range(tree.childs.unwrap().1, first.store);
                    lemma_eval_one_to_one(tree.childs.unwrap().0, store);
                    lemma_eval_one_to_one(tree.childs.unwrap().1, first.store);
                    if second.result is Ok && tree.ty == Ntype::Assign {
                        if let RetType::Address(slot) = second.result->Ok_0 {
                            lemma_write_one_to_one(second.store, slot, first.result->Ok_0.value_in(first.store.mem));
                        }
                    }
                } else {
                    lemma_eval_one_to_one(tree.childs.unwrap().0, store);
                }
            }
        },
    }
}

/// A reference to a variable that was never assigned does not fail: it
/// declares the variable, whose value is then zero, and leaves every
/// other variable as it was.
pub proof fn lemma_reference_declares(name: Seq<char>, store: Store)
    requires
        store.in_range(),
        !store.vars.contains_key(name),
        store.mem.len() <= usize::MAX,
    ensures
        eval(Tree::lvar(name), store).result == Ok::<RetType, ErrorKind>(
            RetType::Address(store.mem.len() as usize),
        ),
        eval(Tree::lvar(name), store).store.vars.contains_key(name),
        eval(Tree::lvar(name), store).store.value(name) == 0,
        forall|other: Seq<char>| #[trigger]
            store.vars.contains_key(other) ==> eval(Tree::lvar(name), store).store.vars.contains_key(
                other,
            ) && eval(Tree::lvar(name), store).store.value(other) == store.value(other),
{
}

/// A reference to a variable that is declared gives its slot and
/// changes nothing.
pub proof fn lemma_reference_finds(name: Seq<char>, store: Store)
    requires
        store.vars.contains_key(name),
    ensures
        eval(Tree::lvar(name), store).result == Ok::<RetType, ErrorKind>(
            RetType::Address(store.vars[name]),
        ),
        eval(Tree::lvar(name), store).store == store,
{
}

/// A chain of assignments gives the value to every variable of the
/// chain: after `a = b = n`, both `a` and `b` hold `n`.
pub proof fn lemma_assign_chain(a: Seq<char>, b: Seq<char>, n: i32, store: Store)
    requires
        store.in_range(),
        store.mem.len() + 2 <= usize::MAX,
    ensures
        ({
            let inner = Tree::binary(Ntype::Assign, Tree::number(n), Tree::lvar(b));
            let chain = Tree::binary(Ntype::Assign, inner, Tree::lvar(a));
            let end = eval(chain, store);
            &&& end.result is Ok
            &&& end.store.vars.contains_key(a)
            &&& end.store.vars.contains_key(b)
            &&& end.store.value(a) == n
            &&& end.store.value(b) == n
        }),
{
    let inner = Tree::binary(Ntype::Assign, Tree::number(n), Tree::lvar(b));
    let chain = Tree::binary(Ntype::Assign, inner, Tree::lvar(a));
    reveal_with_fuel(eval, 3);
    let first = eval(Tree::number(n), store);
    assert(first.store == store);
    let target = eval(Tree::lvar(b), store);
    let slot_b = store.slot(b);
    let mid = eval(inner, store);
    assert(mid.result == Ok::<RetType, ErrorKind>(RetType::Address(slot_b)));
    assert(mid.store == store.declare(b).write(slot_b, n));
    assert(mid.store.mem[slot_b as int] == n);
    let slot_a = mid.store.slot(a);
    let end = eval(chain, store);
    assert(end.store == mid.store.declare(a).write(slot_a, n));
}

/// `-x` is `0 - x`: where `x` evaluates to a value, the tree that the
/// grammar builds for `-x` evaluates to zero minus that value, wrapped
/// around, and has the effect of `x` on the store.
pub proof fn lemma_negation(x: Tree, store: Store)
    requires
        eval(x, store).result is Ok,
    ensures
        eval(Tree::binary(Ntype::Sub, Tree::number(0), x), store).result == Ok::<
            RetType,
            ErrorKind,
        >(RetType::Num(wrap32(0 - eval(x, store).result->Ok_0.value_in(eval(x, store).store.mem)))),
        eval(Tree::binary(Ntype::Sub, Tree::number(0), x), store).store == eval(x, store).store,
{
    reveal_with_fuel(eval, 2);
}

/// `a < b` is `b > a` and `a <= b` is `b >= a`: the comparison that the
/// grammar keeps, on the operands in exchanged places, gives the truth
/// value of the one that it drops.
pub proof fn lemma_exchanged_comparison(a: i32, b: i32)
    ensures
        operate(Ntype::Greater, b, a) == Ok::<i32, ErrorKind>(truth(a < b)),
        operate(Ntype::GreaterEq, b, a) == Ok::<i32, ErrorKind>(truth(a <= b)),
{
}

/// The evaluation of a tree of the shape that the grammar produces fails
/// only on a division by zero or on an assignment to something that is
/// no variable.
pub proof fn lemma_eval_well_formed(tree: Tree, store: Store)
    requires
        tree.well_formed(),
    ensures
        eval(tree, store).result is Err ==> eval(tree, store).result->Err_0
            == ErrorKind::DivisionByZero || eval(tree, store).result->Err_0 == ErrorKind::TypeError,
    decreases tree,
{
    if tree.ty != Ntype::Num && tree.ty != Ntype::Lvar {
        let first = eval(tree.childs.unwrap().0, store);
        lemma_eval_well_formed(tree.childs.unwrap().0, store);
        if first.result is Ok {
            lemma_eval_well_formed(tree.childs.unwrap().1, first.store);
        }
    }
}

/// Running statements of the shape that the grammar produces fails only
/// on a division by zero or on an assignment to something that is no
/// variable.
pub proof fn lemma_run_well_formed(stmts: Seq<Tree>, store: Store)
    requires
        forall|i: int| 0 <= i < stmts.len() ==> (#[trigger] stmts[i]).well_formed(),
    ensures
        run(stmts, store).result is Err ==> run(stmts, store).result->Err_0
            == ErrorKind::DivisionByZero || run(stmts, store).result->Err_0 == ErrorKind::TypeError,
    decreases stmts.len(),
{
    if stmts.len() > 0 {
        lemma_eval_well_formed(stmts[0], store);
        let first = eval(stmts[0], store);
        if first.result is Ok {
            let rest = stmts.drop_first();
            assert forall|i: int| 0 <= i < rest.len() implies (#[trigger] rest[i]).well_formed() by {
                assert(rest[i] == stmts[i + 1]);
            }
            lemma_run_well_formed(rest, first.store);
        }
    }
}

/// Running a program keeps every variable in a slot that memory holds,
/// never forgets a variable or moves it to another slot, and never
/// shrinks memory.
pub proof fn lemma_run_keeps_range(stmts: Seq<Tree>, store: Store)
    requires
        store.in_range(),
    ensures
        run(stmts, store).store.in_range(),
        store.vars.submap_of(run(stmts, store).store.vars),
        store.mem.len() <= run(stmts, store).store.mem.len(),
    decreases stmts.len(),
{
    if stmts.len() > 0 {
        lemma_eval_keeps_range(stmts[0], store);
        let first = eval(stmts[0], store);
        if first.result is Ok {
            lemma_run_keeps_range(stmts.drop_first(), first.store);
            let last = run(stmts.drop_first(), first.store).store;
            assert(run(stmts, store).store == last);
            vstd::map_lib::lemma_submap_of_trans(store.vars, first.store.vars, last.vars);
        }
    }
}

/// Running a program keeps the invariant of the store: every variable
/// has one slot of its own, and there are as many slots as variables.
pub proof fn lemma_run_one_to_one(stmts: Seq<Tree>, store: Store)
    requires
        store.one_to_one(),
        run(stmts, store).store.mem.len() <= usize::MAX,
    ensures
        run(stmts, store).store.one_to_one(),
    decreases stmts.len(),
{
    if stmts.len() > 0 {
        lemma_eval_keeps_range(stmts[0], store);
        let first = eval(stmts[0], store);
        if first.result is Ok {
            lemma_run_keeps_range(stmts.drop_first(), first.store);
            lemma_eval_one_to_one(stmts[0], store);
            lemma_run_one_to_one(stmts.drop_first(), first.store);
        } else {
            lemma_eval_one_to_one(stmts[0], store);
        }
    }
}

} // verus!
