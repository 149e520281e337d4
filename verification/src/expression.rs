//! Polynomial expressions over the cells of a circuit, and the constraints made of them.

use crate::rlc::rlc_be;
use vstd::arithmetic::div_mod::{
    lemma_add_mod_noop, lemma_mod_equivalence, lemma_mul_mod_noop_left, lemma_mul_mod_noop_right,
    lemma_small_mod,
};
use vstd::prelude::*;

verus! {

/// The row of a cell, as seen from the row that a constraint is about.
#[derive(Debug, Clone, Copy, PartialEq, Eq, Structural)]
pub enum Rotation {
    Prev,
    Cur,
    Next,
}

impl Rotation {
    pub open spec fn offset(self) -> int {
        match self {
            Rotation::Prev => -1,
            Rotation::Cur => 0,
            Rotation::Next => 1,
        }
    }
}

/// The random values that the verifier hands to the circuits.
#[derive(Debug, Clone, Copy, PartialEq, Eq, Structural)]
pub enum Challenge {
    /// for combinations of the input of the hash function
    KeccakInput,
    /// for combinations of the bytes of a word
    EvmWord,
}

/// The values that an expression is about: the cells around a row and the challenges, as elements
/// of a field of order `modulus`.
#[verifier::reject_recursive_types(C)]
pub ghost struct Env<C> {
    pub cell: spec_fn(C, int) -> int,
    pub challenge: spec_fn(Challenge) -> int,
    pub modulus: int,
}

impl<C> Env<C> {
    /// The cell of column `c` in the row at hand.
    pub open spec fn cur(self, c: C) -> int {
        (self.cell)(c, 0)
    }

    /// The cell of column `c` in the row before.
    pub open spec fn prev(self, c: C) -> int {
        (self.cell)(c, -1)
    }

    /// The cell of column `c` in the row after.
    pub open spec fn next(self, c: C) -> int {
        (self.cell)(c, 1)
    }

    /// `a` and `b` are the same element of the field wherever `on` is set.
    pub open spec fn equal_if(self, on: int, a: int, b: int) -> bool {
        vanishes(on * (a - b), self.modulus)
    }

    /// `a` and `b` are the same element of the field wherever `on` and `condition` are set.
    pub open spec fn equal_if_both(self, on: int, condition: int, a: int, b: int) -> bool {
        vanishes(on * (condition * (a - b)), self.modulus)
    }

    /// `a` is the value of a flag wherever `on` is set.
    pub open spec fn boolean_if(self, on: int, a: int) -> bool {
        vanishes(on * (a * (1 - a)), self.modulus)
    }
}

/// `a` is zero in a field of order `m`.
pub open spec fn vanishes(a: int, m: int) -> bool {
    a % m == 0
}

/// `a` is the value of a flag.
pub open spec fn is_bit(a: int) -> bool {
    a == 0 || a == 1
}

/// The sum of `values`.
pub open spec fn total(values: Seq<int>) -> int
    decreases values.len(),
{
    if values.len() == 0 {
        0
    } else {
        total(values.drop_last()) + values.last()
    }
}

/// The flag that none of the flags `values` is set.
pub open spec fn none_of(values: Seq<int>) -> int
    decreases values.len(),
{
    if values.len() == 0 {
        1
    } else {
        none_of(values.drop_last()) * (1 - values.last())
    }
}

/// The flag that one of the flags `values` is set.
pub open spec fn any_of(values: Seq<int>) -> int {
    1 - none_of(values)
}

/// The polynomial in `r` with the coefficients `values`, that of the highest degree first.
pub open spec fn polynomial(values: Seq<int>, r: int) -> int
    decreases values.len(),
{
    if values.len() == 0 {
        0
    } else {
        polynomial(values.drop_last(), r) * r + values.last()
    }
}

/// The polynomial of bytes is their combination.
pub proof fn lemma_polynomial(values: Seq<int>, bytes: Seq<u8>, r: int, m: int)
    requires
        m > 0,
        values.len() == bytes.len(),
        forall|i: int| 0 <= i < values.len() ==> #[trigger] values[i] == bytes[i],
    ensures
        polynomial(values, r) % m == rlc_be(bytes, r, m),
    decreases values.len(),
{
    if values.len() == 0 {
        lemma_small_mod(0, m as nat);
    } else {
        let v = values.drop_last();
        let b = bytes.drop_last();
        lemma_polynomial(v, b, r, m);
        let p = polynomial(v, r);
        let l = values.last();
        lemma_mul_mod_noop_left(p, r, m);
        lemma_add_mod_noop(p * r, l, m);
        lemma_add_mod_noop((p % m) * r, l, m);
    }
}

/// Two numbers with the same residue are equal in the field.
pub proof fn lemma_congruent<C>(e: Env<C>, on: int, a: int, b: int)
    requires
        e.modulus > 0,
        a % e.modulus == b % e.modulus,
    ensures
        e.equal_if(on, a, b),
{
    let m = e.modulus;
    lemma_mod_equivalence(a, b, m);
    assert((a - b) % m == 0);
    lemma_mul_mod_noop_right(on, a - b, m);
    assert(on * 0 == 0);
    lemma_small_mod(0, m as nat);
}

/// A polynomial in the cells around a row and the challenges.
#[derive(Debug)]
pub enum Expression<C> {
    Constant(u64),
    Challenge(Challenge),
    Query(C, Rotation),
    Negated(Box<Expression<C>>),
    Sum(Box<Expression<C>>, Box<Expression<C>>),
    Product(Box<Expression<C>>, Box<Expression<C>>),
}

/// The values of the expressions `exprs`.
pub open spec fn eval_all<C: Copy>(exprs: Seq<Expression<C>>, env: Env<C>) -> Seq<int> {
    Seq::new(exprs.len(), |i: int| exprs[i].eval(env))
}

impl<C: Copy> Expression<C> {
    /// The value of the expression, as an integer.
    pub open spec fn eval(self, env: Env<C>) -> int
        decreases self,
    {
        match self {
            Expression::Constant(v) => v as int,
            Expression::Challenge(c) => (env.challenge)(c),
            Expression::Query(c, rotation) => (env.cell)(c, rotation.offset()),
            Expression::Negated(a) => -a.eval(env),
            Expression::Sum(a, b) => a.eval(env) + b.eval(env),
            Expression::Product(a, b) => a.eval(env) * b.eval(env),
        }
    }

    pub fn duplicate(&self) -> (r: Self)
        ensures
            r == *self,
        decreases self,
    {
        match self {
            Expression::Constant(v) => Expression::Constant(*v),
            Expression::Challenge(c) => Expression::Challenge(*c),
            Expression::Query(c, rotation) => Expression::Query(*c, *rotation),
            Expression::Negated(a) => Expression::Negated(Box::new(a.duplicate())),
            Expression::Sum(a, b) => {
                Expression::Sum(Box::new(a.duplicate()), Box::new(b.duplicate()))
            },
            Expression::Product(a, b) => {
                Expression::Product(Box::new(a.duplicate()), Box::new(b.duplicate()))
            },
        }
    }

    pub fn constant(v: u64) -> (r: Self)
        ensures
            forall|env: Env<C>| #[trigger] r.eval(env) == v,
    {
        Expression::Constant(v)
    }

    pub fn challenge(c: Challenge) -> (r: Self)
        ensures
            forall|env: Env<C>| #[trigger] r.eval(env) == (env.challenge)(c),
    {
        Expression::Challenge(c)
    }

    pub fn cur(c: C) -> (r: Self)
        ensures
            forall|env: Env<C>| #[trigger] r.eval(env) == env.cur(c),
    {
        Expression::Query(c, Rotation::Cur)
    }

    pub fn prev(c: C) -> (r: Self)
        ensures
            forall|env: Env<C>| #[trigger] r.eval(env) == env.prev(c),
    {
        Expression::Query(c, Rotation::Prev)
    }

    pub fn next(c: C) -> (r: Self)
        ensures
            forall|env: Env<C>| #[trigger] r.eval(env) == env.next(c),
    {
        Expression::Query(c, Rotation::Next)
    }

    pub fn plus(self, other: Self) -> (r: Self)
        ensures
            forall|env: Env<C>| #[trigger] r.eval(env) == self.eval(env) + other.eval(env),
    {
        Expression::Sum(Box::new(self), Box::new(other))
    }

    pub fn minus(self, other: Self) -> (r: Self)
        ensures
            forall|env: Env<C>| #[trigger] r.eval(env) == self.eval(env) - other.eval(env),
    {
        let negated = Expression::Negated(Box::new(other));
        let r = Expression::Sum(Box::new(self), Box::new(negated));
        assert forall|env: Env<C>| #[trigger] r.eval(env) == self.eval(env) - other.eval(env) by {
            assert(negated.eval(env) == -other.eval(env));
        }
        r
    }

    pub fn times(self, other: Self) -> (r: Self)
        ensures
            forall|env: Env<C>| #[trigger] r.eval(env) == self.eval(env) * other.eval(env),
    {
        Expression::Product(Box::new(self), Box::new(other))
    }

    /// The expression times a fixed number.
    pub fn scaled(self, factor: u64) -> (r: Self)
        ensures
            forall|env: Env<C>| #[trigger] r.eval(env) == self.eval(env) * factor,
    {
        self.times(Expression::constant(factor))
    }

    /// The flag that is set where this one is not.
    pub fn not(self) -> (r: Self)
        ensures
            forall|env: Env<C>| #[trigger] r.eval(env) == 1 - self.eval(env),
    {
        Expression::constant(1).minus(self)
    }

    /// The sum of `exprs`.
    pub fn sum(exprs: Vec<Self>) -> (r: Self)
        ensures
            forall|env: Env<C>| #[trigger] r.eval(env) == total(eval_all(exprs@, env)),
    {
        let mut acc: Self = Expression::constant(0);
        let mut i: usize = 0;
        while i < exprs.len()
            invariant
                i <= exprs@.len(),
                forall|env: Env<C>| #[trigger]
                    acc.eval(env) == total(eval_all(exprs@.take(i as int), env)),
            decreases exprs@.len() - i,
        {
            let ghost before = acc;
            acc = acc.plus(exprs[i].duplicate());
            proof {
                assert forall|env: Env<C>| #[trigger]
                    acc.eval(env) == total(eval_all(exprs@.take(i + 1), env)) by {
                    assert(eval_all(exprs@.take(i + 1), env).drop_last() =~= eval_all(
                        exprs@.take(i as int),
                        env,
                    ));
                    assert(before.eval(env) == total(eval_all(exprs@.take(i as int), env)));
                }
            }
            i = i + 1;
        }
        assert(exprs@.take(i as int) =~= exprs@);
        acc
    }

    /// The flag that is set where one of the flags `exprs` is.
    pub fn or(exprs: Vec<Self>) -> (r: Self)
        ensures
            forall|env: Env<C>| #[trigger] r.eval(env) == any_of(eval_all(exprs@, env)),
    {
        let mut acc: Self = Expression::constant(1);
        let mut i: usize = 0;
        while i < exprs.len()
            invariant
                i <= exprs@.len(),
                forall|env: Env<C>| #[trigger]
                    acc.eval(env) == none_of(eval_all(exprs@.take(i as int), env)),
            decreases exprs@.len() - i,
        {
            let ghost before = acc;
            acc = acc.times(exprs[i].duplicate().not());
            proof {
                assert forall|env: Env<C>| #[trigger]
                    acc.eval(env) == none_of(eval_all(exprs@.take(i + 1), env)) by {
                    assert(eval_all(exprs@.take(i + 1), env).drop_last() =~= eval_all(
                        exprs@.take(i as int),
                        env,
                    ));
                    assert(before.eval(env) == none_of(eval_all(exprs@.take(i as int), env)));
                }
            }
            i = i + 1;
        }
        assert(exprs@.take(i as int) =~= exprs@);
        acc.not()
    }

    /// The polynomial in `r` with the coefficients `exprs`, the constant term first.
    pub fn rlc(exprs: &Vec<Self>, r: Self) -> (combined: Self)
        ensures
            forall|env: Env<C>| #[trigger]
                combined.eval(env) == polynomial(eval_all(exprs@.reverse(), env), r.eval(env)),
    {
        let ghost rev = exprs@.reverse();
        let mut acc: Self = Expression::constant(0);
        let mut i: usize = exprs.len();
        while i > 0
            invariant
                i <= exprs@.len(),
                rev == exprs@.reverse(),
                forall|env: Env<C>| #[trigger]
                    acc.eval(env) == polynomial(
                        eval_all(rev.take(exprs@.len() - i), env),
                        r.eval(env),
                    ),
            decreases i,
        {
            let ghost before = acc;
            let ghost k = exprs@.len() - i;
            acc = acc.times(r.duplicate()).plus(exprs[i - 1].duplicate());
            proof {
                assert forall|env: Env<C>| #[trigger]
                    acc.eval(env) == polynomial(eval_all(rev.take(k + 1), env), r.eval(env)) by {
                    assert(eval_all(rev.take(k + 1), env).drop_last() =~= eval_all(
                        rev.take(k),
                        env,
                    ));
                    assert(before.eval(env) == polynomial(
                        eval_all(rev.take(k), env),
                        r.eval(env),
                    ));
                }
            }
            i = i - 1;
        }
        assert(rev.take(exprs@.len() as int) =~= rev);
        acc
    }
}

/// An expression that has to be zero.
#[derive(Debug)]
pub struct Constraint<C> {
    pub name: &'static str,
    pub expr: Expression<C>,
}

/// A group of constraints that hold in every row.
#[derive(Debug)]
pub struct Gate<C> {
    pub name: &'static str,
    pub constraints: Vec<Constraint<C>>,
}

/// The constraints hold where the flag `on` is set.
pub open spec fn hold_if<C: Copy>(constraints: Seq<Constraint<C>>, on: int, env: Env<C>) -> bool {
    forall|i: int|
        0 <= i < constraints.len() ==> vanishes(
            on * (#[trigger] constraints[i]).expr.eval(env),
            env.modulus,
        )
}

impl<C: Copy> Gate<C> {
    /// The constraints hold.
    pub open spec fn holds(self, env: Env<C>) -> bool {
        forall|i: int|
            0 <= i < self.constraints@.len() ==> vanishes(
                (#[trigger] self.constraints@[i]).expr.eval(env),
                env.modulus,
            )
    }
}

/// Collects the constraints of a gate.
#[derive(Debug)]
pub struct BaseConstraintBuilder<C> {
    pub constraints: Vec<Constraint<C>>,
}

impl<C: Copy> BaseConstraintBuilder<C> {
    /// The constraints collected so far hold where the flag `on` is set.
    pub open spec fn hold_if(self, on: int, env: Env<C>) -> bool {
        hold_if(self.constraints@, on, env)
    }

    pub fn new() -> (r: Self)
        ensures
            forall|on: int, env: Env<C>| #[trigger] r.hold_if(on, env),
    {
        BaseConstraintBuilder { constraints: Vec::new() }
    }

    /// Adds the constraint that `expr` is zero.
    fn add_constraint(&mut self, name: &'static str, expr: Expression<C>)
        ensures
            forall|on: int, env: Env<C>| #[trigger]
                final(self).hold_if(on, env) == (old(self).hold_if(on, env) && vanishes(
                    on * expr.eval(env),
                    env.modulus,
                )),
    {
        self.constraints.push(Constraint { name, expr });
        proof {
            let before = old(self).constraints@;
            let after = self.constraints@;
            assert forall|on: int, env: Env<C>| #[trigger]
                self.hold_if(on, env) == (old(self).hold_if(on, env) && vanishes(
                    on * expr.eval(env),
                    env.modulus,
                )) by {
                if self.hold_if(on, env) {
                    assert(vanishes(on * after[before.len() as int].expr.eval(env), env.modulus));
                    assert forall|i: int| 0 <= i < before.len() implies vanishes(
                        on * (#[trigger] before[i]).expr.eval(env),
                        env.modulus,
                    ) by {
                        assert(after[i] == before[i]);
                    }
                }
            }
        }
    }

    pub fn require_zero(&mut self, name: &'static str, expr: Expression<C>)
        ensures
            forall|on: int, env: Env<C>| #[trigger]
                final(self).hold_if(on, env) == (old(self).hold_if(on, env) && env.equal_if(
                    on,
                    expr.eval(env),
                    0,
                )),
    {
        self.add_constraint(name, expr);
    }

    pub fn require_equal(&mut self, name: &'static str, lhs: Expression<C>, rhs: Expression<C>)
        ensures
            forall|on: int, env: Env<C>| #[trigger]
                final(self).hold_if(on, env) == (old(self).hold_if(on, env) && env.equal_if(
                    on,
                    lhs.eval(env),
                    rhs.eval(env),
                )),
    {
        self.add_constraint(name, lhs.minus(rhs));
    }

    pub fn require_boolean(&mut self, name: &'static str, expr: Expression<C>)
        ensures
            forall|on: int, env: Env<C>| #[trigger]
                final(self).hold_if(on, env) == (old(self).hold_if(on, env) && env.boolean_if(
                    on,
                    expr.eval(env),
                )),
    {
        let complement = expr.duplicate().not();
        self.add_constraint(name, expr.times(complement));
    }

    /// Requires that `expr` is zero where the flag `condition` is set.
    pub fn require_zero_if(
        &mut self,
        condition: &Expression<C>,
        name: &'static str,
        expr: Expression<C>,
    )
        ensures
            forall|on: int, env: Env<C>| #[trigger]
                final(self).hold_if(on, env) == (old(self).hold_if(on, env) && env.equal_if_both(
                    on,
                    condition.eval(env),
                    expr.eval(env),
                    0,
                )),
    {
        self.add_constraint(name, condition.duplicate().times(expr));
    }

    /// Requires that the expressions are equal where the flag `condition` is set.
    pub fn require_equal_if(
        &mut self,
        condition: &Expression<C>,
        name: &'static str,
        lhs: Expression<C>,
        rhs: Expression<C>,
    )
        ensures
            forall|on: int, env: Env<C>| #[trigger]
                final(self).hold_if(on, env) == (old(self).hold_if(on, env) && env.equal_if_both(
                    on,
                    condition.eval(env),
                    lhs.eval(env),
                    rhs.eval(env),
                )),
    {
        self.add_constraint(name, condition.duplicate().times(lhs.minus(rhs)));
    }

    /// A gate made of the constraints, which is open where the flag `selector` is set.
    pub fn gate(self, name: &'static str, selector: Expression<C>) -> (r: Gate<C>)
        ensures
            r.name == name,
            forall|env: Env<C>| #[trigger] r.holds(env) == self.hold_if(selector.eval(env), env),
    {
        let mut constraints: Vec<Constraint<C>> = Vec::new();
        let mut i: usize = 0;
        while i < self.constraints.len()
            invariant
                i <= self.constraints@.len(),
                constraints@.len() == i,
                forall|j: int, env: Env<C>|
                    0 <= j < i ==> #[trigger] constraints@[j].expr.eval(env) == selector.eval(env)
                        * self.constraints@[j].expr.eval(env),
            decreases self.constraints@.len() - i,
        {
            let constraint = &self.constraints[i];
            constraints.push(
                Constraint {
                    name: constraint.name,
                    expr: selector.duplicate().times(constraint.expr.duplicate()),
                },
            );
            i = i + 1;
        }
        let r = Gate { name, constraints };
        proof {
            assert forall|env: Env<C>| #[trigger]
                r.holds(env) == self.hold_if(selector.eval(env), env) by {
                let on = selector.eval(env);
                if r.holds(env) {
                    assert forall|j: int| 0 <= j < self.constraints@.len() implies vanishes(
                        on * (#[trigger] self.constraints@[j]).expr.eval(env),
                        env.modulus,
                    ) by {
                        assert(vanishes(r.constraints@[j].expr.eval(env), env.modulus));
                    }
                }
                if self.hold_if(on, env) {
                    assert forall|j: int| 0 <= j < r.constraints@.len() implies vanishes(
                        (#[trigger] r.constraints@[j]).expr.eval(env),
                        env.modulus,
                    ) by {
                        assert(vanishes(on * self.constraints@[j].expr.eval(env), env.modulus));
                    }
                }
            }
        }
        r
    }
}

} // verus!
