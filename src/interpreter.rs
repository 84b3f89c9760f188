//! The evaluator: walks a syntax tree with a stack of variable scopes and
//! records the bindings of each block as it is left.

use vstd::prelude::*;

use crate::node::{BinOp, Node, UnaryOp};
use crate::scope::{
    assigned, innermost_holding, lemma_innermost_holding, resolve, Scope,
};
use crate::token::literal::Literal;
use crate::lexer::{digit_run, is_ascii_digit};
use crate::chars::chars_of;
use crate::token::op::{Fixity, OpKind};

verus! {

broadcast use {
    vstd::std_specs::vec::axiom_vec_index_decreases,
    vstd::seq::axiom_seq_index_decreases,
    vstd::seq::axiom_seq_subrange_decreases,
};

#[derive(Debug, Clone, Copy, PartialEq, Eq, Structural)]
pub enum InterpreterErr {
    /// A literal's text is not a number.
    InvalidLiteral,
    /// A unary operator other than `+` or `-`.
    InvalidUnaryOp,
    /// A binary operator that evaluation does not define.
    InvalidBinOp,
    /// A name that no enclosing scope binds.
    UndefinedIdent,
    /// The target of `:=` is not an identifier.
    InvalidAssignment,
    /// A node that evaluation does not define, or an assignment outside any block.
    UndefinedErr,
}

/// The numbers that evaluation computes with. Each operation's result is named
/// by a spec function of its operands alone. The library asks for the value of
/// numerals only (see `is_numeral`).
pub trait Number: Copy + Sized {
    spec fn spec_zero() -> Self;

    spec fn spec_from_literal(text: String) -> Self;

    spec fn spec_plus(self, rhs: Self) -> Self;

    spec fn spec_minus(self, rhs: Self) -> Self;

    spec fn spec_times(self, rhs: Self) -> Self;

    spec fn spec_divide(self, rhs: Self) -> Self;

    spec fn spec_power(self, rhs: Self) -> Self;

    spec fn spec_negate(self) -> Self;

    fn zero() -> (r: Self)
        ensures
            r == Self::spec_zero(),
    ;

    /// The value of a numeral: digits, optionally followed by `.` and digits.
    fn from_literal(text: &String) -> (r: Self)
        ensures
            r == Self::spec_from_literal(*text),
    ;

    fn plus(self, rhs: Self) -> (r: Self)
        ensures
            r == self.spec_plus(rhs),
    ;

    fn minus(self, rhs: Self) -> (r: Self)
        ensures
            r == self.spec_minus(rhs),
    ;

    fn times(self, rhs: Self) -> (r: Self)
        ensures
            r == self.spec_times(rhs),
    ;

    fn divide(self, rhs: Self) -> (r: Self)
        ensures
            r == self.spec_divide(rhs),
    ;

    fn power(self, rhs: Self) -> (r: Self)
        ensures
            r == self.spec_power(rhs),
    ;

    fn negate(self) -> (r: Self)
        ensures
            r == self.spec_negate(),
    ;
}

/// A numeral: a run of digits, and if a `.` follows, the `.` and a (possibly
/// empty) run of digits, with nothing after.
pub open spec fn is_numeral(t: Seq<char>) -> bool {
    let n = digit_run(t) as int;
    n >= 1 && (n == t.len() || (t[n] == '.' && digit_run(t.skip(n + 1)) == t.len() - n - 1))
}

/// A stack of scopes (the innermost last) and the history of the scopes left.
pub type Env<V> = (Seq<Map<Seq<char>, V>>, Seq<Map<Seq<char>, V>>);

/// What evaluating a node gives: its value and the environment after it.
pub type Evaluated<V> = Result<(V, Env<V>), InterpreterErr>;

pub open spec fn literal_string(l: Literal) -> String {
    match l {
        Literal::Integer(t) => t,
        Literal::Float(t) => t,
    }
}

/// The value of `a op b` for an arithmetic operator; `None` for `%` and `:=`.
pub open spec fn arith<V: Number>(op: OpKind, a: V, b: V) -> Option<V> {
    match op {
        OpKind::Caret => Some(a.spec_power(b)),
        OpKind::Minus => Some(a.spec_minus(b)),
        OpKind::Plus => Some(a.spec_plus(b)),
        OpKind::Slash => Some(a.spec_divide(b)),
        OpKind::Star => Some(a.spec_times(b)),
        _ => None,
    }
}

/// Evaluation of `n` in `env`: its value and the environment after it.
/// - A block runs its statements in order in a new innermost scope, whose final
///   bindings join the history when the block is left; its value is that of its
///   last statement (zero if it has none).
/// - `name := e` evaluates `e` first; the target must then be an identifier,
///   and the value is bound as `assigned` says and is the value of the whole.
/// - Binary operators evaluate the left operand, then the right one; only
///   `+ - * / ^` have a value.
/// - An identifier has the value bound by the innermost scope that binds it; a
///   literal must be a numeral, and has the number's value of its text.
/// - An empty statement is zero; a keyword or separator has no value.
pub open spec fn eval<V: Number>(n: Node, env: Env<V>) -> Evaluated<V>
    decreases n,
{
    match n {
        Node::BinOp(b) => if b.op == OpKind::AssignEq {
            match eval(*b.rhs, env) {
                Err(e) => Err(e),
                Ok((v, env1)) => match *b.lhs {
                    Node::Ident(name) => if env1.0.len() == 0 {
                        Err(InterpreterErr::UndefinedErr)
                    } else {
                        Ok((v, (assigned(env1.0, name@, v), env1.1)))
                    },
                    _ => Err(InterpreterErr::InvalidAssignment),
                },
            }
        } else {
            match eval(*b.lhs, env) {
                Err(e) => Err(e),
                Ok((a, env1)) => match eval(*b.rhs, env1) {
                    Err(e) => Err(e),
                    Ok((c, env2)) => match arith(b.op, a, c) {
                        Some(v) => Ok((v, env2)),
                        None => Err(InterpreterErr::InvalidBinOp),
                    },
                },
            }
        },
        Node::UnaryOp(u) => if u.op == OpKind::Minus {
            match eval(*u.node, env) {
                Err(e) => Err(e),
                Ok((v, env1)) => Ok((v.spec_negate(), env1)),
            }
        } else if u.op == OpKind::Plus {
            eval(*u.node, env)
        } else {
            Err(InterpreterErr::InvalidUnaryOp)
        },
        Node::Literal(l) => if is_numeral(literal_string(l)@) {
            Ok((V::spec_from_literal(literal_string(l)), env))
        } else {
            Err(InterpreterErr::InvalidLiteral)
        },
        Node::Ident(name) => match resolve(env.0, name@) {
            Some(v) => Ok((v, env)),
            None => Err(InterpreterErr::UndefinedIdent),
        },
        Node::Compound(c) => match eval_list(
            c.children@,
            (env.0.push(Map::empty()), env.1),
            V::spec_zero(),
        ) {
            Err(e) => Err(e),
            Ok((v, env1)) => Ok((v, (env1.0.drop_last(), env1.1.push(env1.0.last())))),
        },
        Node::Empty => Ok((V::spec_zero(), env)),
        _ => Err(InterpreterErr::UndefinedErr),
    }
}

/// Evaluation of the statements `cs` in order, after one whose value was `last`.
pub open spec fn eval_list<V: Number>(cs: Seq<Node>, env: Env<V>, last: V) -> Evaluated<V>
    decreases cs,
{
    if cs.len() == 0 {
        Ok((last, env))
    } else {
        match eval(cs[0], env) {
            Err(e) => Err(e),
            Ok((v, env1)) => eval_list(cs.drop_first(), env1, v),
        }
    }
}

/// The scopes of a whole run of `ast` from an empty environment, in the order
/// the blocks were left, or the error.
pub open spec fn spec_run<V: Number>(ast: Node) -> Result<Seq<Map<Seq<char>, V>>, InterpreterErr> {
    match eval::<V>(ast, (Seq::empty(), Seq::empty())) {
        Ok((_, env)) => Ok(env.1),
        Err(e) => Err(e),
    }
}

/// The exec result `r`, with stack and history `stack`/`hist` after it, is what
/// the evaluation gave.
pub open spec fn agrees<V>(
    r: Result<V, InterpreterErr>,
    stack: Seq<Map<Seq<char>, V>>,
    hist: Seq<Map<Seq<char>, V>>,
    s: Evaluated<V>,
) -> bool {
    match (r, s) {
        (Ok(v), Ok((w, env))) => v == w && stack == env.0 && hist == env.1,
        (Err(e), Err(f)) => e == f,
        _ => false,
    }
}

/// The length of the run of digits in `t` from `start` on.
fn digits_from(t: &Vec<char>, start: usize) -> (r: usize)
    requires
        start <= t@.len(),
    ensures
        r == digit_run(t@.skip(start as int)),
        start + r <= t@.len(),
{
    let mut n: usize = start;
    while n < t.len() && is_ascii_digit(t[n])
        invariant
            start <= n <= t@.len(),
            digit_run(t@.skip(start as int)) == (n - start) + digit_run(t@.skip(n as int)),
        decreases t@.len() - n,
    {
        assert(t@.skip(n as int).drop_first() =~= t@.skip(n + 1));
        n = n + 1;
    }
    n - start
}

/// Whether `text` is a numeral.
pub fn numeral(text: &String) -> (r: bool)
    ensures
        r == is_numeral(text@),
{
    let t = chars_of(text.as_str());
    assert(t@.skip(0) =~= t@);
    let n = digits_from(&t, 0);
    if n == 0 {
        return false;
    }
    if n == t.len() {
        return true;
    }
    if t[n] != '.' {
        return false;
    }
    let m = digits_from(&t, n + 1);
    m == t.len() - n - 1
}

pub open spec fn scopes_view<V>(v: Seq<Scope<V>>) -> Seq<Map<Seq<char>, V>> {
    v.map_values(|s: Scope<V>| s@)
}

pub open spec fn all_wf<V: Number>(v: Seq<Scope<V>>) -> bool {
    forall|i: int| 0 <= i < v.len() ==> #[trigger] v[i].wf()
}

pub struct Interpreter<V> {
    /// The scopes of the blocks being evaluated, the innermost last.
    vars: Vec<Scope<V>>,
    /// The scopes of the blocks left so far, in the order they were left.
    hist_vars: Vec<Scope<V>>,
}

impl<V: Number> Interpreter<V> {
    pub closed spec fn wf(&self) -> bool {
        all_wf(self.vars@) && all_wf(self.hist_vars@)
    }

    /// The bindings of the blocks being evaluated, the innermost last.
    pub closed spec fn stack(&self) -> Seq<Map<Seq<char>, V>> {
        scopes_view(self.vars@)
    }

    /// The bindings of the blocks left so far, in the order they were left.
    pub closed spec fn history(&self) -> Seq<Map<Seq<char>, V>> {
        scopes_view(self.hist_vars@)
    }

    pub fn new() -> (r: Interpreter<V>)
        ensures
            r.wf(),
            r.stack() == Seq::<Map<Seq<char>, V>>::empty(),
            r.history() == Seq::<Map<Seq<char>, V>>::empty(),
    {
        let r = Interpreter { vars: Vec::new(), hist_vars: Vec::new() };
        assert(r.stack() =~= Seq::<Map<Seq<char>, V>>::empty());
        assert(r.history() =~= Seq::<Map<Seq<char>, V>>::empty());
        r
    }

    /// Evaluates `ast` from an empty scope stack, and returns the bindings of
    /// each block at the moment it was left, in that order. Nothing carries over
    /// from an earlier call; a failed call returns no bindings.
    pub fn interpret(&mut self, ast: Node) -> (r: Result<Vec<Scope<V>>, InterpreterErr>)
        ensures
            final(self).wf(),
            final(self).stack().len() == 0,
            final(self).history().len() == 0,
            match (r, spec_run::<V>(ast)) {
                (Ok(h), Ok(hs)) => all_wf(h@) && scopes_view(h@) == hs,
                (Err(e), Err(f)) => e == f,
                _ => false,
            },
    {
        self.vars = Vec::new();
        self.hist_vars = Vec::new();
        assert(self.stack() =~= Seq::<Map<Seq<char>, V>>::empty());
        assert(self.history() =~= Seq::<Map<Seq<char>, V>>::empty());
        let res = self.visit(&ast);
        let ghost hist = self.history();
        let mut vars: Vec<Scope<V>> = Vec::new();
        std::mem::swap(&mut vars, &mut self.hist_vars);
        self.vars = Vec::new();
        assert(self.stack() =~= Seq::<Map<Seq<char>, V>>::empty());
        assert(self.history() =~= Seq::<Map<Seq<char>, V>>::empty());
        assert(scopes_view(vars@) == hist);
        match res {
            Ok(_) => Ok(vars),
            Err(e) => Err(e),
        }
    }

    /// The value of `node`, as `eval` gives it.
    fn visit(&mut self, node: &Node) -> (r: Result<V, InterpreterErr>)
        requires
            old(self).wf(),
        ensures
            final(self).wf(),
            r is Ok ==> final(self).stack().len() == old(self).stack().len(),
            agrees(
                r,
                final(self).stack(),
                final(self).history(),
                eval(*node, (old(self).stack(), old(self).history())),
            ),
        decreases node, 2nat,
    {
        match node {
            Node::BinOp(bin_op) => self.visit_bin_op(bin_op),
            Node::UnaryOp(unary_op) => self.visit_unary_op(unary_op),
            Node::Literal(lit) => self.visit_literal(lit),
            Node::Ident(ident) => self.visit_ident(ident),
            Node::Compound(compound) => {
                let ghost depth = self.stack().len();
                let ghost cs = compound.children@;
                let ghost whole = eval_list(
                    cs,
                    (self.stack().push(Map::empty()), self.history()),
                    V::spec_zero(),
                );
                let ghost before = self.vars@;
                self.vars.push(Scope::new());
                assert(self.stack() =~= scopes_view(before).push(Map::empty()));
                let mut res = V::zero();
                let mut i: usize = 0;
                assert(cs.skip(0) =~= cs);
                assert(decreases_to!(*node => compound.children));
                while i < compound.children.len()
                    invariant
                        decreases_to!(*node => compound.children),
                        cs == compound.children@,
                        self.wf(),
                        self.stack().len() == depth + 1,
                        i <= cs.len(),
                        whole == eval_list(cs.skip(i as int), (self.stack(), self.history()), res),
                        whole == eval_list(
                            cs,
                            (old(self).stack().push(Map::empty()), old(self).history()),
                            V::spec_zero(),
                        ),
                        *node == Node::Compound(*compound),
                    decreases cs.len() - i,
                {
                    proof {
                        vstd::std_specs::vec::axiom_vec_index_decreases(compound.children, i as int);
                        assert(cs.skip(i as int).drop_first() =~= cs.skip(i + 1));
                        assert(cs.skip(i as int)[0] == cs[i as int]);
                    }
                    res = self.visit(&compound.children[i])?;
                    i = i + 1;
                }
                proof {
                    assert(cs.skip(i as int).len() == 0);
                }
                let ghost inner = self.stack();
                let ghost inner_vars = self.vars@;
                let vars = self.vars.pop();
                proof {
                    assert(self.stack() =~= inner.drop_last());
                    assert(inner.last() == inner_vars.last()@);
                }
                self.log_vars(vars);
                Ok(res)
            },
            Node::Empty => Ok(V::zero()),
            Node::Keyword(_) | Node::Delim(_) => Err(InterpreterErr::UndefinedErr),
        }
    }

    fn visit_bin_op(&mut self, bin_op: &BinOp) -> (r: Result<V, InterpreterErr>)
        requires
            old(self).wf(),
        ensures
            final(self).wf(),
            r is Ok ==> final(self).stack().len() == old(self).stack().len(),
            agrees(
                r,
                final(self).stack(),
                final(self).history(),
                eval(
                    Node::BinOp(*bin_op),
                    (old(self).stack(), old(self).history()),
                ),
            ),
        decreases bin_op, 2nat,
    {
        match bin_op.op.fixity() {
            Fixity::Right => match bin_op.op {
                OpKind::AssignEq => self.assign_var(bin_op),
                _ => Err(InterpreterErr::InvalidBinOp),
            },
            Fixity::Left => {
                let lhs = self.visit(&bin_op.lhs)?;
                let rhs = self.visit(&bin_op.rhs)?;
                match bin_op.op {
                    OpKind::Caret => Ok(lhs.power(rhs)),
                    OpKind::Minus => Ok(lhs.minus(rhs)),
                    OpKind::Plus => Ok(lhs.plus(rhs)),
                    OpKind::Slash => Ok(lhs.divide(rhs)),
                    OpKind::Star => Ok(lhs.times(rhs)),
                    _ => Err(InterpreterErr::InvalidBinOp),
                }
            },
            Fixity::NonAssoc => Err(InterpreterErr::InvalidBinOp),
        }
    }

    fn visit_unary_op(&mut self, unary_op: &UnaryOp) -> (r: Result<V, InterpreterErr>)
        requires
            old(self).wf(),
        ensures
            final(self).wf(),
            r is Ok ==> final(self).stack().len() == old(self).stack().len(),
            agrees(
                r,
                final(self).stack(),
                final(self).history(),
                eval(
                    Node::UnaryOp(*unary_op),
                    (old(self).stack(), old(self).history()),
                ),
            ),
        decreases unary_op, 2nat,
    {
        match unary_op.op {
            OpKind::Minus => {
                let v = self.visit(&unary_op.node)?;
                Ok(v.negate())
            },
            OpKind::Plus => self.visit(&unary_op.node),
            _ => Err(InterpreterErr::InvalidUnaryOp),
        }
    }

    fn visit_literal(&self, lit: &Literal) -> (r: Result<V, InterpreterErr>)
        ensures
            r == (if is_numeral(literal_string(*lit)@) {
                Ok::<V, InterpreterErr>(V::spec_from_literal(literal_string(*lit)))
            } else {
                Err(InterpreterErr::InvalidLiteral)
            }),
    {
        let text = match lit {
            Literal::Float(text) => text,
            Literal::Integer(text) => text,
        };
        if numeral(text) {
            Ok(V::from_literal(text))
        } else {
            Err(InterpreterErr::InvalidLiteral)
        }
    }

    /// The value of `ident` in the innermost scope that binds it.
    fn visit_ident(&self, ident: &String) -> (r: Result<V, InterpreterErr>)
        requires
            self.wf(),
        ensures
            r == visit_ident_result(self.stack(), ident@),
    {
        proof {
            lemma_innermost_holding(self.stack(), ident@);
        }
        match self.find_ident(ident) {
            Some(i) => match self.vars[i].get(ident) {
                Some(value) => Ok(value),
                None => Err(InterpreterErr::UndefinedIdent),
            },
            None => Err(InterpreterErr::UndefinedIdent),
        }
    }

    /// `var := expr`: the value of `expr`, then bound to the identifier `var`.
    fn assign_var(&mut self, assignment: &BinOp) -> (r: Result<V, InterpreterErr>)
        requires
            old(self).wf(),
            assignment.op == OpKind::AssignEq,
        ensures
            final(self).wf(),
            r is Ok ==> final(self).stack().len() == old(self).stack().len(),
            agrees(
                r,
                final(self).stack(),
                final(self).history(),
                eval(
                    Node::BinOp(*assignment),
                    (old(self).stack(), old(self).history()),
                ),
            ),
        decreases assignment, 1nat,
    {
        let value = self.visit(&assignment.rhs)?;
        match &*assignment.lhs {
            Node::Ident(ident) => self.assign(ident, value),
            _ => Err(InterpreterErr::InvalidAssignment),
        }
    }

    /// Binds `name` to `value` in the innermost scope that binds it, or else in
    /// the innermost scope.
    pub fn assign(&mut self, name: &String, value: V) -> (r: Result<V, InterpreterErr>)
        requires
            old(self).wf(),
        ensures
            final(self).wf(),
            final(self).history() == old(self).history(),
            final(self).stack().len() == old(self).stack().len(),
            old(self).stack().len() == 0 ==> r == Err::<V, InterpreterErr>(InterpreterErr::UndefinedErr),
            old(self).stack().len() == 0 ==> final(self).stack() == old(self).stack(),
            old(self).stack().len() > 0 ==> r == Ok::<V, InterpreterErr>(value),
            old(self).stack().len() > 0 ==> final(self).stack() == assigned(old(self).stack(), name@, value),
    {
        let ghost stack = self.stack();
        let target = match self.find_ident(name) {
            Some(i) => i,
            None => {
                if self.vars.len() == 0 {
                    return Err(InterpreterErr::UndefinedErr);
                }
                self.vars.len() - 1
            },
        };
        proof {
            lemma_innermost_holding(stack, name@);
        }
        let ghost before = self.vars@;
        self.vars[target].set(name.clone(), value);
        assert(self.vars@ =~= before.update(target as int, self.vars@[target as int]));
        assert(self.stack() =~= assigned(stack, name@, value));
        Ok(value)
    }

    /// The innermost scope that binds `ident`.
    fn find_ident(&self, ident: &String) -> (r: Option<usize>)
        requires
            self.wf(),
        ensures
            match r {
                Some(i) => innermost_holding(self.stack(), ident@) == Some(i as int),
                None => innermost_holding(self.stack(), ident@) is None,
            },
    {
        proof {
            lemma_innermost_holding(self.stack(), ident@);
        }
        let mut i: usize = self.vars.len();
        while i > 0
            invariant
                self.wf(),
                i <= self.vars@.len(),
                forall|j: int| i <= j < self.vars@.len() ==> !self.stack()[j].contains_key(ident@),
            decreases i,
        {
            i = i - 1;
            assert(self.stack()[i as int] == self.vars@[i as int]@);
            if self.vars[i].contains(ident) {
                proof {
                    lemma_innermost_holding(self.stack(), ident@);
                    let k = innermost_holding(self.stack(), ident@)->0;
                    if k < i {
                        assert(!self.stack()[i as int].contains_key(ident@));
                    }
                    if k > i {
                        assert(!self.stack()[k].contains_key(ident@));
                    }
                }
                return Some(i);
            }
        }
        None
    }

    fn log_vars(&mut self, vars: Option<Scope<V>>)
        requires
            old(self).wf(),
            vars matches Some(s) ==> s.wf(),
        ensures
            final(self).wf(),
            final(self).stack() == old(self).stack(),
            final(self).history() == match vars {
                Some(s) => old(self).history().push(s@),
                None => old(self).history(),
            },
    {
        match vars {
            Some(vars) => {
                self.hist_vars.push(vars);
                assert(self.history() =~= old(self).history().push(vars@));
            },
            None => {},
        }
    }
}

/// What evaluating the identifier `name` gives.
pub open spec fn visit_ident_result<V>(stack: Seq<Map<Seq<char>, V>>, name: Seq<char>) -> Result<
    V,
    InterpreterErr,
> {
    match resolve(stack, name) {
        Some(v) => Ok(v),
        None => Err(InterpreterErr::UndefinedIdent),
    }
}

} // verus!
