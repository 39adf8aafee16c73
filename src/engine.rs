use vstd::prelude::*;

use crate::error::Error;
use crate::number::{
    Number,
    Ratio,
    result_view,
    add_spec,
    sub_spec,
    mul_spec,
    div_spec,
    power_spec,
    factorial_spec,
};
use crate::token::{Bracket, Operator, Token};
use crate::validation::validate;
use crate::variable::{Environment, Variable, views};

verus! {

/// An entry of the marker stack.
#[derive(Clone, Copy, Debug)]
pub enum ShuntingYardOperator {
    /// A binary operator waiting for its right operand to be complete.
    Operator(Operator),
    /// The start of a parenthesised group.
    OpenParen,
    /// A variable waiting for the group that holds its arguments.
    Variable(Variable),
}

/// The two stacks of an evaluation, as values: operands and markers, top last.
pub struct EvalState {
    pub operands: Seq<Ratio>,
    pub markers: Seq<ShuntingYardOperator>,
}

pub open spec fn initial_state() -> EvalState {
    EvalState { operands: Seq::empty(), markers: Seq::empty() }
}

/// Precedence classes: `+ -` below `* /` below `^`.
pub open spec fn precedence(op: Operator) -> nat {
    match op {
        Operator::Plus | Operator::Minus => 0,
        Operator::Multiply | Operator::Divide => 1,
        Operator::Power => 2,
    }
}

/// `lhs op rhs`.
pub open spec fn apply_spec(op: Operator, lhs: Ratio, rhs: Ratio) -> Result<Ratio, Error> {
    match op {
        Operator::Plus => add_spec(lhs, rhs),
        Operator::Minus => sub_spec(lhs, rhs),
        Operator::Multiply => mul_spec(lhs, rhs),
        Operator::Divide => div_spec(lhs, rhs),
        Operator::Power => power_spec(lhs, rhs),
    }
}

pub open spec fn top_is_operator(st: EvalState) -> bool {
    st.markers.len() > 0 && st.markers.last() is Operator
}

pub open spec fn top_is_open_paren(st: EvalState) -> bool {
    st.markers.len() > 0 && st.markers.last() is OpenParen
}

/// Pops the top marker, which is `op`, and replaces the two top operands
/// `lhs rhs` by `lhs op rhs`.
pub open spec fn reduce_top(st: EvalState, op: Operator) -> Result<EvalState, Error> {
    let n = st.operands.len();
    if n < 2 {
        Err(Error::MalformedExpression)
    } else {
        match apply_spec(op, st.operands[n - 2], st.operands[n - 1]) {
            Ok(v) => Ok(
                EvalState {
                    operands: st.operands.subrange(0, n - 2).push(v),
                    markers: st.markers.drop_last(),
                },
            ),
            Err(e) => Err(e),
        }
    }
}

/// Reduces pending operators of precedence at least that of `op`, then pushes `op`.
pub open spec fn handle_operator(st: EvalState, op: Operator) -> Result<EvalState, Error>
    decreases st.markers.len(),
{
    if top_is_operator(st) && precedence(st.markers.last()->Operator_0) >= precedence(op) {
        match reduce_top(st, st.markers.last()->Operator_0) {
            Ok(s) => handle_operator(s, op),
            Err(e) => Err(e),
        }
    } else {
        Ok(EvalState { markers: st.markers.push(ShuntingYardOperator::Operator(op)), ..st })
    }
}

/// Reduces every operator on top of the marker stack; the flag tells whether
/// there was any.
pub open spec fn reduce_pending(st: EvalState) -> Result<(EvalState, bool), Error>
    decreases st.markers.len(),
{
    if top_is_operator(st) {
        match reduce_top(st, st.markers.last()->Operator_0) {
            Ok(s) => match reduce_pending(s) {
                Ok((t, _)) => Ok((t, true)),
                Err(e) => Err(e),
            },
            Err(e) => Err(e),
        }
    } else {
        Ok((st, false))
    }
}

/// Reduces the operators of the innermost group and pops the open parenthesis
/// that starts it.
pub open spec fn finalize_spec(st: EvalState) -> Result<(EvalState, bool), Error> {
    match reduce_pending(st) {
        Ok((s, reduced)) => if top_is_open_paren(s) {
            Ok((EvalState { markers: s.markers.drop_last(), ..s }, reduced))
        } else {
            Err(Error::MalformedExpression)
        },
        Err(e) => Err(e),
    }
}

/// Calls the variable `v`, whose marker is on top, on the top `argc` operands.
pub open spec fn call_spec(st: EvalState, v: Variable) -> Result<EvalState, Error> {
    let n = st.operands.len();
    let k = v.spec_argc();
    if n < k {
        Err(Error::MalformedExpression)
    } else {
        match v.calc_spec(st.operands.subrange(n - k, n as int)) {
            Ok(x) => Ok(
                EvalState {
                    operands: st.operands.subrange(0, n - k).push(x),
                    markers: st.markers.drop_last(),
                },
            ),
            Err(e) => Err(e),
        }
    }
}

/// A closing parenthesis: a group that combined operators leaves its value; an
/// operator-free group that follows a variable calls it.
pub open spec fn close_paren(st: EvalState) -> Result<EvalState, Error> {
    match finalize_spec(st) {
        Ok((s, reduced)) => if !reduced && s.markers.len() > 0 && s.markers.last() is Variable {
            call_spec(s, s.markers.last()->Variable_0)
        } else {
            Ok(s)
        },
        Err(e) => Err(e),
    }
}

/// The effect of one token.
pub open spec fn step(st: EvalState, tok: Token, env: Environment) -> Result<EvalState, Error> {
    match tok {
        Token::Number(x) => Ok(EvalState { operands: st.operands.push(x@), ..st }),
        Token::Operator(op) => handle_operator(st, op),
        Token::FactorialSign => if st.operands.len() == 0 {
            Err(Error::MalformedExpression)
        } else {
            match factorial_spec(st.operands.last()) {
                Ok(v) => Ok(EvalState { operands: st.operands.drop_last().push(v), ..st }),
                Err(e) => Err(e),
            }
        },
        Token::Bracket(Bracket::ParenLeft) => Ok(
            EvalState { markers: st.markers.push(ShuntingYardOperator::OpenParen), ..st },
        ),
        Token::Bracket(Bracket::ParenRight) => close_paren(st),
        Token::Bracket(Bracket::VerticalLine) => Err(Error::UnsupportedFeature),
        Token::Id(name) => match env.lookup(name@) {
            Some(v) => Ok(
                EvalState { markers: st.markers.push(ShuntingYardOperator::Variable(v)), ..st },
            ),
            None => Err(Error::UndefinedVariable),
        },
        Token::Comma => Ok(st),
    }
}

/// The stacks after all of `tokens`, from empty stacks, or the first error.
pub open spec fn run(tokens: Seq<Token>, env: Environment) -> Result<EvalState, Error>
    decreases tokens.len(),
{
    if tokens.len() == 0 {
        Ok(initial_state())
    } else {
        match run(tokens.drop_last(), env) {
            Ok(st) => step(st, tokens.last(), env),
            Err(e) => Err(e),
        }
    }
}

/// The result once the input is consumed: pending operators are reduced, no
/// marker may remain, and at most one operand; none stands for zero.
pub open spec fn finish(st: EvalState) -> Result<Ratio, Error> {
    match reduce_pending(st) {
        Ok((s, _)) => if s.markers.len() != 0 || s.operands.len() > 1 {
            Err(Error::MalformedExpression)
        } else if s.operands.len() == 0 {
            Ok((0int, 1int))
        } else {
            Ok(s.operands[0])
        },
        Err(e) => Err(e),
    }
}

/// What evaluating `tokens` in `env` gives.
pub open spec fn evaluate_spec(tokens: Seq<Token>, env: Environment) -> Result<Ratio, Error> {
    match run(tokens, env) {
        Ok(st) => finish(st),
        Err(e) => Err(e),
    }
}

/// A lone number evaluates to itself.
pub proof fn law_single_literal(x: Number, env: Environment)
    ensures
        evaluate_spec(seq![Token::Number(x)], env) == Ok::<Ratio, Error>(x@),
{
    let t = seq![Token::Number(x)];
    assert(t.drop_last() =~= Seq::<Token>::empty());
    let st = EvalState { operands: seq![x@], markers: Seq::empty() };
    assert(run(Seq::<Token>::empty(), env) == Ok::<EvalState, Error>(initial_state()));
    assert(t.last() == Token::Number(x));
    assert(initial_state().operands.push(x@) =~= seq![x@]);
    assert(run(t, env) == Ok::<EvalState, Error>(st));
    assert(reduce_pending(st) == Ok::<(EvalState, bool), Error>((st, false)));
}

/// `a op b` evaluates to `op` applied to `a` and `b`.
pub proof fn law_binary_expression(a: Number, op: Operator, b: Number, env: Environment)
    ensures
        evaluate_spec(seq![Token::Number(a), Token::Operator(op), Token::Number(b)], env)
            == apply_spec(op, a@, b@),
{
    let t = seq![Token::Number(a), Token::Operator(op), Token::Number(b)];
    let t1 = seq![Token::Number(a)];
    let t2 = seq![Token::Number(a), Token::Operator(op)];
    assert(t1.drop_last() =~= Seq::<Token>::empty());
    assert(t2.drop_last() =~= t1);
    assert(t.drop_last() =~= t2);
    let s1 = EvalState { operands: seq![a@], markers: Seq::empty() };
    assert(initial_state().operands.push(a@) =~= seq![a@]);
    assert(run(Seq::<Token>::empty(), env) == Ok::<EvalState, Error>(initial_state()));
    assert(t1.last() == Token::Number(a));
    assert(t2.last() == Token::Operator(op));
    assert(t.last() == Token::Number(b));
    assert(run(t1, env) == Ok::<EvalState, Error>(s1));
    let m = seq![ShuntingYardOperator::Operator(op)];
    let s2 = EvalState { operands: seq![a@], markers: m };
    assert(s1.markers.push(ShuntingYardOperator::Operator(op)) =~= m);
    assert(handle_operator(s1, op) == Ok::<EvalState, Error>(s2));
    assert(run(t2, env) == Ok::<EvalState, Error>(s2));
    let s3 = EvalState { operands: seq![a@, b@], markers: m };
    assert(s2.operands.push(b@) =~= seq![a@, b@]);
    assert(run(t, env) == Ok::<EvalState, Error>(s3));
    match apply_spec(op, a@, b@) {
        Ok(v) => {
            let s4 = EvalState { operands: seq![v], markers: Seq::empty() };
            assert(s3.operands.subrange(0, 0).push(v) =~= seq![v]);
            assert(m.drop_last() =~= Seq::<ShuntingYardOperator>::empty());
            assert(reduce_top(s3, op) == Ok::<EvalState, Error>(s4));
            assert(reduce_pending(s4) == Ok::<(EvalState, bool), Error>((s4, false)));
        },
        Err(e) => {},
    }
}

/// The empty input evaluates to zero.
pub proof fn law_empty_input(env: Environment)
    ensures
        evaluate_spec(Seq::empty(), env) == Ok::<Ratio, Error>((0int, 1int)),
{
    assert(reduce_pending(initial_state()) == Ok::<(EvalState, bool), Error>((initial_state(), false)));
}

/// `x!` fails with a domain error where `x` is negative or not an integer.
pub proof fn law_factorial_domain(x: Number, env: Environment)
    requires
        x@.0 < 0 || x@.1 != 1,
    ensures
        evaluate_spec(seq![Token::Number(x), Token::FactorialSign], env) == Err::<Ratio, Error>(
            Error::ArithmeticDomain,
        ),
{
    let t = seq![Token::Number(x), Token::FactorialSign];
    let t1 = seq![Token::Number(x)];
    assert(t1.drop_last() =~= Seq::<Token>::empty());
    assert(t.drop_last() =~= t1);
    assert(initial_state().operands.push(x@) =~= seq![x@]);
    assert(run(Seq::<Token>::empty(), env) == Ok::<EvalState, Error>(initial_state()));
    assert(t1.last() == Token::Number(x));
    assert(t.last() == Token::FactorialSign);
    let s1 = EvalState { operands: seq![x@], markers: Seq::empty() };
    assert(run(t1, env) == Ok::<EvalState, Error>(s1));
    assert(s1.operands.last() == x@);
}

/// `a / b` fails with a domain error where `b` is zero.
pub proof fn law_division_by_zero(a: Number, b: Number, env: Environment)
    requires
        b@.0 == 0,
    ensures
        evaluate_spec(
            seq![Token::Number(a), Token::Operator(Operator::Divide), Token::Number(b)],
            env,
        ) == Err::<Ratio, Error>(Error::ArithmeticDomain),
{
    law_binary_expression(a, Operator::Divide, b, env);
}

/// Once an error occurs, the evaluation of any longer input ends in it.
proof fn lemma_run_error_stays(tokens: Seq<Token>, env: Environment, i: int)
    requires
        0 <= i <= tokens.len(),
        run(tokens.subrange(0, i), env) is Err,
    ensures
        run(tokens, env) == run(tokens.subrange(0, i), env),
    decreases tokens.len() - i,
{
    if i < tokens.len() {
        let pre = tokens.subrange(0, i + 1);
        assert(pre.drop_last() =~= tokens.subrange(0, i));
        lemma_run_error_stays(tokens, env, i + 1);
    } else {
        assert(tokens.subrange(0, i) =~= tokens);
    }
}

pub open spec fn with_state<T>(r: Result<T, Error>, st: EvalState) -> Result<EvalState, Error> {
    match r {
        Ok(_) => Ok(st),
        Err(e) => Err(e),
    }
}

pub open spec fn with_flag(r: Result<bool, Error>, st: EvalState) -> Result<(EvalState, bool), Error> {
    match r {
        Ok(b) => Ok((st, b)),
        Err(e) => Err(e),
    }
}

/// An evaluation strategy: a syntactic check and an evaluation.
pub trait Engine: Sized {
    /// What `validate_tokens` returns.
    spec fn validate_spec(tokens: Seq<Token>, env: Environment) -> Result<(), Error>;

    /// What `evaluate` returns.
    spec fn eval_spec(tokens: Seq<Token>, env: Environment) -> Result<Ratio, Error>;

    /// Checks that `tokens` can be evaluated, without evaluating them and
    /// without changing the engine.
    fn validate_tokens(&mut self, tokens: &[Token], variables: &Environment) -> (r: Result<(), Error>)
        ensures
            r == Self::validate_spec(tokens@, *variables),
            *final(self) == *old(self),
    ;

    /// Evaluates `tokens`; the result depends on the tokens and the environment alone.
    fn evaluate(&mut self, tokens: &[Token], variables: &Environment) -> (r: Result<Number, Error>)
        ensures
            result_view(r) == Self::eval_spec(tokens@, *variables),
    ;

    /// `validate_tokens`, then, only where it succeeds, `evaluate`.
    fn execute(&mut self, tokens: &[Token], variables: &Environment) -> (r: Result<Number, Error>)
        ensures
            Self::validate_spec(tokens@, *variables) matches Err(e) ==> r == Err::<Number, Error>(e),
            Self::validate_spec(tokens@, *variables) is Ok ==> result_view(r) == Self::eval_spec(
                tokens@,
                *variables,
            ),
    {
        match self.validate_tokens(tokens, variables) {
            Ok(()) => self.evaluate(tokens, variables),
            Err(e) => Err(e),
        }
    }
}

/// Shunting-yard evaluation extended with calls: a parenthesised group that
/// follows an identifier supplies the arguments of that variable.
pub struct ShuntingYardEngine {
    operators: Vec<ShuntingYardOperator>,
    operands: Vec<Number>,
}

pub fn operator_precedence(op: Operator) -> (r: u8)
    ensures
        r as nat == precedence(op),
{
    match op {
        Operator::Plus | Operator::Minus => 0,
        Operator::Multiply | Operator::Divide => 1,
        Operator::Power => 2,
    }
}

pub fn evaluate_expr(lhs: Number, rhs: Number, op: Operator) -> (r: Result<Number, Error>)
    ensures
        result_view(r) == apply_spec(op, lhs@, rhs@),
{
    match op {
        Operator::Plus => lhs.add(&rhs),
        Operator::Minus => lhs.sub(&rhs),
        Operator::Multiply => lhs.mul(&rhs),
        Operator::Divide => lhs.div(&rhs),
        Operator::Power => lhs.power(&rhs),
    }
}

impl ShuntingYardEngine {
    /// The engine's stacks as values.
    pub closed spec fn state(&self) -> EvalState {
        EvalState { operands: views(self.operands@), markers: self.operators@ }
    }

    /// An engine with empty stacks.
    pub fn new() -> (r: ShuntingYardEngine)
        ensures
            r.state() == initial_state(),
    {
        let r = ShuntingYardEngine { operators: Vec::new(), operands: Vec::new() };
        proof {
            assert(r.state().operands =~= Seq::<Ratio>::empty());
        }
        r
    }

    pub fn store_operand(&mut self, val: Number)
        ensures
            final(self).state() == (EvalState {
                operands: old(self).state().operands.push(val@),
                ..old(self).state()
            }),
    {
        self.operands.push(val);
        proof {
            assert(views(self.operands@) =~= views(old(self).operands@).push(val@));
        }
    }

    /// Pops the operator `op` from the top of the marker stack and applies it
    /// to the two top operands.
    fn apply_top(&mut self, op: Operator) -> (r: Result<(), Error>)
        requires
            old(self).operators@.len() > 0,
            old(self).operators@.last() == ShuntingYardOperator::Operator(op),
        ensures
            with_state(r, final(self).state()) == reduce_top(old(self).state(), op),
    {
        let n = self.operands.len();
        if n < 2 {
            return Err(Error::MalformedExpression);
        }
        let rhs = self.operands.pop().unwrap();
        let lhs = self.operands.pop().unwrap();
        let res = evaluate_expr(lhs, rhs, op);
        match res {
            Ok(v) => {
                self.operands.push(v);
                self.operators.pop();
                proof {
                    let o = views(old(self).operands@);
                    assert(views(self.operands@) =~= o.subrange(0, n - 2).push(v@));
                    assert(o[n - 1] == rhs@);
                    assert(o[n - 2] == lhs@);
                }
                Ok(())
            },
            Err(e) => {
                proof {
                    let o = views(old(self).operands@);
                    assert(o[n - 1] == rhs@);
                    assert(o[n - 2] == lhs@);
                }
                Err(e)
            },
        }
    }

    pub fn operator_handle(&mut self, op: Operator) -> (r: Result<(), Error>)
        ensures
            with_state(r, final(self).state()) == handle_operator(old(self).state(), op),
    {
        let current_precedence = operator_precedence(op);
        loop
            invariant
                current_precedence as nat == precedence(op),
                handle_operator(self.state(), op) == handle_operator(old(self).state(), op),
            ensures
                handle_operator(self.state(), op) == Ok::<EvalState, Error>(
                    EvalState {
                        markers: self.state().markers.push(ShuntingYardOperator::Operator(op)),
                        ..self.state()
                    },
                ),
            decreases self.operators@.len(),
        {
            let n = self.operators.len();
            if n == 0 {
                break;
            }
            let last = self.operators[n - 1];
            proof {
                assert(self.state().markers.last() == last);
            }
            match last {
                ShuntingYardOperator::Operator(last_op) => {
                    proof {
                        assert(self.state().markers.last() == last);
                    }
                    let last_precedence = operator_precedence(last_op);
                    if current_precedence > last_precedence {
                        break;
                    }
                    let ghost before = self.state();
                    let res = self.apply_top(last_op);
                    proof {
                        assert(top_is_operator(before));
                        assert(before.markers.last()->Operator_0 == last_op);
                        assert(precedence(last_op) >= precedence(op));
                        assert(handle_operator(before, op) == match reduce_top(before, last_op) {
                            Ok(s) => handle_operator(s, op),
                            Err(e) => Err(e),
                        });
                    }
                    if let Err(e) = res {
                        return Err(e);
                    }
                },
                _ => {
                    break;
                },
            }
        }
        self.operators.push(ShuntingYardOperator::Operator(op));
        Ok(())
    }

    /// Reduces every operator on top of the marker stack; tells whether there was any.
    fn reduce_operators(&mut self) -> (r: Result<bool, Error>)
        ensures
            with_flag(r, final(self).state()) == reduce_pending(old(self).state()),
    {
        let mut reduced = false;
        loop
            invariant
                reduce_pending(old(self).state()) == (match reduce_pending(self.state()) {
                    Ok((s, b)) => Ok((s, b || reduced)),
                    Err(e) => Err(e),
                }),
            ensures
                reduce_pending(self.state()) == Ok::<(EvalState, bool), Error>((self.state(), false)),
            decreases self.operators@.len(),
        {
            let n = self.operators.len();
            if n == 0 {
                break;
            }
            let last = self.operators[n - 1];
            match last {
                ShuntingYardOperator::Operator(op) => {
                    let ghost before = self.state();
                    let res = self.apply_top(op);
                    proof {
                        assert(before.markers.last() == last);
                        assert(top_is_operator(before));
                    }
                    if let Err(e) = res {
                        return Err(e);
                    }
                    reduced = true;
                },
                _ => {
                    break;
                },
            }
        }
        Ok(reduced)
    }

    /// Reduces the operators of the innermost group and pops its open
    /// parenthesis; tells whether any operator was reduced.
    pub fn finalize(&mut self) -> (r: Result<bool, Error>)
        ensures
            with_flag(r, final(self).state()) == finalize_spec(old(self).state()),
    {
        let reduced = self.reduce_operators()?;
        let n = self.operators.len();
        if n == 0 {
            return Err(Error::MalformedExpression);
        }
        match self.operators[n - 1] {
            ShuntingYardOperator::OpenParen => {
                self.operators.pop();
                Ok(reduced)
            },
            _ => Err(Error::MalformedExpression),
        }
    }

    pub fn closing_bracket_handle(&mut self) -> (r: Result<(), Error>)
        ensures
            with_state(r, final(self).state()) == close_paren(old(self).state()),
    {
        let reduced = self.finalize()?;
        if reduced {
            return Ok(());
        }
        let n = self.operators.len();
        if n == 0 {
            return Ok(());
        }
        match self.operators[n - 1] {
            ShuntingYardOperator::Variable(var) => {
                let argc = var.argc() as usize;
                let len = self.operands.len();
                if len < argc {
                    return Err(Error::MalformedExpression);
                }
                let ghost before = self.operands@;
                let argv = self.operands.split_off(len - argc);
                proof {
                    assert(views(argv@) =~= views(before).subrange(len - argc, len as int));
                }
                let val = var.calc(&argv)?;
                self.operators.pop();
                self.store_operand(val);
                proof {
                    assert(views(before.subrange(0, len - argc)) =~= views(before).subrange(
                        0,
                        len - argc,
                    ));
                }
                Ok(())
            },
            _ => Ok(()),
        }
    }
    /// The effect of one token on the stacks.
    fn process_token(&mut self, token: &Token, variables: &Environment) -> (r: Result<(), Error>)
        ensures
            with_state(r, final(self).state()) == step(old(self).state(), *token, *variables),
    {
        let ghost before = self.state();
        match token {
            Token::Number(num) => self.store_operand(*num),
            Token::Operator(op) => {
                return self.operator_handle(*op);
            },
            Token::FactorialSign => {
                let len = self.operands.len();
                if len == 0 {
                    return Err(Error::MalformedExpression);
                }
                let top = self.operands.pop().unwrap();
                proof {
                    assert(before.operands.last() == top@);
                }
                let num = top.factorial()?;
                self.store_operand(num);
                proof {
                    assert(views(self.operands@) =~= before.operands.drop_last().push(num@));
                }
            },
            Token::Bracket(Bracket::ParenLeft) => {
                self.operators.push(ShuntingYardOperator::OpenParen);
            },
            Token::Bracket(Bracket::ParenRight) => {
                return self.closing_bracket_handle();
            },
            Token::Bracket(Bracket::VerticalLine) => {
                return Err(Error::UnsupportedFeature);
            },
            Token::Id(id) => {
                match variables.get(id) {
                    Some(var) => self.operators.push(ShuntingYardOperator::Variable(var)),
                    None => {
                        return Err(Error::UndefinedVariable);
                    },
                }
            },
            Token::Comma => {},
        }
        Ok(())
    }
}

impl Default for ShuntingYardEngine {
    fn default() -> (r: ShuntingYardEngine)
        ensures
            r.state() == initial_state(),
    {
        ShuntingYardEngine::new()
    }
}

impl Engine for ShuntingYardEngine {
    open spec fn validate_spec(tokens: Seq<Token>, env: Environment) -> Result<(), Error> {
        crate::validation::validate_spec(tokens, env)
    }

    open spec fn eval_spec(tokens: Seq<Token>, env: Environment) -> Result<Ratio, Error> {
        evaluate_spec(tokens, env)
    }

    fn validate_tokens(&mut self, tokens: &[Token], variables: &Environment) -> (r: Result<(), Error>) {
        validate(tokens, variables)
    }

    fn evaluate(&mut self, tokens: &[Token], variables: &Environment) -> (r: Result<Number, Error>) {
        self.operators.clear();
        self.operands.clear();
        proof {
            assert(self.state().operands =~= Seq::<Ratio>::empty());
            assert(self.state().markers =~= Seq::<ShuntingYardOperator>::empty());
        }
        let mut i: usize = 0;
        while i < tokens.len()
            invariant
                i <= tokens@.len(),
                run(tokens@.subrange(0, i as int), *variables) == Ok::<EvalState, Error>(
                    self.state(),
                ),
            decreases tokens@.len() - i,
        {
            proof {
                let pre = tokens@.subrange(0, i as int + 1);
                assert(pre.drop_last() =~= tokens@.subrange(0, i as int));
            }
            let res = self.process_token(&tokens[i], variables);
            if let Err(e) = res {
                proof {
                    lemma_run_error_stays(tokens@, *variables, i as int + 1);
                }
                return Err(e);
            }
            i = i + 1;
        }
        proof {
            assert(tokens@.subrange(0, tokens@.len() as int) =~= tokens@);
        }
        self.reduce_operators()?;
        if self.operators.len() != 0 || self.operands.len() > 1 {
            return Err(Error::MalformedExpression);
        }
        match self.operands.pop() {
            Some(v) => Ok(v),
            None => Ok(Number::default()),
        }
    }
}

} // verus!
