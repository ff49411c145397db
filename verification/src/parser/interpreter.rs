//! The tree-walking evaluator and its error type. Errors are surfaced
//! through `Result` values; nothing is printed from inside the library.

use vstd::prelude::*;

verus! {

/// A reported failure: a message and the 1-based source line it concerns.
/// Scan, parse and runtime errors all take this shape.
#[derive(Debug)]
pub struct RuntimeError {
    pub message: String,
    pub line: i32,
}

/// The mathematical model of a reported failure.
pub struct ErrM {
    pub line: int,
    pub msg: Seq<char>,
}

impl View for RuntimeError {
    type V = ErrM;

    open spec fn view(&self) -> ErrM {
        ErrM { line: self.line as int, msg: self.message@ }
    }
}

impl RuntimeError {
    /// Packages a line and a message as an error value.
    pub fn error(line: i32, message: String) -> (e: RuntimeError)
        ensures
            e.line == line,
            e.message == message,
    {
        RuntimeError { message, line }
    }
}

} // verus!

use crate::numeric::{
    div_bits, gt_bits, ge_bits, lt_bits, le_bits, mul_bits, neg_bits, num_diff, num_gt, num_ge,
    num_lt, num_le, num_neg, num_prod, num_quot, num_sum, num_text, sub_bits, format_bits,
};
use crate::parser::expression::Expr;
use crate::parser::statements::{
    env_assign_model, env_define, env_lookup, undefined_var_msg, Environment, Stmt,
};
use crate::scanner::token::{add_vals_model, val_eq, LiteralType, Token, TokenType, Val};

verus! {

/// Truthiness: `nil` and `false` are the only falsey values; every other
/// value, the number zero and the empty string included, is truthy.
pub open spec fn truthy(v: Val) -> bool {
    match v {
        Val::VNil => false,
        Val::VBool(b) => b,
        _ => true,
    }
}

/// The printed text of a value: `nil`, the number's decimal text (the
/// `num_text` rendering — see its note on formatting), `true`/`false`,
/// or the string's own text.
pub open spec fn text_of_val(v: Val) -> Seq<char> {
    match v {
        Val::VNil => "nil"@,
        Val::VNum(b) => num_text(b),
        Val::VBool(b) => if b {
            "true"@
        } else {
            "false"@
        },
        Val::VStr(s) => s,
    }
}

/// What a unary operator yields: `-` negates a number and rejects every
/// other operand; `!` complements truthiness.
pub open spec fn unary_result(op: TokenType, line: int, v: Val) -> Result<Val, ErrM> {
    if op == TokenType::MINUS {
        match v {
            Val::VNum(b) => Ok(Val::VNum(num_neg(b))),
            _ => Err(ErrM { line: line, msg: "Operand must be a number"@ }),
        }
    } else if op == TokenType::BANG {
        Ok(Val::VBool(!truthy(v)))
    } else {
        Err(ErrM { line: 0, msg: "unreachable "@ })
    }
}

/// The two operands as numbers, or the typed-operand error at `line`.
pub open spec fn nums_of(l: Val, r: Val, line: int) -> Result<(u64, u64), ErrM> {
    match (l, r) {
        (Val::VNum(a), Val::VNum(b)) => Ok((a, b)),
        _ => Err(ErrM { line: line, msg: "Operand must be a number"@ }),
    }
}

/// What a binary operator yields, by the rules of the language:
/// arithmetic and ordering demand numbers, `+` also concatenates
/// strings, and equality compares structurally with no coercion.
pub open spec fn binary_result(op: TokenType, line: int, l: Val, r: Val) -> Result<Val, ErrM> {
    if op == TokenType::MINUS {
        match nums_of(l, r, line) {
            Ok((a, b)) => Ok(Val::VNum(num_diff(a, b))),
            Err(m) => Err(m),
        }
    } else if op == TokenType::SLASH {
        match nums_of(l, r, line) {
            Ok((a, b)) => Ok(Val::VNum(num_quot(a, b))),
            Err(m) => Err(m),
        }
    } else if op == TokenType::STAR {
        match nums_of(l, r, line) {
            Ok((a, b)) => Ok(Val::VNum(num_prod(a, b))),
            Err(m) => Err(m),
        }
    } else if op == TokenType::PLUS {
        match add_vals_model(l, r) {
            Ok(v) => Ok(v),
            Err(m) => Err(ErrM { line: line, msg: m }),
        }
    } else if op == TokenType::GREATER {
        match nums_of(l, r, line) {
            Ok((a, b)) => Ok(Val::VBool(num_gt(a, b))),
            Err(m) => Err(m),
        }
    } else if op == TokenType::GREATER_EQUAL {
        match nums_of(l, r, line) {
            Ok((a, b)) => Ok(Val::VBool(num_ge(a, b))),
            Err(m) => Err(m),
        }
    } else if op == TokenType::LESS {
        match nums_of(l, r, line) {
            Ok((a, b)) => Ok(Val::VBool(num_lt(a, b))),
            Err(m) => Err(m),
        }
    } else if op == TokenType::LESS_EQUAL {
        match nums_of(l, r, line) {
            Ok((a, b)) => Ok(Val::VBool(num_le(a, b))),
            Err(m) => Err(m),
        }
    } else if op == TokenType::BANG_EQUAL {
        Ok(Val::VBool(!val_eq(l, r)))
    } else if op == TokenType::EQUAL_EQUAL {
        Ok(Val::VBool(val_eq(l, r)))
    } else {
        Err(ErrM { line: 0, msg: "unreachable "@ })
    }
}

/// The outcome of evaluating an expression: the scope chain afterwards
/// (assignment is an expression and mutates it) and the value or error.
pub struct EvalOut {
    pub env: Seq<Map<Seq<char>, Val>>,
    pub res: Result<Val, ErrM>,
}

/// Big-step evaluation of an expression against a scope chain. Binary
/// operands evaluate left to right; an assignment yields the assigned
/// value and rebinds the name through the chain.
pub open spec fn eval_expr(e: Expr, env: Seq<Map<Seq<char>, Val>>) -> EvalOut
    decreases e,
{
    match e {
        Expr::Literal(l) => EvalOut { env, res: Ok(l.value@) },
        Expr::Grouping(g) => eval_expr(*g.expression, env),
        Expr::Variable(v) => match env_lookup(env, v.name.lexeme@) {
            Some(value) => EvalOut { env, res: Ok(value) },
            None => EvalOut {
                env,
                res: Err(
                    ErrM {
                        line: v.name.line as int,
                        msg: undefined_var_msg(v.name.lexeme@),
                    },
                ),
            },
        },
        Expr::Assign(a) => {
            let vo = eval_expr(*a.value, env);
            match vo.res {
                Ok(value) => match env_assign_model(vo.env, a.name.lexeme@, value) {
                    Some(env2) => EvalOut { env: env2, res: Ok(value) },
                    None => EvalOut {
                        env: vo.env,
                        res: Err(
                            ErrM {
                                line: a.name.line as int,
                                msg: undefined_var_msg(a.name.lexeme@),
                            },
                        ),
                    },
                },
                Err(m) => EvalOut { env: vo.env, res: Err(m) },
            }
        },
        Expr::Unary(u) => {
            let ro = eval_expr(*u.right, env);
            match ro.res {
                Ok(value) => EvalOut {
                    env: ro.env,
                    res: unary_result(u.operator.token_type, u.operator.line as int, value),
                },
                Err(m) => EvalOut { env: ro.env, res: Err(m) },
            }
        },
        Expr::Binary(b) => {
            let lo = eval_expr(*b.left, env);
            match lo.res {
                Ok(lv) => {
                    let ro = eval_expr(*b.right, lo.env);
                    match ro.res {
                        Ok(rv) => EvalOut {
                            env: ro.env,
                            res: binary_result(
                                b.operator.token_type,
                                b.operator.line as int,
                                lv,
                                rv,
                            ),
                        },
                        Err(m) => EvalOut { env: ro.env, res: Err(m) },
                    }
                },
                Err(m) => EvalOut { env: lo.env, res: Err(m) },
            }
        },
    }
}

/// The outcome of executing statements: the scope chain, the lines
/// printed so far, and the error that stopped execution, if any.
pub struct ExecOut {
    pub env: Seq<Map<Seq<char>, Val>>,
    pub out: Seq<Seq<char>>,
    pub err: Option<ErrM>,
}

/// Big-step execution of one statement. A block runs its statements in a
/// fresh innermost scope and discards that scope afterwards — on the
/// error path too — keeping rebindings of outer names.
pub open spec fn exec_stmt(s: Stmt, env: Seq<Map<Seq<char>, Val>>, out: Seq<Seq<char>>) -> ExecOut
    decreases s,
{
    match s {
        Stmt::Expression(es) => {
            let r = eval_expr(es.expression, env);
            ExecOut {
                env: r.env,
                out,
                err: (match r.res {
                    Ok(v) => None,
                    Err(m) => Some(m),
                }),
            }
        },
        Stmt::Print(ps) => {
            let r = eval_expr(ps.expression, env);
            match r.res {
                Ok(v) => ExecOut { env: r.env, out: out.push(text_of_val(v)), err: None },
                Err(m) => ExecOut { env: r.env, out, err: Some(m) },
            }
        },
        Stmt::Var(v) => match v.initializer {
            Some(e) => {
                let r = eval_expr(e, env);
                match r.res {
                    Ok(value) => ExecOut {
                        env: env_define(r.env, v.name.lexeme@, value),
                        out,
                        err: None,
                    },
                    Err(m) => ExecOut { env: r.env, out, err: Some(m) },
                }
            },
            None => ExecOut { env: env_define(env, v.name.lexeme@, Val::VNil), out, err: None },
        },
        Stmt::Block(b) => {
            let inner = exec_stmts(b.statements@, env.push(Map::empty()), out);
            ExecOut { env: inner.env.drop_last(), out: inner.out, err: inner.err }
        },
        Stmt::If(f) => {
            let c = eval_expr(f.condition, env);
            match c.res {
                Ok(v) => if truthy(v) {
                    exec_stmt(*f.then_branch, c.env, out)
                } else {
                    match f.else_branch {
                        Some(el) => exec_stmt(*el, c.env, out),
                        None => ExecOut { env: c.env, out, err: None },
                    }
                },
                Err(m) => ExecOut { env: c.env, out, err: Some(m) },
            }
        },
    }
}

/// Big-step execution of a statement sequence, stopping at the first
/// error (fail-fast).
pub open spec fn exec_stmts(
    ss: Seq<Stmt>,
    env: Seq<Map<Seq<char>, Val>>,
    out: Seq<Seq<char>>,
) -> ExecOut
    decreases ss,
{
    if ss.len() == 0 {
        ExecOut { env, out, err: None }
    } else {
        let first = exec_stmt(ss[0], env, out);
        match first.err {
            Some(m) => first,
            None => exec_stmts(ss.drop_first(), first.env, first.out),
        }
    }
}

/// The models of a sequence of printed lines.
pub open spec fn str_views(v: Seq<String>) -> Seq<Seq<char>> {
    v.map_values(|s: String| s@)
}

proof fn lemma_env_assign_model_len(env: Seq<Map<Seq<char>, Val>>, name: Seq<char>, v: Val)
    ensures
        env_assign_model(env, name, v) matches Some(e2) ==> e2.len() == env.len(),
    decreases env.len(),
{
    if env.len() > 0 && !env.last().contains_key(name) {
        lemma_env_assign_model_len(env.drop_last(), name, v);
    }
}

proof fn lemma_eval_expr_len(e: Expr, env: Seq<Map<Seq<char>, Val>>)
    ensures
        eval_expr(e, env).env.len() == env.len(),
    decreases e,
{
    match e {
        Expr::Literal(l) => {},
        Expr::Grouping(g) => {
            lemma_eval_expr_len(*g.expression, env);
        },
        Expr::Variable(v) => {},
        Expr::Assign(a) => {
            lemma_eval_expr_len(*a.value, env);
            let vo = eval_expr(*a.value, env);
            match vo.res {
                Ok(value) => {
                    lemma_env_assign_model_len(vo.env, a.name.lexeme@, value);
                },
                Err(_) => {},
            }
        },
        Expr::Unary(u) => {
            lemma_eval_expr_len(*u.right, env);
        },
        Expr::Binary(b) => {
            lemma_eval_expr_len(*b.left, env);
            let lo = eval_expr(*b.left, env);
            if lo.res is Ok {
                lemma_eval_expr_len(*b.right, lo.env);
            }
        },
    }
}

proof fn lemma_exec_stmt_len(s: Stmt, env: Seq<Map<Seq<char>, Val>>, out: Seq<Seq<char>>)
    requires
        env.len() >= 1,
    ensures
        exec_stmt(s, env, out).env.len() == env.len(),
    decreases s,
{
    match s {
        Stmt::Expression(es) => {
            lemma_eval_expr_len(es.expression, env);
        },
        Stmt::Print(ps) => {
            lemma_eval_expr_len(ps.expression, env);
        },
        Stmt::Var(v) => {
            match v.initializer {
                Some(e) => {
                    lemma_eval_expr_len(e, env);
                },
                None => {},
            }
        },
        Stmt::Block(b) => {
            lemma_exec_stmts_len(b.statements@, env.push(Map::empty()), out);
        },
        Stmt::If(f) => {
            lemma_eval_expr_len(f.condition, env);
            let c = eval_expr(f.condition, env);
            match c.res {
                Ok(v) => {
                    if truthy(v) {
                        lemma_exec_stmt_len(*f.then_branch, c.env, out);
                    } else {
                        match f.else_branch {
                            Some(el) => {
                                lemma_exec_stmt_len(*el, c.env, out);
                            },
                            None => {},
                        }
                    }
                },
                Err(_) => {},
            }
        },
    }
}

proof fn lemma_exec_stmts_len(ss: Seq<Stmt>, env: Seq<Map<Seq<char>, Val>>, out: Seq<Seq<char>>)
    requires
        env.len() >= 1,
    ensures
        exec_stmts(ss, env, out).env.len() == env.len(),
    decreases ss,
{
    if ss.len() > 0 {
        lemma_exec_stmt_len(ss[0], env, out);
        let first = exec_stmt(ss[0], env, out);
        if first.err is None {
            lemma_exec_stmts_len(ss.drop_first(), first.env, first.out);
        }
    }
}

} // verus!

verus! {

/// The tree-walking evaluator: the current scope chain and the lines the
/// program has printed, in order. The driver decides what to do with
/// `output`; nothing is printed from here.
pub struct Interpreter {
    pub environment: Environment,
    pub output: Vec<String>,
}

/// What a unary operator yields at runtime: exactly `unary_result`.
pub fn apply_unary(operator: &Token, right: LiteralType) -> (r: Result<LiteralType, RuntimeError>)
    ensures
        (match unary_result(operator.token_type, operator.line as int, right@) {
            Ok(v) => r matches Ok(x) && x@ == v,
            Err(m) => r matches Err(e) && e@ == m,
        }),
{
    if operator.token_type == TokenType::MINUS {
        match right.get_number() {
            Ok(b) => Ok(LiteralType::Float(neg_bits(b))),
            Err(m) => Err(RuntimeError::error(operator.line, m)),
        }
    } else if operator.token_type == TokenType::BANG {
        Ok(LiteralType::Bool(!Interpreter::is_truthful(right)))
    } else {
        Err(RuntimeError::error(0, String::from_str("unreachable ")))
    }
}

/// What a binary operator yields at runtime: exactly `binary_result`.
/// Arithmetic and ordering demand two numbers; `+` also concatenates two
/// strings; `==` and `!=` compare structurally and never fail.
pub fn apply_binary(operator: &Token, left: LiteralType, right: LiteralType) -> (r: Result<
    LiteralType,
    RuntimeError,
>)
    ensures
        (match binary_result(operator.token_type, operator.line as int, left@, right@) {
            Ok(v) => r matches Ok(x) && x@ == v,
            Err(m) => r matches Err(e) && e@ == m,
        }),
{
    let tt = operator.token_type;
    if tt == TokenType::MINUS {
        let a = match left.get_number() {
            Ok(x) => x,
            Err(m) => return Err(RuntimeError::error(operator.line, m)),
        };
        let b = match right.get_number() {
            Ok(x) => x,
            Err(m) => return Err(RuntimeError::error(operator.line, m)),
        };
        Ok(LiteralType::Float(sub_bits(a, b)))
    } else if tt == TokenType::SLASH {
        let a = match left.get_number() {
            Ok(x) => x,
            Err(m) => return Err(RuntimeError::error(operator.line, m)),
        };
        let b = match right.get_number() {
            Ok(x) => x,
            Err(m) => return Err(RuntimeError::error(operator.line, m)),
        };
        Ok(LiteralType::Float(div_bits(a, b)))
    } else if tt == TokenType::STAR {
        let a = match left.get_number() {
            Ok(x) => x,
            Err(m) => return Err(RuntimeError::error(operator.line, m)),
        };
        let b = match right.get_number() {
            Ok(x) => x,
            Err(m) => return Err(RuntimeError::error(operator.line, m)),
        };
        Ok(LiteralType::Float(mul_bits(a, b)))
    } else if tt == TokenType::PLUS {
        match left.add(right) {
            Ok(v) => Ok(v),
            Err(m) => Err(RuntimeError::error(operator.line, m)),
        }
    } else if tt == TokenType::GREATER {
        let a = match left.get_number() {
            Ok(x) => x,
            Err(m) => return Err(RuntimeError::error(operator.line, m)),
        };
        let b = match right.get_number() {
            Ok(x) => x,
            Err(m) => return Err(RuntimeError::error(operator.line, m)),
        };
        Ok(LiteralType::Bool(gt_bits(a, b)))
    } else if tt == TokenType::GREATER_EQUAL {
        let a = match left.get_number() {
            Ok(x) => x,
            Err(m) => return Err(RuntimeError::error(operator.line, m)),
        };
        let b = match right.get_number() {
            Ok(x) => x,
            Err(m) => return Err(RuntimeError::error(operator.line, m)),
        };
        Ok(LiteralType::Bool(ge_bits(a, b)))
    } else if tt == TokenType::LESS {
        let a = match left.get_number() {
            Ok(x) => x,
            Err(m) => return Err(RuntimeError::error(operator.line, m)),
        };
        let b = match right.get_number() {
            Ok(x) => x,
            Err(m) => return Err(RuntimeError::error(operator.line, m)),
        };
        Ok(LiteralType::Bool(lt_bits(a, b)))
    } else if tt == TokenType::LESS_EQUAL {
        let a = match left.get_number() {
            Ok(x) => x,
            Err(m) => return Err(RuntimeError::error(operator.line, m)),
        };
        let b = match right.get_number() {
            Ok(x) => x,
            Err(m) => return Err(RuntimeError::error(operator.line, m)),
        };
        Ok(LiteralType::Bool(le_bits(a, b)))
    } else if tt == TokenType::BANG_EQUAL {
        Ok(LiteralType::Bool(!left.equals(&right)))
    } else if tt == TokenType::EQUAL_EQUAL {
        Ok(LiteralType::Bool(left.equals(&right)))
    } else {
        Err(RuntimeError::error(0, String::from_str("unreachable ")))
    }
}

impl Interpreter {
    /// The scope chain always holds at least the global scope.
    pub open spec fn wf(&self) -> bool {
        self.environment.wf()
    }

    /// A fresh interpreter: one empty global scope, nothing printed.
    pub fn new() -> (r: Interpreter)
        ensures
            r.wf(),
            r.environment.scopes() =~= seq![Map::<Seq<char>, Val>::empty()],
            r.output@ == Seq::<String>::empty(),
    {
        Interpreter { environment: Environment::new(), output: Vec::new() }
    }

    /// Truthiness coercion: `nil` and `false` are falsey, everything
    /// else — the number zero and the empty string included — is truthy.
    pub fn is_truthful(literal: LiteralType) -> (r: bool)
        ensures
            r == truthy(literal@),
    {
        match literal {
            LiteralType::Bool(b) => b,
            LiteralType::Null => false,
            _ => true,
        }
    }

    /// The printed text of a value: `nil`, the number's decimal text,
    /// `true`/`false`, or the string's own text.
    pub fn stringify(literal: LiteralType) -> (r: String)
        ensures
            r@ == text_of_val(literal@),
    {
        match literal {
            LiteralType::Null => String::from_str("nil"),
            LiteralType::Float(b) => format_bits(b),
            LiteralType::Bool(b) => if b {
                String::from_str("true")
            } else {
                String::from_str("false")
            },
            LiteralType::String(s) => s,
        }
    }

    /// Evaluates an expression against the current scope chain: exactly
    /// what `eval_expr` says, the chain mutated by assignments and
    /// nothing printed.
    pub fn evaluate(&mut self, expr: &Expr) -> (r: Result<LiteralType, RuntimeError>)
        requires
            old(self).wf(),
        ensures
            final(self).wf(),
            final(self).output == old(self).output,
            final(self).environment.frames@.len() == old(self).environment.frames@.len(),
            ({
                let o = eval_expr(*expr, old(self).environment.scopes());
                &&& final(self).environment.scopes() == o.env
                &&& (match o.res {
                    Ok(v) => r matches Ok(x) && x@ == v,
                    Err(m) => r matches Err(e) && e@ == m,
                })
            }),
        decreases expr, 0nat,
    {
        match expr {
            Expr::Literal(l) => Ok(l.value.duplicate()),
            Expr::Grouping(g) => self.evaluate(&g.expression),
            Expr::Variable(v) => self.environment.get(v.name.duplicate()),
            Expr::Assign(a) => {
                let value = match self.evaluate(&a.value) {
                    Ok(v) => v,
                    Err(e) => return Err(e),
                };
                match self.environment.assign(a.name.duplicate(), value.duplicate()) {
                    Ok(u) => Ok(value),
                    Err(e) => Err(e),
                }
            },
            Expr::Unary(u) => {
                let right = match self.evaluate(&u.right) {
                    Ok(v) => v,
                    Err(e) => return Err(e),
                };
                apply_unary(&u.operator, right)
            },
            Expr::Binary(b) => {
                let left = match self.evaluate(&b.left) {
                    Ok(v) => v,
                    Err(e) => return Err(e),
                };
                let right = match self.evaluate(&b.right) {
                    Ok(v) => v,
                    Err(e) => return Err(e),
                };
                apply_binary(&b.operator, left, right)
            },
        }
    }

    /// Executes one statement: exactly what `exec_stmt` says.
    pub fn execute(&mut self, stmt: &Stmt) -> (r: Result<(), RuntimeError>)
        requires
            old(self).wf(),
        ensures
            final(self).wf(),
            final(self).environment.frames@.len() == old(self).environment.frames@.len(),
            ({
                let o = exec_stmt(*stmt, old(self).environment.scopes(), str_views(old(self).output@));
                &&& final(self).environment.scopes() == o.env
                &&& str_views(final(self).output@) == o.out
                &&& (match o.err {
                    None => r is Ok,
                    Some(m) => r matches Err(e) && e@ == m,
                })
            }),
        decreases stmt, 0nat,
    {
        match stmt {
            Stmt::Expression(es) => match self.evaluate(&es.expression) {
                Ok(v) => Ok(()),
                Err(e) => Err(e),
            },
            Stmt::Print(ps) => {
                let value = match self.evaluate(&ps.expression) {
                    Ok(v) => v,
                    Err(e) => return Err(e),
                };
                let text = Interpreter::stringify(value);
                self.output.push(text);
                proof {
                    assert(str_views(self.output@) =~= str_views(old(self).output@).push(
                        self.output@.last()@,
                    ));
                }
                Ok(())
            },
            Stmt::Var(v) => {
                let value = match &v.initializer {
                    Some(e) => match self.evaluate(e) {
                        Ok(val) => val,
                        Err(er) => return Err(er),
                    },
                    None => LiteralType::Null,
                };
                self.environment.define(&v.name.lexeme, value);
                Ok(())
            },
            Stmt::Block(b) => self.execute_block(&b.statements),
            Stmt::If(f) => {
                let condition = match self.evaluate(&f.condition) {
                    Ok(v) => v,
                    Err(e) => return Err(e),
                };
                if Interpreter::is_truthful(condition) {
                    self.execute(&f.then_branch)
                } else {
                    match &f.else_branch {
                        Some(el) => self.execute(el),
                        None => Ok(()),
                    }
                }
            },
        }
    }

    /// Runs a block's statements in a fresh innermost scope and restores
    /// the prior scope chain afterwards, on the error path too; what the
    /// block rebound in outer scopes is kept.
    pub fn execute_block(&mut self, statements: &Vec<Stmt>) -> (r: Result<(), RuntimeError>)
        requires
            old(self).wf(),
        ensures
            final(self).wf(),
            final(self).environment.frames@.len() == old(self).environment.frames@.len(),
            ({
                let inner = exec_stmts(
                    statements@,
                    old(self).environment.scopes().push(Map::<Seq<char>, Val>::empty()),
                    str_views(old(self).output@),
                );
                &&& final(self).environment.scopes() == inner.env.drop_last()
                &&& str_views(final(self).output@) == inner.out
                &&& (match inner.err {
                    None => r is Ok,
                    Some(m) => r matches Err(e) && e@ == m,
                })
            }),
        decreases statements, 1nat,
    {
        self.environment.push_frame();
        let r = self.interpret(statements);
        self.environment.pop_frame();
        r
    }

    /// Executes the statements strictly in sequence, stopping at the
    /// first runtime error: exactly what `exec_stmts` says of the scope
    /// chain, the printed lines and the error.
    #[verifier::loop_isolation(false)]
    pub fn interpret(&mut self, statements: &Vec<Stmt>) -> (r: Result<(), RuntimeError>)
        requires
            old(self).wf(),
        ensures
            final(self).wf(),
            final(self).environment.frames@.len() == old(self).environment.frames@.len(),
            ({
                let o = exec_stmts(
                    statements@,
                    old(self).environment.scopes(),
                    str_views(old(self).output@),
                );
                &&& final(self).environment.scopes() == o.env
                &&& str_views(final(self).output@) == o.out
                &&& (match o.err {
                    None => r is Ok,
                    Some(m) => r matches Err(e) && e@ == m,
                })
            }),
        decreases statements, 0nat,
    {
        let ghost full = exec_stmts(
            statements@,
            self.environment.scopes(),
            str_views(self.output@),
        );
        proof {
            assert(statements@.skip(0) =~= statements@);
        }
        let mut i: usize = 0;
        let mut failure: Option<RuntimeError> = None;
        while i < statements.len() && failure.is_none()
            invariant
                self.wf(),
                i <= statements@.len(),
                self.environment.frames@.len() == old(self).environment.frames@.len(),
                failure is None ==> full == exec_stmts(
                    statements@.skip(i as int),
                    self.environment.scopes(),
                    str_views(self.output@),
                ),
                failure matches Some(e) ==> (full.err == Some(e@) && full.env
                    == self.environment.scopes() && full.out == str_views(self.output@)),
            decreases statements@.len() - i,
        {
            let result = self.execute(&statements[i]);
            proof {
                assert(statements@.skip(i as int).len() > 0);
                assert(statements@.skip(i as int)[0] == statements@[i as int]);
                assert(statements@.skip(i as int).drop_first() =~= statements@.skip(i as int + 1));
            }
            match result {
                Ok(u) => {
                    i = i + 1;
                },
                Err(e) => {
                    failure = Some(e);
                    break ;
                },
            }
        }
        proof {
            if failure is None {
                assert(statements@.skip(i as int) =~= Seq::<Stmt>::empty());
            }
        }
        match failure {
            None => Ok(()),
            Some(e) => Err(e),
        }
    }
}

} // verus!

verus! {

/// Law: truthiness. `nil` and `false` are the only falsey values; every
/// number — zero included — every string and `true` are truthy.
pub proof fn lemma_truthiness(v: Val)
    ensures
        truthy(v) <==> !(v is VNil || v == Val::VBool(false)),
        forall|b: u64| #[trigger] truthy(Val::VNum(b)),
        forall|s: Seq<char>| #[trigger] truthy(Val::VStr(s)),
{
}

/// The two values are of the same variant.
pub open spec fn same_variant(a: Val, b: Val) -> bool {
    match (a, b) {
        (Val::VStr(x), Val::VStr(y)) => true,
        (Val::VNum(x), Val::VNum(y)) => true,
        (Val::VBool(x), Val::VBool(y)) => true,
        (Val::VNil, Val::VNil) => true,
        _ => false,
    }
}

/// Law: equality never coerces. Values of different variants are never
/// equal; two numbers compare by IEEE 754 equality; two strings by their
/// text; two booleans by their value.
pub proof fn lemma_equality_no_coercion(a: Val, b: Val)
    ensures
        !same_variant(a, b) ==> !val_eq(a, b),
        (a is VNum && b is VNum) ==> val_eq(a, b) == crate::numeric::num_eq(a->VNum_0, b->VNum_0),
        (a is VStr && b is VStr) ==> val_eq(a, b) == (a->VStr_0 == b->VStr_0),
        (a is VBool && b is VBool) ==> val_eq(a, b) == (a->VBool_0 == b->VBool_0),
{
}

/// An expression built purely from numeric literals, `+ - * /` and
/// grouping.
pub open spec fn pure_arith(e: Expr) -> bool
    decreases e,
{
    match e {
        Expr::Literal(l) => l.value@ is VNum,
        Expr::Grouping(g) => pure_arith(*g.expression),
        Expr::Binary(b) => (b.operator.token_type == TokenType::PLUS || b.operator.token_type
            == TokenType::MINUS || b.operator.token_type == TokenType::STAR
            || b.operator.token_type == TokenType::SLASH) && pure_arith(*b.left) && pure_arith(
            *b.right,
        ),
        _ => false,
    }
}

/// The fold of the IEEE 754 operations over a pure arithmetic tree: the
/// number the tree denotes.
pub open spec fn arith_value(e: Expr) -> u64
    decreases e,
{
    match e {
        Expr::Literal(l) => match l.value@ {
            Val::VNum(b) => b,
            _ => 0,
        },
        Expr::Grouping(g) => arith_value(*g.expression),
        Expr::Binary(b) => {
            let a = arith_value(*b.left);
            let c = arith_value(*b.right);
            if b.operator.token_type == TokenType::PLUS {
                num_sum(a, c)
            } else if b.operator.token_type == TokenType::MINUS {
                num_diff(a, c)
            } else if b.operator.token_type == TokenType::STAR {
                num_prod(a, c)
            } else {
                num_quot(a, c)
            }
        },
        _ => 0,
    }
}

/// Law (round trip): an expression built purely from numeric literals,
/// `+ - * /` and grouping always evaluates — in any environment, leaving
/// it untouched — to exactly the fold of the IEEE 754 operations over
/// the tree. Precedence and left-associativity live in the tree shape
/// the parser is proved to build, so parsing then evaluating computes
/// the arithmetic directly.
pub proof fn lemma_pure_arith_eval(e: Expr, env: Seq<Map<Seq<char>, Val>>)
    requires
        pure_arith(e),
    ensures
        eval_expr(e, env).env == env,
        eval_expr(e, env).res == Ok::<Val, ErrM>(Val::VNum(arith_value(e))),
    decreases e,
{
    match e {
        Expr::Literal(l) => {},
        Expr::Grouping(g) => {
            lemma_pure_arith_eval(*g.expression, env);
        },
        Expr::Binary(b) => {
            lemma_pure_arith_eval(*b.left, env);
            lemma_pure_arith_eval(*b.right, env);
        },
        _ => {},
    }
}

} // verus!
