//! The statement half of the abstract syntax tree, and the `Environment`:
//! a stack of lexical scope frames, innermost last. Each frame is a list
//! of bindings whose model is the map built by inserting the bindings in
//! order, so a later binding of the same name overwrites an earlier one.

use vstd::prelude::*;

use crate::parser::expression::Expr;
use crate::parser::interpreter::RuntimeError;
use crate::scanner::token::{LiteralType, Token, Val};

verus! {

pub enum Stmt {
    Expression(ExpressionStmt),
    Print(PrintStmt),
    Var(Var),
    Block(Block),
    If(If),
}

pub struct ExpressionStmt {
    pub expression: Expr,
}

pub struct PrintStmt {
    pub expression: Expr,
}

pub struct Var {
    pub initializer: Option<Expr>,
    pub name: Token,
}

pub struct Block {
    pub statements: Vec<Stmt>,
}

pub struct If {
    pub condition: Expr,
    pub then_branch: Box<Stmt>,
    pub else_branch: Option<Box<Stmt>>,
}

/// The bindings a scope frame denotes: its pairs inserted left to right,
/// so the rightmost binding of a name wins.
pub open spec fn frame_model(f: Seq<(String, LiteralType)>) -> Map<Seq<char>, Val>
    decreases f.len(),
{
    if f.len() == 0 {
        Map::empty()
    } else {
        frame_model(f.drop_last()).insert(f.last().0@, f.last().1@)
    }
}

/// Looks a name up through a scope chain, innermost frame first.
pub open spec fn env_lookup(env: Seq<Map<Seq<char>, Val>>, name: Seq<char>) -> Option<Val>
    decreases env.len(),
{
    if env.len() == 0 {
        None
    } else if env.last().contains_key(name) {
        Some(env.last()[name])
    } else {
        env_lookup(env.drop_last(), name)
    }
}

/// Rebinds a name in the innermost frame that already binds it, walking
/// outward; `None` when no frame binds it.
pub open spec fn env_assign_model(
    env: Seq<Map<Seq<char>, Val>>,
    name: Seq<char>,
    v: Val,
) -> Option<Seq<Map<Seq<char>, Val>>>
    decreases env.len(),
{
    if env.len() == 0 {
        None
    } else if env.last().contains_key(name) {
        Some(env.update(env.len() - 1, env.last().insert(name, v)))
    } else {
        match env_assign_model(env.drop_last(), name, v) {
            Some(outer) => Some(outer.push(env.last())),
            None => None,
        }
    }
}

/// Binds a name in the innermost frame, overwriting a previous binding of
/// the same name in that frame.
pub open spec fn env_define(
    env: Seq<Map<Seq<char>, Val>>,
    name: Seq<char>,
    v: Val,
) -> Seq<Map<Seq<char>, Val>> {
    env.update(env.len() - 1, env.last().insert(name, v))
}

/// The exact text of the undefined-variable error for `name`.
pub open spec fn undefined_var_msg(name: Seq<char>) -> Seq<char> {
    "Undefined variable '"@ + name + "'."@
}

/// A chain of lexical scopes: `frames` holds the global scope first and
/// the innermost scope last.
pub struct Environment {
    pub frames: Vec<Vec<(String, LiteralType)>>,
}

impl Environment {
    /// The scope chain this environment denotes, outermost first.
    pub open spec fn scopes(&self) -> Seq<Map<Seq<char>, Val>> {
        self.frames@.map_values(|f: Vec<(String, LiteralType)>| frame_model(f@))
    }

    /// There is always at least the global scope.
    pub open spec fn wf(&self) -> bool {
        self.frames@.len() >= 1
    }

    /// An environment holding one empty global scope.
    pub fn new() -> (r: Environment)
        ensures
            r.wf(),
            r.scopes() =~= seq![Map::<Seq<char>, Val>::empty()],
    {
        let mut frames: Vec<Vec<(String, LiteralType)>> = Vec::new();
        frames.push(Vec::new());
        Environment { frames }
    }

    /// Wraps an environment in a fresh innermost scope.
    pub fn new_with_enclosing(enclosing: Environment) -> (r: Environment)
        ensures
            r.wf(),
            r.scopes() =~= enclosing.scopes().push(Map::<Seq<char>, Val>::empty()),
    {
        let mut e = enclosing;
        e.frames.push(Vec::new());
        e
    }

    /// Opens a fresh innermost scope.
    pub fn push_frame(&mut self)
        ensures
            final(self).wf(),
            final(self).frames@.len() == old(self).frames@.len() + 1,
            final(self).scopes() =~= old(self).scopes().push(Map::<Seq<char>, Val>::empty()),
    {
        self.frames.push(Vec::new());
    }

    /// Discards the innermost scope, restoring its enclosing scope chain;
    /// rebindings of outer names made inside it are kept.
    pub fn pop_frame(&mut self)
        requires
            old(self).frames@.len() >= 2,
        ensures
            final(self).wf(),
            final(self).frames@.len() == old(self).frames@.len() - 1,
            final(self).scopes() =~= old(self).scopes().drop_last(),
    {
        self.frames.pop();
    }

    /// Binds `name` in the innermost scope, silently overwriting a
    /// previous binding of the same name in that scope.
    pub fn define(&mut self, name: &String, value: LiteralType)
        requires
            old(self).wf(),
        ensures
            final(self).wf(),
            final(self).scopes() =~= env_define(old(self).scopes(), name@, value@),
    {
        let i = self.frames.len() - 1;
        let ghost f0 = self.frames@[i as int]@;
        self.frames[i].push((name.clone(), value));
        proof {
            assert(self.frames@[i as int]@.drop_last() =~= f0);
            assert(self.scopes() =~= env_define(old(self).scopes(), name@, value@));
        }
    }

    /// Looks `name.lexeme` up through the scope chain, innermost first:
    /// the bound value, or the undefined-variable error at `name.line`.
    #[verifier::loop_isolation(false)]
    pub fn get(&self, name: Token) -> (r: Result<LiteralType, RuntimeError>)
        ensures
            (match env_lookup(self.scopes(), name.lexeme@) {
                Some(v) => r matches Ok(x) && x@ == v,
                None => r matches Err(e) && e.line == name.line && e.message@ == undefined_var_msg(
                    name.lexeme@,
                ),
            }),
    {
        let mut i: usize = self.frames.len();
        while i > 0
            invariant
                i <= self.frames@.len(),
                forall|k: int|
                    i <= k < self.frames@.len() ==> !(#[trigger] self.scopes()[k]).contains_key(
                        name.lexeme@,
                    ),
            decreases i,
        {
            i = i - 1;
            let frame = &self.frames[i];
            let mut j: usize = frame.len();
            while j > 0
                invariant
                    j <= frame@.len(),
                    forall|k: int| j <= k < frame@.len() ==> (#[trigger] frame@[k]).0@ != name.lexeme@,
                decreases j,
            {
                j = j - 1;
                if frame[j].0 == name.lexeme {
                    proof {
                        lemma_frame_model_found(frame@, j as int, name.lexeme@);
                        lemma_env_lookup_found(self.scopes(), i as int, name.lexeme@);
                    }
                    return Ok(frame[j].1.duplicate());
                }
            }
            proof {
                lemma_frame_model_absent(frame@, name.lexeme@);
            }
        }
        proof {
            lemma_env_lookup_none(self.scopes(), name.lexeme@);
        }
        Err(RuntimeError::error(name.line, undefined_message(&name.lexeme)))
    }

    /// Rebinds `name.lexeme` in the innermost scope that binds it; when no
    /// scope does, the chain is unchanged and the undefined-variable error
    /// at `name.line` is returned.
    #[verifier::loop_isolation(false)]
    pub fn assign(&mut self, name: Token, value: LiteralType) -> (r: Result<(), RuntimeError>)
        ensures
            (match env_assign_model(old(self).scopes(), name.lexeme@, value@) {
                Some(env2) => r matches Ok(u) && final(self).scopes() == env2,
                None => r matches Err(e) && final(self).scopes() == old(self).scopes() && e.line
                    == name.line && e.message@ == undefined_var_msg(name.lexeme@),
            }),
            final(self).frames@.len() == old(self).frames@.len(),
    {
        let mut i: usize = self.frames.len();
        while i > 0
            invariant
                i <= self.frames@.len(),
                self.frames == old(self).frames,
                forall|k: int|
                    i <= k < self.frames@.len() ==> !(#[trigger] self.scopes()[k]).contains_key(
                        name.lexeme@,
                    ),
            decreases i,
        {
            i = i - 1;
            let frame_len = self.frames[i].len();
            let mut j: usize = frame_len;
            while j > 0
                invariant
                    j <= self.frames@[i as int]@.len(),
                    i < self.frames@.len(),
                    self.frames == old(self).frames,
                    forall|k: int|
                        j <= k < self.frames@[i as int]@.len() ==> (#[trigger] self.frames@[i as int]@[k]).0@
                            != name.lexeme@,
                decreases j,
            {
                j = j - 1;
                if self.frames[i][j].0 == name.lexeme {
                    proof {
                        lemma_frame_model_found(self.frames@[i as int]@, j as int, name.lexeme@);
                        lemma_env_assign_found(self.scopes(), i as int, name.lexeme@, value@);
                    }
                    let ghost pre = self.scopes();
                    self.frames[i][j].1 = value;
                    proof {
                        lemma_frame_model_update(
                            old(self).frames@[i as int]@,
                            j as int,
                            value,
                            name.lexeme@,
                        );
                        assert(self.scopes() =~= pre.update(
                            i as int,
                            pre[i as int].insert(name.lexeme@, value@),
                        ));
                    }
                    return Ok(());
                }
            }
            proof {
                lemma_frame_model_absent(self.frames@[i as int]@, name.lexeme@);
            }
        }
        proof {
            lemma_env_assign_none(self.scopes(), name.lexeme@, value@);
        }
        Err(RuntimeError::error(name.line, undefined_message(&name.lexeme)))
    }
}

/// Builds the undefined-variable message for `name`.
fn undefined_message(name: &String) -> (r: String)
    ensures
        r@ == undefined_var_msg(name@),
{
    String::from_str("Undefined variable '").concat(name.as_str()).concat("'.")
}

/// The rightmost binding of `name` gives the frame's value for it.
proof fn lemma_frame_model_found(f: Seq<(String, LiteralType)>, j: int, name: Seq<char>)
    requires
        0 <= j < f.len(),
        f[j].0@ == name,
        forall|k: int| j < k < f.len() ==> (#[trigger] f[k]).0@ != name,
    ensures
        frame_model(f).contains_key(name),
        frame_model(f)[name] == f[j].1@,
    decreases f.len(),
{
    if j < f.len() - 1 {
        assert(f.drop_last()[j] == f[j]);
        lemma_frame_model_found(f.drop_last(), j, name);
    }
}

/// A frame with no binding of `name` has no value for it.
proof fn lemma_frame_model_absent(f: Seq<(String, LiteralType)>, name: Seq<char>)
    requires
        forall|k: int| 0 <= k < f.len() ==> (#[trigger] f[k]).0@ != name,
    ensures
        !frame_model(f).contains_key(name),
    decreases f.len(),
{
    if f.len() > 0 {
        lemma_frame_model_absent(f.drop_last(), name);
    }
}

/// Overwriting the value of the rightmost binding of `name` models as an
/// insert into the frame's map.
proof fn lemma_frame_model_update(
    f: Seq<(String, LiteralType)>,
    j: int,
    v: LiteralType,
    name: Seq<char>,
)
    requires
        0 <= j < f.len(),
        f[j].0@ == name,
        forall|k: int| j < k < f.len() ==> (#[trigger] f[k]).0@ != name,
    ensures
        frame_model(f.update(j, (f[j].0, v))) == frame_model(f).insert(name, v@),
    decreases f.len(),
{
    let f2 = f.update(j, (f[j].0, v));
    if j == f.len() - 1 {
        assert(f2.drop_last() =~= f.drop_last());
        assert(frame_model(f2) =~= frame_model(f).insert(name, v@));
    } else {
        assert(f.drop_last()[j] == f[j]);
        lemma_frame_model_update(f.drop_last(), j, v, name);
        assert(f2.drop_last() =~= f.drop_last().update(j, (f[j].0, v)));
        assert(f2.last() == f.last());
        assert(frame_model(f2) =~= frame_model(f).insert(name, v@));
    }
}

/// When the innermost scope binding `name` is scope `i`, the lookup gives
/// scope `i`'s value for it.
proof fn lemma_env_lookup_found(env: Seq<Map<Seq<char>, Val>>, i: int, name: Seq<char>)
    requires
        0 <= i < env.len(),
        env[i].contains_key(name),
        forall|k: int| i < k < env.len() ==> !(#[trigger] env[k]).contains_key(name),
    ensures
        env_lookup(env, name) == Some(env[i][name]),
    decreases env.len(),
{
    if i < env.len() - 1 {
        assert(env.drop_last()[i] == env[i]);
        lemma_env_lookup_found(env.drop_last(), i, name);
    }
}

/// Law: a name no scope binds looks up to nothing — the undefined
/// variable error is owed exactly then.
pub proof fn lemma_env_lookup_none(env: Seq<Map<Seq<char>, Val>>, name: Seq<char>)
    requires
        forall|k: int| 0 <= k < env.len() ==> !(#[trigger] env[k]).contains_key(name),
    ensures
        env_lookup(env, name) is None,
    decreases env.len(),
{
    if env.len() > 0 {
        lemma_env_lookup_none(env.drop_last(), name);
    }
}

/// When the innermost scope binding `name` is scope `i`, rebinding writes
/// through to scope `i` and changes nothing else.
proof fn lemma_env_assign_found(env: Seq<Map<Seq<char>, Val>>, i: int, name: Seq<char>, v: Val)
    requires
        0 <= i < env.len(),
        env[i].contains_key(name),
        forall|k: int| i < k < env.len() ==> !(#[trigger] env[k]).contains_key(name),
    ensures
        env_assign_model(env, name, v) == Some(env.update(i, env[i].insert(name, v))),
    decreases env.len(),
{
    if i == env.len() - 1 {
    } else {
        assert(env.drop_last()[i] == env[i]);
        lemma_env_assign_found(env.drop_last(), i, name, v);
        assert(env.drop_last().update(i, env[i].insert(name, v)).push(env.last()) =~= env.update(
            i,
            env[i].insert(name, v),
        ));
    }
}

/// Law: assignment to a name no scope binds fails and changes nothing —
/// the undefined variable error is owed exactly then.
pub proof fn lemma_env_assign_none(env: Seq<Map<Seq<char>, Val>>, name: Seq<char>, v: Val)
    requires
        forall|k: int| 0 <= k < env.len() ==> !(#[trigger] env[k]).contains_key(name),
    ensures
        env_assign_model(env, name, v) is None,
    decreases env.len(),
{
    if env.len() > 0 {
        lemma_env_assign_none(env.drop_last(), name, v);
    }
}

} // verus!

verus! {

/// Law (shadowing): defining a name in a freshly opened innermost scope
/// shadows any outer binding — lookup finds the inner value — and
/// discarding that scope uncovers the outer chain exactly as it was.
pub proof fn lemma_shadow_and_restore(env: Seq<Map<Seq<char>, Val>>, name: Seq<char>, inner: Val)
    requires
        env.len() >= 1,
    ensures
        env_lookup(env_define(env.push(Map::<Seq<char>, Val>::empty()), name, inner), name)
            == Some(inner),
        env_define(env.push(Map::<Seq<char>, Val>::empty()), name, inner).drop_last() == env,
{
    let pushed = env.push(Map::<Seq<char>, Val>::empty());
    let defined = env_define(pushed, name, inner);
    assert(defined.last() == Map::<Seq<char>, Val>::empty().insert(name, inner));
    assert(defined.last().contains_key(name));
    assert(defined.drop_last() =~= env);
}

} // verus!
