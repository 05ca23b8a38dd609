//! Static resolution of variables: for each variable use, how many scopes
//! out its declaration stands, and the errors that can be found before
//! running (reading a local in its own initializer, redeclaring a local,
//! misplaced `return`, `this` and `super`, a class inheriting from itself).

use vstd::prelude::*;

use crate::value::str_equal;
use crate::walker::ast::{Expr, Function, Stmt};
use crate::walker::ast_printer::lemma_argument_decreases;
use crate::walker::grammar::{
    expr_view, exprs_view, function_view, functions_view, stmt_view, stmts_view, SExpr, SFunction,
    SStmt,
};
use crate::walker::parsed_token::IdentifierToken;
use crate::walker::token::TokenLike;

verus! {

#[derive(Debug, PartialEq, Eq, Clone, Copy, Structural)]
pub enum FunctionType {
    TopLevel,
    Function,
    Initializer,
    Method,
}

#[derive(Debug, PartialEq, Eq, Clone, Copy, Structural)]
pub enum ClassType {
    Outside,
    Class,
    Subclass,
}

/// An error found while resolving: the line, the token as written, the
/// message.
#[derive(Debug, PartialEq, Clone)]
pub struct ResolveError {
    pub line: usize,
    pub token: String,
    pub message: String,
}

/// A variable use (by its name and line) found `depth` scopes out from the
/// innermost scope where it was used.
#[derive(Debug, PartialEq, Clone)]
pub struct Resolution {
    pub name: String,
    pub line: usize,
    pub depth: usize,
}

// ---------------------------------------------------------------------------
// Resolution as mathematics.

/// A scope: each name declared in it, with whether its definition is done.
pub type Scope = Seq<(Seq<char>, bool)>;

/// Where `k` stands in a scope, or -1.
pub open spec fn key_index(s: Scope, k: Seq<char>) -> int
    decreases s.len(),
{
    if s.len() == 0 {
        -1
    } else if s[s.len() - 1].0 == k {
        s.len() - 1
    } else {
        key_index(s.subrange(0, s.len() - 1), k)
    }
}

pub open spec fn scope_insert(s: Scope, k: Seq<char>, v: bool) -> Scope {
    let j = key_index(s, k);
    if j >= 0 {
        s.update(j, (k, v))
    } else {
        s.push((k, v))
    }
}

pub struct RState {
    pub scopes: Seq<Scope>,
    pub function: FunctionType,
    pub class: ClassType,
    pub errors: Seq<(usize, Seq<char>, Seq<char>)>,
    pub resolutions: Seq<(Seq<char>, usize, int)>,
}

pub open spec fn with_scopes(st: RState, scopes: Seq<Scope>) -> RState {
    RState { scopes, function: st.function, class: st.class, errors: st.errors, resolutions: st.resolutions }
}

pub open spec fn with_types(st: RState, function: FunctionType, class: ClassType) -> RState {
    RState { scopes: st.scopes, function, class, errors: st.errors, resolutions: st.resolutions }
}

pub open spec fn error(st: RState, line: usize, token: Seq<char>, message: Seq<char>) -> RState {
    RState {
        scopes: st.scopes,
        function: st.function,
        class: st.class,
        errors: st.errors.push((line, token, message)),
        resolutions: st.resolutions,
    }
}

pub open spec fn begin_scope(st: RState) -> RState {
    with_scopes(st, st.scopes.push(Seq::empty()))
}

pub open spec fn end_scope(st: RState) -> RState {
    if st.scopes.len() > 0 {
        with_scopes(st, st.scopes.subrange(0, st.scopes.len() - 1))
    } else {
        st
    }
}

/// Sets `k` to `v` in the innermost scope, if there is one.
pub open spec fn insert_innermost(st: RState, k: Seq<char>, v: bool) -> RState {
    if st.scopes.len() > 0 {
        let n = st.scopes.len() - 1;
        with_scopes(st, st.scopes.update(n, scope_insert(st.scopes[n], k, v)))
    } else {
        st
    }
}

pub open spec fn declare(st: RState, name: IdentifierToken) -> RState {
    let k = name.identifier@;
    if st.scopes.len() > 0 && key_index(st.scopes[st.scopes.len() - 1], k) >= 0 {
        error(insert_innermost(st, k, false), name.line, k, "Already a variable with this name in this scope."@)
    } else {
        insert_innermost(st, k, false)
    }
}

pub open spec fn define(st: RState, name: IdentifierToken) -> RState {
    insert_innermost(st, name.identifier@, true)
}

/// The resolution of `key` used at `line` among the `i` innermost scopes:
/// the nearest scope that declares it, as a distance, if one does.
pub open spec fn local_hits(scopes: Seq<Scope>, key: Seq<char>, line: usize, i: int) -> Seq<(Seq<char>, usize, int)>
    decreases i,
{
    if i <= 0 || i > scopes.len() {
        Seq::empty()
    } else {
        let prev = local_hits(scopes, key, line, i - 1);
        if prev.len() == 0 && key_index(scopes[scopes.len() - i], key) >= 0 {
            seq![(key, line, i - 1)]
        } else {
            prev
        }
    }
}

pub open spec fn resolve_local(st: RState, key: Seq<char>, line: usize) -> RState {
    RState {
        scopes: st.scopes,
        function: st.function,
        class: st.class,
        errors: st.errors,
        resolutions: st.resolutions + local_hits(st.scopes, key, line, st.scopes.len() as int),
    }
}

pub open spec fn resolve_expr(e: SExpr, st: RState) -> RState
    decreases e,
{
    match e {
        SExpr::Assign(name, value) => resolve_local(resolve_expr(*value, st), name.identifier@, name.line),
        SExpr::Binary(l, _, r) => resolve_expr(*r, resolve_expr(*l, st)),
        SExpr::Call(callee, _, args, _) => resolve_exprs(args, resolve_expr(*callee, st)),
        SExpr::Logical(l, _, r) => resolve_expr(*r, resolve_expr(*l, st)),
        SExpr::Grouping(inner) => resolve_expr(*inner, st),
        SExpr::Literal(_) => st,
        SExpr::Unary(_, inner) => resolve_expr(*inner, st),
        SExpr::Variable(name) => {
            let k = name.identifier@;
            let st1 = if st.scopes.len() > 0 && key_index(st.scopes[st.scopes.len() - 1], k) >= 0
                && !st.scopes[st.scopes.len() - 1][key_index(st.scopes[st.scopes.len() - 1], k)].1 {
                error(st, name.line, k, "Can't read local variable in its own initializer."@)
            } else {
                st
            };
            resolve_local(st1, k, name.line)
        },
        SExpr::Get(object, _) => resolve_expr(*object, st),
        SExpr::SetProperty(object, _, value) => resolve_expr(*value, resolve_expr(*object, st)),
        SExpr::This(keyword) => match st.class {
            ClassType::Outside => error(st, keyword.line, keyword.text@, "Can't use 'this' outside of a class."@),
            _ => resolve_local(st, "this"@, keyword.line),
        },
        SExpr::Super(keyword, _) => {
            let st1 = match st.class {
                ClassType::Outside => error(st, keyword.line, keyword.text@, "Can't use 'super' outside of a class."@),
                ClassType::Class => error(
                    st,
                    keyword.line,
                    keyword.text@,
                    "Can't use 'super' in a class with no superclass."@,
                ),
                ClassType::Subclass => resolve_local(st, "super"@, keyword.line),
            };
            resolve_local(st1, "super"@, keyword.line)
        },
    }
}

/// The expressions in order.
pub open spec fn resolve_exprs(es: Seq<SExpr>, st: RState) -> RState
    decreases es,
{
    if es.len() == 0 {
        st
    } else {
        resolve_expr(es[es.len() - 1], resolve_exprs(es.subrange(0, es.len() - 1), st))
    }
}

pub open spec fn resolve_stmt(s: SStmt, st: RState) -> RState
    decreases s,
{
    match s {
        SStmt::Expression(e) => resolve_expr(e, st),
        SStmt::Function(f) => resolve_function(f, FunctionType::Function, define(declare(st, f.name), f.name)),
        SStmt::If(c, t, e) => {
            let st1 = resolve_stmt(*t, resolve_expr(c, st));
            match e {
                Some(e) => resolve_stmt(*e, st1),
                None => st1,
            }
        },
        SStmt::Print(e) => resolve_expr(e, st),
        SStmt::Return(token, value) => {
            let st1 = if st.function == FunctionType::TopLevel {
                error(st, token.line, token.text@, "Can't return from top-level code."@)
            } else {
                st
            };
            match value {
                Some(v) => resolve_expr(
                    v,
                    if st1.function == FunctionType::Initializer {
                        error(st1, token.line, token.text@, "Can't return from initializer."@)
                    } else {
                        st1
                    },
                ),
                None => st1,
            }
        },
        SStmt::Var(name, init) => {
            let st1 = declare(st, name);
            let st2 = match init {
                Some(e) => resolve_expr(e, st1),
                None => st1,
            };
            define(st2, name)
        },
        SStmt::While(c, b) => resolve_stmt(*b, resolve_expr(c, st)),
        SStmt::Block(ss) => end_scope(resolve_stmts(ss, begin_scope(st))),
        SStmt::Break => st,
        SStmt::Class(name, superclass, methods) => {
            let old_class = st.class;
            let st1 = define(declare(with_types(st, st.function, ClassType::Class), name), name);
            let st2 = match superclass {
                Some(sup) => {
                    let s1 = with_types(st1, st1.function, ClassType::Subclass);
                    let s2 = if sup.identifier@ == name.identifier@ {
                        error(s1, sup.line, sup.identifier@, "A class can't inherit from itself."@)
                    } else {
                        s1
                    };
                    insert_innermost(begin_scope(resolve_expr(SExpr::Variable(sup), s2)), "super"@, true)
                },
                None => st1,
            };
            let st3 = insert_innermost(begin_scope(st2), "this"@, true);
            let st4 = resolve_methods(methods, st3);
            let st5 = end_scope(st4);
            let st6 = match superclass {
                Some(_) => end_scope(st5),
                None => st5,
            };
            with_types(st6, st6.function, old_class)
        },
    }
}

pub open spec fn resolve_stmts(ss: Seq<SStmt>, st: RState) -> RState
    decreases ss,
{
    if ss.len() == 0 {
        st
    } else {
        resolve_stmt(ss[ss.len() - 1], resolve_stmts(ss.subrange(0, ss.len() - 1), st))
    }
}

/// A function body in a scope of its own, holding its parameters.
pub open spec fn resolve_function(f: SFunction, ty: FunctionType, st: RState) -> RState
    decreases f,
{
    let enclosing = st.function;
    let st1 = begin_scope(with_types(st, ty, st.class));
    let st2 = declare_params(f.params, st1);
    let st3 = end_scope(resolve_stmts(f.body, st2));
    with_types(st3, enclosing, st3.class)
}

pub open spec fn declare_params(ps: Seq<IdentifierToken>, st: RState) -> RState
    decreases ps.len(),
{
    if ps.len() == 0 {
        st
    } else {
        let p = ps[ps.len() - 1];
        define(declare(declare_params(ps.subrange(0, ps.len() - 1), st), p), p)
    }
}

/// The methods of a class in order; `init` is the initializer.
pub open spec fn resolve_methods(ms: Seq<SFunction>, st: RState) -> RState
    decreases ms,
{
    if ms.len() == 0 {
        st
    } else {
        let m = ms[ms.len() - 1];
        resolve_function(
            m,
            if m.name.identifier@ == "init"@ {
                FunctionType::Initializer
            } else {
                FunctionType::Method
            },
            resolve_methods(ms.subrange(0, ms.len() - 1), st),
        )
    }
}

pub open spec fn initial() -> RState {
    RState {
        scopes: Seq::empty(),
        function: FunctionType::TopLevel,
        class: ClassType::Outside,
        errors: Seq::empty(),
        resolutions: Seq::empty(),
    }
}

// ---------------------------------------------------------------------------
// The resolver.

pub open spec fn scope_view(s: Seq<(String, bool)>) -> Scope {
    s.map_values(|p: (String, bool)| (p.0@, p.1))
}

pub open spec fn errors_view(e: Seq<ResolveError>) -> Seq<(usize, Seq<char>, Seq<char>)> {
    e.map_values(|x: ResolveError| (x.line, x.token@, x.message@))
}

pub open spec fn resolutions_view(r: Seq<Resolution>) -> Seq<(Seq<char>, usize, int)> {
    r.map_values(|x: Resolution| (x.name@, x.line, x.depth as int))
}

proof fn lemma_stmt_decreases(s: Stmt, i: int)
    ensures
        s is Function ==> decreases_to!(s => *s->Function_0),
        s is Block && 0 <= i < s->Block_0.statements.len() ==> decreases_to!(s => s->Block_0.statements@[i]),
        s is Class && 0 <= i < s->Class_0.methods.len() ==> decreases_to!(s => s->Class_0.methods@[i]),
{
    match s {
        Stmt::Block(b) => {
            if 0 <= i < b.statements.len() {
                assert(decreases_to!(b.statements@ => b.statements@[i]));
            }
        },
        Stmt::Class(c) => {
            if 0 <= i < c.methods.len() {
                assert(decreases_to!(c.methods@ => c.methods@[i]));
            }
        },
        _ => {},
    }
}

proof fn lemma_body_decreases(f: Function, i: int)
    requires
        0 <= i < f.body.len(),
    ensures
        decreases_to!(f => f.body@[i]),
{
    assert(decreases_to!(f.body@ => f.body@[i]));
}

pub struct Resolver {
    scopes: Vec<Vec<(String, bool)>>,
    current_function: FunctionType,
    current_class: ClassType,
    errors: Vec<ResolveError>,
    resolutions: Vec<Resolution>,
}

fn string_of(s: &str) -> (res: String)
    ensures
        res@ == s@,
{
    s.to_owned()
}

/// Where `key` stands in `scope`, searching from the newest entry.
fn find_key(scope: &Vec<(String, bool)>, key: &str) -> (res: Option<usize>)
    ensures
        res matches Some(i) ==> i == key_index(scope_view(scope@), key@) && i < scope@.len(),
        res is None ==> key_index(scope_view(scope@), key@) == -1,
{
    let mut i = scope.len();
    assert(scope_view(scope@).subrange(0, i as int) =~= scope_view(scope@));
    while i > 0
        invariant
            i <= scope@.len(),
            key_index(scope_view(scope@), key@) == key_index(scope_view(scope@).subrange(0, i as int), key@),
        decreases i,
    {
        proof {
            let t = scope_view(scope@).subrange(0, i as int);
            assert(t.subrange(0, t.len() - 1) =~= scope_view(scope@).subrange(0, i - 1));
        }
        if str_equal(scope[i - 1].0.as_str(), key) {
            return Some(i - 1);
        }
        i = i - 1;
    }
    None
}

impl Resolver {
    pub closed spec fn state(&self) -> RState {
        RState {
            scopes: self.scopes@.map_values(|s: Vec<(String, bool)>| scope_view(s@)),
            function: self.current_function,
            class: self.current_class,
            errors: errors_view(self.errors@),
            resolutions: resolutions_view(self.resolutions@),
        }
    }

    fn new() -> (res: Self)
        ensures
            res.state() == initial(),
    {
        let r = Resolver {
            scopes: Vec::new(),
            current_function: FunctionType::TopLevel,
            current_class: ClassType::Outside,
            errors: Vec::new(),
            resolutions: Vec::new(),
        };
        assert(r.state().scopes =~= Seq::<Scope>::empty());
        assert(r.state().errors =~= Seq::<(usize, Seq<char>, Seq<char>)>::empty());
        assert(r.state().resolutions =~= Seq::<(Seq<char>, usize, int)>::empty());
        r
    }

    fn error<T: TokenLike>(&mut self, token: &T, message: &str)
        ensures
            final(self).state() == error(old(self).state(), token.spec_line(), token.spec_display(), message@),
            final(self).scopes == old(self).scopes,
    {
        let e = ResolveError { line: token.line(), token: token.token_display(), message: string_of(message) };
        self.errors.push(e);
        assert(errors_view(self.errors@) =~= errors_view(old(self).errors@).push((e.line, e.token@, e.message@)));
        assert(self.state().scopes =~= old(self).state().scopes);
    }

    fn begin_scope(&mut self)
        ensures
            final(self).state() == begin_scope(old(self).state()),
            final(self).scopes@.len() == old(self).scopes@.len() + 1,
    {
        self.scopes.push(Vec::new());
        assert(scope_view(Seq::<(String, bool)>::empty()) =~= Seq::<(Seq<char>, bool)>::empty());
        assert(self.state().scopes =~= old(self).state().scopes.push(Seq::empty()));
    }

    fn end_scope(&mut self)
        ensures
            final(self).state() == end_scope(old(self).state()),
            final(self).scopes@.len() == if old(self).scopes@.len() > 0 {
                old(self).scopes@.len() - 1
            } else {
                0
            },
    {
        if self.scopes.len() > 0 {
            self.scopes.pop();
            assert(self.state().scopes =~= old(self).state().scopes.subrange(0, old(self).scopes@.len() - 1));
        }
    }

    /// Sets `key` to `value` in the innermost scope; whether it was there.
    fn insert_innermost(&mut self, key: &str, value: bool) -> (existed: bool)
        ensures
            final(self).state() == insert_innermost(old(self).state(), key@, value),
            existed == (old(self).scopes@.len() > 0 && key_index(old(self).state().scopes[old(self).scopes@.len() - 1], key@) >= 0),
            final(self).scopes@.len() == old(self).scopes@.len(),
    {
        if self.scopes.len() == 0 {
            return false;
        }
        let mut inner = self.scopes.pop().unwrap();
        let ghost before = inner@;
        let found = find_key(&inner, key);
        let existed = match found {
            Some(i) => {
                inner.set(i, (string_of(key), value));
                true
            },
            None => {
                inner.push((string_of(key), value));
                false
            },
        };
        proof {
            assert(scope_view(inner@) =~= scope_insert(scope_view(before), key@, value));
        }
        self.scopes.push(inner);
        proof {
            let n = old(self).scopes@.len() - 1;
            assert(self.state().scopes =~= old(self).state().scopes.update(
                n,
                scope_insert(old(self).state().scopes[n], key@, value),
            ));
        }
        existed
    }

    fn declare(&mut self, name: &IdentifierToken)
        ensures
            final(self).state() == declare(old(self).state(), *name),
            final(self).scopes@.len() == old(self).scopes@.len(),
    {
        if self.insert_innermost(name.identifier(), false) {
            self.error(name, "Already a variable with this name in this scope.");
        }
    }

    fn define(&mut self, name: &IdentifierToken)
        ensures
            final(self).state() == define(old(self).state(), *name),
            final(self).scopes@.len() == old(self).scopes@.len(),
    {
        self.insert_innermost(name.identifier(), true);
    }

    fn resolve_local(&mut self, key: &str, line: usize)
        ensures
            final(self).state() == resolve_local(old(self).state(), key@, line),
            final(self).scopes == old(self).scopes,
    {
        let n = self.scopes.len();
        let mut i: usize = 0;
        let mut found_one = false;
        while i < n
            invariant
                n == self.scopes@.len(),
                i <= n,
                found_one == (local_hits(old(self).state().scopes, key@, line, i as int).len() > 0),
                self.scopes == old(self).scopes,
                self.current_function == old(self).current_function,
                self.current_class == old(self).current_class,
                self.errors == old(self).errors,
                resolutions_view(self.resolutions@) == resolutions_view(old(self).resolutions@)
                    + local_hits(old(self).state().scopes, key@, line, i as int),
            decreases n - i,
        {
            let ghost prev = self.resolutions@;
            if !found_one {
                let found = find_key(&self.scopes[n - 1 - i], key);
                if found.is_some() {
                    self.resolutions.push(Resolution { name: string_of(key), line, depth: i });
                    found_one = true;
                    assert(local_hits(old(self).state().scopes, key@, line, i as int) =~= Seq::empty());
                    assert(resolutions_view(self.resolutions@) =~= resolutions_view(prev).push((key@, line, i as int)));
                }
            }
            i = i + 1;
        }
    }

    fn resolve_expression(&mut self, expr: &Expr)
        ensures
            final(self).state() == resolve_expr(expr_view(*expr), old(self).state()),
            final(self).scopes@.len() == old(self).scopes@.len(),
        decreases expr,
    {
        match expr {
            Expr::Assign(assign) => {
                self.resolve_expression(&assign.value);
                self.resolve_local(assign.name.identifier(), assign.name.line);
            },
            Expr::Binary(binary) => {
                self.resolve_expression(&binary.left);
                self.resolve_expression(&binary.right);
            },
            Expr::Call(call) => {
                self.resolve_expression(&call.callee);
                let mut i: usize = 0;
                while i < call.arguments.len()
                    invariant
                        i <= call.arguments.len(),
                        *expr == Expr::Call(*call),
                        self.state() == resolve_exprs(
                            exprs_view(call.arguments@.subrange(0, i as int)),
                            resolve_expr(expr_view(call.callee), old(self).state()),
                        ),
                        self.scopes@.len() == old(self).scopes@.len(),
                    decreases call.arguments.len() - i,
                {
                    proof {
                        lemma_argument_decreases(*expr, i as int);
                        let s = call.arguments@.subrange(0, i + 1);
                        assert(s.subrange(0, s.len() - 1) =~= call.arguments@.subrange(0, i as int));
                        assert(exprs_view(s) == exprs_view(call.arguments@.subrange(0, i as int)).push(expr_view(call.arguments@[i as int])));
                        assert(exprs_view(s).subrange(0, exprs_view(s).len() - 1) =~= exprs_view(call.arguments@.subrange(0, i as int)));
                    }
                    self.resolve_expression(&call.arguments[i]);
                    i = i + 1;
                }
                assert(call.arguments@.subrange(0, call.arguments.len() as int) =~= call.arguments@);
            },
            Expr::Logical(logical) => {
                self.resolve_expression(&logical.left);
                self.resolve_expression(&logical.right);
            },
            Expr::Grouping(grouping) => {
                self.resolve_expression(&grouping.expression);
            },
            Expr::LiteralExpr(_) => {},
            Expr::Unary(unary) => {
                self.resolve_expression(&unary.expression);
            },
            Expr::Variable(variable) => {
                let key = variable.name.identifier();
                if self.scopes.len() > 0 {
                    let n = self.scopes.len();
                    match find_key(&self.scopes[n - 1], key) {
                        Some(j) => {
                            if !self.scopes[n - 1][j].1 {
                                self.error(&variable.name, "Can't read local variable in its own initializer.");
                            }
                        },
                        None => {},
                    }
                }
                self.resolve_local(key, variable.name.line);
            },
            Expr::Get(get) => {
                self.resolve_expression(&get.object);
            },
            Expr::SetProperty(set) => {
                self.resolve_expression(&set.object);
                self.resolve_expression(&set.value);
            },
            Expr::This(this) => match self.current_class {
                ClassType::Outside => self.error(&this.keyword, "Can't use 'this' outside of a class."),
                _ => self.resolve_local("this", this.keyword.line),
            },
            Expr::Super(s) => {
                match self.current_class {
                    ClassType::Outside => self.error(&s.keyword, "Can't use 'super' outside of a class."),
                    ClassType::Class => self.error(&s.keyword, "Can't use 'super' in a class with no superclass."),
                    ClassType::Subclass => self.resolve_local("super", s.keyword.line),
                }
                self.resolve_local("super", s.keyword.line);
            },
        }
    }

    fn resolve_function(&mut self, function: &Function, function_type: FunctionType)
        ensures
            final(self).state() == resolve_function(function_view(*function), function_type, old(self).state()),
            final(self).scopes@.len() == old(self).scopes@.len(),
        decreases function,
    {
        let enclosing = self.current_function;
        self.current_function = function_type;
        self.begin_scope();
        let mut i: usize = 0;
        let ghost st1 = self.state();
        while i < function.params.len()
            invariant
                i <= function.params.len(),
                self.state() == declare_params(function.params@.subrange(0, i as int), st1),
                self.scopes@.len() == old(self).scopes@.len() + 1,
            decreases function.params.len() - i,
        {
            proof {
                let s = function.params@.subrange(0, i + 1);
                assert(s.subrange(0, s.len() - 1) =~= function.params@.subrange(0, i as int));
            }
            self.declare(&function.params[i]);
            self.define(&function.params[i]);
            i = i + 1;
        }
        assert(function.params@.subrange(0, function.params.len() as int) =~= function.params@);
        let ghost st2 = self.state();
        let mut j: usize = 0;
        while j < function.body.len()
            invariant
                j <= function.body.len(),
                self.state() == resolve_stmts(stmts_view(function.body@.subrange(0, j as int)), st2),
                self.scopes@.len() == old(self).scopes@.len() + 1,
            decreases function.body.len() - j,
        {
            proof {
                lemma_body_decreases(*function, j as int);
                let s = function.body@.subrange(0, j + 1);
                assert(s.subrange(0, s.len() - 1) =~= function.body@.subrange(0, j as int));
                assert(stmts_view(s) == stmts_view(function.body@.subrange(0, j as int)).push(stmt_view(function.body@[j as int])));
                assert(stmts_view(s).subrange(0, stmts_view(s).len() - 1) =~= stmts_view(function.body@.subrange(0, j as int)));
            }
            self.resolve_statement(&function.body[j]);
            j = j + 1;
        }
        assert(function.body@.subrange(0, function.body.len() as int) =~= function.body@);
        self.end_scope();
        self.current_function = enclosing;
    }

    #[verifier::rlimit(100)]
    #[verifier::spinoff_prover]
    fn resolve_statement(&mut self, stmt: &Stmt)
        ensures
            final(self).state() == resolve_stmt(stmt_view(*stmt), old(self).state()),
            final(self).scopes@.len() == old(self).scopes@.len(),
        decreases stmt,
    {
        proof {
            lemma_stmt_decreases(*stmt, 0);
        }
        match stmt {
            Stmt::StmtExpression(e) => {
                self.resolve_expression(&e.expression);
            },
            Stmt::Function(function) => {
                self.declare(&function.name);
                self.define(&function.name);
                self.resolve_function(function, FunctionType::Function);
            },
            Stmt::If(if_stmt) => {
                self.resolve_expression(&if_stmt.condition);
                self.resolve_statement(&if_stmt.then_branch);
                match &if_stmt.else_branch {
                    Some(else_branch) => self.resolve_statement(else_branch),
                    None => {},
                }
            },
            Stmt::Print(print) => {
                self.resolve_expression(&print.expression);
            },
            Stmt::Return(return_stmt) => {
                if self.current_function == FunctionType::TopLevel {
                    self.error(&return_stmt.token, "Can't return from top-level code.");
                }
                match &return_stmt.value {
                    Some(value) => {
                        if self.current_function == FunctionType::Initializer {
                            self.error(&return_stmt.token, "Can't return from initializer.");
                        }
                        self.resolve_expression(value);
                    },
                    None => {},
                }
            },
            Stmt::Var(var) => {
                self.declare(&var.name);
                match &var.initializer {
                    Some(initializer) => self.resolve_expression(initializer),
                    None => {},
                }
                self.define(&var.name);
            },
            Stmt::While(while_stmt) => {
                self.resolve_expression(&while_stmt.condition);
                self.resolve_statement(&while_stmt.body);
            },
            Stmt::Block(block) => {
                self.begin_scope();
                let ghost st1 = self.state();
                let mut i: usize = 0;
                while i < block.statements.len()
                    invariant
                        i <= block.statements.len(),
                        *stmt == Stmt::Block(*block),
                        self.state() == resolve_stmts(stmts_view(block.statements@.subrange(0, i as int)), st1),
                        self.scopes@.len() == old(self).scopes@.len() + 1,
                    decreases block.statements.len() - i,
                {
                    proof {
                        lemma_stmt_decreases(*stmt, i as int);
                        let s = block.statements@.subrange(0, i + 1);
                        assert(s.subrange(0, s.len() - 1) =~= block.statements@.subrange(0, i as int));
                        assert(stmts_view(s) == stmts_view(block.statements@.subrange(0, i as int)).push(stmt_view(block.statements@[i as int])));
                        assert(stmts_view(s).subrange(0, stmts_view(s).len() - 1) =~= stmts_view(block.statements@.subrange(0, i as int)));
                    }
                    self.resolve_statement(&block.statements[i]);
                    i = i + 1;
                }
                assert(block.statements@.subrange(0, block.statements.len() as int) =~= block.statements@);
                self.end_scope();
            },
            Stmt::Break(_) => {},
            Stmt::Class(class) => {
                let old_class_type = self.current_class;
                self.current_class = ClassType::Class;
                self.declare(&class.name);
                self.define(&class.name);
                match &class.superclass {
                    Some(superclass) => {
                        self.current_class = ClassType::Subclass;
                        if str_equal(superclass.name.identifier(), class.name.identifier()) {
                            self.error(&superclass.name, "A class can't inherit from itself.");
                        }
                        let key = superclass.name.identifier();
                        if self.scopes.len() > 0 {
                            let n = self.scopes.len();
                            match find_key(&self.scopes[n - 1], key) {
                                Some(j) => {
                                    if !self.scopes[n - 1][j].1 {
                                        self.error(&superclass.name, "Can't read local variable in its own initializer.");
                                    }
                                },
                                None => {},
                            }
                        }
                        self.resolve_local(key, superclass.name.line);
                        self.begin_scope();
                        self.insert_innermost("super", true);
                    },
                    None => {},
                }
                self.begin_scope();
                self.insert_innermost("this", true);
                let ghost st3 = self.state();
                let ghost methods_view = functions_view(class.methods@);
                let mut i: usize = 0;
                while i < class.methods.len()
                    invariant
                        i <= class.methods.len(),
                        *stmt == Stmt::Class(*class),
                        self.state() == resolve_methods(functions_view(class.methods@.subrange(0, i as int)), st3),
                        self.scopes@.len() == old(self).scopes@.len() + if class.superclass is Some { 2int } else { 1int },
                    decreases class.methods.len() - i,
                {
                    proof {
                        lemma_stmt_decreases(*stmt, i as int);
                        let s = class.methods@.subrange(0, i + 1);
                        assert(s.subrange(0, s.len() - 1) =~= class.methods@.subrange(0, i as int));
                        assert(functions_view(s) == functions_view(class.methods@.subrange(0, i as int)).push(function_view(class.methods@[i as int])));
                        assert(functions_view(s).subrange(0, functions_view(s).len() - 1) =~= functions_view(class.methods@.subrange(0, i as int)));
                    }
                    let method = &class.methods[i];
                    if str_equal(method.name.identifier(), "init") {
                        self.resolve_function(method, FunctionType::Initializer);
                    } else {
                        self.resolve_function(method, FunctionType::Method);
                    }
                    i = i + 1;
                }
                assert(class.methods@.subrange(0, class.methods.len() as int) =~= class.methods@);
                self.end_scope();
                if class.superclass.is_some() {
                    self.end_scope();
                }
                self.current_class = old_class_type;
            },
        }
    }
}

/// Resolves a program. Every resolution found is appended to `resolutions`
/// and every error to `error_writer`; the result is an error if there was
/// one.
pub fn resolve(stmts: &Vec<Stmt>, error_writer: &mut Vec<ResolveError>, resolutions: &mut Vec<Resolution>) -> (res: Result<(), ()>)
    ensures
        ({
            let st = resolve_stmts(stmts_view(stmts@), initial());
            &&& errors_view(final(error_writer)@) == errors_view(old(error_writer)@) + st.errors
            &&& resolutions_view(final(resolutions)@) == resolutions_view(old(resolutions)@) + st.resolutions
            &&& (res is Ok <==> st.errors.len() == 0)
        }),
{
    let mut resolver = Resolver::new();
    let mut i: usize = 0;
    while i < stmts.len()
        invariant
            i <= stmts.len(),
            resolver.state() == resolve_stmts(stmts_view(stmts@.subrange(0, i as int)), initial()),
        decreases stmts.len() - i,
    {
        proof {
            let s = stmts@.subrange(0, i + 1);
            assert(s.subrange(0, s.len() - 1) =~= stmts@.subrange(0, i as int));
            assert(stmts_view(s) == stmts_view(stmts@.subrange(0, i as int)).push(stmt_view(stmts@[i as int])));
            assert(stmts_view(s).subrange(0, stmts_view(s).len() - 1) =~= stmts_view(stmts@.subrange(0, i as int)));
        }
        resolver.resolve_statement(&stmts[i]);
        i = i + 1;
    }
    assert(stmts@.subrange(0, stmts.len() as int) =~= stmts@);
    let had_error = resolver.errors.len() > 0;
    let ghost errs = resolver.errors@;
    let ghost ress = resolver.resolutions@;
    let ghost before_e = error_writer@;
    let ghost before_r = resolutions@;
    error_writer.append(&mut resolver.errors);
    resolutions.append(&mut resolver.resolutions);
    assert(errors_view(error_writer@) =~= errors_view(before_e) + errors_view(errs));
    assert(resolutions_view(resolutions@) =~= resolutions_view(before_r) + resolutions_view(ress));
    if had_error {
        Err(())
    } else {
        Ok(())
    }
}

} // verus!

verus! {

/// The scope `s` declares `k`.
pub open spec fn declares(s: Scope, k: Seq<char>) -> bool {
    exists|j: int| 0 <= j < s.len() && (#[trigger] s[j]).0 == k
}

/// `d` is the distance, counted outward from the innermost scope, to the
/// nearest of `scopes` that declares `k`.
pub open spec fn nearest_declaration(scopes: Seq<Scope>, k: Seq<char>, d: int) -> bool {
    &&& 0 <= d < scopes.len()
    &&& declares(scopes[scopes.len() - 1 - d], k)
    &&& forall|e: int| 0 <= e < d ==> !declares(#[trigger] scopes[scopes.len() - 1 - e], k)
}

proof fn lemma_key_index_declares(s: Scope, k: Seq<char>)
    ensures
        key_index(s, k) >= 0 <==> declares(s, k),
    decreases s.len(),
{
    if s.len() > 0 {
        let init = s.subrange(0, s.len() - 1);
        lemma_key_index_declares(init, k);
        if declares(s, k) && s[s.len() - 1].0 != k {
            let j = choose|j: int| 0 <= j < s.len() && (#[trigger] s[j]).0 == k;
            assert(init[j].0 == k);
        }
        if declares(init, k) {
            let j = choose|j: int| 0 <= j < init.len() && (#[trigger] init[j]).0 == k;
            assert(s[j].0 == k);
        }
    }
}

/// What looking a name up among the innermost `i` scopes records: the
/// nearest declaration, if any.
proof fn lemma_local_hits(scopes: Seq<Scope>, k: Seq<char>, line: usize, i: int)
    requires
        0 <= i <= scopes.len(),
    ensures
        local_hits(scopes, k, line, i).len() == 0 <==> forall|e: int| 0 <= e < i ==> !declares(#[trigger] scopes[scopes.len() - 1 - e], k),
        local_hits(scopes, k, line, i).len() > 0 ==> exists|d: int| 0 <= d < i && nearest_declaration(scopes, k, d)
            && local_hits(scopes, k, line, i) == seq![(k, line, d)],
    decreases i,
{
    if i > 0 {
        lemma_local_hits(scopes, k, line, i - 1);
        lemma_key_index_declares(scopes[scopes.len() - i], k);
        let prev = local_hits(scopes, k, line, i - 1);
        if prev.len() == 0 {
            if declares(scopes[scopes.len() - 1 - (i - 1)], k) {
                assert(nearest_declaration(scopes, k, i - 1));
            } else {
                assert forall|e: int| 0 <= e < i implies !declares(#[trigger] scopes[scopes.len() - 1 - e], k) by {
                    if e < i - 1 {
                    }
                }
            }
        } else {
            let d = choose|d: int| 0 <= d < i - 1 && nearest_declaration(scopes, k, d) && prev == seq![(k, line, d)];
            assert(declares(scopes[scopes.len() - 1 - d], k));
        }
    }
}

/// Looking up `k` records exactly one resolution, at the distance of the
/// nearest scope that declares it, when a scope declares it, and nothing
/// otherwise (a global).
pub proof fn lemma_lookup_records_nearest(st: RState, k: Seq<char>, line: usize, d: int)
    ensures
        nearest_declaration(st.scopes, k, d) ==> resolve_local(st, k, line).resolutions == st.resolutions.push((k, line, d)),
        (forall|s: int| 0 <= s < st.scopes.len() ==> !declares(#[trigger] st.scopes[s], k))
            ==> resolve_local(st, k, line).resolutions == st.resolutions,
{
    let n = st.scopes.len() as int;
    lemma_local_hits(st.scopes, k, line, n);
    if nearest_declaration(st.scopes, k, d) {
        let hits = local_hits(st.scopes, k, line, n);
        assert(hits.len() > 0);
        let d2 = choose|d2: int| 0 <= d2 < n && nearest_declaration(st.scopes, k, d2) && hits == seq![(k, line, d2)];
        if d2 < d {
            assert(!declares(st.scopes[n - 1 - d2], k));
        }
        if d < d2 {
            assert(!declares(st.scopes[n - 1 - d], k));
        }
        assert(st.resolutions + hits =~= st.resolutions.push((k, line, d)));
    }
    if forall|s: int| 0 <= s < st.scopes.len() ==> !declares(#[trigger] st.scopes[s], k) {
        assert forall|e: int| 0 <= e < n implies !declares(#[trigger] st.scopes[n - 1 - e], k) by {
            assert(!declares(st.scopes[n - 1 - e], k));
        }
        assert(st.resolutions + local_hits(st.scopes, k, line, n) =~= st.resolutions);
    }
}

/// Resolving an expression keeps the scopes as they were.
pub proof fn lemma_resolve_expr_keeps_scopes(e: SExpr, st: RState)
    ensures
        resolve_expr(e, st).scopes == st.scopes,
        resolve_expr(e, st).function == st.function,
        resolve_expr(e, st).class == st.class,
        st.resolutions.len() <= resolve_expr(e, st).resolutions.len(),
        resolve_expr(e, st).resolutions.subrange(0, st.resolutions.len() as int) == st.resolutions,
    decreases e,
{
    match e {
        SExpr::Assign(name, value) => {
            lemma_resolve_expr_keeps_scopes(*value, st);
            let st1 = resolve_expr(*value, st);
            assert((st1.resolutions + local_hits(st1.scopes, name.identifier@, name.line, st1.scopes.len() as int)).subrange(0, st.resolutions.len() as int)
                =~= st1.resolutions.subrange(0, st.resolutions.len() as int));
        },
        SExpr::Binary(l, _, r) => {
            lemma_resolve_expr_keeps_scopes(*l, st);
            lemma_resolve_expr_keeps_scopes(*r, resolve_expr(*l, st));
            let a = resolve_expr(*l, st).resolutions;
            let b = resolve_expr(e, st).resolutions;
            assert(b.subrange(0, st.resolutions.len() as int) =~= b.subrange(0, a.len() as int).subrange(0, st.resolutions.len() as int));
        },
        SExpr::Call(callee, _, args, _) => {
            lemma_resolve_expr_keeps_scopes(*callee, st);
            lemma_resolve_exprs_keeps_scopes(args, resolve_expr(*callee, st));
            let a = resolve_expr(*callee, st).resolutions;
            let b = resolve_expr(e, st).resolutions;
            assert(b.subrange(0, st.resolutions.len() as int) =~= b.subrange(0, a.len() as int).subrange(0, st.resolutions.len() as int));
        },
        SExpr::Logical(l, _, r) => {
            lemma_resolve_expr_keeps_scopes(*l, st);
            lemma_resolve_expr_keeps_scopes(*r, resolve_expr(*l, st));
            let a = resolve_expr(*l, st).resolutions;
            let b = resolve_expr(e, st).resolutions;
            assert(b.subrange(0, st.resolutions.len() as int) =~= b.subrange(0, a.len() as int).subrange(0, st.resolutions.len() as int));
        },
        SExpr::Grouping(inner) => {
            lemma_resolve_expr_keeps_scopes(*inner, st);
        },
        SExpr::Literal(_) => {
            assert(st.resolutions.subrange(0, st.resolutions.len() as int) =~= st.resolutions);
        },
        SExpr::Unary(_, inner) => {
            lemma_resolve_expr_keeps_scopes(*inner, st);
        },
        SExpr::Variable(name) => {
            let b = resolve_expr(e, st).resolutions;
            assert(b.subrange(0, st.resolutions.len() as int) =~= st.resolutions);
        },
        SExpr::Get(object, _) => {
            lemma_resolve_expr_keeps_scopes(*object, st);
        },
        SExpr::SetProperty(object, _, value) => {
            lemma_resolve_expr_keeps_scopes(*object, st);
            lemma_resolve_expr_keeps_scopes(*value, resolve_expr(*object, st));
            let a = resolve_expr(*object, st).resolutions;
            let b = resolve_expr(e, st).resolutions;
            assert(b.subrange(0, st.resolutions.len() as int) =~= b.subrange(0, a.len() as int).subrange(0, st.resolutions.len() as int));
        },
        SExpr::This(_) => {
            let b = resolve_expr(e, st).resolutions;
            assert(b.subrange(0, st.resolutions.len() as int) =~= st.resolutions);
        },
        SExpr::Super(_, _) => {
            let b = resolve_expr(e, st).resolutions;
            assert(b.subrange(0, st.resolutions.len() as int) =~= st.resolutions);
        },
    }
}

proof fn lemma_resolve_exprs_keeps_scopes(es: Seq<SExpr>, st: RState)
    ensures
        resolve_exprs(es, st).scopes == st.scopes,
        resolve_exprs(es, st).function == st.function,
        resolve_exprs(es, st).class == st.class,
        st.resolutions.len() <= resolve_exprs(es, st).resolutions.len(),
        resolve_exprs(es, st).resolutions.subrange(0, st.resolutions.len() as int) == st.resolutions,
    decreases es,
{
    if es.len() == 0 {
        assert(st.resolutions.subrange(0, st.resolutions.len() as int) =~= st.resolutions);
    } else {
        let init = es.subrange(0, es.len() - 1);
        lemma_resolve_exprs_keeps_scopes(init, st);
        lemma_resolve_expr_keeps_scopes(es[es.len() - 1], resolve_exprs(init, st));
        let a = resolve_exprs(init, st).resolutions;
        let b = resolve_exprs(es, st).resolutions;
        assert(b.subrange(0, st.resolutions.len() as int) =~= b.subrange(0, a.len() as int).subrange(0, st.resolutions.len() as int));
    }
}

/// An assignment resolves like a read: after what its value records, it
/// records the name at the distance of the nearest enclosing scope that
/// declares it, and nothing more when no scope does (a global).
pub proof fn lemma_assignment_resolves_to_nearest(name: IdentifierToken, value: SExpr, st: RState, d: int)
    ensures
        nearest_declaration(st.scopes, name.identifier@, d) ==> resolve_expr(SExpr::Assign(name, Box::new(value)), st).resolutions
            == resolve_expr(value, st).resolutions.push((name.identifier@, name.line, d)),
        (forall|s: int| 0 <= s < st.scopes.len() ==> !declares(#[trigger] st.scopes[s], name.identifier@))
            ==> resolve_expr(SExpr::Assign(name, Box::new(value)), st).resolutions == resolve_expr(value, st).resolutions,
{
    lemma_resolve_expr_keeps_scopes(value, st);
    let st1 = resolve_expr(value, st);
    lemma_lookup_records_nearest(st1, name.identifier@, name.line, d);
}

/// A read of a name that is not in its own initializer records, like an
/// assignment to it, the distance of the nearest scope that declares it.
pub proof fn lemma_read_resolves_to_nearest(name: IdentifierToken, st: RState, d: int)
    requires
        st.scopes.len() > 0 && key_index(st.scopes[st.scopes.len() - 1], name.identifier@) >= 0 ==> st.scopes[st.scopes.len()
            - 1][key_index(st.scopes[st.scopes.len() - 1], name.identifier@)].1,
        nearest_declaration(st.scopes, name.identifier@, d),
    ensures
        resolve_expr(SExpr::Variable(name), st).resolutions == st.resolutions.push((name.identifier@, name.line, d)),
{
    lemma_lookup_records_nearest(st, name.identifier@, name.line, d);
}

} // verus!

verus! {

/// `b` holds as many scopes as `a`, and the same ones but for the innermost.
pub open spec fn outer_scopes_kept(a: RState, b: RState) -> bool {
    &&& b.scopes.len() == a.scopes.len()
    &&& forall|i: int| 0 <= i < a.scopes.len() - 1 ==> #[trigger] b.scopes[i] == a.scopes[i]
}

proof fn lemma_kept_trans(a: RState, b: RState, c: RState)
    requires
        outer_scopes_kept(a, b),
        outer_scopes_kept(b, c),
    ensures
        outer_scopes_kept(a, c),
{
    assert forall|i: int| 0 <= i < a.scopes.len() - 1 implies #[trigger] c.scopes[i] == a.scopes[i] by {
        assert(b.scopes[i] == a.scopes[i]);
    }
}

proof fn lemma_kept_insert(st: RState, k: Seq<char>, v: bool)
    ensures
        outer_scopes_kept(st, insert_innermost(st, k, v)),
{
}

/// A scope opened, then kept but for its innermost, then closed, gives the
/// scopes back as they were.
proof fn lemma_kept_inside(st: RState, inner: RState)
    requires
        outer_scopes_kept(begin_scope(st), inner),
    ensures
        end_scope(inner).scopes == st.scopes,
{
    assert(end_scope(inner).scopes =~= st.scopes) by {
        assert forall|i: int| 0 <= i < st.scopes.len() implies end_scope(inner).scopes[i] == st.scopes[i] by {
            assert(inner.scopes[i] == begin_scope(st).scopes[i]);
        }
    }
}

proof fn lemma_expr_kept(e: SExpr, st: RState)
    ensures
        outer_scopes_kept(st, resolve_expr(e, st)),
{
    lemma_resolve_expr_keeps_scopes(e, st);
}

proof fn lemma_params_kept(ps: Seq<IdentifierToken>, st: RState)
    ensures
        outer_scopes_kept(st, declare_params(ps, st)),
    decreases ps.len(),
{
    if ps.len() > 0 {
        let p = ps[ps.len() - 1];
        let s0 = declare_params(ps.subrange(0, ps.len() - 1), st);
        lemma_params_kept(ps.subrange(0, ps.len() - 1), st);
        lemma_kept_insert(s0, p.identifier@, false);
        let s1 = declare(s0, p);
        lemma_kept_insert(s1, p.identifier@, true);
        lemma_kept_trans(st, s0, s1);
        lemma_kept_trans(st, s1, define(s1, p));
    }
}

proof fn lemma_function_kept(f: SFunction, ty: FunctionType, st: RState)
    ensures
        resolve_function(f, ty, st).scopes == st.scopes,
    decreases f, 0nat,
{
    let st1 = begin_scope(with_types(st, ty, st.class));
    let st2 = declare_params(f.params, st1);
    lemma_params_kept(f.params, st1);
    lemma_stmts_kept(f.body, st2);
    lemma_kept_trans(st1, st2, resolve_stmts(f.body, st2));
    lemma_kept_inside(with_types(st, ty, st.class), resolve_stmts(f.body, st2));
}

proof fn lemma_methods_kept(ms: Seq<SFunction>, st: RState)
    ensures
        resolve_methods(ms, st).scopes == st.scopes,
    decreases ms,
{
    if ms.len() > 0 {
        let m = ms[ms.len() - 1];
        lemma_methods_kept(ms.subrange(0, ms.len() - 1), st);
        let ty = if m.name.identifier@ == "init"@ {
            FunctionType::Initializer
        } else {
            FunctionType::Method
        };
        lemma_function_kept(m, ty, resolve_methods(ms.subrange(0, ms.len() - 1), st));
    }
}

proof fn lemma_stmts_kept(ss: Seq<SStmt>, st: RState)
    ensures
        outer_scopes_kept(st, resolve_stmts(ss, st)),
    decreases ss,
{
    if ss.len() > 0 {
        let init = ss.subrange(0, ss.len() - 1);
        lemma_stmts_kept(init, st);
        lemma_stmt_kept(ss[ss.len() - 1], resolve_stmts(init, st));
        lemma_kept_trans(st, resolve_stmts(init, st), resolve_stmts(ss, st));
    }
}

proof fn lemma_stmt_kept(s: SStmt, st: RState)
    ensures
        outer_scopes_kept(st, resolve_stmt(s, st)),
    decreases s,
{
    match s {
        SStmt::Expression(e) => lemma_expr_kept(e, st),
        SStmt::Print(e) => lemma_expr_kept(e, st),
        SStmt::Function(f) => {
            let s0 = declare(st, f.name);
            lemma_kept_insert(st, f.name.identifier@, false);
            lemma_kept_insert(s0, f.name.identifier@, true);
            lemma_kept_trans(st, s0, define(s0, f.name));
            lemma_function_kept(f, FunctionType::Function, define(s0, f.name));
        },
        SStmt::If(c, t, e) => {
            lemma_expr_kept(c, st);
            let s1 = resolve_expr(c, st);
            lemma_stmt_kept(*t, s1);
            lemma_kept_trans(st, s1, resolve_stmt(*t, s1));
            match e {
                Some(e) => {
                    lemma_stmt_kept(*e, resolve_stmt(*t, s1));
                    lemma_kept_trans(st, resolve_stmt(*t, s1), resolve_stmt(*e, resolve_stmt(*t, s1)));
                },
                None => {},
            }
        },
        SStmt::Return(token, value) => {
            match value {
                Some(v) => {
                    let st1 = if st.function == FunctionType::TopLevel {
                        error(st, token.line, token.text@, "Can't return from top-level code."@)
                    } else {
                        st
                    };
                    let st2 = if st1.function == FunctionType::Initializer {
                        error(st1, token.line, token.text@, "Can't return from initializer."@)
                    } else {
                        st1
                    };
                    lemma_expr_kept(v, st2);
                },
                None => {},
            }
        },
        SStmt::Var(name, init) => {
            let s1 = declare(st, name);
            lemma_kept_insert(st, name.identifier@, false);
            let s2 = match init {
                Some(e) => resolve_expr(e, s1),
                None => s1,
            };
            match init {
                Some(e) => lemma_expr_kept(e, s1),
                None => {},
            }
            lemma_kept_trans(st, s1, s2);
            lemma_kept_insert(s2, name.identifier@, true);
            lemma_kept_trans(st, s2, define(s2, name));
        },
        SStmt::While(c, b) => {
            lemma_expr_kept(c, st);
            lemma_stmt_kept(*b, resolve_expr(c, st));
            lemma_kept_trans(st, resolve_expr(c, st), resolve_stmt(*b, resolve_expr(c, st)));
        },
        SStmt::Block(ss) => {
            lemma_stmts_kept(ss, begin_scope(st));
            lemma_kept_inside(st, resolve_stmts(ss, begin_scope(st)));
        },
        SStmt::Break => {},
        SStmt::Class(name, superclass, methods) => {
            let s0 = with_types(st, st.function, ClassType::Class);
            let sd = declare(s0, name);
            lemma_kept_insert(s0, name.identifier@, false);
            lemma_kept_insert(sd, name.identifier@, true);
            let st1 = define(sd, name);
            lemma_kept_trans(s0, sd, st1);
            let st2 = match superclass {
                Some(sup) => {
                    let s1 = with_types(st1, st1.function, ClassType::Subclass);
                    let s2 = if sup.identifier@ == name.identifier@ {
                        error(s1, sup.line, sup.identifier@, "A class can't inherit from itself."@)
                    } else {
                        s1
                    };
                    insert_innermost(begin_scope(resolve_expr(SExpr::Variable(sup), s2)), "super"@, true)
                },
                None => st1,
            };
            let st3 = insert_innermost(begin_scope(st2), "this"@, true);
            let st4 = resolve_methods(methods, st3);
            lemma_methods_kept(methods, st3);
            lemma_kept_insert(begin_scope(st2), "this"@, true);
            lemma_kept_inside(st2, st4);
            match superclass {
                Some(sup) => {
                    let s1 = with_types(st1, st1.function, ClassType::Subclass);
                    let s2 = if sup.identifier@ == name.identifier@ {
                        error(s1, sup.line, sup.identifier@, "A class can't inherit from itself."@)
                    } else {
                        s1
                    };
                    lemma_expr_kept(SExpr::Variable(sup), s2);
                    let s3 = resolve_expr(SExpr::Variable(sup), s2);
                    lemma_kept_insert(begin_scope(s3), "super"@, true);
                    lemma_kept_inside(s3, st2);
                    assert(end_scope(end_scope(st4)).scopes == s3.scopes);
                    lemma_kept_trans(st, st1, s3);
                },
                None => {},
            }
        },
    }
}

/// A block keeps what it declares to itself: after resolving a block, the
/// scopes are exactly those before it.
pub proof fn lemma_block_restores_scopes(ss: Seq<SStmt>, st: RState)
    ensures
        resolve_stmt(SStmt::Block(ss), st).scopes == st.scopes,
{
    lemma_stmts_kept(ss, begin_scope(st));
    lemma_kept_inside(st, resolve_stmts(ss, begin_scope(st)));
}

/// A statement changes at most the innermost scope: every enclosing scope,
/// and their number, stay as they were.
pub proof fn lemma_statement_keeps_enclosing_scopes(s: SStmt, st: RState)
    ensures
        outer_scopes_kept(st, resolve_stmt(s, st)),
{
    lemma_stmt_kept(s, st);
}

} // verus!
