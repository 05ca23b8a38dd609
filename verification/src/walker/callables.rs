//! What the tree-walking interpreter can call: user functions, and classes
//! with their methods found along the superclass chain. A function's closure
//! (the environment it captured) is kept as an opaque handle of type `C`.

use vstd::prelude::*;
use std::rc::Rc;

use crate::value::str_equal;
use crate::debug::{decimal, push_decimal};
use crate::walker::ast::Function;
use crate::walker::token::TokenLike;

verus! {

/// A call that passed a different number of arguments than the callee takes.
#[derive(Debug, PartialEq, Eq, Clone, Copy)]
pub struct ArgLengthMismatch {
    expected: usize,
    provided: usize,
}

impl ArgLengthMismatch {
    pub closed spec fn spec_expected(&self) -> usize {
        self.expected
    }

    pub closed spec fn spec_provided(&self) -> usize {
        self.provided
    }

    pub fn new(expected: usize, provided: usize) -> (res: Self)
        ensures
            res.spec_expected() == expected,
            res.spec_provided() == provided,
    {
        Self { expected, provided }
    }

    pub fn expected(&self) -> (res: usize)
        ensures
            res == self.spec_expected(),
    {
        self.expected
    }

    pub fn provided(&self) -> (res: usize)
        ensures
            res == self.spec_provided(),
    {
        self.provided
    }
}

/// An error raised while running a program, with the token it concerns.
#[derive(Debug, PartialEq, Clone)]
pub struct RuntimeError {
    pub line: usize,
    pub token_display: String,
    pub message: String,
}

impl RuntimeError {
    /// The report of the error: `[Runtime Error line: N, token: T] message`.
    pub fn text(&self) -> (res: String)
        ensures
            res@ == "[Runtime Error line: "@ + decimal(self.line as nat) + ", token: "@ + self.token_display@ + "] "@
                + self.message@,
    {
        let mut out = String::new();
        out.append("[Runtime Error line: ");
        push_decimal(&mut out, self.line);
        out.append(", token: ");
        out.append(self.token_display.as_str());
        out.append("] ");
        out.append(self.message.as_str());
        out
    }

    pub fn new<T: TokenLike>(token: &T, message: String) -> (res: Self)
        ensures
            res.line == token.spec_line(),
            res.token_display@ == token.spec_display(),
            res.message@ == message@,
    {
        Self { line: token.line(), token_display: token.token_display(), message }
    }
}

/// Checks a call's argument count against the number of parameters.
pub fn check_arity(arity: usize, num_args: usize) -> (res: Result<(), ArgLengthMismatch>)
    ensures
        res is Ok <==> arity == num_args,
        res matches Err(e) ==> e.spec_expected() == arity && e.spec_provided() == num_args,
{
    if arity != num_args {
        Err(ArgLengthMismatch::new(arity, num_args))
    } else {
        Ok(())
    }
}

/// A user function: its declaration, the environment it closes over, and
/// whether it is a class's initializer.
pub struct LoxFunction<C> {
    pub declaration: Rc<Function>,
    pub closure: C,
    pub is_initializer: bool,
}

impl<C> LoxFunction<C> {
    pub fn new(declaration: Rc<Function>, closure: C, is_initializer: bool) -> (res: Self)
        ensures
            res.declaration == declaration,
            res.closure == closure,
            res.is_initializer == is_initializer,
    {
        Self { declaration, closure, is_initializer }
    }

    /// The number of parameters.
    pub fn arity(&self) -> (res: usize)
        ensures
            res == self.declaration.params.len(),
    {
        self.declaration.params.len()
    }

    /// Checks that a call passes as many arguments as there are parameters.
    pub fn align_arguments(&self, num_args: usize) -> (res: Result<(), ArgLengthMismatch>)
        ensures
            res is Ok <==> num_args == self.declaration.params.len(),
            res matches Err(e) ==> e.spec_expected() == self.declaration.params.len()
                && e.spec_provided() == num_args,
    {
        check_arity(self.arity(), num_args)
    }

    /// `<fn name>`.
    pub fn to_display_string(&self) -> (res: String)
        ensures
            res@ == "<fn "@ + self.declaration.name.identifier@ + ">"@,
    {
        let mut out = "<fn ".to_owned();
        out.append(self.declaration.name.identifier.as_str());
        out.append(">");
        out
    }
}

/// The methods of a class, by name.
pub open spec fn methods_map<C>(methods: Seq<(String, Rc<LoxFunction<C>>)>) -> Map<Seq<char>, Rc<LoxFunction<C>>>
    decreases methods.len(),
{
    if methods.len() == 0 {
        Map::empty()
    } else {
        let last = methods[methods.len() - 1];
        methods_map(methods.subrange(0, methods.len() - 1)).insert(last.0@, last.1)
    }
}

/// No two methods share a name.
pub open spec fn names_distinct<C>(methods: Seq<(String, LoxFunction<C>)>) -> bool {
    forall|i: int, j: int| 0 <= i < j < methods.len() ==> methods[i].0@ != methods[j].0@
}

/// A class: its name, its superclass if it has one, and its own methods.
pub struct LoxClass<C> {
    pub name: String,
    pub superclass: Option<Rc<LoxClass<C>>>,
    pub methods: Vec<(String, Rc<LoxFunction<C>>)>,
}

/// The method a class answers to for `name`: its own, else its superclass's.
pub open spec fn method_lookup<C>(class: LoxClass<C>, name: Seq<char>) -> Option<Rc<LoxFunction<C>>>
    decreases class,
{
    if class.spec_methods().dom().contains(name) {
        Some(class.spec_methods()[name])
    } else {
        match class.superclass {
            Some(sup) => method_lookup(*sup, name),
            None => None,
        }
    }
}

impl<C> LoxClass<C> {
    /// The class's own methods, by name.
    pub open spec fn spec_methods(&self) -> Map<Seq<char>, Rc<LoxFunction<C>>> {
        methods_map(self.methods@)
    }

    pub open spec fn wf(&self) -> bool {
        forall|i: int, j: int|
            0 <= i < j < self.methods@.len() ==> self.methods@[i].0@ != self.methods@[j].0@
    }

    pub fn new(
        name: String,
        superclass: Option<Rc<LoxClass<C>>>,
        methods: Vec<(String, LoxFunction<C>)>,
    ) -> (res: Self)
        requires
            names_distinct(methods@),
        ensures
            res.wf(),
            res.name@ == name@,
            res.superclass == superclass,
            res.spec_methods().dom() =~= Set::new(|k: Seq<char>| exists|i: int| 0 <= i < methods@.len() && methods@[i].0@ == k),
            forall|i: int| 0 <= i < methods@.len() ==> *#[trigger] res.spec_methods()[methods@[i].0@] == methods@[i].1,
    {
        let mut out: Vec<(String, Rc<LoxFunction<C>>)> = Vec::new();
        let mut rest = methods;
        let ghost given = methods@;
        // Methods are taken from the back; `out` is kept in the given order
        // by prepending.
        while rest.len() > 0
            invariant
                rest@ =~= given.subrange(0, rest@.len() as int),
                out@.len() + rest@.len() == given.len(),
                names_distinct(given),
                forall|i: int| 0 <= i < out@.len() ==> out@[i].0@ == given[rest@.len() + i].0@
                    && *out@[i].1 == given[rest@.len() + i].1,
            decreases rest.len(),
        {
            let (n, f) = rest.pop().unwrap();
            out.insert(0, (n, Rc::new(f)));
        }
        let res = Self { name, superclass, methods: out };
        proof {
            assert(rest@.len() == 0);
            assert forall|i: int| 0 <= i < methods@.len() implies *#[trigger] res.spec_methods()[methods@[i].0@] == methods@[i].1 && res.spec_methods().dom().contains(methods@[i].0@) by {
                lemma_methods_map_at(res.methods@, i);
            }
            assert forall|k: Seq<char>| #[trigger] res.spec_methods().dom().contains(k) implies exists|i: int| 0 <= i < methods@.len() && methods@[i].0@ == k by {
                lemma_methods_map_dom(res.methods@, k);
                let i = choose|i: int| 0 <= i < res.methods@.len() && res.methods@[i].0@ == k;
                assert(methods@[i].0@ == k);
            }
            assert forall|k: Seq<char>| (exists|i: int| 0 <= i < methods@.len() && methods@[i].0@ == k) implies #[trigger] res.spec_methods().dom().contains(k) by {
                let i = choose|i: int| 0 <= i < methods@.len() && methods@[i].0@ == k;
                lemma_methods_map_at(res.methods@, i);
            }
            assert(res.spec_methods().dom() =~= Set::new(|k: Seq<char>| exists|i: int| 0 <= i < methods@.len() && methods@[i].0@ == k));
        }
        res
    }

    /// The method that `name` finds on this class, looking through the
    /// superclass chain.
    pub fn find_method(&self, name: &str) -> (res: Option<&Rc<LoxFunction<C>>>)
        requires
            class_chain_wf(*self),
        ensures
            res matches Some(f) ==> method_lookup(*self, name@) == Some(*f),
            res is None ==> method_lookup(*self, name@) is None,
        decreases *self,
    {
        let mut i: usize = 0;
        while i < self.methods.len()
            invariant
                i <= self.methods@.len(),
                self.wf(),
                forall|j: int| 0 <= j < i ==> self.methods@[j].0@ != name@,
            decreases self.methods.len() - i,
        {
            if str_equal(self.methods[i].0.as_str(), name) {
                proof {
                    lemma_methods_map_at(self.methods@, i as int);
                }
                return Some(&self.methods[i].1);
            }
            i = i + 1;
        }
        proof {
            if self.spec_methods().dom().contains(name@) {
                lemma_methods_map_dom(self.methods@, name@);
            }
        }
        match &self.superclass {
            Some(sup) => {
                let sup_ref: &LoxClass<C> = &**sup;
                sup_ref.find_method(name)
            },
            None => None,
        }
    }
}

/// Every class on the chain keeps its method names distinct.
pub open spec fn class_chain_wf<C>(class: LoxClass<C>) -> bool
    decreases class,
{
    class.wf() && match class.superclass {
        Some(sup) => class_chain_wf(*sup),
        None => true,
    }
}

proof fn lemma_methods_map_at<C>(methods: Seq<(String, Rc<LoxFunction<C>>)>, i: int)
    requires
        0 <= i < methods.len(),
        forall|a: int, b: int| 0 <= a < b < methods.len() ==> methods[a].0@ != methods[b].0@,
    ensures
        methods_map(methods).dom().contains(methods[i].0@),
        methods_map(methods)[methods[i].0@] == methods[i].1,
    decreases methods.len(),
{
    let n = methods.len();
    let prefix = methods.subrange(0, n - 1);
    if i < n - 1 {
        lemma_methods_map_at(prefix, i);
        assert(methods[i].0@ != methods[n - 1].0@);
    }
}

proof fn lemma_methods_map_dom<C>(methods: Seq<(String, Rc<LoxFunction<C>>)>, k: Seq<char>)
    requires
        methods_map(methods).dom().contains(k),
    ensures
        exists|i: int| 0 <= i < methods.len() && methods[i].0@ == k,
    decreases methods.len(),
{
    let n = methods.len();
    if n > 0 {
        let prefix = methods.subrange(0, n - 1);
        if methods[n - 1].0@ != k {
            lemma_methods_map_dom(prefix, k);
            let i = choose|i: int| 0 <= i < prefix.len() && prefix[i].0@ == k;
            assert(methods[i].0@ == k);
        }
    }
}

} // verus!
