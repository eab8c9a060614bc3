//! The context of an evaluation: the functions, the chain of variable
//! scopes, and the previous answer.

use vstd::prelude::*;
use crate::dict::Dict;
use crate::expression::{name_views, Expr};
use crate::function::{Function, FunctionView};
use crate::number::Number;
use crate::order::{lemma_same_names, names_sorted, sorted};
use crate::value::Value;
use crate::variable::{Variable, VariableView};

verus! {

/// The functions by name, the scopes from the outermost to the innermost,
/// and the previous answer.
///
/// There is always at least one scope.  A scope is added when a function
/// of the user is called and removed when the call returns.
#[derive(Debug)]
pub struct Context {
    pub(crate) previous_answer: Option<Value>,
    pub(crate) functions: Dict<Function>,
    pub(crate) variables: Vec<Dict<Variable>>,
}

/// The mathematical content of a [`Context`].
pub struct ContextView {
    pub previous_answer: Option<Number>,
    pub functions: Map<Seq<char>, FunctionView>,
    /// The scopes, the innermost last.
    pub scopes: Seq<Map<Seq<char>, VariableView>>,
}

/// The variable that `name` stands for: that of the innermost scope that
/// has the name.
pub open spec fn find_variable(scopes: Seq<Map<Seq<char>, VariableView>>, name: Seq<char>) -> Option<
    VariableView,
>
    decreases scopes.len(),
{
    if scopes.len() == 0 {
        None
    } else if scopes.last().contains_key(name) {
        Some(scopes.last()[name])
    } else {
        find_variable(scopes.drop_last(), name)
    }
}

/// Whether `name` can be bound in the innermost scope: it is no builtin
/// constant there.
pub open spec fn can_bind(scopes: Seq<Map<Seq<char>, VariableView>>, name: Seq<char>) -> bool {
    !(scopes.last().contains_key(name) && scopes.last()[name] is External)
}

/// The scopes after `name` has been bound to `value` in the innermost one.
pub open spec fn bind(scopes: Seq<Map<Seq<char>, VariableView>>, name: Seq<char>, value: Number) -> Seq<
    Map<Seq<char>, VariableView>,
> {
    scopes.update(scopes.len() - 1, scopes.last().insert(name, VariableView::Internal(value)))
}

/// The number of a value that may be missing.
pub open spec fn option_view(v: Option<Value>) -> Option<Number> {
    match v {
        Some(v) => Some(v@),
        None => None,
    }
}

/// The views of the scopes.
pub open spec fn scope_views(scopes: Seq<Dict<Variable>>) -> Seq<Map<Seq<char>, VariableView>> {
    scopes.map_values(|d: Dict<Variable>| d@)
}

impl View for Context {
    type V = ContextView;

    closed spec fn view(&self) -> ContextView {
        ContextView {
            previous_answer: option_view(self.previous_answer),
            functions: self.functions@,
            scopes: scope_views(self.variables@),
        }
    }
}

/// Every scope is well-formed.
pub open spec fn scopes_wf(scopes: Seq<Dict<Variable>>) -> bool {
    forall|i: int| 0 <= i < scopes.len() ==> (#[trigger] scopes[i]).wf()
}

impl Context {
    /// What holds of every context: it has a scope.
    pub closed spec fn wf(&self) -> bool {
        &&& self.variables@.len() >= 1
        &&& self.functions.wf()
        &&& scopes_wf(self.variables@)
    }

    /// What well-formedness and view are in terms of the parts.
    pub(crate) proof fn lemma_parts(&self)
        ensures
            self.wf() == (self.variables@.len() >= 1 && self.functions.wf() && scopes_wf(
                self.variables@,
            )),
            self@ == (ContextView {
                previous_answer: option_view(self.previous_answer),
                functions: self.functions@,
                scopes: scope_views(self.variables@),
            }),
    {
    }

    /// A context with these functions and, in its one scope, these
    /// variables.
    pub fn new(functions: Dict<Function>, variables: Dict<Variable>) -> (context: Context)
        requires
            functions.wf(),
            variables.wf(),
        ensures
            context.wf(),
            context@ == (ContextView {
                previous_answer: None,
                functions: functions@,
                scopes: seq![variables@],
            }),
    {
        let mut scopes: Vec<Dict<Variable>> = Vec::new();
        scopes.push(variables);
        let context = Context { previous_answer: None, functions, variables: scopes };
        proof {
            assert(context@.scopes =~= seq![variables@]);
        }
        context
    }

    /// Adds an empty innermost scope.
    pub fn extend(&mut self)
        requires
            old(self).wf(),
        ensures
            final(self).wf(),
            final(self)@ == (ContextView {
                scopes: old(self)@.scopes.push(Map::empty()),
                ..old(self)@
            }),
    {
        self.variables.push(Dict::new());
        proof {
            assert(final(self)@.scopes =~= old(self)@.scopes.push(Map::empty()));
        }
    }

    /// Removes the innermost scope.
    pub fn detach(&mut self)
        requires
            old(self).wf(),
            old(self)@.scopes.len() >= 2,
        ensures
            final(self).wf(),
            final(self)@ == (ContextView {
                scopes: old(self)@.scopes.drop_last(),
                ..old(self)@
            }),
    {
        self.variables.pop();
        proof {
            assert(final(self)@.scopes =~= old(self)@.scopes.drop_last());
        }
    }

    /// The number of scopes.
    pub fn depth(&self) -> (n: usize)
        ensures
            n == self@.scopes.len(),
    {
        self.variables.len()
    }

    /// The variable that `name` stands for.
    pub fn get_variable(&self, name: &str) -> (r: Option<Variable>)
        requires
            self.wf(),
        ensures
            match (r, find_variable(self@.scopes, name@)) {
                (Some(v), Some(w)) => v@ == w,
                (None, None) => true,
                _ => false,
            },
    {
        let name = name.to_owned();
        lookup_variable(&self.variables, &name)
    }

    /// Binds `name` to `value` in the innermost scope and returns the
    /// value; `None`, and no change, where the name is a builtin constant.
    pub fn set_variable(&mut self, name: &str, value: Value) -> (r: Option<Value>)
        requires
            old(self).wf(),
        ensures
            final(self).wf(),
            can_bind(old(self)@.scopes, name@) ==> r == Some(value) && final(self)@ == (ContextView {
                scopes: bind(old(self)@.scopes, name@, value@),
                ..old(self)@
            }),
            !can_bind(old(self)@.scopes, name@) ==> r is None && final(self)@ == old(self)@,
    {
        let name = name.to_owned();
        let ghost before = self.variables@;
        let mut top = self.variables.pop().unwrap();
        let external = match top.get(&name) {
            Some(v) => v.is_external(),
            None => false,
        };
        let ghost top_before = top@;
        if !external {
            top.insert(name, Variable::Internal(value));
        }
        self.variables.push(top);
        proof {
            assert(scope_views(before).last() == top_before);
            if external {
                assert(self.variables@ =~= before);
            } else {
                assert(scope_views(self.variables@) =~= bind(scope_views(before), name@, value@));
            }
        }
        if external {
            None
        } else {
            Some(value)
        }
    }

    /// The function called `name`.
    pub fn get_function(&self, name: &str) -> (r: Option<&Function>)
        requires
            self.wf(),
        ensures
            match r {
                Some(f) => self@.functions.contains_key(name@) && self@.functions[name@] == f@,
                None => !self@.functions.contains_key(name@),
            },
    {
        let name = name.to_owned();
        self.functions.get(&name)
    }

    /// Defines, or defines anew, the function `name` of the user.
    pub fn set_function(&mut self, name: &str, arg_names: Vec<String>, body: Expr)
        requires
            old(self).wf(),
        ensures
            final(self).wf(),
            final(self)@ == (ContextView {
                functions: old(self)@.functions.insert(
                    name@,
                    FunctionView::Internal {
                        arity: arg_names@.len() as usize,
                        arg_names: name_views(arg_names@),
                        body: body@,
                    },
                ),
                ..old(self)@
            }),
    {
        self.functions.insert(name.to_owned(), Function::new_internal(arg_names, body));
    }

    /// The previous answer.
    pub fn get_prev_answer(&self) -> (r: Option<Value>)
        ensures
            option_view(r) == self@.previous_answer,
    {
        self.previous_answer
    }

    /// Makes `value` the previous answer.
    pub fn set_prev_answer(&mut self, value: &Value)
        requires
            old(self).wf(),
        ensures
            final(self).wf(),
            final(self)@ == (ContextView { previous_answer: Some(value@), ..old(self)@ }),
    {
        self.previous_answer = Some(*value);
    }
}

/// Whether `names` are the names of `dict` whose values `keep` keeps, each
/// once.
pub open spec fn selects<W>(
    names: Seq<Seq<char>>,
    dict: Map<Seq<char>, W>,
    keep: spec_fn(W) -> bool,
) -> bool {
    &&& names.no_duplicates()
    &&& forall|k: Seq<char>| names.contains(k) <==> dict.contains_key(k) && keep(dict[k])
}

/// The names of `dict` at which `flags` is set.
fn names_where<V: View>(dict: &Dict<V>, flags: &Vec<bool>, Ghost(keep): Ghost<spec_fn(V::V) -> bool>) -> (out:
    Vec<String>)
    requires
        dict.wf(),
        flags@.len() == dict.names().len(),
        forall|i: int| 0 <= i < flags@.len() ==> flags@[i] == keep(dict@[dict.names()[i]]),
    ensures
        selects(name_views(out@), dict@, keep),
{
    let ghost names = dict.names();
    let mut out: Vec<String> = Vec::new();
    let mut i: usize = 0;
    proof {
        dict.lemma_names();
    }
    while i < dict.len()
        invariant
            i <= names.len(),
            names == dict.names(),
            names.no_duplicates(),
            flags@.len() == names.len(),
            forall|j: int| 0 <= j < flags@.len() ==> flags@[j] == keep(dict@[names[j]]),
            name_views(out@).no_duplicates(),
            forall|k: Seq<char>| #[trigger]
                name_views(out@).contains(k) ==> keep(dict@[k]) && exists|j: int|
                    0 <= j < i && names[j] == k,
            forall|j: int| 0 <= j < i && flags@[j] ==> name_views(out@).contains(#[trigger] names[j]),
        decreases names.len() - i,
    {
        if flags[i] {
            let ghost before = name_views(out@);
            out.push(dict.name_at(i).clone());
            proof {
                let k = names[i as int];
                assert(name_views(out@) =~= before.push(k));
                assert(!before.contains(k)) by {
                    if before.contains(k) {
                        let j = choose|j: int| 0 <= j < i && names[j] == k;
                        assert(names[j] == names[i as int]);
                    }
                }
                assert forall|x: Seq<char>| #[trigger]
                    name_views(out@).contains(x) implies keep(dict@[x]) && exists|j: int|
                    0 <= j < i + 1 && names[j] == x by {
                    let at = choose|at: int|
                        0 <= at < name_views(out@).len() && name_views(out@)[at] == x;
                    if at < before.len() {
                        assert(before[at] == x);
                        assert(before.contains(x));
                        let j = choose|j: int| 0 <= j < i && names[j] == x;
                        assert(0 <= j < i + 1 && names[j] == x);
                    } else {
                        assert(names[i as int] == x);
                    }
                }
                assert forall|j: int| 0 <= j < i + 1 && flags@[j] implies name_views(
                    out@,
                ).contains(#[trigger] names[j]) by {
                    if j < i {
                        let at = choose|at: int|
                            0 <= at < before.len() && before[at] == names[j];
                        assert(name_views(out@)[at] == names[j]);
                    } else {
                        assert(name_views(out@)[before.len() as int] == names[j]);
                    }
                }
                assert(name_views(out@).no_duplicates()) by {
                    assert forall|a: int, b: int|
                        0 <= a < name_views(out@).len() && 0 <= b < name_views(out@).len() && a
                            != b implies name_views(out@)[a] != name_views(out@)[b] by {
                        if a < before.len() && b < before.len() {
                            assert(before[a] != before[b]);
                        } else if a < before.len() {
                            assert(before.contains(before[a]));
                        } else {
                            assert(before.contains(before[b]));
                        }
                    }
                }
            }
        } else {
            proof {
                assert forall|k: Seq<char>| #[trigger]
                    name_views(out@).contains(k) implies keep(dict@[k]) && exists|j: int|
                    0 <= j < i + 1 && names[j] == k by {
                    let j = choose|j: int| 0 <= j < i && names[j] == k;
                    assert(0 <= j < i + 1 && names[j] == k);
                }
            }
        }
        i = i + 1;
    }
    proof {
        assert forall|k: Seq<char>|
            name_views(out@).contains(k) <==> dict@.contains_key(k) && keep(dict@[k]) by {
            if name_views(out@).contains(k) {
                let j = choose|j: int| 0 <= j < i && names[j] == k;
                assert(names.contains(k));
            }
            if dict@.contains_key(k) && keep(dict@[k]) {
                assert(names.contains(k));
                let j = choose|j: int| 0 <= j < names.len() && names[j] == k;
                assert(flags@[j]);
            }
        }
    }
    out
}

impl Context {
    /// The names of the builtin functions, or of the functions of the user,
    /// in the order of the dictionary.
    pub fn function_names(&self, external: bool) -> (names: Vec<String>)
        requires
            self.wf(),
        ensures
            selects(
                name_views(names@),
                self@.functions,
                |f: FunctionView| (f is External) == external,
            ),
            names_sorted(name_views(names@)),
    {
        let mut flags: Vec<bool> = Vec::new();
        let mut i: usize = 0;
        while i < self.functions.len()
            invariant
                self.functions.wf(),
                i <= self.functions.names().len(),
                flags@.len() == i,
                forall|j: int|
                    0 <= j < i ==> flags@[j] == ((self.functions@[self.functions.names()[j]]
                        is External) == external),
            decreases self.functions.names().len() - i,
        {
            flags.push(self.functions.value_at(i).is_external() == external);
            i = i + 1;
        }
        let found = names_where(
            &self.functions,
            &flags,
            Ghost(|f: FunctionView| (f is External) == external),
        );
        let names = sorted(found);
        proof {
            lemma_same_names(name_views(names@), name_views(found@));
        }
        names
    }

    /// The names of the builtin constants, or of the variables of the user,
    /// of the innermost scope, in the order of the dictionary.
    pub fn variable_names(&self, external: bool) -> (names: Vec<String>)
        requires
            self.wf(),
        ensures
            selects(
                name_views(names@),
                self@.scopes.last(),
                |v: VariableView| (v is External) == external,
            ),
            names_sorted(name_views(names@)),
    {
        let scope = &self.variables[self.variables.len() - 1];
        assert(scope@ == self@.scopes.last());
        let mut flags: Vec<bool> = Vec::new();
        let mut i: usize = 0;
        while i < scope.len()
            invariant
                scope.wf(),
                i <= scope.names().len(),
                flags@.len() == i,
                forall|j: int|
                    0 <= j < i ==> flags@[j] == ((scope@[scope.names()[j]] is External)
                        == external),
            decreases scope.names().len() - i,
        {
            flags.push(scope.value_at(i).is_external() == external);
            i = i + 1;
        }
        let found = names_where(
            scope,
            &flags,
            Ghost(|v: VariableView| (v is External) == external),
        );
        let names = sorted(found);
        proof {
            lemma_same_names(name_views(names@), name_views(found@));
        }
        names
    }
}

/// The variable that `name` stands for in `scopes`.
pub(crate) fn lookup_variable(scopes: &Vec<Dict<Variable>>, name: &String) -> (r: Option<Variable>)
    requires
        scopes_wf(scopes@),
    ensures
        match (r, find_variable(scope_views(scopes@), name@)) {
            (Some(v), Some(w)) => v@ == w,
            (None, None) => true,
            _ => false,
        },
{
    let mut i: usize = scopes.len();
    proof {
        assert(scope_views(scopes@).take(i as int) =~= scope_views(scopes@));
    }
    while i > 0
        invariant
            i <= scopes@.len(),
            scopes_wf(scopes@),
            find_variable(scope_views(scopes@), name@) == find_variable(
                scope_views(scopes@).take(i as int),
                name@,
            ),
        decreases i,
    {
        i = i - 1;
        proof {
            assert(scope_views(scopes@).take(i + 1).last() == scopes@[i as int]@);
            assert(scope_views(scopes@).take(i + 1).drop_last() =~= scope_views(scopes@).take(
                i as int,
            ));
        }
        match scopes[i].get(name) {
            Some(v) => {
                return Some(*v);
            },
            None => {},
        }
    }
    None
}

} // verus!
