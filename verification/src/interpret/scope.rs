//! The chain of scopes.
//!
//! A scope is a frame of bindings with, at most, one parent. A name is
//! looked up from the innermost frame outwards, and the first frame that
//! holds it answers. A name is bound in the innermost frame only.

use crate::interpret::value::{RuntimeValue, ValueView};
use crate::parse::ast::{clone_names, name_views, ASTNode, NodeView};
use vstd::prelude::*;
use vstd::string::StringExecFns;

verus! {

/// A value with the mark that says whether it is a constant.
#[derive(Debug, PartialEq)]
pub struct Variable {
    pub value: RuntimeValue,
    pub is_const: bool,
}

/// A variable as a mathematical value.
pub struct VariableView {
    pub value: ValueView,
    pub is_const: bool,
}

impl View for Variable {
    type V = VariableView;

    open spec fn view(&self) -> VariableView {
        VariableView { value: self.value@, is_const: self.is_const }
    }
}

impl Clone for Variable {
    fn clone(&self) -> (r: Self)
        ensures
            r@ == self@,
    {
        Variable { value: self.value.clone(), is_const: self.is_const }
    }
}

/// A function: its name, the names of its parameters, and the expression
/// that is its body.
#[derive(Debug, PartialEq)]
pub struct Function {
    pub name: String,
    pub body: Box<ASTNode>,
    pub args: Vec<String>,
}

/// A function as a mathematical value.
pub struct FunctionView {
    pub name: Seq<char>,
    pub params: Seq<Seq<char>>,
    pub body: NodeView,
}

impl View for Function {
    type V = FunctionView;

    open spec fn view(&self) -> FunctionView {
        FunctionView { name: self.name@, params: name_views(self.args@), body: self.body@ }
    }
}

impl Clone for Function {
    fn clone(&self) -> (r: Self)
        ensures
            r@ == self@,
    {
        Function {
            name: self.name.clone(),
            body: Box::new((*self.body).clone()),
            args: clone_names(&self.args),
        }
    }
}

/// What can go wrong with a name.
#[derive(Debug, PartialEq)]
pub enum VariableError {
    DoesNotExist(String),
    CannotAssignConstants(String),
    VariableShadowingNotSupported(String),
}

/// An error with a name as a mathematical value.
pub enum VariableErrorView {
    DoesNotExist(Seq<char>),
    CannotAssignConstants(Seq<char>),
    VariableShadowingNotSupported(Seq<char>),
}

impl View for VariableError {
    type V = VariableErrorView;

    open spec fn view(&self) -> VariableErrorView {
        match self {
            VariableError::DoesNotExist(name) => VariableErrorView::DoesNotExist(name@),
            VariableError::CannotAssignConstants(name) => VariableErrorView::CannotAssignConstants(
                name@,
            ),
            VariableError::VariableShadowingNotSupported(name) =>
                VariableErrorView::VariableShadowingNotSupported(name@),
        }
    }
}

impl VariableError {
    /// What went wrong, in words, with the name.
    pub fn message(&self) -> (r: String)
        ensures
            r@ == match self@ {
                VariableErrorView::DoesNotExist(name) => "Variable does not exist: "@ + name,
                VariableErrorView::CannotAssignConstants(name) => "Cannot assign to constant: "@
                    + name,
                VariableErrorView::VariableShadowingNotSupported(name) =>
                    "Variable shadowing is not supported: "@ + name,
            },
    {
        match self {
            VariableError::DoesNotExist(name) => String::from_str(
                "Variable does not exist: ",
            ).concat(name.as_str()),
            VariableError::CannotAssignConstants(name) => String::from_str(
                "Cannot assign to constant: ",
            ).concat(name.as_str()),
            VariableError::VariableShadowingNotSupported(name) => String::from_str(
                "Variable shadowing is not supported: ",
            ).concat(name.as_str()),
        }
    }
}

/// A name with what it is bound to.
#[derive(Debug, PartialEq)]
pub struct Binding {
    pub name: String,
    pub variable: Variable,
}

impl Clone for Binding {
    fn clone(&self) -> (r: Self)
        ensures
            r.name@ == self.name@,
            r.variable@ == self.variable@,
    {
        Binding { name: self.name.clone(), variable: self.variable.clone() }
    }
}

/// The bindings of one frame, in the order in which the names came.
pub type Variables = Vec<Binding>;

/// A frame as a mathematical value: the names it binds, each with its
/// variable.
pub type Frame = Map<Seq<char>, VariableView>;

/// The frame that a list of bindings stands for. Of two bindings of one
/// name, the earlier one counts.
pub open spec fn frame_of(bindings: Seq<Binding>) -> Frame
    decreases bindings.len(),
{
    if bindings.len() == 0 {
        Map::empty()
    } else {
        frame_of(bindings.drop_first()).insert(bindings[0].name@, bindings[0].variable@)
    }
}

/// What `key` is bound to in a chain of frames, innermost first: the
/// binding in the first frame that holds `key`.
pub open spec fn resolve(chain: Seq<Frame>, key: Seq<char>) -> Option<VariableView>
    decreases chain.len(),
{
    if chain.len() == 0 {
        None
    } else if chain[0].dom().contains(key) {
        Some(chain[0][key])
    } else {
        resolve(chain.drop_first(), key)
    }
}

/// The chain after `key` was bound to `value`: the binding stands in the
/// innermost frame and carries `is_const` as it was given, whether `key` is
/// new or was visible before. What the outer frames bind `key` to stays as it
/// is, behind the new binding.
pub open spec fn assign(chain: Seq<Frame>, key: Seq<char>, value: ValueView, is_const: bool) -> Seq<
    Frame,
> {
    chain.update(0, chain[0].insert(key, VariableView { value, is_const }))
}

/// Binding a name touches the innermost frame only, and there only that
/// name: the chain keeps its length and its outer frames, the innermost
/// frame keeps every name it had, `key` is then bound to `value`, and every
/// other name is bound to what it was bound to before.
pub proof fn lemma_assign(chain: Seq<Frame>, key: Seq<char>, value: ValueView, is_const: bool)
    requires
        chain.len() >= 1,
    ensures
        assign(chain, key, value, is_const).len() == chain.len(),
        assign(chain, key, value, is_const).drop_first() == chain.drop_first(),
        chain[0].dom().subset_of(assign(chain, key, value, is_const)[0].dom()),
        resolve(assign(chain, key, value, is_const), key) == Some(
            VariableView { value, is_const },
        ),
        forall|other: Seq<char>|
            other != key ==> resolve(assign(chain, key, value, is_const), other) == resolve(
                chain,
                other,
            ),
{
    let after = assign(chain, key, value, is_const);
    assert(after.drop_first() =~= chain.drop_first());
    assert forall|other: Seq<char>| other != key implies resolve(after, other) == resolve(
        chain,
        other,
    ) by {
        assert(after[0].dom().contains(other) == chain[0].dom().contains(other));
    }
}

/// A name is bound in a chain with an empty frame before it to what it is
/// bound to in the chain.
pub proof fn lemma_resolve_fresh_frame(chain: Seq<Frame>, key: Seq<char>)
    ensures
        resolve(seq![Frame::empty()] + chain, key) == resolve(chain, key),
{
    let longer = seq![Frame::empty()] + chain;
    assert(longer.drop_first() =~= chain);
    assert(!longer[0].dom().contains(key));
}

/// No binding before `i` has the name `key`.
pub open spec fn absent_before(bindings: Seq<Binding>, key: Seq<char>, i: int) -> bool {
    forall|j: int| 0 <= j < i ==> (#[trigger] bindings[j]).name@ != key
}

proof fn lemma_frame_lookup(bindings: Seq<Binding>, key: Seq<char>, i: int)
    requires
        0 <= i <= bindings.len(),
        absent_before(bindings, key, i),
    ensures
        i < bindings.len() && bindings[i].name@ == key ==> frame_of(bindings).dom().contains(key)
            && frame_of(bindings)[key] == bindings[i].variable@,
        i == bindings.len() ==> !frame_of(bindings).dom().contains(key),
    decreases bindings.len(),
{
    if bindings.len() > 0 && i > 0 {
        let rest = bindings.drop_first();
        assert(bindings[0].name@ != key);
        assert forall|j: int| 0 <= j < i - 1 implies (#[trigger] rest[j]).name@ != key by {
            assert(rest[j] == bindings[j + 1]);
        }
        lemma_frame_lookup(rest, key, i - 1);
    }
}

proof fn lemma_frame_update(bindings: Seq<Binding>, i: int, binding: Binding)
    requires
        0 <= i < bindings.len(),
        absent_before(bindings, binding.name@, i),
        bindings[i].name@ == binding.name@,
    ensures
        frame_of(bindings.update(i, binding)) == frame_of(bindings).insert(
            binding.name@,
            binding.variable@,
        ),
    decreases bindings.len(),
{
    let updated = bindings.update(i, binding);
    if i == 0 {
        assert(updated.drop_first() =~= bindings.drop_first());
        assert(frame_of(updated) =~= frame_of(bindings).insert(binding.name@, binding.variable@));
    } else {
        let rest = bindings.drop_first();
        assert(bindings[0].name@ != binding.name@);
        assert forall|j: int| 0 <= j < i - 1 implies (#[trigger] rest[j]).name@
            != binding.name@ by {
            assert(rest[j] == bindings[j + 1]);
        }
        lemma_frame_update(rest, i - 1, binding);
        assert(updated.drop_first() =~= rest.update(i - 1, binding));
        assert(frame_of(updated) =~= frame_of(bindings).insert(binding.name@, binding.variable@));
    }
}

proof fn lemma_frame_push(bindings: Seq<Binding>, binding: Binding)
    requires
        absent_before(bindings, binding.name@, bindings.len() as int),
    ensures
        frame_of(bindings.push(binding)) == frame_of(bindings).insert(
            binding.name@,
            binding.variable@,
        ),
    decreases bindings.len(),
{
    let pushed = bindings.push(binding);
    if bindings.len() == 0 {
        assert(pushed.drop_first() =~= bindings);
        assert(frame_of(pushed) =~= frame_of(bindings).insert(binding.name@, binding.variable@));
    } else {
        let rest = bindings.drop_first();
        assert(bindings[0].name@ != binding.name@);
        assert forall|j: int| 0 <= j < rest.len() implies (#[trigger] rest[j]).name@
            != binding.name@ by {
            assert(rest[j] == bindings[j + 1]);
        }
        lemma_frame_push(rest, binding);
        assert(pushed.drop_first() =~= rest.push(binding));
        assert(frame_of(pushed) =~= frame_of(bindings).insert(binding.name@, binding.variable@));
    }
}

/// No two bindings have one name.
pub open spec fn distinct_names(bindings: Seq<Binding>) -> bool {
    forall|i: int, j: int|
        0 <= i < j < bindings.len() ==> (#[trigger] bindings[i]).name@ != (
        #[trigger] bindings[j]).name@
}

/// One frame of bindings, with the scope around it if there is one. No name
/// is bound twice in one frame.
#[derive(Debug)]
pub struct RuntimeScope {
    parent: Option<Box<RuntimeScope>>,
    variables: Variables,
}

/// The frames of a scope, its own first, then those of its parent.
pub closed spec fn scope_frames(scope: RuntimeScope) -> Seq<Frame>
    decreases scope,
{
    seq![frame_of(scope.variables@)] + match scope.parent {
        Some(parent) => scope_frames(*parent),
        None => Seq::empty(),
    }
}

impl View for RuntimeScope {
    type V = Seq<Frame>;

    closed spec fn view(&self) -> Seq<Frame> {
        scope_frames(*self)
    }
}

impl RuntimeScope {
    #[verifier::type_invariant]
    spec fn inv(self) -> bool {
        distinct_names(self.variables@)
    }

    /// A scope has at least its own frame.
    pub proof fn lemma_depth(&self)
        ensures
            self@.len() >= 1,
    {
    }

    /// A scope with no binding and no parent.
    pub fn new() -> (r: Self)
        ensures
            r@ == seq![Frame::empty()],
    {
        Self::general_new(None)
    }

    /// A scope with no binding, inside `parent` if there is one.
    pub fn general_new(parent: Option<RuntimeScope>) -> (r: Self)
        ensures
            r@ == seq![Frame::empty()] + match parent {
                Some(p) => p@,
                None => Seq::empty(),
            },
    {
        match parent {
            Some(p) => RuntimeScope { parent: Some(Box::new(p)), variables: Vec::new() },
            None => RuntimeScope { parent: None, variables: Vec::new() },
        }
    }

    /// A scope with no binding, inside `parent`.
    pub fn new_parent(parent: RuntimeScope) -> (r: Self)
        ensures
            r@ == seq![Frame::empty()] + parent@,
    {
        Self::general_new(Some(parent))
    }

    /// Gives up the innermost frame: the scope around this one, if there is
    /// one.
    pub fn into_parent(self) -> (r: Option<RuntimeScope>)
        ensures
            match r {
                Some(p) => self@.len() > 1 && p@ == self@.drop_first(),
                None => self@.len() == 1,
            },
    {
        match self.parent {
            Some(p) => {
                proof {
                    p.lemma_depth();
                    assert(self@.drop_first() =~= p@);
                }
                Some(*p)
            },
            None => None,
        }
    }

    /// The bindings of the innermost frame, each name once.
    pub fn variables(&self) -> (r: Variables)
        ensures
            frame_of(r@) == self@[0],
            distinct_names(r@),
    {
        proof {
            use_type_invariant(self);
        }
        let mut out: Variables = Vec::new();
        let mut i: usize = 0;
        while i < self.variables.len()
            invariant
                i <= self.variables@.len(),
                out@.len() == i,
                forall|j: int|
                    0 <= j < i ==> (#[trigger] out@[j]).name@ == self.variables@[j].name@
                        && out@[j].variable@ == self.variables@[j].variable@,
            decreases self.variables@.len() - i,
        {
            out.push(self.variables[i].clone());
            i += 1;
        }
        proof {
            lemma_frame_same(out@, self.variables@);
        }
        out
    }

    /// What `key` is bound to, seen from this scope.
    pub fn get_variable(&self, key: &String) -> (r: Option<Variable>)
        ensures
            match resolve(self@, key@) {
                Some(v) => r matches Some(x) && x@ == v,
                None => r is None,
            },
    {
        self.resolve_variable(key)
    }

    /// Binds `key` to `value` in the innermost frame. The binding is a
    /// constant if and only if `is_const_declaration` says so, whether `key`
    /// is new or was bound before; a binding of `key` in the innermost frame
    /// is overwritten, constant or not. This never fails.
    pub fn set_variable_or_const(
        &mut self,
        key: &String,
        value: RuntimeValue,
        is_const_declaration: bool,
    ) -> (r: Result<(), VariableError>)
        ensures
            r is Ok,
            final(self)@ == assign(old(self)@, key@, value@, is_const_declaration),
            final(self)@.len() == old(self)@.len(),
    {
        let binding = Binding {
            name: key.clone(),
            variable: Variable { value, is_const: is_const_declaration },
        };
        let ghost before = self.variables@;
        proof {
            use_type_invariant(&*self);
        }
        let found = self.find(key);
        let mut bindings: Variables = Vec::new();
        std::mem::swap(&mut self.variables, &mut bindings);
        match found {
            Some(i) => {
                proof {
                    lemma_frame_update(before, i as int, binding);
                }
                bindings.set(i, binding);
            },
            None => {
                proof {
                    lemma_frame_push(before, binding);
                }
                bindings.push(binding);
            },
        }
        self.variables = bindings;
        assert(self@ =~= assign(old(self)@, key@, value@, is_const_declaration));
        Ok(())
    }

    /// What `key` is bound to, seen from this scope, or the error that says
    /// that it is bound to nothing.
    pub fn get_var_or_const(&self, key: &String) -> (r: Result<Variable, VariableError>)
        ensures
            match resolve(self@, key@) {
                Some(v) => r matches Ok(x) && x@ == v,
                None => r matches Err(e) && e@ == VariableErrorView::DoesNotExist(key@),
            },
    {
        match self.get_variable(key) {
            None => Err(VariableError::DoesNotExist(key.clone())),
            Some(v) => Ok(v),
        }
    }

    /// Whether `key` is bound, seen from this scope.
    pub fn is_defined(&self, key: &String) -> (r: bool)
        ensures
            r == resolve(self@, key@) is Some,
        decreases self,
    {
        match self.find(key) {
            Some(_) => true,
            None => match &self.parent {
                Some(p) => {
                    proof {
                        p.lemma_depth();
                        assert(self@.drop_first() =~= p@);
                    }
                    p.is_defined(key)
                },
                None => {
                    assert(self@.drop_first() =~= Seq::<Frame>::empty());
                    assert(resolve(Seq::<Frame>::empty(), key@) is None);
                    false
                },
            },
        }
    }

    /// Whether `key` is bound to a constant, seen from this scope.
    pub fn is_constant(&self, key: &String) -> (r: bool)
        ensures
            r == (resolve(self@, key@) matches Some(v) && v.is_const),
    {
        match self.get_variable(key) {
            None => false,
            Some(v) => v.is_const,
        }
    }

    /// The place of the first binding of `key` in the innermost frame.
    fn find(&self, key: &String) -> (r: Option<usize>)
        ensures
            match r {
                Some(i) => i < self.variables@.len() && self.variables@[i as int].name@ == key@
                    && absent_before(self.variables@, key@, i as int) && self@[0].dom().contains(
                    key@,
                ) && self@[0][key@] == self.variables@[i as int].variable@,
                None => absent_before(self.variables@, key@, self.variables@.len() as int)
                    && !self@[0].dom().contains(key@),
            },
    {
        let mut i: usize = 0;
        while i < self.variables.len()
            invariant
                i <= self.variables@.len(),
                absent_before(self.variables@, key@, i as int),
            decreases self.variables@.len() - i,
        {
            if self.variables[i].name == *key {
                proof {
                    lemma_frame_lookup(self.variables@, key@, i as int);
                }
                return Some(i);
            }
            i += 1;
        }
        proof {
            lemma_frame_lookup(self.variables@, key@, i as int);
        }
        None
    }

    fn resolve_variable(&self, key: &String) -> (r: Option<Variable>)
        ensures
            match resolve(self@, key@) {
                Some(v) => r matches Some(x) && x@ == v,
                None => r is None,
            },
        decreases self,
    {
        match self.find(key) {
            Some(i) => Some(self.variables[i].variable.clone()),
            None => match &self.parent {
                Some(p) => {
                    proof {
                        p.lemma_depth();
                        assert(self@.drop_first() =~= p@);
                    }
                    p.resolve_variable(key)
                },
                None => {
                    assert(self@.drop_first() =~= Seq::<Frame>::empty());
                    assert(resolve(Seq::<Frame>::empty(), key@) is None);
                    None
                },
            },
        }
    }
}

proof fn lemma_frame_same(a: Seq<Binding>, b: Seq<Binding>)
    requires
        a.len() == b.len(),
        forall|j: int|
            0 <= j < a.len() ==> (#[trigger] a[j]).name@ == b[j].name@ && a[j].variable@
                == b[j].variable@,
    ensures
        frame_of(a) == frame_of(b),
    decreases a.len(),
{
    if a.len() > 0 {
        assert(a[0].name@ == b[0].name@);
        assert forall|j: int| 0 <= j < a.drop_first().len() implies (#[trigger] a.drop_first()[j]).name@
            == b.drop_first()[j].name@ && a.drop_first()[j].variable@
            == b.drop_first()[j].variable@ by {
            assert(a.drop_first()[j] == a[j + 1]);
        }
        lemma_frame_same(a.drop_first(), b.drop_first());
    }
}

} // verus!
