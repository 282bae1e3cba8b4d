//! The compile context: a stack of scope frames for variables and a flat
//! registry of function signatures.
use vstd::prelude::*;
use crate::errors::CompileError;
use crate::text::str_eq;
use crate::values::ComptimeValueType;

verus! {

/// The symbol-table entry of a variable.
#[derive(Debug, Clone, Copy, PartialEq, Eq, Structural)]
pub struct ComptimeVariable {
    pub value_type: ComptimeValueType,
    pub is_const: bool,
}

/// The bindings of one frame, oldest first, names as character sequences.
pub type Frame = Seq<(Seq<char>, ComptimeVariable)>;

/// The entry bound to `name` in a sequence of bindings: the latest binding of that name.
pub open spec fn find_binding<T>(frame: Seq<(Seq<char>, T)>, name: Seq<char>) -> Option<T>
    decreases frame.len(),
{
    if frame.len() == 0 {
        None
    } else if frame.last().0 == name {
        Some(frame.last().1)
    } else {
        find_binding(frame.drop_last(), name)
    }
}

/// No two bindings of the sequence have the same name.
pub open spec fn keys_unique<T>(entries: Seq<(Seq<char>, T)>) -> bool {
    forall|a: int, b: int| 0 <= a < b < entries.len() ==> entries[a].0 != entries[b].0
}

/// The index of the latest binding of `name`, or -1.
pub open spec fn entry_index<T>(entries: Seq<(Seq<char>, T)>, name: Seq<char>) -> int
    decreases entries.len(),
{
    if entries.len() == 0 {
        -1
    } else if entries.last().0 == name {
        entries.len() - 1
    } else {
        entry_index(entries.drop_last(), name)
    }
}

/// Binds `name` to `v`: its binding is overwritten, or a binding is added.
pub open spec fn store_entry<T>(entries: Seq<(Seq<char>, T)>, name: Seq<char>, v: T) -> Seq<
    (Seq<char>, T),
> {
    let i = entry_index(entries, name);
    if i >= 0 {
        entries.update(i, (name, v))
    } else {
        entries.push((name, v))
    }
}

/// `entry_index` finds a binding of the name, or tells that there is none;
/// `find_binding` finds nothing exactly when there is none.
pub proof fn lemma_entry_index<T>(entries: Seq<(Seq<char>, T)>, name: Seq<char>)
    ensures
        -1 <= entry_index(entries, name) < entries.len(),
        entry_index(entries, name) >= 0 ==> entries[entry_index(entries, name)].0 == name,
        entry_index(entries, name) == -1 <==> forall|i: int|
            0 <= i < entries.len() ==> (#[trigger] entries[i]).0 != name,
        find_binding(entries, name) is None <==> entry_index(entries, name) == -1,
    decreases entries.len(),
{
    if entries.len() > 0 {
        lemma_entry_index(entries.drop_last(), name);
        if entries.last().0 != name {
            assert forall|i: int| 0 <= i < entries.len() - 1 implies entries[i] == (
            #[trigger] entries.drop_last()[i]) by {}
            if entry_index(entries, name) == -1 {
                assert forall|i: int| 0 <= i < entries.len() implies (
                #[trigger] entries[i]).0 != name by {
                    if i < entries.len() - 1 {
                        assert(entries.drop_last()[i] == entries[i]);
                    }
                }
            }
        }
    }
}

/// Binding a name keeps the names unique.
pub proof fn lemma_store_entry_unique<T>(entries: Seq<(Seq<char>, T)>, name: Seq<char>, v: T)
    requires
        keys_unique(entries),
    ensures
        keys_unique(store_entry(entries, name, v)),
{
    lemma_entry_index(entries, name);
}

/// Lookup through a stack of frames: the top frame (the last one) first,
/// the first match wins.
pub open spec fn lookup(frames: Seq<Frame>, name: Seq<char>) -> Option<ComptimeVariable>
    decreases frames.len(),
{
    if frames.len() == 0 {
        None
    } else {
        match find_binding(frames.last(), name) {
            Some(v) => Some(v),
            None => lookup(frames.drop_last(), name),
        }
    }
}

/// Maps the type keywords of the source language to static types.
pub open spec fn resolve_type(name: Seq<char>) -> Option<ComptimeValueType> {
    if name == "numb"@ {
        Some(ComptimeValueType::Int)
    } else if name == "flt"@ {
        Some(ComptimeValueType::Float)
    } else if name == "string"@ {
        Some(ComptimeValueType::StringValue)
    } else if name == "bool"@ {
        Some(ComptimeValueType::Bool)
    } else if name == "void"@ {
        Some(ComptimeValueType::Void)
    } else {
        None
    }
}

/// One frame of the scope stack.
pub struct Scope {
    variables: Vec<(String, ComptimeVariable)>,
}

impl View for Scope {
    type V = Frame;

    closed spec fn view(&self) -> Frame {
        self.variables@.map_values(|e: (String, ComptimeVariable)| (e.0@, e.1))
    }
}

impl Scope {
    /// A frame binds each name once.
    pub open spec fn wf(&self) -> bool {
        keys_unique(self@)
    }

    pub fn new() -> (r: Scope)
        ensures
            r.wf(),
            r@ == Seq::<(Seq<char>, ComptimeVariable)>::empty(),
    {
        let r = Scope { variables: Vec::new() };
        assert(r@ =~= Seq::<(Seq<char>, ComptimeVariable)>::empty());
        r
    }

    /// The entry bound to `name` in this frame.
    pub fn get(&self, name: &str) -> (r: Option<ComptimeVariable>)
        ensures
            r == find_binding(self@, name@),
    {
        let mut i: usize = self.variables.len();
        assert(self@.subrange(0, i as int) =~= self@);
        while i > 0
            invariant
                i <= self.variables@.len(),
                find_binding(self@, name@) == find_binding(self@.subrange(0, i as int), name@),
            decreases i,
        {
            let ghost pre = self@.subrange(0, i as int);
            assert(pre.drop_last() =~= self@.subrange(0, i - 1));
            if str_eq(self.variables[i - 1].0.as_str(), name) {
                return Some(self.variables[i - 1].1);
            }
            i = i - 1;
        }
        assert(self@.subrange(0, 0) =~= Seq::<(Seq<char>, ComptimeVariable)>::empty());
        None
    }

    /// Binds `name` in this frame, after the bindings it already has.
    pub fn bind(&mut self, name: String, var: ComptimeVariable)
        requires
            old(self).wf(),
            find_binding(old(self)@, name@) is None,
        ensures
            final(self).wf(),
            final(self)@ == old(self)@.push((name@, var)),
    {
        proof {
            lemma_entry_index(old(self)@, name@);
        }
        self.variables.push((name, var));
        assert(self@ =~= old(self)@.push((name@, var)));
    }
}

/// The signature record of a user-defined function.
#[derive(Debug, Clone, Copy, PartialEq, Eq, Structural)]
pub struct CompileTimeFunctionForCheck {
    pub return_type: ComptimeValueType,
    pub is_pub: bool,
}

/// Whether a name is among the keys of a registry, given as a sequence of pairs.
pub open spec fn registered<T>(entries: Seq<(Seq<char>, T)>, name: Seq<char>) -> bool {
    exists|i: int| 0 <= i < entries.len() && (#[trigger] entries[i]).0 == name
}

/// The flat registry of function signatures.
pub struct FunctionContext {
    functions: Vec<(String, CompileTimeFunctionForCheck)>,
}

impl View for FunctionContext {
    type V = Seq<(Seq<char>, CompileTimeFunctionForCheck)>;

    closed spec fn view(&self) -> Seq<(Seq<char>, CompileTimeFunctionForCheck)> {
        self.functions@.map_values(|e: (String, CompileTimeFunctionForCheck)| (e.0@, e.1))
    }
}

impl FunctionContext {
    /// A function name is registered once.
    pub open spec fn wf(&self) -> bool {
        keys_unique(self@)
    }

    pub fn new() -> (r: FunctionContext)
        ensures
            r.wf(),
            r@ == Seq::<(Seq<char>, CompileTimeFunctionForCheck)>::empty(),
    {
        let r = FunctionContext { functions: Vec::new() };
        assert(r@ =~= Seq::<(Seq<char>, CompileTimeFunctionForCheck)>::empty());
        r
    }

    /// Tells whether a function of that name is registered.
    pub fn contains(&self, name: &str) -> (r: bool)
        ensures
            r == registered(self@, name@),
    {
        let mut i: usize = 0;
        while i < self.functions.len()
            invariant
                i <= self.functions@.len(),
                forall|j: int| 0 <= j < i ==> (#[trigger] self@[j]).0 != name@,
            decreases self.functions@.len() - i,
        {
            if str_eq(self.functions[i].0.as_str(), name) {
                assert(self@[i as int].0 == name@);
                return true;
            }
            i = i + 1;
        }
        false
    }

    /// Registers a signature; a name may be registered once.
    pub fn add_function(&mut self, name: String, function: CompileTimeFunctionForCheck) -> (r:
        Result<(), CompileError>)
        ensures
            old(self).wf() ==> final(self).wf(),
            registered(old(self)@, name@) ==> r == Err::<(), CompileError>(
                CompileError::FunctionAlreadyExists { name },
            ) && final(self)@ == old(self)@,
            !registered(old(self)@, name@) ==> r is Ok && final(self)@ == old(self)@.push(
                (name@, function),
            ),
    {
        if self.contains(name.as_str()) {
            return Err(CompileError::FunctionAlreadyExists { name });
        }
        self.functions.push((name, function));
        assert(self@ =~= old(self)@.push((name@, function)));
        Ok(())
    }
}

/// Scoped symbol tables for one compilation.
pub struct CompileContext {
    scopes: Vec<Scope>,
    functions: FunctionContext,
}

impl CompileContext {
    /// The frames, the global one first.
    pub closed spec fn frames(&self) -> Seq<Frame> {
        self.scopes@.map_values(|s: Scope| s@)
    }

    /// The registered function signatures.
    pub closed spec fn registry(&self) -> Seq<(Seq<char>, CompileTimeFunctionForCheck)> {
        self.functions@
    }

    /// The global frame is never popped.
    pub open spec fn wf(&self) -> bool {
        &&& self.frames().len() >= 1
        &&& forall|f: int| 0 <= f < self.frames().len() ==> keys_unique(#[trigger] self.frames()[f])
        &&& keys_unique(self.registry())
    }

    /// A context holding only the empty global frame and no functions.
    pub fn new() -> (r: CompileContext)
        ensures
            r.wf(),
            r.frames() == seq![Seq::<(Seq<char>, ComptimeVariable)>::empty()],
            r.registry() == Seq::<(Seq<char>, CompileTimeFunctionForCheck)>::empty(),
    {
        let mut scopes = Vec::new();
        scopes.push(Scope::new());
        let r = CompileContext { scopes, functions: FunctionContext::new() };
        assert(r.frames() =~= seq![Seq::<(Seq<char>, ComptimeVariable)>::empty()]);
        r
    }

    /// Maps a type keyword of the source language to its static type.
    pub fn get_type(type_to_identify: &str) -> (r: Result<ComptimeValueType, CompileError>)
        ensures
            match resolve_type(type_to_identify@) {
                Some(t) => r == Ok::<ComptimeValueType, CompileError>(t),
                None => r matches Err(CompileError::UndefinedType { undefined_type }) &&
                    undefined_type@ == type_to_identify@,
            },
    {
        if str_eq(type_to_identify, "numb") {
            Ok(ComptimeValueType::Int)
        } else if str_eq(type_to_identify, "flt") {
            Ok(ComptimeValueType::Float)
        } else if str_eq(type_to_identify, "string") {
            Ok(ComptimeValueType::StringValue)
        } else if str_eq(type_to_identify, "bool") {
            Ok(ComptimeValueType::Bool)
        } else if str_eq(type_to_identify, "void") {
            Ok(ComptimeValueType::Void)
        } else {
            Err(CompileError::UndefinedType { undefined_type: type_to_identify.to_string() })
        }
    }

    /// Pushes an empty frame.
    pub fn enter_scope(&mut self)
        requires
            old(self).wf(),
        ensures
            final(self).wf(),
            final(self).frames() == old(self).frames().push(
                Seq::<(Seq<char>, ComptimeVariable)>::empty(),
            ),
            final(self).registry() == old(self).registry(),
    {
        self.scopes.push(Scope::new());
        assert(self.frames() =~= old(self).frames().push(
            Seq::<(Seq<char>, ComptimeVariable)>::empty(),
        ));
    }

    /// Pops the top frame; the global frame stays.
    pub fn exit_scope(&mut self)
        requires
            old(self).wf(),
            old(self).frames().len() >= 2,
        ensures
            final(self).wf(),
            final(self).frames() == old(self).frames().drop_last(),
            final(self).registry() == old(self).registry(),
    {
        self.scopes.pop();
        assert(self.frames() =~= old(self).frames().drop_last());
    }

    /// Binds a variable in the top frame, unless that frame already binds the name.
    pub fn add_variable(&mut self, name: String, variable: ComptimeVariable) -> (r: Result<
        (),
        CompileError,
    >)
        requires
            old(self).wf(),
        ensures
            final(self).wf(),
            final(self).registry() == old(self).registry(),
            find_binding(old(self).frames().last(), name@) is Some ==> r == Err::<(), CompileError>(
                CompileError::VariableRecreation { name },
            ) && final(self).frames() == old(self).frames(),
            find_binding(old(self).frames().last(), name@) is None ==> r is Ok
                && final(self).frames() == old(self).frames().drop_last().push(
                old(self).frames().last().push((name@, variable)),
            ),
    {
        let top = self.scopes.len() - 1;
        if self.scopes[top].get(name.as_str()).is_some() {
            return Err(CompileError::VariableRecreation { name });
        }
        let mut scope = self.scopes.pop().unwrap();
        scope.bind(name, variable);
        self.scopes.push(scope);
        assert(self.frames() =~= old(self).frames().drop_last().push(
            old(self).frames().last().push((name@, variable)),
        ));
        Ok(())
    }

    /// Whether the top frame binds `name`.
    pub fn defined_in_current_scope(&self, name: &str) -> (r: bool)
        requires
            self.wf(),
        ensures
            r == find_binding(self.frames().last(), name@) is Some,
    {
        self.scopes[self.scopes.len() - 1].get(name).is_some()
    }

    /// Looks a variable up through the frames, the top one first.
    pub fn get_variable(&self, name: &str) -> (r: Option<ComptimeVariable>)
        ensures
            r == lookup(self.frames(), name@),
    {
        let mut i: usize = self.scopes.len();
        assert(self.frames().subrange(0, i as int) =~= self.frames());
        while i > 0
            invariant
                i <= self.scopes@.len(),
                lookup(self.frames(), name@) == lookup(self.frames().subrange(0, i as int), name@),
            decreases i,
        {
            let ghost pre = self.frames().subrange(0, i as int);
            assert(pre.drop_last() =~= self.frames().subrange(0, i - 1));
            assert(pre.last() == self.scopes@[i - 1]@);
            let found = self.scopes[i - 1].get(name);
            if found.is_some() {
                return found;
            }
            i = i - 1;
        }
        assert(self.frames().subrange(0, 0) =~= Seq::<Frame>::empty());
        None
    }

    /// Registers a function signature in the flat registry.
    pub fn add_function(&mut self, name: String, function: CompileTimeFunctionForCheck) -> (r:
        Result<(), CompileError>)
        requires
            old(self).wf(),
        ensures
            final(self).wf(),
            final(self).frames() == old(self).frames(),
            registered(old(self).registry(), name@) ==> r == Err::<(), CompileError>(
                CompileError::FunctionAlreadyExists { name },
            ) && final(self).registry() == old(self).registry(),
            !registered(old(self).registry(), name@) ==> r is Ok
                && final(self).registry() == old(self).registry().push((name@, function)),
    {
        self.functions.add_function(name, function)
    }
}

} // verus!
