use vstd::prelude::*;
use crate::ast::{Stmt, StmtV, names_view};
use crate::value::{LoxValue, ValueV, RuntimeError, value_wf, value_res};

verus! {

/// One scope: its names, the value of each (`None` while declared but not
/// yet given a value) and the scope it is nested in.
pub struct Scope {
    pub names: Vec<String>,
    pub slots: Vec<Option<LoxValue>>,
    pub parent: Option<usize>,
}

/// A declared function: what a call runs, and the scope it was declared in.
pub struct Function {
    pub name: String,
    pub params: Vec<String>,
    pub body: Stmt,
    pub closure: usize,
}

/// The state of a running program: an arena of scopes that closures share,
/// the functions declared so far, and the lines printed so far. Scopes are
/// never removed; a scope is known by its index, and its parent always has
/// a smaller one, so every chain of parents is finite.
pub struct Environment {
    pub scopes: Vec<Scope>,
    pub functions: Vec<Function>,
    pub output: Vec<String>,
}

pub struct ScopeV {
    pub names: Seq<Seq<char>>,
    pub slots: Seq<Option<ValueV>>,
    pub parent: Option<nat>,
}

pub struct FunV {
    pub name: Seq<char>,
    pub params: Seq<Seq<char>>,
    pub body: StmtV,
    pub closure: nat,
}

pub struct EnvV {
    pub scopes: Seq<ScopeV>,
    pub funs: Seq<FunV>,
    pub out: Seq<Seq<char>>,
}

pub open spec fn slot_view(o: Option<LoxValue>) -> Option<ValueV> {
    match o {
        Some(v) => Some(v@),
        None => None,
    }
}

impl View for Scope {
    type V = ScopeV;

    open spec fn view(&self) -> ScopeV {
        ScopeV {
            names: names_view(self.names@),
            slots: self.slots@.map_values(|o: Option<LoxValue>| slot_view(o)),
            parent: match self.parent {
                Some(p) => Some(p as nat),
                None => None,
            },
        }
    }
}

impl View for Function {
    type V = FunV;

    open spec fn view(&self) -> FunV {
        FunV {
            name: self.name@,
            params: names_view(self.params@),
            body: self.body@,
            closure: self.closure as nat,
        }
    }
}

impl View for Environment {
    type V = EnvV;

    open spec fn view(&self) -> EnvV {
        EnvV {
            scopes: self.scopes@.map_values(|s: Scope| s@),
            funs: self.functions@.map_values(|f: Function| f@),
            out: self.output@.map_values(|s: String| s@),
        }
    }
}

/// The first index at or after `i` that holds `name`.
pub open spec fn find_from(names: Seq<Seq<char>>, name: Seq<char>, i: nat) -> Option<nat>
    decreases names.len() - i,
{
    if i >= names.len() {
        None
    } else if names[i as int] == name {
        Some(i)
    } else {
        find_from(names, name, i + 1)
    }
}

pub open spec fn find(names: Seq<Seq<char>>, name: Seq<char>) -> Option<nat> {
    find_from(names, name, 0)
}

impl EnvV {
    /// Each scope has a value slot for each name, and a parent of a smaller
    /// index; every stored value is well formed.
    pub open spec fn wf(self) -> bool {
        &&& self.scopes.len() > 0
        &&& forall|i: int|
            0 <= i < self.scopes.len() ==> {
                let sc = #[trigger] self.scopes[i];
                &&& sc.names.len() == sc.slots.len()
                &&& forall|a: int, b: int|
                    0 <= a < b < sc.names.len() ==> #[trigger] sc.names[a] != #[trigger] sc.names[b]
                &&& sc.parent matches Some(p) ==> p < i
                &&& forall|j: int|
                    0 <= j < sc.slots.len() ==> (#[trigger] sc.slots[j] matches Some(v) ==> value_wf(v))
            }
        &&& forall|f: int| 0 <= f < self.funs.len() ==> #[trigger] self.funs[f].closure < self.scopes.len()
    }
}

/// The value of `name` seen from scope `s`: the nearest scope of the chain
/// that declares it decides.
pub open spec fn lookup(env: EnvV, s: nat, name: Seq<char>) -> Result<ValueV, RuntimeError>
    decreases s,
{
    if s >= env.scopes.len() {
        Err(RuntimeError::Undeclared)
    } else {
        let sc = env.scopes[s as int];
        match find(sc.names, name) {
            Some(i) => match sc.slots[i as int] {
                Some(v) => Ok(v),
                None => Err(RuntimeError::UsedBeforeInit),
            },
            None => match sc.parent {
                Some(p) => if p < s {
                    lookup(env, p, name)
                } else {
                    Err(RuntimeError::Undeclared)
                },
                None => Err(RuntimeError::Undeclared),
            },
        }
    }
}

/// `name` declared in scope `s` itself, replacing an earlier declaration
/// there.
pub open spec fn declare(env: EnvV, s: nat, name: Seq<char>, val: Option<ValueV>) -> EnvV {
    if s >= env.scopes.len() {
        env
    } else {
        let sc = env.scopes[s as int];
        let sc2 = match find(sc.names, name) {
            Some(i) => ScopeV { slots: sc.slots.update(i as int, val), ..sc },
            None => ScopeV { names: sc.names.push(name), slots: sc.slots.push(val), ..sc },
        };
        EnvV { scopes: env.scopes.update(s as int, sc2), ..env }
    }
}

/// `name` given `val` in the nearest scope of the chain from `s` that
/// declares it; an assignment never declares.
pub open spec fn assign(env: EnvV, s: nat, name: Seq<char>, val: ValueV) -> Result<EnvV, RuntimeError>
    decreases s,
{
    if s >= env.scopes.len() {
        Err(RuntimeError::Undeclared)
    } else {
        let sc = env.scopes[s as int];
        match find(sc.names, name) {
            Some(i) => Ok(
                EnvV {
                    scopes: env.scopes.update(
                        s as int,
                        ScopeV { slots: sc.slots.update(i as int, Some(val)), ..sc },
                    ),
                    ..env
                },
            ),
            None => match sc.parent {
                Some(p) => if p < s {
                    assign(env, p, name, val)
                } else {
                    Err(RuntimeError::Undeclared)
                },
                None => Err(RuntimeError::Undeclared),
            },
        }
    }
}

/// A new empty scope nested in `parent`; its index is the old number of
/// scopes.
pub open spec fn new_scope(env: EnvV, parent: nat) -> EnvV {
    EnvV {
        scopes: env.scopes.push(ScopeV { names: seq![], slots: seq![], parent: Some(parent) }),
        ..env
    }
}

proof fn lemma_empty_scope(sc: Scope)
    requires
        sc.names@.len() == 0,
        sc.slots@.len() == 0,
    ensures
        sc@.names == Seq::<Seq<char>>::empty(),
        sc@.slots == Seq::<Option<ValueV>>::empty(),
{
    assert(sc@.names =~= Seq::<Seq<char>>::empty());
    assert(sc@.slots =~= Seq::<Option<ValueV>>::empty());
}

proof fn lemma_find_none(names: Seq<Seq<char>>, name: Seq<char>, i: nat)
    requires
        find_from(names, name, i) is None,
    ensures
        forall|j: int| i <= j < names.len() ==> names[j] != name,
    decreases names.len() - i,
{
    if i < names.len() {
        lemma_find_none(names, name, i + 1);
    }
}

fn find_name(names: &Vec<String>, name: &String) -> (r: Option<usize>)
    ensures
        r matches Some(i) ==> i < names.len(),
        match r {
            Some(i) => find(names_view(names@), name@) == Some(i as nat),
            None => find(names_view(names@), name@) is None,
        },
{
    let ghost ns = names_view(names@);
    let mut i: usize = 0;
    while i < names.len()
        invariant
            i <= names.len(),
            ns == names_view(names@),
            find(ns, name@) == find_from(ns, name@, i as nat),
        decreases names.len() - i,
    {
        if names[i] == *name {
            return Some(i);
        }
        i = i + 1;
    }
    None
}

impl Environment {
    pub open spec fn wf(&self) -> bool {
        self@.wf()
    }

    /// An environment with one global scope and nothing else.
    pub fn new() -> (r: Environment)
        ensures
            r.wf(),
            r@.scopes == seq![ScopeV { names: seq![], slots: seq![], parent: None }],
            r@.funs.len() == 0,
            r@.out.len() == 0,
    {
        let mut scopes: Vec<Scope> = Vec::new();
        let global = Scope { names: Vec::new(), slots: Vec::new(), parent: None };
        proof {
            lemma_empty_scope(global);
        }
        scopes.push(global);
        let r = Environment { scopes, functions: Vec::new(), output: Vec::new() };
        assert(r@.scopes =~= seq![ScopeV { names: seq![], slots: seq![], parent: None }]);
        r
    }

    /// A new scope nested in `parent`, and its index.
    pub fn new_child(&mut self, parent: usize) -> (r: usize)
        requires
            old(self).wf(),
            parent < old(self).scopes.len(),
        ensures
            final(self).wf(),
            final(self)@ == new_scope(old(self)@, parent as nat),
            r == old(self).scopes.len(),
    {
        let r = self.scopes.len();
        let sc = Scope { names: Vec::new(), slots: Vec::new(), parent: Some(parent) };
        proof {
            lemma_empty_scope(sc);
        }
        self.scopes.push(sc);
        proof {
            assert(self@.scopes =~= new_scope(old(self)@, parent as nat).scopes);
        }
        r
    }

    /// Declares `name` in scope `scope`, with a value or without one, and
    /// hands back that value.
    pub fn var(&mut self, scope: usize, name: &String, val: Option<LoxValue>) -> (r: Option<LoxValue>)
        requires
            old(self).wf(),
            val matches Some(v) ==> v.wf(),
        ensures
            final(self).wf(),
            slot_view(r) == slot_view(val),
            final(self)@ == declare(old(self)@, scope as nat, name@, slot_view(val)),
    {
        let out = match &val {
            Some(v) => Some(v.copy()),
            None => None,
        };
        if scope >= self.scopes.len() {
            return out;
        }
        let found = find_name(&self.scopes[scope].names, name);
        match found {
            Some(i) => {
                self.scopes[scope].slots.set(i, val);
            },
            None => {
                self.scopes[scope].names.push(name.clone());
                self.scopes[scope].slots.push(val);
            },
        }
        proof {
            let sc = old(self)@.scopes[scope as int];
            assert(names_view(self.scopes@[scope as int].names@) =~= match found {
                Some(i) => sc.names,
                None => sc.names.push(name@),
            });
            assert(self.scopes@[scope as int]@.slots =~= match found {
                Some(i) => sc.slots.update(i as int, slot_view(val)),
                None => sc.slots.push(slot_view(val)),
            });
            assert(self@.scopes =~= declare(old(self)@, scope as nat, name@, slot_view(val)).scopes);
            if found is None {
                lemma_find_none(sc.names, name@, 0);
                let ns = sc.names.push(name@);
                assert forall|a: int, b: int| 0 <= a < b < ns.len() implies #[trigger] ns[a] != #[trigger] ns[b] by {
                    if b < ns.len() - 1 {
                        assert(ns[a] == sc.names[a] && ns[b] == sc.names[b]);
                    }
                }
            }
        }
        out
    }
    /// The value of `name` seen from scope `scope`.
    pub fn lookup(&self, scope: usize, name: &String) -> (r: Result<LoxValue, RuntimeError>)
        requires
            self.wf(),
        ensures
            value_res(r) == lookup(self@, scope as nat, name@),
            r matches Ok(v) ==> v.wf(),
    {
        let mut s = scope;
        loop
            invariant
                self.wf(),
                lookup(self@, scope as nat, name@) == lookup(self@, s as nat, name@),
            decreases s,
        {
            if s >= self.scopes.len() {
                return Err(RuntimeError::Undeclared);
            }
            let ghost sc = self@.scopes[s as int];
            assert(sc == self.scopes@[s as int]@);
            match find_name(&self.scopes[s].names, name) {
                Some(i) => {
                    assert(sc.slots[i as int] == slot_view(self.scopes@[s as int].slots@[i as int]));
                    return match &self.scopes[s].slots[i] {
                        Some(v) => Ok(v.copy()),
                        None => Err(RuntimeError::UsedBeforeInit),
                    };
                },
                None => match self.scopes[s].parent {
                    Some(p) => {
                        if p < s {
                            s = p;
                        } else {
                            return Err(RuntimeError::Undeclared);
                        }
                    },
                    None => {
                        return Err(RuntimeError::Undeclared);
                    },
                },
            }
        }
    }

    /// Gives `name` the value `val` in the nearest scope of the chain from
    /// `scope` that declares it, and hands `val` back.
    pub fn assign(&mut self, scope: usize, name: &String, val: LoxValue) -> (r: Result<LoxValue, RuntimeError>)
        requires
            old(self).wf(),
            val.wf(),
        ensures
            final(self).wf(),
            final(self)@.scopes.len() == old(self)@.scopes.len(),
            match r {
                Ok(v) => v@ == val@ && v.wf() && assign(old(self)@, scope as nat, name@, val@) == Ok::<
                    EnvV,
                    RuntimeError,
                >(final(self)@),
                Err(e) => assign(old(self)@, scope as nat, name@, val@) == Err::<EnvV, RuntimeError>(e)
                    && final(self)@ == old(self)@,
            },
    {
        let mut s = scope;
        let ghost env0 = self@;
        let mut slot: usize = 0;
        loop
            invariant
                self.wf(),
                self@ == env0,
                assign(env0, scope as nat, name@, val@) == assign(env0, s as nat, name@, val@),
            ensures
                s < self.scopes.len(),
                slot < self.scopes@[s as int].slots.len(),
                find(self@.scopes[s as int].names, name@) == Some(slot as nat),
                self@ == env0,
                self.wf(),
                assign(env0, scope as nat, name@, val@) == assign(env0, s as nat, name@, val@),
            decreases s,
        {
            if s >= self.scopes.len() {
                return Err(RuntimeError::Undeclared);
            }
            let ghost sc = self@.scopes[s as int];
            assert(sc == self.scopes@[s as int]@);
            match find_name(&self.scopes[s].names, name) {
                Some(i) => {
                    slot = i;
                    break ;
                },
                None => match self.scopes[s].parent {
                    Some(p) => {
                        if p < s {
                            s = p;
                        } else {
                            return Err(RuntimeError::Undeclared);
                        }
                    },
                    None => {
                        return Err(RuntimeError::Undeclared);
                    },
                },
            }
        }
        let out = val.copy();
        self.scopes[s].slots.set(slot, Some(val));
        proof {
            let sc = env0.scopes[s as int];
            assert(self.scopes@[s as int]@.names == sc.names);
            assert(self.scopes@[s as int]@.slots =~= sc.slots.update(slot as int, Some(val@)));
            assert(self@.scopes =~= env0.scopes.update(
                s as int,
                ScopeV { slots: sc.slots.update(slot as int, Some(val@)), ..sc },
            ));
        }
        Ok(out)
    }

    /// Adds a function to the table and gives its index.
    pub fn add_function(&mut self, f: Function) -> (r: usize)
        requires
            old(self).wf(),
            f.closure < old(self).scopes.len(),
        ensures
            final(self).wf(),
            final(self)@ == (EnvV { funs: old(self)@.funs.push(f@), ..old(self)@ }),
            r == old(self)@.funs.len(),
    {
        let r = self.functions.len();
        self.functions.push(f);
        assert(self@.funs =~= old(self)@.funs.push(f@));
        r
    }

    /// Records a printed line.
    pub fn print(&mut self, line: String)
        requires
            old(self).wf(),
        ensures
            final(self).wf(),
            final(self)@ == (EnvV { out: old(self)@.out.push(line@), ..old(self)@ }),
    {
        self.output.push(line);
        assert(self@.out =~= old(self)@.out.push(line@));
    }
}

} // verus!
