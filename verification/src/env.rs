//! Nested lexical scopes, and the per-build environment: variables,
//! user-defined procedures, the flat shading-source table, and the flat
//! table of host-registered external procedures.
use vstd::prelude::*;
use vstd::pervasive::unreached;

use std::rc::Rc;

use crate::sexp::Sexp;
use crate::strings::concat3;
use crate::strings::str_eq;
use crate::val::Val;

verus! {

/// A user-defined procedure: its parameter names and its body forms,
/// shared so a call can run the body while the environment is open for
/// new bindings.
pub type FnDef = Rc<(Vec<String>, Vec<Sexp>)>;

/// Relies on `Rc::clone`: a clone of a shared pointer is the same value.
#[verifier::external_body]
pub fn clone_fndef(v: &FnDef) -> (r: FnDef)
    ensures
        r == *v,
{
    v.clone()
}

/// The binding a single frame gives a name: the latest one.
pub open spec fn frame_find<T>(frame: Seq<(String, T)>, name: Seq<char>) -> Option<T>
    decreases frame.len(),
{
    if frame.len() == 0 {
        None
    } else if frame.last().0@ == name {
        Some(frame.last().1)
    } else {
        frame_find(frame.drop_last(), name)
    }
}

/// The binding a stack of frames gives a name: the innermost frame's,
/// outer frames only where inner ones are silent.
pub open spec fn scope_find<T>(frames: Seq<Vec<(String, T)>>, name: Seq<char>) -> Option<T>
    decreases frames.len(),
{
    if frames.len() == 0 {
        None
    } else {
        match frame_find(frames.last()@, name) {
            Some(v) => Some(v),
            None => scope_find(frames.drop_last(), name),
        }
    }
}

/// The message reported for a name no frame binds.
pub open spec fn undefined_msg(name: Seq<char>) -> Seq<char> {
    "Item `"@ + name + "` is not defined"@
}

/// A stack of lexical scopes mapping names to items. Entering a scope
/// pushes a frame; a binding goes to the innermost frame; lookup walks
/// frames innermost to outermost.
#[derive(Debug)]
pub struct Scope<T> {
    items: Vec<Vec<(String, T)>>,
}

impl<T> View for Scope<T> {
    type V = Seq<Vec<(String, T)>>;

    closed spec fn view(&self) -> Seq<Vec<(String, T)>> {
        self.items@
    }
}

impl<T> Scope<T> {
    /// A scope with one empty frame.
    pub fn new() -> (r: Self)
        ensures
            r@.len() == 1,
            r@[0]@ =~= Seq::<(String, T)>::empty(),
    {
        let mut items: Vec<Vec<(String, T)>> = Vec::new();
        items.push(Vec::new());
        Scope { items }
    }

    /// The binding the scope gives a name, or an error naming it.
    pub fn get(&self, name: &str) -> (r: Result<&T, String>)
        ensures
            match r {
                Ok(v) => scope_find(self@, name@) == Some(*v),
                Err(e) => scope_find(self@, name@) is None && e@ == undefined_msg(name@),
            },
    {
        let mut f = self.items.len();
        proof {
            assert(self@.take(f as int) =~= self@);
        }
        while f > 0
            invariant
                0 <= f <= self@.len(),
                scope_find(self@, name@) == scope_find(self@.take(f as int), name@),
            decreases f,
        {
            f -= 1;
            let frame = &self.items[f];
            let mut e = frame.len();
            proof {
                assert(frame@.take(e as int) =~= frame@);
            }
            while e > 0
                invariant
                    0 <= e <= frame@.len(),
                    frame == &self.items@[f as int],
                    0 <= f < self@.len(),
                    scope_find(self@, name@) == scope_find(self@.take(f as int + 1), name@),
                    frame_find(frame@, name@) == frame_find(frame@.take(e as int), name@),
                decreases e,
            {
                e -= 1;
                if str_eq(frame[e].0.as_str(), name) {
                    proof {
                        assert(frame@.take(e as int + 1).last() == frame@[e as int]);
                        assert(frame_find(frame@.take(e as int + 1), name@) == Some(
                            frame@[e as int].1,
                        ));
                        assert(self@.take(f as int + 1).last() == self@[f as int]);
                        assert(self@.take(f as int + 1).drop_last() =~= self@.take(f as int));
                        assert(scope_find(self@, name@) == Some(frame@[e as int].1));
                    }
                    return Ok(&frame[e].1);
                }
                proof {
                    assert(frame@.take(e as int + 1).drop_last() =~= frame@.take(e as int));
                    assert(frame@.take(e as int + 1).last() == frame@[e as int]);
                }
            }
            proof {
                assert(frame@.take(0) =~= Seq::<(String, T)>::empty());
                assert(frame_find(frame@, name@) is None);
                assert(self@.take(f as int + 1).last() == self@[f as int]);
                assert(self@.take(f as int + 1).drop_last() =~= self@.take(f as int));
            }
        }
        proof {
            assert(self@.take(0) =~= Seq::<Vec<(String, T)>>::empty());
        }
        Err(concat3("Item `", name, "` is not defined"))
    }

    /// Binds a name in the innermost frame, shadowing any outer binding.
    pub fn set(&mut self, name: String, item: T)
        requires
            old(self)@.len() >= 1,
        ensures
            final(self)@ == old(self)@.update(
                old(self)@.len() - 1,
                final(self)@.last(),
            ),
            final(self)@.len() == old(self)@.len(),
            final(self)@.last()@ == old(self)@.last()@.push((name, item)),
            forall|i: int| 0 <= i < old(self)@.len() - 1 ==> final(self)@[i] == old(self)@[i],
    {
        let mut frame = match self.items.pop() {
            Some(f) => f,
            None => unreached(),
        };
        frame.push((name, item));
        self.items.push(frame);
        proof {
            assert(self@ =~= old(self)@.update(old(self)@.len() - 1, self@.last()));
        }
    }

    /// Pushes a fresh innermost frame.
    pub fn enter_scope(&mut self)
        ensures
            final(self)@.len() == old(self)@.len() + 1,
            final(self)@.drop_last() == old(self)@,
            final(self)@.last()@ =~= Seq::<(String, T)>::empty(),
    {
        self.items.push(Vec::new());
        proof {
            assert(self@.drop_last() =~= old(self)@);
        }
    }

    /// Pops and returns the innermost frame.
    pub fn exit_scope(&mut self) -> (r: Vec<(String, T)>)
        requires
            old(self)@.len() >= 1,
        ensures
            final(self)@ == old(self)@.drop_last(),
            r == old(self)@.last(),
    {
        match self.items.pop() {
            Some(f) => f,
            None => unreached(),
        }
    }
}

/// Scope shadowing: while an entered scope whose frame binds a name is
/// live, that binding is what lookup finds, whatever outer frames say; a
/// name the frame does not bind reads as before; and dropping the frame
/// restores the stack exactly.
pub proof fn lemma_scope_shadowing<T>(
    frames: Seq<Vec<(String, T)>>,
    inner: Vec<(String, T)>,
    name: Seq<char>,
    v: T,
    other: Seq<char>,
)
    requires
        frame_find(inner@, name) == Some(v),
    ensures
        scope_find(frames.push(inner), name) == Some(v),
        frame_find(inner@, other) is None ==> scope_find(frames.push(inner), other) == scope_find(
            frames,
            other,
        ),
        frames.push(inner).drop_last() == frames,
{
    assert(frames.push(inner).last() == inner);
    assert(frames.push(inner).drop_last() =~= frames);
}

/// The message reported for a shading source no table entry names.
pub open spec fn no_shader_msg(name: Seq<char>) -> Seq<char> {
    "Could not load shader `"@ + name + "`, it is not defined"@
}

/// The message reported for an external procedure nobody registered.
pub open spec fn no_external_msg(name: Seq<char>) -> Seq<char> {
    "Could not load external function `"@ + name + "`, it is not defined"@
}

/// The value of a flat association table at a name: the first entry's.
pub open spec fn table_find<T>(t: Seq<(String, T)>, name: Seq<char>) -> Option<T>
    decreases t.len(),
{
    if t.len() == 0 {
        None
    } else if t[0].0@ == name {
        Some(t[0].1)
    } else {
        table_find(t.skip(1), name)
    }
}

/// The environment one build of a graph runs in. Variables and
/// procedures live in nested scopes; the shading-source table and the
/// host-registered external procedures (each named by the identity the
/// host gave it) are flat and fixed for the build.
#[derive(Debug)]
pub struct Env {
    /// Maps name to value, separate from function scope.
    vars: Scope<Val>,
    /// Maps name to args, body.
    functions: Scope<FnDef>,
    /// Maps shader name to shader source.
    shaders: Vec<(String, String)>,
    /// Maps names to host-registered functions that construct subgraphs.
    external: Vec<(String, u64)>,
}

impl Env {
    /// Both scope stacks are live: at least one frame each, and in step.
    pub closed spec fn wf_internal(&self) -> bool {
        self.vars@.len() >= 1 && self.functions@.len() == self.vars@.len()
    }

    /// Both scope stacks are live: at least one frame each, and in step.
    pub open spec fn wf(&self) -> bool {
        self.wf_internal() && self.vars_view().len() >= 1 && self.fns_view().len()
            == self.vars_view().len()
    }

    /// The variable bindings, innermost frame last.
    pub closed spec fn vars_view(&self) -> Seq<Vec<(String, Val)>> {
        self.vars@
    }

    /// The procedure bindings, innermost frame last.
    pub closed spec fn fns_view(&self) -> Seq<Vec<(String, FnDef)>> {
        self.functions@
    }

    /// The shading-source table.
    pub closed spec fn shaders_view(&self) -> Seq<(String, String)> {
        self.shaders@
    }

    /// The external-procedure table.
    pub closed spec fn external_view(&self) -> Seq<(String, u64)> {
        self.external@
    }

    /// A fresh environment over the given flat tables.
    pub fn new(shaders: Vec<(String, String)>, external: Vec<(String, u64)>) -> (r: Env)
        ensures
            r.wf(),
            r.vars_view().len() == 1,
            r.vars_view()[0]@ =~= Seq::<(String, Val)>::empty(),
            r.fns_view().len() == 1,
            r.fns_view()[0]@ =~= Seq::<(String, FnDef)>::empty(),
            r.shaders_view() == shaders@,
            r.external_view() == external@,
    {
        Env { vars: Scope::new(), functions: Scope::new(), shaders, external }
    }

    /// The value bound to a name, or an error naming it.
    pub fn get(&self, name: &str) -> (r: Result<&Val, String>)
        ensures
            match r {
                Ok(v) => scope_find(self.vars_view(), name@) == Some(*v),
                Err(e) => scope_find(self.vars_view(), name@) is None && e@ == undefined_msg(
                    name@,
                ),
            },
    {
        self.vars.get(name)
    }

    /// Binds a value in the innermost scope.
    pub fn set(&mut self, name: String, item: Val)
        requires
            old(self).wf(),
        ensures
            final(self).wf(),
            final(self).vars_view().len() == old(self).vars_view().len(),
            final(self).vars_view().last()@ == old(self).vars_view().last()@.push((name, item)),
            forall|i: int|
                0 <= i < old(self).vars_view().len() - 1 ==> final(self).vars_view()[i] == old(
                    self,
                ).vars_view()[i],
            final(self).fns_view() == old(self).fns_view(),
            final(self).shaders_view() == old(self).shaders_view(),
            final(self).external_view() == old(self).external_view(),
    {
        self.vars.set(name, item)
    }

    /// The procedure bound to a name, or an error naming it.
    pub fn get_fn(&self, name: &str) -> (r: Result<&FnDef, String>)
        ensures
            match r {
                Ok(v) => scope_find(self.fns_view(), name@) == Some(*v),
                Err(e) => scope_find(self.fns_view(), name@) is None && e@ == undefined_msg(name@),
            },
    {
        self.functions.get(name)
    }

    /// Records a procedure in the innermost scope.
    pub fn set_fn(&mut self, name: String, item: FnDef)
        requires
            old(self).wf(),
        ensures
            final(self).wf(),
            final(self).fns_view().len() == old(self).fns_view().len(),
            final(self).fns_view().last()@ == old(self).fns_view().last()@.push((name, item)),
            forall|i: int|
                0 <= i < old(self).fns_view().len() - 1 ==> final(self).fns_view()[i] == old(
                    self,
                ).fns_view()[i],
            final(self).vars_view() == old(self).vars_view(),
            final(self).shaders_view() == old(self).shaders_view(),
            final(self).external_view() == old(self).external_view(),
    {
        self.functions.set(name, item)
    }

    /// Pushes a scope frame on both stacks, as a procedure call does.
    pub fn enter_scope(&mut self)
        requires
            old(self).wf(),
        ensures
            final(self).wf(),
            final(self).vars_view().len() == old(self).vars_view().len() + 1,
            final(self).vars_view().drop_last() == old(self).vars_view(),
            final(self).vars_view().last()@ =~= Seq::<(String, Val)>::empty(),
            final(self).fns_view().len() == old(self).fns_view().len() + 1,
            final(self).fns_view().drop_last() == old(self).fns_view(),
            final(self).fns_view().last()@ =~= Seq::<(String, FnDef)>::empty(),
            final(self).shaders_view() == old(self).shaders_view(),
            final(self).external_view() == old(self).external_view(),
    {
        self.vars.enter_scope();
        self.functions.enter_scope();
    }

    /// Pops the innermost frame from both stacks, closing a call.
    pub fn exit_scope(&mut self)
        requires
            old(self).wf(),
            old(self).vars_view().len() >= 2,
        ensures
            final(self).wf(),
            final(self).vars_view() == old(self).vars_view().drop_last(),
            final(self).fns_view() == old(self).fns_view().drop_last(),
            final(self).shaders_view() == old(self).shaders_view(),
            final(self).external_view() == old(self).external_view(),
    {
        self.vars.exit_scope();
        self.functions.exit_scope();
    }

    /// The shading source registered under a name, or an error naming it.
    pub fn shader(&self, name: &str) -> (r: Result<&String, String>)
        ensures
            match r {
                Ok(v) => table_find(self.shaders_view(), name@) == Some(*v),
                Err(e) => table_find(self.shaders_view(), name@) is None && e@ == no_shader_msg(
                    name@,
                ),
            },
    {
        let n = self.shaders.len();
        let mut i: usize = 0;
        while i < n
            invariant
                0 <= i <= n,
                n == self.shaders@.len(),
                forall|j: int| 0 <= j < i ==> (#[trigger] self.shaders@[j]).0@ != name@,
            decreases n - i,
        {
            if str_eq(self.shaders[i].0.as_str(), name) {
                proof {
                    lemma_table_find_found(self.shaders@, name@, i as int);
                }
                return Ok(&self.shaders[i].1);
            }
            i += 1;
        }
        proof {
            lemma_table_find_missing(self.shaders@, name@);
        }
        Err(concat3("Could not load shader `", name, "`, it is not defined"))
    }

    /// The external procedure registered under a name, by the identity
    /// its host gave it, or an error naming it.
    pub fn external(&self, name: &str) -> (r: Result<u64, String>)
        ensures
            match r {
                Ok(v) => table_find(self.external_view(), name@) == Some(v),
                Err(e) => table_find(self.external_view(), name@) is None && e@ == no_external_msg(
                    name@,
                ),
            },
    {
        let n = self.external.len();
        let mut i: usize = 0;
        while i < n
            invariant
                0 <= i <= n,
                n == self.external@.len(),
                forall|j: int| 0 <= j < i ==> (#[trigger] self.external@[j]).0@ != name@,
            decreases n - i,
        {
            if str_eq(self.external[i].0.as_str(), name) {
                proof {
                    lemma_table_find_found(self.external@, name@, i as int);
                }
                return Ok(self.external[i].1);
            }
            i += 1;
        }
        proof {
            lemma_table_find_missing(self.external@, name@);
        }
        Err(concat3("Could not load external function `", name, "`, it is not defined"))
    }
}

/// A table lookup finds the first entry carrying the name.
proof fn lemma_table_find_found<T>(t: Seq<(String, T)>, name: Seq<char>, i: int)
    requires
        0 <= i < t.len(),
        t[i].0@ == name,
        forall|j: int| 0 <= j < i ==> (#[trigger] t[j]).0@ != name,
    ensures
        table_find(t, name) == Some(t[i].1),
    decreases i,
{
    if i > 0 {
        lemma_table_find_found(t.skip(1), name, i - 1);
    }
}

/// A table lookup misses when no entry carries the name.
proof fn lemma_table_find_missing<T>(t: Seq<(String, T)>, name: Seq<char>)
    requires
        forall|j: int| 0 <= j < t.len() ==> (#[trigger] t[j]).0@ != name,
    ensures
        table_find(t, name) is None,
    decreases t.len(),
{
    if t.len() > 0 {
        lemma_table_find_missing(t.skip(1), name);
    }
}

} // verus!
