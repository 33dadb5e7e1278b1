//! Variable scopes: a stack of frames, the global frame at the bottom.
//!
//! Entering a block pushes a frame and leaving it pops that frame, so a
//! frame lives exactly as long as its block runs. Each frame binds a name at
//! most once; an inner frame may bind a name again, shadowing the outer one.
use vstd::prelude::*;

use crate::error::Error;
use crate::text::text_of_str;
use crate::token::{Token, Val, Value};

verus! {

/// A frame as mathematics sees it: its bindings in order of definition. A
/// missing value marks a variable declared without an initializer.
pub type FrameView = Seq<(Seq<char>, Option<Val>)>;

/// Where `name` is bound in `f`, or -1.
pub open spec fn find(f: FrameView, name: Seq<char>) -> int
    decreases f.len(),
{
    if f.len() == 0 {
        -1
    } else if f.last().0 == name {
        f.len() - 1
    } else {
        find(f.drop_last(), name)
    }
}

/// The innermost frame of `env` that binds `name`, or -1.
pub open spec fn scope_of(env: Seq<FrameView>, name: Seq<char>) -> int
    decreases env.len(),
{
    if env.len() == 0 {
        -1
    } else if find(env.last(), name) >= 0 {
        env.len() - 1
    } else {
        scope_of(env.drop_last(), name)
    }
}

/// What `name` is bound to in the innermost frame that binds it; `None`
/// where no frame does.
pub open spec fn lookup(env: Seq<FrameView>, name: Seq<char>) -> Option<Option<Val>> {
    let i = scope_of(env, name);
    if i < 0 {
        None
    } else {
        Some(env[i][find(env[i], name)].1)
    }
}

/// Binds `name` to `value` in the innermost frame, replacing a binding of
/// the same name there.
pub open spec fn define(env: Seq<FrameView>, name: Seq<char>, value: Option<Val>) -> Seq<FrameView> {
    let f = env.last();
    let j = find(f, name);
    let g = if j >= 0 {
        f.update(j, (name, value))
    } else {
        f.push((name, value))
    };
    env.update(env.len() - 1, g)
}

/// Sets `name` to `value` in the innermost frame that binds it; `None`
/// where no frame does. Assignment never creates a binding.
pub open spec fn assign(env: Seq<FrameView>, name: Seq<char>, value: Val) -> Option<Seq<FrameView>> {
    let i = scope_of(env, name);
    if i < 0 {
        None
    } else {
        Some(env.update(i, env[i].update(find(env[i], name), (name, Some(value)))))
    }
}

pub proof fn lemma_find(f: FrameView, name: Seq<char>)
    ensures
        -1 <= find(f, name) < f.len(),
        find(f, name) >= 0 ==> f[find(f, name)].0 == name,
    decreases f.len(),
{
    if f.len() > 0 && f.last().0 != name {
        lemma_find(f.drop_last(), name);
    }
}

pub proof fn lemma_scope_of(env: Seq<FrameView>, name: Seq<char>)
    ensures
        -1 <= scope_of(env, name) < env.len(),
        scope_of(env, name) >= 0 ==> find(env[scope_of(env, name)], name) >= 0,
    decreases env.len(),
{
    if env.len() > 0 && find(env.last(), name) < 0 {
        lemma_scope_of(env.drop_last(), name);
    }
}

/// `Undefined variable '<name>'.`
pub open spec fn undefined_message(name: Seq<char>) -> Seq<char> {
    "Undefined variable '"@ + name + "'."@
}

/// The value of a binding, if any, is well formed.
pub open spec fn binding_wf(b: (Seq<char>, Option<Val>)) -> bool {
    match b.1 {
        Some(v) => v.wf(),
        None => true,
    }
}

/// All values bound are well formed.
pub open spec fn env_wf(env: Seq<FrameView>) -> bool {
    forall|i: int, j: int|
        0 <= i < env.len() && 0 <= j < env[i].len() ==> binding_wf(#[trigger] env[i][j])
}

/// One variable of a frame.
pub struct Binding {
    pub name: String,
    pub value: Option<Value>,
}

impl View for Binding {
    type V = (Seq<char>, Option<Val>);

    open spec fn view(&self) -> (Seq<char>, Option<Val>) {
        (
            self.name@,
            match self.value {
                Some(v) => Some(v@),
                None => None,
            },
        )
    }
}

pub open spec fn frame_view(f: Seq<Binding>) -> FrameView {
    f.map_values(|b: Binding| b@)
}

pub struct Environment {
    frames: Vec<Vec<Binding>>,
}

impl View for Environment {
    type V = Seq<FrameView>;

    closed spec fn view(&self) -> Seq<FrameView> {
        self.frames@.map_values(|f: Vec<Binding>| frame_view(f@))
    }
}

fn copy_value(v: &Option<Value>) -> (r: Option<Value>)
    ensures
        match (r, *v) {
            (Some(a), Some(b)) => a@ == b@,
            (None, None) => true,
            _ => false,
        },
{
    match v {
        Some(x) => Some(x.duplicate()),
        None => None,
    }
}

/// Where `name` is bound in `f`.
fn find_in(f: &Vec<Binding>, name: &String) -> (r: Option<usize>)
    ensures
        match r {
            Some(j) => j == find(frame_view(f@), name@) && j < f@.len(),
            None => find(frame_view(f@), name@) == -1,
        },
{
    proof {
        lemma_find(frame_view(f@), name@);
    }
    let mut k = f.len();
    assert(f@.take(k as int) =~= f@);
    while k > 0
        invariant
            k <= f@.len(),
            find(frame_view(f@), name@) == find(frame_view(f@.take(k as int)), name@),
        decreases k,
    {
        let ghost fv = frame_view(f@.take(k as int));
        assert(fv.last() == f@[k - 1]@);
        assert(fv.drop_last() =~= frame_view(f@.take(k - 1)));
        if f[k - 1].name == *name {
            return Some(k - 1);
        }
        k = k - 1;
    }
    assert(frame_view(f@.take(0)) =~= Seq::empty());
    None
}

impl Environment {
    /// There is a global frame, and every bound value is well formed.
    pub open spec fn inv(&self) -> bool {
        &&& self@.len() > 0
        &&& env_wf(self@)
    }

    /// A global frame alone, or a new frame inside `enclosing`.
    pub fn new(enclosing: Option<Environment>) -> (r: Environment)
        requires
            enclosing matches Some(e) ==> e.inv(),
        ensures
            r.inv(),
            match enclosing {
                Some(e) => r@ == e@.push(Seq::empty()),
                None => r@ == seq![Seq::<(Seq<char>, Option<Val>)>::empty()],
            },
    {
        match enclosing {
            Some(mut e) => {
                e.push_frame();
                e
            },
            None => {
                let mut frames: Vec<Vec<Binding>> = Vec::new();
                frames.push(Vec::new());
                let r = Environment { frames };
                assert(r@ =~= seq![Seq::<(Seq<char>, Option<Val>)>::empty()]) by {
                    assert(frame_view(r.frames@[0]@) =~= Seq::empty());
                }
                r
            },
        }
    }

    /// Enters a block: a new, empty innermost frame.
    pub fn push_frame(&mut self)
        requires
            old(self).inv(),
        ensures
            final(self).inv(),
            final(self)@ == old(self)@.push(Seq::empty()),
    {
        let ghost before = self.frames@;
        self.frames.push(Vec::new());
        assert(self@ =~= old(self)@.push(Seq::empty())) by {
            assert(frame_view(self.frames@.last()@) =~= Seq::empty());
            assert forall|i: int| 0 <= i < before.len() implies self@[i] == old(self)@[i] by {
                assert(self.frames@[i] == before[i]);
            }
        }
    }

    /// Leaves a block: drops the innermost frame.
    pub fn pop_frame(&mut self)
        requires
            old(self).inv(),
            old(self)@.len() > 1,
        ensures
            final(self).inv(),
            final(self)@ == old(self)@.drop_last(),
    {
        let ghost before = self.frames@;
        self.frames.pop();
        assert(self@ =~= old(self)@.drop_last()) by {
            assert forall|i: int| 0 <= i < self.frames@.len() implies self@[i] == old(self)@[i] by {
                assert(self.frames@[i] == before[i]);
            }
        }
    }

    /// Binds `name` in the innermost frame; no value marks it uninitialized.
    pub fn define(&mut self, name: String, value: Option<&Value>)
        requires
            old(self).inv(),
            value matches Some(v) ==> v@.wf(),
        ensures
            final(self).inv(),
            final(self)@.len() == old(self)@.len(),
            final(self)@ == define(
                old(self)@,
                name@,
                match value {
                    Some(v) => Some(v@),
                    None => None,
                },
            ),
    {
        let ghost vv = match value {
            Some(v) => Some(v@),
            None => None,
        };
        let v = match value {
            Some(x) => Some(x.duplicate()),
            None => None,
        };
        let last = self.frames.len() - 1;
        let ghost env = self@;
        assert(self.frames@[last as int]@.map_values(|b: Binding| b@) == env.last());
        let found = find_in(&self.frames[last], &name);
        let ghost nm = name@;
        let mut frame = Vec::new();
        std::mem::swap(&mut frame, &mut self.frames[last]);
        let ghost oldf = frame@;
        match found {
            Some(j) => {
                frame.set(j, Binding { name, value: v });
                assert(frame_view(frame@) =~= frame_view(oldf).update(j as int, (nm, vv)));
            },
            None => {
                frame.push(Binding { name, value: v });
                assert(frame_view(frame@) =~= frame_view(oldf).push((nm, vv)));
            },
        }
        self.frames.set(last, frame);
        assert(self@ =~= define(env, nm, vv)) by {
            assert forall|i: int| 0 <= i < last implies self@[i] == env[i] by {
                assert(self.frames@[i] == old(self).frames@[i]);
            }
        }
        assert(env_wf(self@)) by {
            assert forall|i: int, j: int| 0 <= i < self@.len() && 0 <= j < self@[i].len()
                implies binding_wf(#[trigger] self@[i][j]) by {
                if i < last {
                    assert(self@[i] == env[i]);
                } else if j < oldf.len() && self@[i][j] == env[i][j] {
                }
            }
        }
    }

    /// The binding of `name` in the innermost frame that has one: `None`
    /// inside for a variable declared without a value.
    pub fn get(&self, name: &Token) -> (r: Result<Option<Value>, Error>)
        requires
            self.inv(),
        ensures
            match lookup(self@, name.lexeme@) {
                None => r matches Err(e) && e.is_fault(name@, undefined_message(name.lexeme@)),
                Some(None) => r matches Ok(None),
                Some(Some(v)) => r matches Ok(Some(x)) && x@ == v,
            },
            r matches Ok(Some(x)) ==> x@.wf(),
    {
        let ghost env = self@;
        let mut i = self.frames.len();
        assert(env.take(i as int) =~= env);
        proof {
            lemma_scope_of(env, name.lexeme@);
        }
        while i > 0
            invariant
                i <= self.frames@.len(),
                env == self@,
                self.inv(),
                scope_of(env, name.lexeme@) == scope_of(env.take(i as int), name.lexeme@),
            decreases i,
        {
            assert(env.take(i as int).drop_last() =~= env.take(i - 1));
            assert(env.take(i as int).last() == frame_view(self.frames@[i - 1]@));
            match find_in(&self.frames[i - 1], &name.lexeme) {
                Some(j) => {
                    let b = &self.frames[i - 1][j];
                    assert(env[i - 1][j as int] == b@);
                    assert(binding_wf(env[i - 1][j as int]));
                    return Ok(copy_value(&b.value));
                },
                None => {},
            }
            i = i - 1;
        }
        Err(undefined_variable_error(name))
    }

    /// Sets `name` in the innermost frame that binds it; an error where
    /// none does.
    pub fn assign(&mut self, name: &Token, value: &Value) -> (r: Result<(), Error>)
        requires
            old(self).inv(),
            value@.wf(),
        ensures
            final(self).inv(),
            final(self)@.len() == old(self)@.len(),
            match assign(old(self)@, name.lexeme@, value@) {
                None => final(self)@ == old(self)@ && (r matches Err(e) && e.is_fault(
                    name@,
                    undefined_message(name.lexeme@),
                )),
                Some(env) => r is Ok && final(self)@ == env,
            },
    {
        let ghost env = self@;
        let mut i = self.frames.len();
        assert(env.take(i as int) =~= env);
        proof {
            lemma_scope_of(env, name.lexeme@);
        }
        while i > 0
            invariant
                i <= self.frames@.len(),
                env == self@,
                self.inv(),
                self.frames@ == old(self).frames@,
                value@.wf(),
                env_wf(env),
                scope_of(env, name.lexeme@) == scope_of(env.take(i as int), name.lexeme@),
            decreases i,
        {
            assert(env.take(i as int).drop_last() =~= env.take(i - 1));
            assert(env.take(i as int).last() == frame_view(self.frames@[i - 1]@));
            match find_in(&self.frames[i - 1], &name.lexeme) {
                Some(j) => {
                    let k = i - 1;
                    let mut frame = Vec::new();
                    std::mem::swap(&mut frame, &mut self.frames[k]);
                    let ghost oldf = frame@;
                    let ghost nv = (name.lexeme@, Some(value@));
                    frame.set(j, Binding { name: name.lexeme.clone(), value: Some(value.duplicate()) });
                    assert(frame_view(frame@) =~= frame_view(oldf).update(j as int, nv));
                    self.frames.set(k, frame);
                    assert(self@ =~= env.update(k as int, env[k as int].update(j as int, nv))) by {
                        assert forall|x: int| 0 <= x < env.len() && x != k implies self@[x] == env[x] by {
                            assert(self.frames@[x] == old(self).frames@[x]);
                        }
                    }
                    assert(env_wf(self@)) by {
                        assert forall|x: int, y: int| 0 <= x < self@.len() && 0 <= y < self@[x].len()
                            implies binding_wf(#[trigger] self@[x][y]) by {
                            if x != k {
                                assert(self@[x] == env[x]);
                                assert(binding_wf(env[x][y]));
                            } else if y != j {
                                assert(self@[x][y] == env[x][y]);
                                assert(binding_wf(env[x][y]));
                            } else {
                                assert(self@[x][y] == nv);
                            }
                        }
                    }
                    return Ok(());
                },
                None => {},
            }
            i = i - 1;
        }
        Err(undefined_variable_error(name))
    }
}

fn undefined_variable_error(name: &Token) -> (r: Error)
    ensures
        r.is_fault(name@, undefined_message(name.lexeme@)),
{
    let mut message = text_of_str("Undefined variable '");
    message.append(name.lexeme.as_str());
    message.append("'.");
    Error::RuntimeError { token: name.duplicate(), message }
}

} // verus!
