//! The scopes of the interpreter: a stack of frames, each a mapping from names
//! to values. The frame at the bottom is the global one and is always there.
use vstd::prelude::*;
use crate::ast::{TokenLiteral, Value};

verus! {

/// One frame: what each name in it is bound to.
pub type Scope = Map<Seq<char>, Value>;

/// The value that the innermost frame that knows `name` binds it to.
pub open spec fn lookup(scopes: Seq<Scope>, name: Seq<char>) -> Option<Value>
    decreases scopes.len(),
{
    if scopes.len() == 0 {
        None
    } else if scopes.last().contains_key(name) {
        Some(scopes.last()[name])
    } else {
        lookup(scopes.drop_last(), name)
    }
}

/// The index of the innermost frame that knows `name`; that of the global
/// frame where none does.
pub open spec fn holder(scopes: Seq<Scope>, name: Seq<char>) -> int
    decreases scopes.len(),
{
    if scopes.len() <= 1 {
        0
    } else if scopes.last().contains_key(name) {
        scopes.len() - 1
    } else {
        holder(scopes.drop_last(), name)
    }
}

/// The scopes after `name` is bound to `value` in the innermost frame.
pub open spec fn defined(scopes: Seq<Scope>, name: Seq<char>, value: Value) -> Seq<Scope> {
    if scopes.len() == 0 {
        scopes
    } else {
        scopes.update(scopes.len() - 1, scopes.last().insert(name, value))
    }
}

/// The scopes after `value` is assigned to `name`: in the innermost frame that
/// knows the name, or, where none does, in the global frame.
pub open spec fn assigned(scopes: Seq<Scope>, name: Seq<char>, value: Value) -> Seq<Scope> {
    if scopes.len() == 0 {
        scopes
    } else {
        let at = holder(scopes, name);
        scopes.update(at, scopes[at].insert(name, value))
    }
}

/// The mapping that the first `n` bindings of a frame make; a later binding of
/// a name hides an earlier one.
pub open spec fn bindings(names: Seq<String>, values: Seq<TokenLiteral>, n: int) -> Scope
    decreases n,
{
    if n <= 0 {
        Map::empty()
    } else {
        bindings(names, values, n - 1).insert(names[n - 1]@, values[n - 1]@)
    }
}

/// Whether `at` is the last of the first `n` bindings that binds `name`.
pub open spec fn last_binding(names: Seq<String>, n: int, name: Seq<char>, at: int) -> bool {
    &&& 0 <= at < n
    &&& names[at]@ == name
    &&& forall|j: int| at < j < n ==> (#[trigger] names[j])@ != name
}

proof fn lemma_bindings_known(names: Seq<String>, values: Seq<TokenLiteral>, n: int, at: int)
    requires
        last_binding(names, n, names[at]@, at),
    ensures
        bindings(names, values, n).contains_key(names[at]@),
        bindings(names, values, n)[names[at]@] == values[at]@,
    decreases n,
{
    if n - 1 > at {
        lemma_bindings_known(names, values, n - 1, at);
    }
}

proof fn lemma_bindings_unknown(
    names: Seq<String>,
    values: Seq<TokenLiteral>,
    n: int,
    name: Seq<char>,
)
    requires
        forall|j: int| 0 <= j < n ==> (#[trigger] names[j])@ != name,
    ensures
        !bindings(names, values, n).contains_key(name),
    decreases n,
{
    if n > 0 {
        lemma_bindings_unknown(names, values, n - 1, name);
    }
}

proof fn lemma_bindings_prefix(
    names: Seq<String>,
    values: Seq<TokenLiteral>,
    others: Seq<TokenLiteral>,
    n: int,
)
    requires
        forall|j: int| 0 <= j < n ==> values[j]@ == others[j]@,
    ensures
        bindings(names, values, n) == bindings(names, others, n),
    decreases n,
{
    if n > 0 {
        lemma_bindings_prefix(names, values, others, n - 1);
    }
}

proof fn lemma_bindings_changed(
    names: Seq<String>,
    values: Seq<TokenLiteral>,
    n: int,
    at: int,
    value: TokenLiteral,
)
    requires
        last_binding(names, n, names[at]@, at),
        n <= values.len(),
    ensures
        bindings(names, values.update(at, value), n) == bindings(names, values, n).insert(
            names[at]@,
            value@,
        ),
    decreases n,
{
    let changed = values.update(at, value);
    if n - 1 > at {
        lemma_bindings_changed(names, values, n - 1, at, value);
        assert(bindings(names, changed, n) =~= bindings(names, values, n).insert(
            names[at]@,
            value@,
        ));
    } else {
        lemma_bindings_prefix(names, values, changed, n - 1);
        assert(bindings(names, changed, n) =~= bindings(names, values, n).insert(
            names[at]@,
            value@,
        ));
    }
}

/// One frame of the scope stack.
#[derive(Debug)]
pub struct Frame {
    names: Vec<String>,
    values: Vec<TokenLiteral>,
}

impl View for Frame {
    type V = Scope;

    closed spec fn view(&self) -> Scope {
        bindings(self.names@, self.values@, self.names@.len() as int)
    }
}

impl Frame {
    /// The two columns of the frame are of one length.
    pub closed spec fn wf(&self) -> bool {
        self.names@.len() == self.values@.len()
    }

    /// A frame that binds nothing.
    pub fn new() -> (r: Self)
        ensures
            r.wf(),
            r@ == Scope::empty(),
    {
        Frame { names: Vec::new(), values: Vec::new() }
    }

    /// The place of the last binding of `name`.
    fn position(&self, name: &String) -> (r: Option<usize>)
        requires
            self.wf(),
        ensures
            match r {
                Some(at) => last_binding(self.names@, self.names@.len() as int, name@, at as int),
                None => forall|j: int| 0 <= j < self.names@.len() ==> (#[trigger] self.names@[j])@
                    != name@,
            },
    {
        let mut i: usize = self.names.len();
        while i > 0
            invariant
                i <= self.names@.len(),
                forall|j: int| i <= j < self.names@.len() ==> (#[trigger] self.names@[j])@ != name@,
            decreases i,
        {
            i -= 1;
            if self.names[i] == *name {
                return Some(i);
            }
        }
        None
    }

    /// What `name` is bound to.
    pub fn get(&self, name: &String) -> (r: Option<TokenLiteral>)
        requires
            self.wf(),
        ensures
            match r {
                Some(v) => self@.contains_key(name@) && self@[name@] == v@,
                None => !self@.contains_key(name@),
            },
    {
        match self.position(name) {
            Some(at) => {
                proof {
                    lemma_bindings_known(
                        self.names@,
                        self.values@,
                        self.names@.len() as int,
                        at as int,
                    );
                }
                Some(self.values[at].clone())
            },
            None => {
                proof {
                    lemma_bindings_unknown(
                        self.names@,
                        self.values@,
                        self.names@.len() as int,
                        name@,
                    );
                }
                None
            },
        }
    }

    /// Whether `name` is bound.
    pub fn knows(&self, name: &String) -> (r: bool)
        requires
            self.wf(),
        ensures
            r == self@.contains_key(name@),
    {
        match self.position(name) {
            Some(at) => {
                proof {
                    lemma_bindings_known(
                        self.names@,
                        self.values@,
                        self.names@.len() as int,
                        at as int,
                    );
                }
                true
            },
            None => {
                proof {
                    lemma_bindings_unknown(
                        self.names@,
                        self.values@,
                        self.names@.len() as int,
                        name@,
                    );
                }
                false
            },
        }
    }

    /// Binds `name` to `value`.
    pub fn set(&mut self, name: &String, value: TokenLiteral)
        requires
            old(self).wf(),
        ensures
            final(self).wf(),
            final(self)@ == old(self)@.insert(name@, value@),
    {
        match self.position(name) {
            Some(at) => {
                proof {
                    lemma_bindings_changed(
                        self.names@,
                        self.values@,
                        self.names@.len() as int,
                        at as int,
                        value,
                    );
                }
                self.values.set(at, value);
            },
            None => {
                let ghost n = self.names@.len() as int;
                let ghost names = self.names@;
                let ghost values = self.values@;
                self.names.push(name.clone());
                self.values.push(value);
                proof {
                    lemma_bindings_same(names, values, self.names@, self.values@, n);
                }
            },
        }
    }
}

proof fn lemma_bindings_same(
    names: Seq<String>,
    values: Seq<TokenLiteral>,
    more_names: Seq<String>,
    more_values: Seq<TokenLiteral>,
    n: int,
)
    requires
        forall|j: int| 0 <= j < n ==> names[j]@ == more_names[j]@ && values[j]@ == more_values[j]@,
    ensures
        bindings(names, values, n) == bindings(more_names, more_values, n),
    decreases n,
{
    if n > 0 {
        lemma_bindings_same(names, values, more_names, more_values, n - 1);
    }
}

/// The stack of frames. The global frame is at the bottom; a block or a call
/// pushes a frame on entry and pops it on exit.
#[derive(Debug)]
pub struct Environment {
    frames: Vec<Frame>,
}

impl View for Environment {
    type V = Seq<Scope>;

    closed spec fn view(&self) -> Seq<Scope> {
        Seq::new(self.frames@.len(), |i: int| self.frames@[i]@)
    }
}

impl Environment {
    /// There is a global frame, and every frame is well formed.
    pub closed spec fn wf(&self) -> bool {
        &&& self.frames@.len() >= 1
        &&& forall|i: int| 0 <= i < self.frames@.len() ==> (#[trigger] self.frames@[i]).wf()
    }

    /// A well-formed stack has its global frame.
    pub proof fn lemma_has_global(&self)
        requires
            self.wf(),
        ensures
            self@.len() >= 1,
    {
    }

    /// The global frame alone, empty.
    pub fn new() -> (r: Self)
        ensures
            r.wf(),
            r@ == seq![Scope::empty()],
    {
        let mut frames: Vec<Frame> = Vec::new();
        frames.push(Frame::new());
        let r = Environment { frames };
        assert(r@ =~= seq![Scope::empty()]);
        r
    }

    /// The number of frames.
    pub fn depth(&self) -> (r: usize)
        requires
            self.wf(),
        ensures
            r == self@.len(),
            r >= 1,
    {
        self.frames.len()
    }

    /// Enters a scope: a new, empty frame on top.
    pub fn push_frame(&mut self)
        requires
            old(self).wf(),
        ensures
            final(self).wf(),
            final(self)@ == old(self)@.push(Scope::empty()),
    {
        self.frames.push(Frame::new());
        assert(self@ =~= old(self)@.push(Scope::empty()));
    }

    /// Leaves a scope: the top frame goes. The global frame stays.
    pub fn pop_frame(&mut self)
        requires
            old(self).wf(),
        ensures
            final(self).wf(),
            final(self)@ == (if old(self)@.len() > 1 {
                old(self)@.drop_last()
            } else {
                old(self)@
            }),
    {
        if self.frames.len() > 1 {
            self.frames.pop();
            assert(self@ =~= old(self)@.drop_last());
        }
    }

    /// Binds `name` to `value` in the innermost frame.
    pub fn define(&mut self, name: &String, value: TokenLiteral)
        requires
            old(self).wf(),
        ensures
            final(self).wf(),
            final(self)@ == defined(old(self)@, name@, value@),
            final(self)@.len() == old(self)@.len(),
    {
        let top = self.frames.len() - 1;
        self.change(top, name, value);
    }

    /// Binds `name` to `value` in the frame at `at`.
    fn change(&mut self, at: usize, name: &String, value: TokenLiteral)
        requires
            old(self).wf(),
            at < old(self)@.len(),
        ensures
            final(self).wf(),
            final(self)@ == old(self)@.update(
                at as int,
                old(self)@[at as int].insert(name@, value@),
            ),
    {
        let ghost before = self.frames@;
        let frame = &mut self.frames[at];
        frame.set(name, value);
        assert(self@ =~= old(self)@.update(at as int, old(self)@[at as int].insert(name@, value@)));
    }

    /// The index of the innermost frame that knows `name`, or 0.
    fn holder_of(&self, name: &String) -> (r: usize)
        requires
            self.wf(),
        ensures
            r == holder(self@, name@),
            r < self@.len(),
    {
        let mut i: usize = self.frames.len() - 1;
        assert(self@.take(i + 1) =~= self@);
        while i > 0
            invariant
                self.wf(),
                i < self.frames@.len(),
                holder(self@, name@) == holder(self@.take(i + 1), name@),
            decreases i,
        {
            assert(self@.take(i + 1).last() == self.frames@[i as int]@);
            if self.frames[i].knows(name) {
                return i;
            }
            assert(self@.take(i + 1).drop_last() =~= self@.take(i as int));
            i -= 1;
        }
        0
    }

    /// Assigns `value` to `name`: in the innermost frame that knows the name,
    /// or, where none does, in the global frame.
    pub fn assign(&mut self, name: &String, value: TokenLiteral)
        requires
            old(self).wf(),
        ensures
            final(self).wf(),
            final(self)@ == assigned(old(self)@, name@, value@),
            final(self)@.len() == old(self)@.len(),
    {
        let at = self.holder_of(name);
        self.change(at, name, value);
    }

    /// The value of `name` in the innermost frame that knows it.
    pub fn get(&self, name: &String) -> (r: Option<TokenLiteral>)
        requires
            self.wf(),
        ensures
            match r {
                Some(v) => lookup(self@, name@) == Some(v@),
                None => lookup(self@, name@) is None,
            },
    {
        let mut i: usize = self.frames.len();
        assert(self@.take(i as int) =~= self@);
        while i > 0
            invariant
                self.wf(),
                i <= self.frames@.len(),
                lookup(self@, name@) == lookup(self@.take(i as int), name@),
            decreases i,
        {
            assert(self@.take(i as int).last() == self.frames@[i - 1]@);
            assert(self@.take(i as int).drop_last() =~= self@.take(i - 1));
            i -= 1;
            match self.frames[i].get(name) {
                Some(v) => {
                    return Some(v);
                },
                None => {},
            }
        }
        None
    }
}

/// A name that no frame knows is, after an assignment to it, known to the
/// global frame, with the value assigned: whatever frames stood above the
/// global one, the name stays visible when they are gone.
pub proof fn assignment_creates_global(scopes: Seq<Scope>, name: Seq<char>, value: Value)
    requires
        scopes.len() >= 1,
        lookup(scopes, name) is None,
    ensures
        assigned(scopes, name, value).len() == scopes.len(),
        assigned(scopes, name, value)[0] == scopes[0].insert(name, value),
        forall|k: int|
            1 <= k <= scopes.len() ==> lookup(
                #[trigger] assigned(scopes, name, value).take(k),
                name,
            ) == Some(value),
{
    lemma_unknown_everywhere(scopes, name);
    let after = assigned(scopes, name, value);
    assert forall|k: int| 1 <= k <= scopes.len() implies lookup(
        #[trigger] after.take(k),
        name,
    ) == Some(value) by {
        lemma_known_from(after.take(k), name, 0);
    }
}

/// A name that cannot be looked up is known to no frame, and an assignment to
/// it goes to the global frame.
pub proof fn lemma_unknown_everywhere(scopes: Seq<Scope>, name: Seq<char>)
    requires
        lookup(scopes, name) is None,
    ensures
        forall|i: int| 0 <= i < scopes.len() ==> !(#[trigger] scopes[i]).contains_key(name),
        holder(scopes, name) == 0,
    decreases scopes.len(),
{
    if scopes.len() > 0 {
        lemma_unknown_everywhere(scopes.drop_last(), name);
        assert forall|i: int| 0 <= i < scopes.len() implies !(#[trigger] scopes[i]).contains_key(
            name,
        ) by {
            if i < scopes.len() - 1 {
                assert(scopes.drop_last()[i] == scopes[i]);
            }
        }
    }
}

/// A name that the frame at `at` knows, and no frame above it, has the value
/// that this frame binds it to.
pub proof fn lemma_known_from(scopes: Seq<Scope>, name: Seq<char>, at: int)
    requires
        0 <= at < scopes.len(),
        scopes[at].contains_key(name),
        forall|j: int| at < j < scopes.len() ==> !(#[trigger] scopes[j]).contains_key(name),
    ensures
        lookup(scopes, name) == Some(scopes[at][name]),
    decreases scopes.len(),
{
    if at < scopes.len() - 1 {
        assert forall|j: int| at < j < scopes.drop_last().len() implies !(
        #[trigger] scopes.drop_last()[j]).contains_key(name) by {
            assert(scopes.drop_last()[j] == scopes[j]);
        }
        lemma_known_from(scopes.drop_last(), name, at);
    }
}

} // verus!
