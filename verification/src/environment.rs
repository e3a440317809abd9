use vstd::prelude::*;

use crate::expressions::Var;
use crate::lox_error::{LoxError, SpecLoxError};

verus! {

/// A binding of a name to a value, in the frame `owner`.
struct Binding<V> {
    name: String,
    value: V,
    owner: usize,
}

/// The variables of a running program: a store of frames (scopes), each with
/// its bindings and the frame that encloses it, and the frame that is current.
/// Frames are never removed, so a frame kept aside (by a closure) stays valid
/// and sees later assignments to the frames that enclose it.
pub struct Environment<V> {
    bindings: Vec<Binding<V>>,
    parents: Vec<Option<usize>>,
    current: usize,
}

/// The last of the first `n` bindings that binds `name` in frame `f`.
spec fn find_binding<V>(bs: Seq<Binding<V>>, f: int, name: Seq<char>, n: int) -> Option<int>
    decreases n,
{
    if n <= 0 || n > bs.len() {
        None
    } else if bs[n - 1].owner == f && bs[n - 1].name@ == name {
        Some(n - 1)
    } else {
        find_binding(bs, f, name, n - 1)
    }
}

/// The value that the bindings `bs` give to `name` in frame `f`.
spec fn local_of<V>(bs: Seq<Binding<V>>, f: int, name: Seq<char>) -> Option<V> {
    match find_binding(bs, f, name, bs.len() as int) {
        Some(i) => Some(bs[i].value),
        None => None,
    }
}

/// The message of a name that no frame binds.
pub open spec fn undefined_message(name: Seq<char>) -> Seq<char> {
    "Undefined variable '"@ + name + "'."@
}

/// A binding that is found is one of the first `n`, of that frame and name.
proof fn lemma_found<V>(bs: Seq<Binding<V>>, f: int, name: Seq<char>, n: int)
    ensures
        find_binding(bs, f, name, n) matches Some(j) ==> 0 <= j < n && j < bs.len()
            && bs[j].owner == f && bs[j].name@ == name,
    decreases n,
{
    if n > 0 && n <= bs.len() {
        lemma_found(bs, f, name, n - 1);
    }
}

/// Bindings of the same frames and names are found at the same places.
proof fn lemma_find_agree<V>(a: Seq<Binding<V>>, b: Seq<Binding<V>>, f: int, name: Seq<char>, n: int)
    requires
        n <= a.len(),
        n <= b.len(),
        forall|j: int| 0 <= j < n ==> a[j].owner == b[j].owner && a[j].name@ == b[j].name@,
    ensures
        find_binding(a, f, name, n) == find_binding(b, f, name, n),
    decreases n,
{
    if n > 0 {
        lemma_find_agree(a, b, f, name, n - 1);
    }
}

/// A new value in place of the one of the binding found for `name` in frame
/// `f` changes only what `f` binds to `name`.
proof fn lemma_replace<V>(a: Seq<Binding<V>>, b: Seq<Binding<V>>, i: int, f: int, name: Seq<char>)
    requires
        find_binding(a, f, name, a.len() as int) == Some(i),
        b.len() == a.len(),
        b[i].owner == f,
        b[i].name@ == name,
        forall|j: int| 0 <= j < a.len() && j != i ==> b[j] == a[j],
    ensures
        forall|g: int, k: Seq<char>|
            #[trigger] local_of(b, g, k) == if g == f && k == name {
                Some(b[i].value)
            } else {
                local_of(a, g, k)
            },
{
    lemma_found(a, f, name, a.len() as int);
    assert forall|g: int, k: Seq<char>|
        #[trigger] local_of(b, g, k) == if g == f && k == name {
            Some(b[i].value)
        } else {
            local_of(a, g, k)
        } by {
        lemma_find_agree(a, b, g, k, a.len() as int);
        lemma_found(a, g, k, a.len() as int);
    }
}

/// A new binding of `name` in frame `f`, where `f` bound no value to it,
/// changes only what `f` binds to `name`.
proof fn lemma_append<V>(a: Seq<Binding<V>>, b: Seq<Binding<V>>, f: int, name: Seq<char>)
    requires
        b.len() == a.len() + 1,
        b[a.len() as int].owner == f,
        b[a.len() as int].name@ == name,
        forall|j: int| 0 <= j < a.len() ==> b[j] == a[j],
    ensures
        forall|g: int, k: Seq<char>|
            #[trigger] local_of(b, g, k) == if g == f && k == name {
                Some(b[a.len() as int].value)
            } else {
                local_of(a, g, k)
            },
{
    assert forall|g: int, k: Seq<char>|
        #[trigger] local_of(b, g, k) == if g == f && k == name {
            Some(b[a.len() as int].value)
        } else {
            local_of(a, g, k)
        } by {
        lemma_find_agree(a, b, g, k, a.len() as int);
        lemma_found(a, g, k, a.len() as int);
    }
}

impl<V> Environment<V> {
    /// There is a current frame, each frame is enclosed by an older one, and
    /// each binding belongs to a frame.
    pub closed spec fn wf(&self) -> bool {
        &&& 1 <= self.parents@.len()
        &&& self.current < self.parents@.len()
        &&& forall|f: int|
            0 <= f < self.parents@.len() ==> match #[trigger] self.parents@[f] {
                Some(e) => e < f,
                None => true,
            }
        &&& forall|i: int|
            0 <= i < self.bindings@.len() ==> #[trigger] self.bindings@[i].owner
                < self.parents@.len()
    }

    /// The number of frames.
    pub closed spec fn frame_count(&self) -> nat {
        self.parents@.len()
    }

    /// The current frame.
    pub closed spec fn current_frame(&self) -> int {
        self.current as int
    }

    /// The frame that encloses frame `f`, if any.
    pub closed spec fn parent(&self, f: int) -> Option<int> {
        if 0 <= f < self.parents@.len() {
            match self.parents@[f] {
                Some(e) => Some(e as int),
                None => None,
            }
        } else {
            None
        }
    }

    /// The value that frame `f` itself binds to `name`, if any.
    pub closed spec fn local(&self, f: int, name: Seq<char>) -> Option<V> {
        local_of(self.bindings@, f, name)
    }

    /// The frame whose binding of `name` is seen from frame `f`: `f` itself,
    /// or else the one seen from the frame that encloses it.
    pub open spec fn resolve(&self, f: int, name: Seq<char>) -> Option<int>
        decreases f,
    {
        if !(0 <= f < self.frame_count()) {
            None
        } else if self.local(f, name) is Some {
            Some(f)
        } else {
            match self.parent(f) {
                Some(e) => if 0 <= e < f {
                    self.resolve(e, name)
                } else {
                    None
                },
                None => None,
            }
        }
    }

    /// The value of `name` seen from frame `f`.
    pub open spec fn lookup(&self, f: int, name: Seq<char>) -> Option<V> {
        match self.resolve(f, name) {
            Some(g) => self.local(g, name),
            None => None,
        }
    }

    /// The frame `d` steps out from frame `f`.
    pub open spec fn ancestor(&self, f: int, d: nat) -> Option<int>
        decreases d,
    {
        if !(0 <= f < self.frame_count()) {
            None
        } else if d == 0 {
            Some(f)
        } else {
            match self.parent(f) {
                Some(e) => self.ancestor(e, (d - 1) as nat),
                None => None,
            }
        }
    }

    /// From `self` to `other`, the frames stay, with what encloses them.
    pub open spec fn same_frames(&self, other: &Self) -> bool {
        &&& other.frame_count() == self.frame_count()
        &&& forall|f: int| #[trigger] other.parent(f) == self.parent(f)
    }

    /// `other` is `self` with `name` bound to `value` in frame `f`, and
    /// nothing else changed.
    pub open spec fn rebinds(&self, other: &Self, f: int, name: Seq<char>, value: V) -> bool {
        &&& self.same_frames(other)
        &&& other.current_frame() == self.current_frame()
        &&& forall|g: int, k: Seq<char>|
            #[trigger] other.local(g, k) == if g == f && k == name {
                Some(value)
            } else {
                self.local(g, k)
            }
    }

    /// Frames that are enclosed alike and that bind `name` alike see its
    /// binding in the same frame.
    proof fn lemma_resolve_same(a: &Self, b: &Self, f: int, name: Seq<char>)
        requires
            0 <= f < a.frame_count(),
            f < b.frame_count(),
            forall|g: int|
                0 <= g <= f ==> a.parent(g) == b.parent(g) && (#[trigger] a.local(g, name) is Some)
                    == (b.local(g, name) is Some),
        ensures
            a.resolve(f, name) == b.resolve(f, name),
        decreases f,
    {
        if a.local(f, name) is None {
            match a.parent(f) {
                Some(e) => if 0 <= e < f {
                    Self::lemma_resolve_same(a, b, e, name);
                },
                None => {},
            }
        }
    }

    /// What a well-formed store holds: there is a current frame, and every
    /// frame is enclosed, if at all, by an older one.
    pub proof fn lemma_wf_facts(&self)
        requires
            self.wf(),
        ensures
            1 <= self.frame_count(),
            0 <= self.current_frame() < self.frame_count(),
            forall|f: int| #[trigger] self.parent(f) matches Some(e) ==> 0 <= e < f,
    {
    }

    /// The frame `d` steps out is reached by following the enclosing frame
    /// exactly `d` times: no step is the frame itself, one step is its
    /// enclosing frame, and `d + 1` steps are `d` steps from the enclosing
    /// frame.
    pub proof fn law_ancestor_steps(e: &Self, f: int, d: nat)
        requires
            e.wf(),
            0 <= f < e.frame_count(),
        ensures
            e.ancestor(f, 0) == Some(f),
            e.ancestor(f, 1) == e.parent(f),
            e.ancestor(f, d + 1) == match e.parent(f) {
                Some(g) => e.ancestor(g, d),
                None => None,
            },
    {
        e.lemma_wf_facts();
        if let Some(g) = e.parent(f) {
            assert(e.ancestor(g, 0) == Some(g));
        }
    }

    /// Stepping out `a` frames and then `b` more is stepping out `a + b`.
    pub proof fn law_ancestor_add(e: &Self, f: int, a: nat, b: nat)
        requires
            e.wf(),
        ensures
            e.ancestor(f, a + b) == match e.ancestor(f, a) {
                Some(g) => e.ancestor(g, b),
                None => None,
            },
        decreases a,
    {
        e.lemma_wf_facts();
        if 0 <= f < e.frame_count() && a > 0 {
            if let Some(g) = e.parent(f) {
                Self::law_ancestor_add(e, g, (a - 1) as nat, b);
                assert((a + b - 1) as nat == ((a - 1) as nat + b) as nat);
            }
        }
    }

    /// A frame that binds nothing of its own to `name` sees of `name` what
    /// the frame enclosing it sees, or nothing when no frame encloses it.
    pub proof fn law_frame_sees_enclosing(e: &Self, f: int, name: Seq<char>)
        requires
            e.wf(),
            0 <= f < e.frame_count(),
            e.local(f, name) is None,
        ensures
            match e.parent(f) {
                Some(g) => e.lookup(f, name) == e.lookup(g, name),
                None => e.lookup(f, name) is None,
            },
    {
    }

    /// A frame `f` enclosed by frame `g` and binding nothing of its own (as
    /// `new_with_enclosing` and `enter` make it) keeps seeing what `g` sees
    /// once a name is bound in another frame than `f` (by `define` or
    /// `assign`).
    pub proof fn law_enclosed_frame_follows(
        a: &Self,
        b: &Self,
        f: int,
        g: int,
        h: int,
        name: Seq<char>,
        value: V,
    )
        requires
            a.wf(),
            b.wf(),
            0 <= f < a.frame_count(),
            a.parent(f) == Some(g),
            forall|k: Seq<char>| #[trigger] a.local(f, k) is None,
            a.rebinds(b, h, name, value),
            h != f,
        ensures
            forall|k: Seq<char>| #[trigger] b.local(f, k) is None,
            b.parent(f) == Some(g),
            forall|k: Seq<char>| #[trigger] b.lookup(f, k) == b.lookup(g, k),
    {
        assert forall|k: Seq<char>| #[trigger] b.local(f, k) is None by {
            assert(b.local(f, k) == a.local(f, k));
        }
        assert forall|k: Seq<char>| #[trigger] b.lookup(f, k) == b.lookup(g, k) by {
            assert(b.local(f, k) == a.local(f, k));
            Self::law_frame_sees_enclosing(b, f, k);
        }
    }

    /// Where frame `g` saw the binding of `name` in frame `f`, it still does
    /// once `f` binds `name` to another value.
    proof fn lemma_rebind_resolve(a: &Self, b: &Self, f: int, name: Seq<char>, value: V, g: int)
        requires
            a.rebinds(b, f, name, value),
            a.resolve(g, name) == Some(f),
        ensures
            b.resolve(g, name) == Some(f),
        decreases g,
    {
        if g != f {
            assert(a.local(g, name) is None);
            assert(b.local(g, name) == a.local(g, name));
            match a.parent(g) {
                Some(e) => if 0 <= e < g {
                    Self::lemma_rebind_resolve(a, b, f, name, value, e);
                },
                None => {},
            }
        }
    }

    /// Once `name` is bound to `value` in frame `f` (by `define` or
    /// `assign`), `f` and every frame that saw the binding of `name` in `f`
    /// see `value`; and what every frame sees of every other name stays.
    pub proof fn law_rebind_lookup(a: &Self, b: &Self, f: int, name: Seq<char>, value: V)
        requires
            a.rebinds(b, f, name, value),
            0 <= f < a.frame_count(),
        ensures
            b.lookup(f, name) == Some(value),
            forall|g: int| a.resolve(g, name) == Some(f) ==> #[trigger] b.lookup(g, name) == Some(value),
            forall|g: int, k: Seq<char>| k != name ==> #[trigger] b.lookup(g, k) == a.lookup(g, k),
    {
        assert forall|g: int| a.resolve(g, name) == Some(f) implies #[trigger] b.lookup(g, name)
            == Some(value) by {
            Self::lemma_rebind_resolve(a, b, f, name, value, g);
        }
        assert forall|g: int, k: Seq<char>| k != name implies #[trigger] b.lookup(g, k)
            == a.lookup(g, k) by {
            if 0 <= g < a.frame_count() {
                Self::lemma_resolve_same(a, b, g, k);
            }
        }
    }

    /// The index of the binding of `name` in frame `f`, if any.
    fn find(&self, f: usize, name: &String) -> (r: Option<usize>)
        ensures
            match r {
                Some(j) => find_binding(self.bindings@, f as int, name@, self.bindings@.len() as int)
                    == Some(j as int),
                None => find_binding(self.bindings@, f as int, name@, self.bindings@.len() as int)
                    is None,
            },
    {
        let mut n = self.bindings.len();
        while n > 0
            invariant
                n <= self.bindings@.len(),
                find_binding(self.bindings@, f as int, name@, n as int) == find_binding(
                    self.bindings@,
                    f as int,
                    name@,
                    self.bindings@.len() as int,
                ),
            decreases n,
        {
            if self.bindings[n - 1].owner == f && self.bindings[n - 1].name == *name {
                return Some(n - 1);
            }
            n = n - 1;
        }
        None
    }

    /// The frame whose binding of `name` is seen from frame `f`, with the
    /// index of that binding.
    fn locate(&self, f: usize, name: &String) -> (r: Option<(usize, usize)>)
        requires
            self.wf(),
            (f as int) < self.frame_count(),
        ensures
            match self.resolve(f as int, name@) {
                Some(g) => r is Some && r.unwrap().0 == g && find_binding(
                    self.bindings@,
                    g,
                    name@,
                    self.bindings@.len() as int,
                ) == Some(r.unwrap().1 as int),
                None => r is None,
            },
    {
        let mut g = f;
        loop
            invariant
                self.wf(),
                g < self.parents@.len(),
                self.resolve(g as int, name@) == self.resolve(f as int, name@),
            decreases g,
        {
            match self.find(g, name) {
                Some(i) => {
                    proof {
                        lemma_found(self.bindings@, g as int, name@, self.bindings@.len() as int);
                    }
                    return Some((g, i));
                },
                None => {},
            }
            match self.parents[g] {
                Some(e) => {
                    g = e;
                },
                None => {
                    return None;
                },
            }
        }
    }

    /// A store with one empty frame, the global one, which is current.
    pub fn new() -> (env: Self)
        ensures
            env.wf(),
            env.frame_count() == 1,
            env.current_frame() == 0,
            env.parent(0) is None,
            forall|f: int, name: Seq<char>| env.local(f, name) is None,
    {
        let mut parents: Vec<Option<usize>> = Vec::new();
        parents.push(None);
        Environment { bindings: Vec::new(), parents, current: 0 }
    }

    /// `enclosing`, with a new empty frame enclosed by its current one; the
    /// new frame is current.
    pub fn new_with_enclosing(enclosing: Self) -> (env: Self)
        requires
            enclosing.wf(),
        ensures
            env.wf(),
            env.frame_count() == enclosing.frame_count() + 1,
            env.current_frame() == enclosing.frame_count(),
            env.parent(env.current_frame()) == Some(enclosing.current_frame()),
            forall|f: int| f != env.current_frame() ==> #[trigger] env.parent(f) == enclosing.parent(f),
            forall|f: int, name: Seq<char>|
                #[trigger] env.local(f, name) == if f == env.current_frame() {
                    None
                } else {
                    enclosing.local(f, name)
                },
            forall|name: Seq<char>|
                #[trigger] env.lookup(env.current_frame(), name) == enclosing.lookup(
                    enclosing.current_frame(),
                    name,
                ),
    {
        let mut env = enclosing;
        let cur = env.current();
        env.enter(cur);
        env
    }

    /// The current frame.
    pub fn current(&self) -> (f: usize)
        ensures
            f == self.current_frame(),
    {
        self.current
    }

    /// The number of frames.
    pub fn frame_total(&self) -> (n: usize)
        ensures
            n == self.frame_count(),
    {
        self.parents.len()
    }

    /// Makes a new empty frame, enclosed by frame `enclosing`, the current one.
    pub fn enter(&mut self, enclosing: usize)
        requires
            old(self).wf(),
            (enclosing as int) < old(self).frame_count(),
        ensures
            final(self).wf(),
            final(self).frame_count() == old(self).frame_count() + 1,
            final(self).current_frame() == old(self).frame_count(),
            final(self).parent(final(self).current_frame()) == Some(enclosing as int),
            forall|f: int|
                f != final(self).current_frame() ==> #[trigger] final(self).parent(f) == old(
                    self,
                ).parent(f),
            forall|f: int, name: Seq<char>|
                #[trigger] final(self).local(f, name) == if f == final(self).current_frame() {
                    None
                } else {
                    old(self).local(f, name)
                },
            forall|name: Seq<char>|
                #[trigger] final(self).lookup(final(self).current_frame(), name) == old(
                    self,
                ).lookup(enclosing as int, name),
    {
        let ghost before = *self;
        let f = self.parents.len();
        self.parents.push(Some(enclosing));
        self.current = f;
        proof {
            assert forall|g: int, name: Seq<char>|
                #[trigger] self.local(g, name) == if g == f {
                    None
                } else {
                    before.local(g, name)
                } by {
                lemma_found(self.bindings@, g, name, self.bindings@.len() as int);
            }
            assert forall|name: Seq<char>|
                #[trigger] self.lookup(f as int, name) == before.lookup(enclosing as int, name) by {
                Self::lemma_resolve_same(&before, &*self, enclosing as int, name);
            }
        }
    }

    /// Makes frame `f` the current one.
    pub fn set_current(&mut self, f: usize)
        requires
            old(self).wf(),
            (f as int) < old(self).frame_count(),
        ensures
            final(self).wf(),
            old(self).same_frames(&*final(self)),
            final(self).current_frame() == f,
            forall|g: int, name: Seq<char>|
                #[trigger] final(self).local(g, name) == old(self).local(g, name),
    {
        self.current = f;
    }

    /// Whether there is a frame `distance` steps out from the current one.
    pub fn has_ancestor(&self, distance: usize) -> (r: bool)
        requires
            self.wf(),
        ensures
            r == self.ancestor(self.current_frame(), distance as nat) is Some,
    {
        let mut g = self.current;
        let mut d = distance;
        while d > 0
            invariant
                self.wf(),
                g < self.parents@.len(),
                self.ancestor(g as int, d as nat) == self.ancestor(
                    self.current_frame(),
                    distance as nat,
                ),
            decreases d,
        {
            match self.parents[g] {
                Some(e) => {
                    g = e;
                },
                None => {
                    return false;
                },
            }
            d = d - 1;
        }
        true
    }

    /// The frame `distance` steps out from the current one.
    fn ancestor_frame(&self, distance: usize) -> (r: usize)
        requires
            self.wf(),
            self.ancestor(self.current_frame(), distance as nat) is Some,
        ensures
            self.ancestor(self.current_frame(), distance as nat) == Some(r as int),
            (r as int) < self.frame_count(),
    {
        let mut g = self.current;
        let mut d = distance;
        while d > 0
            invariant
                self.wf(),
                g < self.parents@.len(),
                self.ancestor(g as int, d as nat) == self.ancestor(
                    self.current_frame(),
                    distance as nat,
                ),
                self.ancestor(g as int, d as nat) is Some,
            decreases d,
        {
            g = self.parents[g].unwrap();
            d = d - 1;
        }
        g
    }

    /// Binds `name` to `value` in the current frame, in place of what the
    /// current frame bound to it before.
    pub fn define(&mut self, name: String, value: V)
        requires
            old(self).wf(),
        ensures
            final(self).wf(),
            old(self).rebinds(&*final(self), old(self).current_frame(), name@, value),
            final(self).lookup(final(self).current_frame(), name@) == Some(value),
    {
        let cur = self.current;
        self.bind(cur, name, value);
    }

    /// Binds `name` to `value` in frame `f`, in place of what `f` bound to it
    /// before.
    fn bind(&mut self, f: usize, name: String, value: V)
        requires
            old(self).wf(),
            (f as int) < old(self).frame_count(),
        ensures
            final(self).wf(),
            old(self).rebinds(&*final(self), f as int, name@, value),
            final(self).local(f as int, name@) == Some(value),
    {
        let ghost before = *self;
        let ghost key = name@;
        match self.find(f, &name) {
            Some(i) => {
                proof {
                    lemma_found(before.bindings@, f as int, key, before.bindings@.len() as int);
                }
                self.bindings.set(i, Binding { name, value, owner: f });
                proof {
                    lemma_replace(before.bindings@, self.bindings@, i as int, f as int, key);
                }
            },
            None => {
                self.bindings.push(Binding { name, value, owner: f });
                proof {
                    lemma_append(before.bindings@, self.bindings@, f as int, key);
                }
            },
        }
    }

    /// Binds `name` to `value` in the frame whose binding of it is seen from
    /// frame `f`; when no frame from `f` outward binds it, nothing changes
    /// and the result is an error.
    fn assign_from(&mut self, f: usize, name: String, value: V) -> (r: Result<(), LoxError>)
        requires
            old(self).wf(),
            (f as int) < old(self).frame_count(),
        ensures
            final(self).wf(),
            match old(self).resolve(f as int, name@) {
                Some(g) => r is Ok && old(self).rebinds(&*final(self), g, name@, value)
                    && final(self).lookup(f as int, name@) == Some(value),
                None => r matches Err(e) && e@ == SpecLoxError::UndefinedVariable(
                    undefined_message(name@),
                ) && *final(self) == *old(self),
            },
    {
        let ghost before = *self;
        match self.locate(f, &name) {
            Some((g, _)) => {
                proof {
                    lemma_found(self.bindings@, g as int, name@, self.bindings@.len() as int);
                }
                let ghost key = name@;
                self.bind(g, name, value);
                proof {
                    Self::lemma_resolve_same(&before, &*self, f as int, key);
                }
                Ok(())
            },
            None => {
                let mut m = String::from_str("Undefined variable '");
                m.append(name.as_str());
                m.append("'.");
                Err(LoxError::UndefinedVariable(m))
            },
        }
    }

    /// Binds `name` to `value` in the frame whose binding of it is seen from
    /// the current frame; when no frame binds it, nothing changes and the
    /// result is an error.
    pub fn assign(&mut self, name: String, value: V) -> (r: Result<(), LoxError>)
        requires
            old(self).wf(),
        ensures
            final(self).wf(),
            match old(self).resolve(old(self).current_frame(), name@) {
                Some(g) => r is Ok && old(self).rebinds(&*final(self), g, name@, value)
                    && final(self).lookup(final(self).current_frame(), name@) == Some(value),
                None => r matches Err(e) && e@ == SpecLoxError::UndefinedVariable(
                    undefined_message(name@),
                ) && *final(self) == *old(self),
            },
    {
        let cur = self.current;
        self.assign_from(cur, name, value)
    }

    /// Binds the variable `var` to `value` in the frame `var.hops` steps out
    /// from the current one, or in the frame whose binding of it is seen from
    /// there; when no such frame binds it, nothing changes and the result is
    /// an error.
    pub fn assign_at(&mut self, var: &Var, value: V) -> (r: Result<(), LoxError>)
        requires
            old(self).wf(),
            old(self).ancestor(old(self).current_frame(), var.hops as nat) is Some,
        ensures
            final(self).wf(),
            ({
                let a = old(self).ancestor(old(self).current_frame(), var.hops as nat)->0;
                let name = var.identifier.lexeme@;
                match old(self).resolve(a, name) {
                    Some(g) => r is Ok && old(self).rebinds(&*final(self), g, name, value)
                        && final(self).lookup(a, name) == Some(value),
                    None => r matches Err(e) && e@ == SpecLoxError::UndefinedVariable(
                        undefined_message(name),
                    ) && *final(self) == *old(self),
                }
            }),
    {
        let a = self.ancestor_frame(var.hops);
        self.assign_from(a, String::from_str(var.name()), value)
    }
}

impl<V: Clone> Environment<V> {
    /// The value of `name` seen from frame `f` (a clone of it), or an error
    /// when no frame from `f` outward binds it.
    fn get_from(&self, f: usize, name: &str) -> (r: Result<V, LoxError>)
        requires
            self.wf(),
            (f as int) < self.frame_count(),
        ensures
            match self.lookup(f as int, name@) {
                Some(v) => r matches Ok(x) && vstd::pervasive::cloned(v, x),
                None => r matches Err(e) && e@ == SpecLoxError::UndefinedVariable(
                    undefined_message(name@),
                ),
            },
    {
        let key = String::from_str(name);
        match self.locate(f, &key) {
            Some((_, i)) => {
                proof {
                    lemma_found(self.bindings@, self.resolve(f as int, name@)->0, key@, self.bindings@.len() as int);
                }
                Ok(self.bindings[i].value.clone())
            },
            None => {
                let mut m = String::from_str("Undefined variable '");
                m.append(name);
                m.append("'.");
                Err(LoxError::UndefinedVariable(m))
            },
        }
    }

    /// The value of `name` seen from the current frame (a clone of it), or an
    /// error when no frame binds it.
    pub fn get(&self, name: &str) -> (r: Result<V, LoxError>)
        requires
            self.wf(),
        ensures
            match self.lookup(self.current_frame(), name@) {
                Some(v) => r matches Ok(x) && vstd::pervasive::cloned(v, x),
                None => r matches Err(e) && e@ == SpecLoxError::UndefinedVariable(
                    undefined_message(name@),
                ),
            },
    {
        self.get_from(self.current, name)
    }

    /// The value of the variable `var` seen from the frame `var.hops` steps
    /// out from the current one (a clone of it), or an error when no frame
    /// from there outward binds it.
    pub fn get_at(&self, var: &Var) -> (r: Result<V, LoxError>)
        requires
            self.wf(),
            self.ancestor(self.current_frame(), var.hops as nat) is Some,
        ensures
            ({
                let a = self.ancestor(self.current_frame(), var.hops as nat)->0;
                let name = var.identifier.lexeme@;
                match self.lookup(a, name) {
                    Some(v) => r matches Ok(x) && vstd::pervasive::cloned(v, x),
                    None => r matches Err(e) && e@ == SpecLoxError::UndefinedVariable(
                        undefined_message(name),
                    ),
                }
            }),
    {
        let a = self.ancestor_frame(var.hops);
        self.get_from(a, var.name())
    }
}

impl<V> Default for Environment<V> {
    fn default() -> (env: Self)
        ensures
            env.wf(),
            env.frame_count() == 1,
            env.current_frame() == 0,
            env.parent(0) is None,
            forall|f: int, name: Seq<char>| env.local(f, name) is None,
    {
        Self::new()
    }
}

} // verus!
