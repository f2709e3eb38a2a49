//! Values and the environment that binds names to them.

use vstd::prelude::*;
use crate::text::{chars_of, same_text, text_of};

verus! {

/// A value of the language. A number is carried as the bit pattern of a
/// double-precision float; the library moves numbers about and never
/// computes on them.
#[derive(Clone, Debug, PartialEq)]
pub enum Value {
    Bool(bool),
    Str(String),
    Num(u64),
}

/// What a value is, mathematically.
pub enum Datum {
    Bool(bool),
    Text(Seq<char>),
    Num(u64),
}

impl View for Value {
    type V = Datum;

    open spec fn view(&self) -> Datum {
        match self {
            Value::Bool(b) => Datum::Bool(*b),
            Value::Str(s) => Datum::Text(s@),
            Value::Num(n) => Datum::Num(*n),
        }
    }
}

/// The bit pattern of the number one.
pub const ONE: u64 = 0x3FF0_0000_0000_0000;

/// The bit pattern of the number zero.
pub const ZERO: u64 = 0;

/// The number that a truth value counts as in arithmetic.
pub open spec fn truth_number(b: bool) -> u64 {
    if b {
        ONE
    } else {
        ZERO
    }
}

/// How a truth value is printed.
pub open spec fn truth_text(b: bool) -> Seq<char> {
    if b {
        "true"@
    } else {
        "false"@
    }
}

impl Value {
    /// A second value equal to this one.
    pub fn duplicate(&self) -> (r: Value)
        ensures
            r@ == self@,
    {
        match self {
            Value::Bool(b) => Value::Bool(*b),
            Value::Str(s) => Value::Str(s.clone()),
            Value::Num(n) => Value::Num(*n),
        }
    }
}

/// A name with the value bound to it.
struct Binding {
    name: Vec<char>,
    value: Value,
}

/// The variables of a program: one flat scope, a name bound to one value at
/// most. Its model is a map from names to values.
pub struct Environment {
    bindings: Vec<Binding>,
}

impl View for Environment {
    type V = Map<Seq<char>, Datum>;

    closed spec fn view(&self) -> Map<Seq<char>, Datum> {
        Map::new(
            |name: Seq<char>| self.holds(name),
            |name: Seq<char>| self.bindings@[self.place(name)].value@,
        )
    }
}

impl Environment {
    #[verifier::type_invariant]
    spec fn distinct(self) -> bool {
        forall|i: int, j: int|
            0 <= i < j < self.bindings@.len() ==> (#[trigger] self.bindings@[i]).name@ != (
            #[trigger] self.bindings@[j]).name@
    }

    spec fn named(self, i: int, name: Seq<char>) -> bool {
        0 <= i < self.bindings@.len() && self.bindings@[i].name@ == name
    }

    spec fn holds(self, name: Seq<char>) -> bool {
        exists|i: int| self.named(i, name)
    }

    spec fn place(self, name: Seq<char>) -> int {
        choose|i: int| self.named(i, name)
    }

    proof fn lemma_bound(self, i: int)
        requires
            self.distinct(),
            0 <= i < self.bindings@.len(),
        ensures
            self@.dom().contains(self.bindings@[i].name@),
            self@[self.bindings@[i].name@] == self.bindings@[i].value@,
    {
        let name = self.bindings@[i].name@;
        assert(self.named(i, name));
        let j = self.place(name);
        assert(self.named(j, name));
        if i < j {
            assert(self.bindings@[i].name@ != self.bindings@[j].name@);
        } else if j < i {
            assert(self.bindings@[j].name@ != self.bindings@[i].name@);
        }
    }

    /// An environment that binds nothing.
    pub fn new() -> (env: Environment)
        ensures
            env@ == Map::<Seq<char>, Datum>::empty(),
    {
        let env = Environment { bindings: Vec::new() };
        assert(env@ =~= Map::<Seq<char>, Datum>::empty()) by {
            assert forall|name: Seq<char>| !env.holds(name) by {
                assert forall|i: int| !env.named(i, name) by {}
            }
        }
        env
    }

    fn position(&self, name: &Vec<char>) -> (r: Option<usize>)
        ensures
            match r {
                Some(i) => self.named(i as int, name@),
                None => !self.holds(name@),
            },
    {
        let mut i: usize = 0;
        while i < self.bindings.len()
            invariant
                i <= self.bindings.len(),
                forall|j: int| 0 <= j < i ==> !self.named(j, name@),
            decreases self.bindings.len() - i,
        {
            if same_text(&self.bindings[i].name, name) {
                return Some(i);
            }
            i += 1;
        }
        assert forall|j: int| !self.named(j, name@) by {}
        None
    }

    /// The value bound to `name`, if any.
    pub fn lookup(&self, name: &Vec<char>) -> (r: Option<&Value>)
        ensures
            match r {
                Some(value) => self@.dom().contains(name@) && self@[name@] == value@,
                None => !self@.dom().contains(name@),
            },
    {
        proof {
            use_type_invariant(self);
        }
        match self.position(name) {
            Some(i) => {
                proof {
                    self.lemma_bound(i as int);
                }
                Some(&self.bindings[i].value)
            },
            None => None,
        }
    }

    /// Binds `name` to `value`, in place of what it was bound to before.
    pub fn bind(&mut self, name: Vec<char>, value: Value)
        ensures
            final(self)@ == old(self)@.insert(name@, value@),
    {
        proof {
            use_type_invariant(&*self);
        }
        let found = self.position(&name);
        let ghost before = *self;
        let ghost key = name@;
        let ghost datum = value@;
        let mut bindings: Vec<Binding> = Vec::new();
        std::mem::swap(&mut bindings, &mut self.bindings);
        match found {
            Some(i) => {
                bindings[i] = Binding { name, value };
            },
            None => {
                bindings.push(Binding { name, value });
            },
        }
        proof {
            assert forall|i: int, j: int| 0 <= i < j < bindings@.len() implies (
            #[trigger] bindings@[i]).name@ != (#[trigger] bindings@[j]).name@ by {
                if j < before.bindings@.len() {
                    assert(before.bindings@[i].name@ != before.bindings@[j].name@);
                } else {
                    assert(!before.named(i, key));
                }
            }
        }
        self.bindings = bindings;
        proof {
            let after = *self;
            assert(after@ =~= before@.insert(key, datum)) by {
                assert forall|k: Seq<char>|
                    after@.dom().contains(k) <==> before@.insert(key, datum).dom().contains(
                        k,
                    ) by {
                    if after.holds(k) {
                        let i = after.place(k);
                        assert(after.named(i, k));
                        if k != key {
                            assert(before.named(i, k));
                        }
                    }
                    if k != key && before.holds(k) {
                        let i = before.place(k);
                        assert(before.named(i, k));
                        assert(after.named(i, k));
                    }
                    if k == key {
                        match found {
                            Some(i) => {
                                assert(after.named(i as int, k));
                            },
                            None => {
                                assert(after.named(after.bindings@.len() - 1, k));
                            },
                        }
                    }
                }
                assert forall|k: Seq<char>| after@.dom().contains(k) implies after@[k]
                    == before@.insert(key, datum)[k] by {
                    let i = after.place(k);
                    assert(after.named(i, k));
                    after.lemma_bound(i);
                    if k != key {
                        assert(before.named(i, k));
                        before.lemma_bound(i);
                    }
                }
            }
        }
    }

    /// The value bound to the name `name`, if any.
    pub fn get(&self, name: &str) -> (r: Option<Value>)
        ensures
            match r {
                Some(value) => self@.dom().contains(name@) && self@[name@] == value@,
                None => !self@.dom().contains(name@),
            },
    {
        let key = chars_of(name);
        match self.lookup(&key) {
            Some(value) => Some(value.duplicate()),
            None => None,
        }
    }

    /// Whether `name` is bound.
    pub fn contains(&self, name: &str) -> (r: bool)
        ensures
            r == self@.dom().contains(name@),
    {
        let key = chars_of(name);
        self.lookup(&key).is_some()
    }

    /// Binds the name `name` to `value`.
    pub fn insert(&mut self, name: &str, value: Value)
        ensures
            final(self)@ == old(self)@.insert(name@, value@),
    {
        self.bind(chars_of(name), value);
    }

    /// The names that are bound, each once.
    pub fn names(&self) -> (r: Vec<String>)
        ensures
            forall|name: Seq<char>|
                self@.dom().contains(name) <==> exists|i: int|
                    0 <= i < r@.len() && (#[trigger] r@[i])@ == name,
            forall|i: int, j: int| 0 <= i < j < r@.len() ==> (#[trigger] r@[i])@ != (#[trigger] r@[j])@,
    {
        proof {
            use_type_invariant(self);
        }
        let mut r: Vec<String> = Vec::new();
        let mut i: usize = 0;
        while i < self.bindings.len()
            invariant
                i <= self.bindings.len(),
                r@.len() == i,
                forall|j: int| 0 <= j < i ==> (#[trigger] r@[j])@ == self.bindings@[j].name@,
            decreases self.bindings.len() - i,
        {
            r.push(text_of(&self.bindings[i].name));
            i += 1;
        }
        proof {
            assert forall|name: Seq<char>|
                self@.dom().contains(name) <==> exists|i: int|
                    0 <= i < r@.len() && (#[trigger] r@[i])@ == name by {
                if self.holds(name) {
                    let i = self.place(name);
                    assert(self.named(i, name));
                    assert(r@[i]@ == name);
                }
                if exists|i: int| 0 <= i < r@.len() && (#[trigger] r@[i])@ == name {
                    let i = choose|i: int| 0 <= i < r@.len() && (#[trigger] r@[i])@ == name;
                    assert(self.named(i, name));
                }
            }
            assert forall|i: int, j: int| 0 <= i < j < r@.len() implies (#[trigger] r@[i])@ != (
            #[trigger] r@[j])@ by {
                assert(self.bindings@[i].name@ != self.bindings@[j].name@);
            }
        }
        r
    }
}

} // verus!
