//! The variable environment: names bound to values, each name at most once.
use crate::ast::{Value, ValueModel};
use vstd::hash_map::StringHashMap;
use vstd::prelude::*;

verus! {

pub struct Environment {
    bindings: StringHashMap<Value>,
}

impl View for Environment {
    type V = Map<Seq<char>, ValueModel>;

    closed spec fn view(&self) -> Map<Seq<char>, ValueModel> {
        self.bindings@.map_values(|v: Value| v@)
    }
}

impl Value {
    /// A deep copy: the same value, held separately.
    pub fn duplicate(&self) -> (r: Value)
        ensures
            r@ == self@,
        decreases self,
    {
        match self {
            Value::Boolean(b) => Value::Boolean(*b),
            Value::Number(n) => Value::Number(*n),
            Value::String(s) => Value::String(s.clone()),
            Value::Variable(s) => Value::Variable(s.clone()),
            Value::Null => Value::Null,
            Value::Array(items) => {
                assert(decreases_to!(*self => *items));
                let mut copy: Vec<Value> = Vec::new();
                let mut i: usize = 0;
                while i < items.len()
                    invariant
                        i <= items.len(),
                        decreases_to!(*self => *items),
                        crate::ast::values_model(copy@) == crate::ast::values_model(
                            items@.take(i as int),
                        ),
                    decreases items.len() - i,
                {
                    let ghost before = copy@;
                    proof {
                        assert(decreases_to!(*items => items[i as int]));
                        assert(decreases_to!(*self => items[i as int]));
                    }
                    let item = items[i].duplicate();
                    copy.push(item);
                    proof {
                        assert(copy@.drop_last() =~= before);
                        assert(items@.take(i + 1).drop_last() =~= items@.take(i as int));
                    }
                    i = i + 1;
                }
                assert(items@.take(items.len() as int) =~= items@);
                Value::Array(copy)
            },
        }
    }
}

impl Environment {
    pub fn new() -> (e: Environment)
        ensures
            e@ == Map::<Seq<char>, ValueModel>::empty(),
    {
        let e = Environment { bindings: StringHashMap::new() };
        assert(e@ =~= Map::<Seq<char>, ValueModel>::empty());
        e
    }

    /// Binds `name` to `value`, replacing an earlier binding of the name.
    pub fn insert(&mut self, name: String, value: Value)
        ensures
            final(self)@ == old(self)@.insert(name@, value@),
    {
        let ghost v = value@;
        self.bindings.insert(name, value);
        assert(self@ =~= old(self)@.insert(name@, v));
    }

    pub fn contains(&self, name: &str) -> (r: bool)
        ensures
            r == self@.contains_key(name@),
    {
        self.bindings.contains_key(name)
    }

    pub fn get(&self, name: &str) -> (r: Option<&Value>)
        ensures
            match r {
                Some(v) => self@.contains_key(name@) && v@ == self@[name@],
                None => !self@.contains_key(name@),
            },
    {
        self.bindings.get(name)
    }
}

} // verus!
