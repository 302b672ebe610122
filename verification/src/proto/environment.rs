//! Environment variables: a map from names to values that keeps the order in
//! which the names were first set.

use vstd::prelude::*;

verus! {

/// The names and values, in order.
pub type Entries = Seq<(Seq<char>, Seq<char>)>;

pub open spec fn has_name(e: Entries, name: Seq<char>) -> bool {
    exists|i: int| 0 <= i < e.len() && (#[trigger] e[i]).0 == name
}

/// Where `name` stands.
pub open spec fn position(e: Entries, name: Seq<char>) -> int {
    choose|i: int| 0 <= i < e.len() && (#[trigger] e[i]).0 == name
}

/// Whether each name stands only once.
pub open spec fn unique_names(e: Entries) -> bool {
    forall|i: int, j: int|
        0 <= i < j < e.len() ==> (#[trigger] e[i]).0 != (#[trigger] e[j]).0
}

/// The entries once `name` has been set to `value`.
pub open spec fn with_variable(e: Entries, name: Seq<char>, value: Seq<char>) -> Entries {
    if has_name(e, name) {
        e.update(position(e, name), (name, value))
    } else {
        e.push((name, value))
    }
}

/// The entries as a map.
pub open spec fn as_map(e: Entries) -> Map<Seq<char>, Seq<char>> {
    Map::new(|name: Seq<char>| has_name(e, name), |name: Seq<char>| e[position(e, name)].1)
}

/// In a list of unique names, an entry is found by its name.
pub proof fn position_is_unique(e: Entries, i: int)
    requires
        unique_names(e),
        0 <= i < e.len(),
    ensures
        has_name(e, e[i].0),
        position(e, e[i].0) == i,
{
    let p = position(e, e[i].0);
    assert(0 <= p < e.len() && e[p].0 == e[i].0);
}

/// Setting a variable is inserting into the map, and keeps the names unique.
pub proof fn setting_inserts(e: Entries, name: Seq<char>, value: Seq<char>)
    requires
        unique_names(e),
    ensures
        unique_names(with_variable(e, name, value)),
        as_map(with_variable(e, name, value)) == as_map(e).insert(name, value),
{
    let after = with_variable(e, name, value);
    let at = if has_name(e, name) {
        position(e, name)
    } else {
        e.len() as int
    };
    assert(after[at] == (name, value));
    position_is_unique(after, at);
    assert forall|n: Seq<char>| n != name implies has_name(after, n) == has_name(e, n) && (has_name(
        e,
        n,
    ) ==> after[position(after, n)].1 == e[position(e, n)].1) by {
        if has_name(e, n) {
            let i = position(e, n);
            assert(after[i] == e[i]);
            position_is_unique(after, i);
        }
        if has_name(after, n) {
            let i = position(after, n);
            assert(after[i].0 == n);
            assert(e[i] == after[i]);
        }
    }
    assert(as_map(after) =~= as_map(e).insert(name, value));
}

/// Environment variables, each set once.
#[derive(Debug)]
pub struct EnvironmentVariables {
    entries: Vec<(String, String)>,
}

impl View for EnvironmentVariables {
    type V = Entries;

    closed spec fn view(&self) -> Entries {
        self.entries@.map_values(|e: (String, String)| (e.0@, e.1@))
    }
}

impl Clone for EnvironmentVariables {
    fn clone(&self) -> (r: Self)
        ensures
            r@ == self@,
    {
        proof {
            use_type_invariant(self);
        }
        let mut entries: Vec<(String, String)> = Vec::new();
        let mut i: usize = 0;
        while i < self.entries.len()
            invariant
                i == entries@.len(),
                i <= self.entries@.len(),
                forall|j: int|
                    0 <= j < i ==> (#[trigger] entries@[j]).0@ == self.entries@[j].0@
                        && entries@[j].1@ == self.entries@[j].1@,
            decreases self.entries@.len() - i,
        {
            entries.push((self.entries[i].0.clone(), self.entries[i].1.clone()));
            i += 1;
        }
        assert(entries@.map_values(|e: (String, String)| (e.0@, e.1@)) =~= self@);
        EnvironmentVariables { entries }
    }
}

impl Default for EnvironmentVariables {
    fn default() -> (r: Self)
        ensures
            r@ == Entries::empty(),
    {
        EnvironmentVariables::new()
    }
}

impl EnvironmentVariables {
    #[verifier::type_invariant]
    spec fn wf(self) -> bool {
        unique_names(self@)
    }

    /// No variables.
    pub fn new() -> (r: Self)
        ensures
            r@ == Entries::empty(),
    {
        let r = EnvironmentVariables { entries: Vec::new() };
        assert(r@ =~= Entries::empty());
        r
    }

    /// The number of variables.
    pub fn len(&self) -> (r: usize)
        ensures
            r == self@.len(),
    {
        self.entries.len()
    }

    /// The variable at `i`: its name and its value.
    pub fn entry(&self, i: usize) -> (r: (&str, &str))
        requires
            i < self@.len(),
        ensures
            r.0@ == self@[i as int].0,
            r.1@ == self@[i as int].1,
    {
        (self.entries[i].0.as_str(), self.entries[i].1.as_str())
    }

    fn find(&self, name: &str) -> (r: Option<usize>)
        ensures
            match r {
                Some(i) => has_name(self@, name@) && i == position(self@, name@) && i < self@.len(),
                None => !has_name(self@, name@),
            },
    {
        proof {
            use_type_invariant(self);
        }
        let wanted = name.to_owned();
        let mut i: usize = 0;
        while i < self.entries.len()
            invariant
                unique_names(self@),
                self@.len() == self.entries@.len(),
                wanted@ == name@,
                forall|j: int| 0 <= j < i ==> (#[trigger] self@[j]).0 != name@,
            decreases self.entries@.len() - i,
        {
            assert(self@[i as int].0 == self.entries@[i as int].0@);
            if self.entries[i].0 == wanted {
                proof {
                    position_is_unique(self@, i as int);
                }
                return Some(i);
            }
            i += 1;
        }
        None
    }

    /// The value of `name`.
    pub fn get(&self, name: &str) -> (r: Option<&str>)
        ensures
            match r {
                Some(value) => as_map(self@).contains_key(name@) && value@ == as_map(self@)[name@],
                None => !as_map(self@).contains_key(name@),
            },
    {
        match self.find(name) {
            Some(i) => Some(self.entries[i].1.as_str()),
            None => None,
        }
    }

    /// Sets `name` to `value`, in place of the value that it had.
    pub fn insert(&mut self, name: String, value: String)
        ensures
            final(self)@ == with_variable(old(self)@, name@, value@),
            unique_names(final(self)@),
            as_map(final(self)@) == as_map(old(self)@).insert(name@, value@),
    {
        let ghost before = self@;
        let ghost n = name@;
        let ghost v = value@;
        proof {
            use_type_invariant(&*self);
            setting_inserts(before, n, v);
        }
        let place: Option<usize> = self.find(name.as_str());
        let mut entries: Vec<(String, String)> = Vec::new();
        std::mem::swap(&mut entries, &mut self.entries);
        match place {
            Some(i) => {
                entries.set(i, (name, value));
            },
            None => {
                entries.push((name, value));
            },
        }
        let ghost after = entries@.map_values(|e: (String, String)| (e.0@, e.1@));
        assert(after =~= with_variable(before, n, v));
        self.entries = entries;
    }
}

/// A variable that is set again keeps its place, and a new one comes last. All others stay
/// as they are.
pub proof fn variables_keep_their_places(
    e: Entries,
    name: Seq<char>,
    value: Seq<char>,
    i: int,
)
    requires
        unique_names(e),
        0 <= i < e.len(),
    ensures
        ({
            let after = with_variable(e, name, value);
            &&& after[i] == (if e[i].0 == name {
                (name, value)
            } else {
                e[i]
            })
            &&& e[i].0 == name ==> after.len() == e.len()
            &&& (forall|j: int| 0 <= j < e.len() ==> (#[trigger] e[j]).0 != name) ==> after.len()
                == e.len() + 1 && after.last() == (name, value)
        }),
{
    if e[i].0 == name {
        position_is_unique(e, i);
    } else if has_name(e, name) {
        let p = position(e, name);
        assert(e[p].0 == name);
    }
}

} // verus!
