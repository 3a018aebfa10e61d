//! The environment variables, as the shell sees them.

use vstd::prelude::*;

verus! {

/// The map that a list of bindings stands for: a later binding of a name replaces an
/// earlier one.
pub open spec fn bindings(pairs: Seq<(Seq<char>, Seq<char>)>) -> Map<Seq<char>, Seq<char>>
    decreases pairs.len(),
{
    if pairs.len() == 0 {
        Map::empty()
    } else {
        bindings(pairs.drop_last()).insert(pairs.last().0, pairs.last().1)
    }
}

/// A set of environment variables: a map from names to values.
pub struct Environment {
    pairs: Vec<(String, String)>,
}

impl View for Environment {
    type V = Map<Seq<char>, Seq<char>>;

    closed spec fn view(&self) -> Map<Seq<char>, Seq<char>> {
        bindings(self.pairs.deep_view())
    }
}

/// The binding of `name` that counts is the last one in the list.
proof fn lemma_last_binding_wins(pairs: Seq<(Seq<char>, Seq<char>)>, name: Seq<char>, at: int)
    requires
        -1 <= at < pairs.len(),
        at >= 0 ==> pairs[at].0 == name,
        forall|j: int| at < j < pairs.len() ==> (#[trigger] pairs[j]).0 != name,
    ensures
        at >= 0 ==> bindings(pairs).contains_key(name) && bindings(pairs)[name] == pairs[at].1,
        at < 0 ==> !bindings(pairs).contains_key(name),
    decreases pairs.len(),
{
    if pairs.len() > 0 {
        if at < pairs.len() - 1 {
            assert(pairs[pairs.len() - 1].0 != name);
            assert forall|j: int| at < j < pairs.drop_last().len() implies (
            #[trigger] pairs.drop_last()[j]).0 != name by {
                assert(pairs[j].0 != name);
            }
            lemma_last_binding_wins(pairs.drop_last(), name, at);
        }
    }
}

impl Environment {
    /// An environment without variables.
    pub fn new() -> (env: Environment)
        ensures
            env@ == Map::<Seq<char>, Seq<char>>::empty(),
    {
        let env = Environment { pairs: Vec::new() };
        env
    }

    /// Gives the variable `name` the value `value`.
    pub fn set(&mut self, name: String, value: String)
        ensures
            final(self)@ == old(self)@.insert(name@, value@),
    {
        let ghost before = self.pairs.deep_view();
        self.pairs.push((name, value));
        assert(self.pairs.deep_view().drop_last() =~= before);
    }

    /// The value of the variable `name`, if it has one.
    pub fn get(&self, name: &String) -> (value: Option<String>)
        ensures
            value.deep_view() == if self@.contains_key(name@) {
                Some(self@[name@])
            } else {
                None
            },
    {
        let mut i: usize = self.pairs.len();
        while i > 0
            invariant
                i <= self.pairs.len(),
                forall|j: int|
                    i <= j < self.pairs.len() ==> (#[trigger] self.pairs.deep_view()[j]).0
                        != name@,
            decreases i,
        {
            i -= 1;
            if self.pairs[i].0 == *name {
                proof {
                    lemma_last_binding_wins(self.pairs.deep_view(), name@, i as int);
                }
                return Some(self.pairs[i].1.clone());
            }
        }
        proof {
            lemma_last_binding_wins(self.pairs.deep_view(), name@, -1);
        }
        None
    }
}

} // verus!
