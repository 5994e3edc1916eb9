use vstd::prelude::*;
use crate::text::str_eq;
use crate::typetab::level_of;

verus! {

/// The declared names, one level per lexical scope: the last level is the
/// current scope. A name's slot is its position in its level.
pub struct SymTab {
    pub levels: Vec<Vec<String>>,
}

impl View for SymTab {
    type V = Seq<Seq<Seq<char>>>;

    open spec fn view(&self) -> Seq<Seq<Seq<char>>> {
        self.levels@.map_values(|l: Vec<String>| l@.map_values(|n: String| n@))
    }
}

/// The first slot from `i` on that holds `name`.
pub open spec fn slot_from(names: Seq<Seq<char>>, name: Seq<char>, i: int) -> Option<nat>
    decreases names.len() - i,
{
    if i < 0 || i >= names.len() {
        None
    } else if names[i] == name {
        Some(i as nat)
    } else {
        slot_from(names, name, i + 1)
    }
}

/// Where `name` resolves, searching outward from `env_index` levels up:
/// its slot and how many levels up it was found.
pub open spec fn resolve_from(levels: Seq<Seq<Seq<char>>>, name: Seq<char>, env_index: int) -> Option<
    (nat, nat),
>
    decreases levels.len() - env_index,
{
    if env_index < 0 || env_index >= levels.len() {
        None
    } else {
        match slot_from(level_of(levels, env_index), name, 0) {
            Some(i) => Some((i, env_index as nat)),
            None => resolve_from(levels, name, env_index + 1),
        }
    }
}

/// Where `name` resolves from the current scope.
pub open spec fn resolve(levels: Seq<Seq<Seq<char>>>, name: Seq<char>) -> Option<(nat, nat)> {
    resolve_from(levels, name, 0)
}

/// The slot that declaring `name` in the current scope gives it: its own
/// slot where it is declared there already, else the next free one.
pub open spec fn declared_slot(levels: Seq<Seq<Seq<char>>>, name: Seq<char>) -> nat {
    match slot_from(level_of(levels, 0), name, 0) {
        Some(i) => i,
        None => level_of(levels, 0).len(),
    }
}

/// The levels after declaring `name` in the current scope.
pub open spec fn declare(levels: Seq<Seq<Seq<char>>>, name: Seq<char>) -> Seq<Seq<Seq<char>>> {
    match slot_from(level_of(levels, 0), name, 0) {
        Some(_) => levels,
        None => levels.update(levels.len() - 1, level_of(levels, 0).push(name)),
    }
}

pub proof fn lemma_slot_from_bound(names: Seq<Seq<char>>, name: Seq<char>, i: int)
    ensures
        slot_from(names, name, i) is Some ==> slot_from(names, name, i)->Some_0 < names.len(),
    decreases names.len() - i,
{
    if 0 <= i < names.len() && names[i] != name {
        lemma_slot_from_bound(names, name, i + 1);
    }
}

/// A name resolves to a slot that its level has.
pub proof fn lemma_resolve_bound(levels: Seq<Seq<Seq<char>>>, name: Seq<char>, env_index: int)
    ensures
        resolve_from(levels, name, env_index) is Some ==> ({
            let (i, e) = resolve_from(levels, name, env_index)->Some_0;
            e < levels.len() && i < level_of(levels, e as int).len()
        }),
    decreases levels.len() - env_index,
{
    if 0 <= env_index < levels.len() {
        lemma_slot_from_bound(level_of(levels, env_index), name, 0);
        lemma_resolve_bound(levels, name, env_index + 1);
    }
}

fn find_slot(names: &Vec<String>, name: &str) -> (r: Option<usize>)
    ensures
        r is Some <==> slot_from(names@.map_values(|n: String| n@), name@, 0) is Some,
        r is Some ==> r->Some_0 as nat == slot_from(names@.map_values(|n: String| n@), name@, 0)->Some_0,
        r is Some ==> r->Some_0 < names@.len(),
{
    let ghost view = names@.map_values(|n: String| n@);
    let mut i: usize = 0;
    while i < names.len()
        invariant
            i <= names@.len(),
            view == names@.map_values(|n: String| n@),
            slot_from(view, name@, 0) == slot_from(view, name@, i as int),
        decreases names@.len() - i,
    {
        if str_eq(names[i].as_str(), name) {
            return Some(i);
        }
        i = i + 1;
    }
    None
}

impl SymTab {
    /// Whether there is a current level.
    pub open spec fn wf(&self) -> bool {
        self.levels@.len() >= 1
    }

    /// The global scope, with no names.
    pub fn new_global() -> (r: SymTab)
        ensures
            r@ == seq![Seq::<Seq<char>>::empty()],
            r.wf(),
    {
        let mut levels: Vec<Vec<String>> = Vec::new();
        levels.push(Vec::new());
        let r = SymTab { levels };
        proof {
            assert(r@ =~~= seq![Seq::<Seq<char>>::empty()]);
        }
        r
    }

    /// A child scope of `parent`, with no names of its own yet.
    pub fn new(parent: SymTab) -> (r: SymTab)
        ensures
            r@ == parent@.push(Seq::<Seq<char>>::empty()),
            r.wf(),
    {
        let ghost outer = parent@;
        let mut parent = parent;
        parent.levels.push(Vec::new());
        proof {
            assert(parent@ =~~= outer.push(Seq::<Seq<char>>::empty()));
        }
        parent
    }

    /// Declares `name` in the current scope and returns its slot.
    pub fn add_name(&mut self, name: &str) -> (r: usize)
        requires
            old(self).wf(),
            level_of(old(self)@, 0).len() < usize::MAX,
        ensures
            r == declared_slot(old(self)@, name@),
            final(self)@ == declare(old(self)@, name@),
            final(self).wf(),
    {
        let k = self.levels.len() - 1;
        proof {
            assert(self.levels@[k as int]@.map_values(|n: String| n@) == level_of(self@, 0));
        }
        let ghost cur = level_of(self@, 0);
        match find_slot(&self.levels[k], name) {
            Some(i) => i,
            None => {
                let ghost before = self@;
                let n = self.levels[k].len();
                assert(n == cur.len());
                self.levels[k].push(String::from_str(name));
                proof {
                    assert(self@ =~~= before.update(k as int, level_of(before, 0).push(name@)));
                }
                n
            },
        }
    }

    /// Where `name` resolves from the current scope: its slot and how many
    /// levels up it was found.
    pub fn get_name(&self, name: &str) -> (r: Option<(usize, usize)>)
        ensures
            r is Some <==> resolve(self@, name@) is Some,
            r is Some ==> r->Some_0.0 as nat == resolve(self@, name@)->Some_0.0 && r->Some_0.1 as nat
                == resolve(self@, name@)->Some_0.1,
            r is Some ==> r->Some_0.1 < self@.len() && r->Some_0.0 < level_of(
                self@,
                r->Some_0.1 as int,
            ).len(),
            resolve(self@, name@) is Some ==> resolve(self@, name@)->Some_0.1 < self@.len()
                && resolve(self@, name@)->Some_0.0 < level_of(
                self@,
                resolve(self@, name@)->Some_0.1 as int,
            ).len(),
    {
        proof {
            lemma_resolve_bound(self@, name@, 0);
        }
        let n = self.levels.len();
        let mut e: usize = 0;
        while e < n
            invariant
                e <= n,
                n == self@.len(),
                resolve(self@, name@) == resolve_from(self@, name@, e as int),
            decreases n - e,
        {
            let k = n - 1 - e;
            proof {
                assert(self.levels@[k as int]@.map_values(|x: String| x@) == level_of(self@, e as int));
            }
            match find_slot(&self.levels[k], name) {
                Some(i) => {
                    return Some((i, e));
                },
                None => {},
            }
            e = e + 1;
        }
        None
    }
}

} // verus!
