use vstd::prelude::*;
use crate::ast::{Type, type_label};
use crate::error::{RunError, error_text};
use crate::text::{push_str, push_usize, decimal_digits};

verus! {

/// The types of the declared names, one level per lexical scope: the last
/// level is the current scope, and a lookup `env_index` levels up walks
/// outward from it.
pub struct TypeTab {
    pub levels: Vec<Vec<Type>>,
}

/// The level `env_index` steps outward from the innermost one.
pub open spec fn level_of<T>(levels: Seq<T>, env_index: int) -> T {
    levels[levels.len() - 1 - env_index]
}

impl View for TypeTab {
    type V = Seq<Seq<Type>>;

    open spec fn view(&self) -> Seq<Seq<Type>> {
        self.levels@.map_values(|l: Vec<Type>| l@)
    }
}

/// The message of a type lookup that finds no slot. Past the outermost
/// level it names the slot that was asked for, as a lookup that walks out
/// level by level would, so a child's lookup one level further out fails
/// as its parent's does.
pub open spec fn get_type_message(types: Seq<Seq<Type>>, index: int, env_index: int) -> Seq<char> {
    if env_index >= types.len() {
        "can't get type with invalid env index: "@ + decimal_digits(index as nat)
    } else {
        "can't get type of invalid type index: "@ + decimal_digits(index as nat)
    }
}

/// The message of a type update that finds no slot. Past the outermost
/// level it names how many levels were still to go from there.
pub open spec fn set_type_message(types: Seq<Seq<Type>>, index: int, env_index: int) -> Seq<char> {
    if env_index >= types.len() {
        "can't set type with invalid env index: "@ + decimal_digits((env_index - types.len() + 1) as nat)
    } else {
        "can't set type of invalid type index: "@ + decimal_digits(index as nat)
    }
}

/// Whether the slot exists.
pub open spec fn has_slot(types: Seq<Seq<Type>>, index: int, env_index: int) -> bool {
    0 <= env_index < types.len() && 0 <= index < level_of(types, env_index).len()
}

/// The lines that show the levels from `env_index` steps out to the current one.
pub open spec fn dump_text(types: Seq<Seq<Type>>, env_index: int) -> Seq<char>
    decreases env_index,
{
    let here = level_lines(level_of(types, 0), env_index, level_of(types, 0).len() as int);
    if env_index > 0 && types.len() > 1 {
        dump_text(types.subrange(0, types.len() - 1), env_index - 1)
            + "------------------------------\n"@ + here
    } else {
        here
    }
}

/// The first `k` lines of one level, each `(slot : env_index) = type`.
pub open spec fn level_lines(level: Seq<Type>, env_index: int, k: int) -> Seq<char>
    decreases k,
{
    if k <= 0 || k > level.len() {
        Seq::<char>::empty()
    } else {
        level_lines(level, env_index, k - 1) + "("@ + decimal_digits((k - 1) as nat) + " : "@
            + decimal_digits(env_index as nat) + ") = "@ + type_label(level[k - 1]) + "\n"@
    }
}

fn copy_types(types: &[Type]) -> (r: Vec<Type>)
    ensures
        r@ == types@,
{
    let mut r: Vec<Type> = Vec::new();
    let mut i: usize = 0;
    while i < types.len()
        invariant
            i <= types@.len(),
            r@ == types@.subrange(0, i as int),
        decreases types@.len() - i,
    {
        r.push(types[i].copy());
        proof {
            assert(r@ =~= types@.subrange(0, i + 1));
        }
        i = i + 1;
    }
    proof {
        assert(r@ =~= types@);
    }
    r
}

/// A lookup in a child scope one level further out is the parent's lookup,
/// whether it finds a slot or fails.
pub proof fn lemma_child_lookup(parent: Seq<Seq<Type>>, level: Seq<Type>, index: int, env_index: int)
    requires
        parent.len() >= 1,
        0 <= index,
        0 <= env_index,
    ensures
        has_slot(parent.push(level), index, env_index + 1) == has_slot(parent, index, env_index),
        has_slot(parent, index, env_index) ==> level_of(parent.push(level), env_index + 1)[index]
            == level_of(parent, env_index)[index],
        get_type_message(parent.push(level), index, env_index + 1) == get_type_message(
            parent,
            index,
            env_index,
        ),
        set_type_message(parent.push(level), index, env_index + 1) == set_type_message(
            parent,
            index,
            env_index,
        ),
{
    let child = parent.push(level);
    if env_index < parent.len() {
        assert(level_of(child, env_index + 1) == level_of(parent, env_index));
    }
    assert(env_index + 1 - child.len() + 1 == env_index - parent.len() + 1);
}

impl TypeTab {
    /// Whether there is a current level.
    pub open spec fn wf(&self) -> bool {
        self.levels@.len() >= 1
    }

    /// A child scope of `parent` whose level starts with the given types.
    pub fn new(parent: TypeTab, types: &Vec<Type>) -> (r: TypeTab)
        ensures
            r@ == parent@.push(types@),
    {
        let ghost outer = parent@;
        let mut parent = parent;
        let level = copy_types(types.as_slice());
        parent.levels.push(level);
        proof {
            assert(parent@ =~= outer.push(types@));
        }
        parent
    }

    /// The global scope, with no slots.
    pub fn new_global() -> (r: TypeTab)
        ensures
            r@ == seq![Seq::<Type>::empty()],
            r.wf(),
    {
        let mut levels: Vec<Vec<Type>> = Vec::new();
        levels.push(Vec::new());
        let r = TypeTab { levels };
        proof {
            assert(r@ =~= seq![Seq::<Type>::empty()]);
        }
        r
    }

    /// A child scope of `parent` whose level holds the given types, padded
    /// with `Undefined` up to `size` slots.
    pub fn new_partial(parent: TypeTab, types: &[Type], size: usize) -> (r: TypeTab)
        requires
            types@.len() <= size,
        ensures
            r@ == parent@.push(types@ + Seq::new((size - types@.len()) as nat, |i: int| Type::Undefined)),
    {
        let ghost outer = parent@;
        let mut parent = parent;
        let mut level = copy_types(types);
        let n = size - types.len();
        let mut i: usize = 0;
        while i < n
            invariant
                i <= n,
                n == size - types@.len(),
                level@ == types@ + Seq::new(i as nat, |j: int| Type::Undefined),
            decreases n - i,
        {
            level.push(Type::Undefined);
            proof {
                assert(level@ =~= types@ + Seq::new((i + 1) as nat, |j: int| Type::Undefined));
            }
            i = i + 1;
        }
        parent.levels.push(level);
        proof {
            assert(parent@ =~= outer.push(
                types@ + Seq::new((size - types@.len()) as nat, |i: int| Type::Undefined),
            ));
        }
        parent
    }

    /// Stores `t` in slot `index` of the level `env_index` steps out.
    pub fn set_type(&mut self, index: usize, env_index: usize, t: Type) -> (r: Result<(), RunError>)
        requires
            old(self).wf(),
        ensures
            has_slot(old(self)@, index as int, env_index as int) ==> r is Ok && final(self)@
                == old(self)@.update(
                old(self)@.len() - 1 - env_index,
                level_of(old(self)@, env_index as int).update(index as int, t),
            ),
            !has_slot(old(self)@, index as int, env_index as int) ==> r is Err && final(self)@
                == old(self)@ && error_text(r->Err_0) == set_type_message(
                old(self)@,
                index as int,
                env_index as int,
            ),
    {
        let n = self.levels.len();
        if env_index >= n {
            let mut msg = String::new();
            push_str(&mut msg, "can't set type with invalid env index: ");
            push_usize(&mut msg, env_index - (n - 1));
            return Err(RunError::from_message(msg, None));
        }
        let k = n - 1 - env_index;
        if index >= self.levels[k].len() {
            let mut msg = String::new();
            push_str(&mut msg, "can't set type of invalid type index: ");
            push_usize(&mut msg, index);
            return Err(RunError::from_message(msg, None));
        }
        let ghost before = self@;
        self.levels[k].set(index, t);
        proof {
            assert(self@ =~= before.update(k as int, level_of(before, env_index as int).update(index as int, t)));
        }
        Ok(())
    }

    /// The type in slot `index` of the level `env_index` steps out.
    pub fn get_type(&self, index: usize, env_index: usize) -> (r: Result<Type, RunError>)
        ensures
            has_slot(self@, index as int, env_index as int) ==> r == Ok::<Type, RunError>(
                level_of(self@, env_index as int)[index as int],
            ),
            !has_slot(self@, index as int, env_index as int) ==> r is Err && error_text(r->Err_0)
                == get_type_message(self@, index as int, env_index as int),
            r is Err ==> r->Err_0.position is None,
    {
        let n = self.levels.len();
        if env_index >= n {
            let mut msg = String::new();
            push_str(&mut msg, "can't get type with invalid env index: ");
            push_usize(&mut msg, index);
            return Err(RunError::from_message(msg, None));
        }
        let k = n - 1 - env_index;
        if index >= self.levels[k].len() {
            let mut msg = String::new();
            push_str(&mut msg, "can't get type of invalid type index: ");
            push_usize(&mut msg, index);
            return Err(RunError::from_message(msg, None));
        }
        Ok(self.levels[k][index].copy())
    }

    /// The number of slots of the current level.
    pub fn size(&self) -> (r: usize)
        requires
            self.wf(),
        ensures
            r == level_of(self@, 0).len(),
    {
        self.levels[self.levels.len() - 1].len()
    }

    /// Adds one `Undefined` slot to the current level.
    pub fn grow(&mut self)
        requires
            old(self).wf(),
        ensures
            final(self)@ == old(self)@.update(
                old(self)@.len() - 1,
                level_of(old(self)@, 0).push(Type::Undefined),
            ),
            final(self).wf(),
    {
        let k = self.levels.len() - 1;
        let ghost before = self@;
        self.levels[k].push(Type::Undefined);
        proof {
            assert(self@ =~= before.update(k as int, level_of(before, 0).push(Type::Undefined)));
        }
    }

    /// The levels from `env_index` steps out to the current one, one line
    /// per slot, levels parted by a rule.
    pub fn dump(&self, env_index: usize) -> (r: String)
        requires
            self.wf(),
        ensures
            r@ == dump_text(self@, env_index as int),
    {
        let mut out = String::new();
        self.dump_into(&mut out, self.levels.len(), env_index);
        proof {
            assert(self@.subrange(0, self@.len() as int) =~= self@);
            assert(out@ =~= dump_text(self@, env_index as int));
        }
        out
    }

    fn dump_into(&self, out: &mut String, upto: usize, env_index: usize)
        requires
            1 <= upto <= self.levels@.len(),
        ensures
            final(out)@ == old(out)@ + dump_text(self@.subrange(0, upto as int), env_index as int),
        decreases env_index,
    {
        let ghost start = out@;
        let ghost types = self@.subrange(0, upto as int);
        if env_index > 0 && upto > 1 {
            self.dump_into(out, upto - 1, env_index - 1);
            push_str(out, "------------------------------\n");
            proof {
                assert(types.subrange(0, types.len() - 1) =~= self@.subrange(0, upto - 1));
            }
        }
        let ghost mid = out@;
        let level = &self.levels[upto - 1];
        let mut i: usize = 0;
        while i < level.len()
            invariant
                i <= level@.len(),
                level@ == level_of(types, 0),
                out@ == mid + level_lines(level@, env_index as int, i as int),
            decreases level@.len() - i,
        {
            push_str(out, "(");
            push_usize(out, i);
            push_str(out, " : ");
            push_usize(out, env_index);
            push_str(out, ") = ");
            level[i].write_name(out);
            push_str(out, "\n");
            proof {
                assert(out@ =~= mid + level_lines(level@, env_index as int, i + 1));
            }
            i = i + 1;
        }
        proof {
            assert(out@ =~= start + dump_text(types, env_index as int));
        }
    }
}

} // verus!
