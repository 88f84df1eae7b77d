//! Named text modules and their composition into ordered report lines.
use vstd::prelude::*;

verus! {

/// A module as its name and its contents.
pub type ModuleView = (Seq<char>, Seq<char>);

/// A named text fragment of the report; the name is the key that configuration
/// uses to select and order it.
pub struct StringModule {
    pub name: String,
    pub contents: String,
}

impl View for StringModule {
    type V = ModuleView;

    open spec fn view(&self) -> ModuleView {
        (self.name@, self.contents@)
    }
}

impl StringModule {
    /// A field-by-field copy.
    pub fn duplicate(&self) -> (r: StringModule)
        ensures
            r@ == self@,
    {
        StringModule { name: self.name.clone(), contents: self.contents.clone() }
    }
}

/// The views of a sequence of modules.
pub open spec fn module_views(mods: Seq<StringModule>) -> Seq<ModuleView> {
    mods.map_values(|m: StringModule| m@)
}

/// The views of a sequence of names.
pub open spec fn name_views(names: Seq<String>) -> Seq<Seq<char>> {
    names.map_values(|s: String| s@)
}

/// The first index at or after `i` of a module called `name`, or -1.
pub open spec fn find_from(mods: Seq<ModuleView>, name: Seq<char>, i: int) -> int
    decreases mods.len() - i,
{
    if i < 0 || i >= mods.len() {
        -1
    } else if mods[i].0 == name {
        i
    } else {
        find_from(mods, name, i + 1)
    }
}

/// The index of the first module called `name`, or -1 if there is none.
pub open spec fn position(mods: Seq<ModuleView>, name: Seq<char>) -> int {
    find_from(mods, name, 0)
}

/// No module has been emitted yet.
pub open spec fn none_taken(n: nat) -> Seq<bool> {
    Seq::new(n, |i: int| false)
}

/// The modules that the requested names select, in the order requested: a name
/// of no module is skipped, and each module is emitted at most once (`taken`
/// marks those already emitted).
pub open spec fn resolve(mods: Seq<ModuleView>, order: Seq<Seq<char>>, taken: Seq<bool>) -> Seq<ModuleView>
    decreases order.len(),
{
    if order.len() == 0 {
        Seq::empty()
    } else {
        let k = position(mods, order[0]);
        if k >= 0 && !taken[k] {
            seq![mods[k]] + resolve(mods, order.drop_first(), taken.update(k, true))
        } else {
            resolve(mods, order.drop_first(), taken)
        }
    }
}

/// The modules to show: all of them in registry order when no order is requested,
/// else those that the requested order selects.
pub open spec fn composed(mods: Seq<ModuleView>, order: Option<Seq<Seq<char>>>) -> Seq<ModuleView> {
    match order {
        None => mods,
        Some(o) => resolve(mods, o, none_taken(mods.len())),
    }
}

/// The requested names that name some module, in order.
pub open spec fn known_names(mods: Seq<ModuleView>, order: Seq<Seq<char>>) -> Seq<Seq<char>>
    decreases order.len(),
{
    if order.len() == 0 {
        order
    } else if position(mods, order[0]) >= 0 {
        seq![order[0]] + known_names(mods, order.drop_first())
    } else {
        known_names(mods, order.drop_first())
    }
}

proof fn lemma_find_from_range(mods: Seq<ModuleView>, name: Seq<char>, i: int)
    ensures
        find_from(mods, name, i) == -1 || (i <= find_from(mods, name, i) < mods.len() && mods[find_from(
            mods,
            name,
            i,
        )].0 == name),
    decreases mods.len() - i,
{
    if 0 <= i < mods.len() && mods[i].0 != name {
        lemma_find_from_range(mods, name, i + 1);
    }
}

/// Unknown names in a requested order change nothing: the order resolves as the
/// same order with them removed.
pub proof fn lemma_unknown_names_ignored(mods: Seq<ModuleView>, order: Seq<Seq<char>>, taken: Seq<bool>)
    ensures
        resolve(mods, order, taken) == resolve(mods, known_names(mods, order), taken),
    decreases order.len(),
{
    if order.len() > 0 {
        let rest = order.drop_first();
        let k = position(mods, order[0]);
        if k >= 0 {
            let kept = seq![order[0]] + known_names(mods, rest);
            assert(kept.drop_first() =~= known_names(mods, rest));
            assert(kept[0] == order[0]);
            if !taken[k] {
                lemma_unknown_names_ignored(mods, rest, taken.update(k, true));
            } else {
                lemma_unknown_names_ignored(mods, rest, taken);
            }
        } else {
            lemma_unknown_names_ignored(mods, rest, taken);
        }
    }
}

/// Each module is emitted at most once: every module that a requested order
/// yields is the first module of its name and was not taken before, and no two
/// of them share a name.
pub proof fn lemma_resolve_at_most_once(mods: Seq<ModuleView>, order: Seq<Seq<char>>, taken: Seq<bool>)
    requires
        taken.len() == mods.len(),
    ensures
        forall|i: int|
            #![trigger resolve(mods, order, taken)[i]]
            0 <= i < resolve(mods, order, taken).len() ==> {
                let k = position(mods, resolve(mods, order, taken)[i].0);
                &&& 0 <= k < mods.len()
                &&& !taken[k]
                &&& resolve(mods, order, taken)[i] == mods[k]
            },
        forall|i: int, j: int|
            0 <= i < j < resolve(mods, order, taken).len() ==> resolve(mods, order, taken)[i].0 != resolve(
                mods,
                order,
                taken,
            )[j].0,
    decreases order.len(),
{
    if order.len() > 0 {
        let rest = order.drop_first();
        let k = position(mods, order[0]);
        lemma_find_from_range(mods, order[0], 0);
        if k >= 0 && !taken[k] {
            let t2 = taken.update(k, true);
            lemma_resolve_at_most_once(mods, rest, t2);
            let tail = resolve(mods, rest, t2);
            let r = resolve(mods, order, taken);
            assert(r == seq![mods[k]] + tail);
            assert(position(mods, mods[k].0) == k);
            assert forall|i: int| 0 < i < r.len() implies r[i].0 != mods[k].0 by {
                assert(r[i] == tail[i - 1]);
                let k2 = position(mods, tail[i - 1].0);
                assert(!t2[k2]);
            }
            assert forall|i: int, j: int| 0 <= i < j < r.len() implies r[i].0 != r[j].0 by {
                if i > 0 {
                    assert(r[i] == tail[i - 1]);
                    assert(r[j] == tail[j - 1]);
                }
            }
            assert forall|i: int| #![trigger r[i]] 0 <= i < r.len() implies {
                let k3 = position(mods, r[i].0);
                &&& 0 <= k3 < mods.len()
                &&& !taken[k3]
                &&& r[i] == mods[k3]
            } by {
                if i > 0 {
                    assert(r[i] == tail[i - 1]);
                }
            }
        } else {
            lemma_resolve_at_most_once(mods, rest, taken);
            assert(resolve(mods, order, taken) == resolve(mods, rest, taken));
        }
    } else {
        assert(resolve(mods, order, taken).len() == 0);
    }
}

/// The index of the first module called `name`, if any.
pub fn position_of(mods: &Vec<StringModule>, name: &String) -> (r: Option<usize>)
    ensures
        match r {
            Some(k) => k as int == position(module_views(mods@), name@) && k < mods@.len(),
            None => position(module_views(mods@), name@) == -1,
        },
{
    let ghost views = module_views(mods@);
    proof {
        lemma_find_from_range(views, name@, 0);
    }
    let mut i: usize = 0;
    while i < mods.len()
        invariant
            i <= mods@.len(),
            views == module_views(mods@),
            find_from(views, name@, 0) == find_from(views, name@, i as int),
        decreases mods@.len() - i,
    {
        if mods[i].name == *name {
            return Some(i);
        }
        i = i + 1;
    }
    None
}

/// The modules to show, in order: every module in registry order when `order`
/// is absent; else each requested name that names a module, in the requested
/// order, each module at most once, unknown names skipped.
pub fn compose(modules: &Vec<StringModule>, order: Option<&Vec<String>>) -> (r: Vec<StringModule>)
    ensures
        module_views(r@) == composed(
            module_views(modules@),
            match order {
                Some(o) => Some(name_views(o@)),
                None => None,
            },
        ),
{
    let ghost mods = module_views(modules@);
    match order {
        None => {
            let mut out: Vec<StringModule> = Vec::new();
            let mut i: usize = 0;
            while i < modules.len()
                invariant
                    i <= modules@.len(),
                    mods == module_views(modules@),
                    module_views(out@) == mods.take(i as int),
                decreases modules@.len() - i,
            {
                let m = modules[i].duplicate();
                let ghost prev = out@;
                out.push(m);
                assert(module_views(out@) =~= module_views(prev).push(m@));
                assert(module_views(out@) =~= mods.take(i + 1));
                i = i + 1;
            }
            assert(mods.take(mods.len() as int) =~= mods);
            out
        },
        Some(names) => {
            let ghost wanted = name_views(names@);
            let mut taken: Vec<bool> = Vec::new();
            let mut j: usize = 0;
            while j < modules.len()
                invariant
                    j <= modules@.len(),
                    taken@ == none_taken(j as nat),
                decreases modules@.len() - j,
            {
                taken.push(false);
                assert(taken@ =~= none_taken((j + 1) as nat));
                j = j + 1;
            }
            let mut out: Vec<StringModule> = Vec::new();
            let mut i: usize = 0;
            assert(wanted.skip(0) =~= wanted);
            assert(module_views(out@) =~= Seq::<ModuleView>::empty());
            while i < names.len()
                invariant
                    i <= names@.len(),
                    mods == module_views(modules@),
                    wanted == name_views(names@),
                    taken@.len() == mods.len(),
                    module_views(out@) + resolve(mods, wanted.skip(i as int), taken@) == resolve(
                        mods,
                        wanted,
                        none_taken(mods.len()),
                    ),
                decreases names@.len() - i,
            {
                let ghost before = module_views(out@);
                let ghost rest = wanted.skip(i as int);
                assert(rest[0] == names@[i as int]@);
                assert(rest.drop_first() =~= wanted.skip(i + 1));
                let found = position_of(modules, &names[i]);
                match found {
                    Some(k) => {
                        if !taken[k] {
                            let m = modules[k].duplicate();
                            out.push(m);
                            taken.set(k, true);
                            assert(module_views(out@) =~= before.push(mods[k as int]));
                            assert(before + (seq![mods[k as int]] + resolve(mods, wanted.skip(i + 1), taken@))
                                =~= before.push(mods[k as int]) + resolve(mods, wanted.skip(i + 1), taken@));
                        }
                    },
                    None => {},
                }
                i = i + 1;
            }
            assert(wanted.skip(names@.len() as int) =~= Seq::<Seq<char>>::empty());
            assert(module_views(out@) + Seq::<ModuleView>::empty() =~= module_views(out@));
            out
        },
    }
}

} // verus!
