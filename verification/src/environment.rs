//! Environments as lists of `(name, value)` bindings.
//!
//! Unix takes names as they are, Windows takes two names that differ only in
//! case for the same variable. [`Names`] says which rule holds, and [`key`]
//! is what the names of one variable have in common.
//!
//! A list may come from the operating system and then bind a name twice; the
//! last binding is the one that counts, as it does wherever a list is turned
//! into the environment of a process. [`env_map`] says which value a list
//! gives each variable. The operations below take any list, keep the bindings
//! of other variables, and change the environment in the one variable they
//! are about.

use vstd::prelude::*;

use crate::os_text::OsText;

verus! {

/// When two names belong to the same variable.
#[derive(Debug, Clone, Copy, PartialEq, Eq, Structural)]
pub enum Names {
    /// When they are the same text, as on Unix.
    Exact,
    /// When they differ at most in the case of ASCII letters, as on Windows.
    AnyCase,
}

/// `byte` with the ASCII letters `a` to `z` raised to upper case.
pub open spec fn upper(byte: u8) -> u8 {
    if 0x61 <= byte <= 0x7a {
        (byte - 0x20) as u8
    } else {
        byte
    }
}

/// What the names of one variable have in common.
pub open spec fn key(names: Names, name: Seq<u8>) -> Seq<u8> {
    match names {
        Names::Exact => name,
        Names::AnyCase => name.map_values(|b: u8| upper(b)),
    }
}

/// A variable of the environment: its name and its value.
pub type Variable = (OsText, OsText);

/// A list of bindings, as bytes.
pub type Bindings = Seq<(Seq<u8>, Seq<u8>)>;

/// An environment: the value of each variable, by its [`key`].
pub type Env = Map<Seq<u8>, Seq<u8>>;

/// The bytes of each binding.
pub open spec fn bindings(vars: Seq<Variable>) -> Bindings {
    vars.map_values(|v: Variable| (v.0@, v.1@))
}

/// The environment that a list stands for: later bindings override earlier
/// ones.
pub open spec fn env_map(names: Names, list: Bindings) -> Env
    decreases list.len(),
{
    if list.len() == 0 {
        Map::empty()
    } else {
        env_map(names, list.drop_last()).insert(key(names, list.last().0), list.last().1)
    }
}

/// Whether every variable is bound once.
pub open spec fn distinct(names: Names, list: Bindings) -> bool {
    forall|i: int, j: int|
        0 <= i < j < list.len() ==> key(names, (#[trigger] list[i]).0) != key(
            names,
            (#[trigger] list[j]).0,
        )
}

/// Whether the variable with the key `k` is bound.
pub open spec fn binds(names: Names, list: Bindings, k: Seq<u8>) -> bool {
    exists|i: int| 0 <= i < list.len() && key(names, (#[trigger] list[i]).0) == k
}

/// Whether the first binding of the variable stands at `i`.
pub open spec fn first_at(names: Names, list: Bindings, k: Seq<u8>, i: int) -> bool {
    &&& 0 <= i < list.len()
    &&& key(names, list[i].0) == k
    &&& forall|j: int| 0 <= j < i ==> key(names, (#[trigger] list[j]).0) != k
}

/// Where the variable is bound first.
pub open spec fn place_of(names: Names, list: Bindings, k: Seq<u8>) -> int
    recommends
        binds(names, list, k),
{
    choose|i: int| first_at(names, list, k, i)
}

/// `list` with every binding of the variable changed to `value`. The names
/// keep their spelling.
pub open spec fn rebound(names: Names, list: Bindings, k: Seq<u8>, value: Seq<u8>) -> Bindings {
    Seq::new(
        list.len(),
        |i: int|
            if key(names, list[i].0) == k {
                (list[i].0, value)
            } else {
                list[i]
            },
    )
}

/// `list` with `name` bound to `value`: in place if the variable is bound,
/// else at the end.
pub open spec fn bound(names: Names, list: Bindings, name: Seq<u8>, value: Seq<u8>) -> Bindings {
    if binds(names, list, key(names, name)) {
        rebound(names, list, key(names, name), value)
    } else {
        list.push((name, value))
    }
}

/// `list` without the binding at `i`: the last binding moves to where it
/// stood, or, where that would put it before another binding of its own
/// variable, the bindings after `i` move up.
pub open spec fn dropped(names: Names, list: Bindings, i: int) -> Bindings {
    if binds(names, list.drop_last(), key(names, list.last().0)) {
        list.remove(i)
    } else {
        list.update(i, list.last()).drop_last()
    }
}

/// `list` without the variable: its bindings are dropped one after the other,
/// the first one first.
pub open spec fn unbound(names: Names, list: Bindings, k: Seq<u8>) -> Bindings
    decreases list.len(),
{
    let i = place_of(names, list, k);
    if binds(names, list, k) && 0 <= i < list.len() {
        unbound(names, dropped(names, list, i), k)
    } else {
        list
    }
}

/// `list` with the bindings of `added` made one after the other.
pub open spec fn all_bound(names: Names, list: Bindings, added: Bindings) -> Bindings
    decreases added.len(),
{
    if added.len() == 0 {
        list
    } else {
        bound(names, all_bound(names, list, added.drop_last()), added.last().0, added.last().1)
    }
}

/// `list` with the variables called `removed` unbound one after the other.
pub open spec fn all_unbound(names: Names, list: Bindings, removed: Seq<Seq<u8>>) -> Bindings
    decreases removed.len(),
{
    if removed.len() == 0 {
        list
    } else {
        unbound(names, all_unbound(names, list, removed.drop_last()), key(names, removed.last()))
    }
}

/// `list` without every binding of the variable, in order.
pub open spec fn without_key(names: Names, list: Bindings, k: Seq<u8>) -> Bindings {
    list.filter(|b: (Seq<u8>, Seq<u8>)| key(names, b.0) != k)
}

/// `env` without the variables called `removed`.
pub open spec fn without_all(names: Names, env: Env, removed: Seq<Seq<u8>>) -> Env
    decreases removed.len(),
{
    if removed.len() == 0 {
        env
    } else {
        without_all(names, env, removed.drop_last()).remove(key(names, removed.last()))
    }
}

/// The environment has a value for the bound variables and for no other.
proof fn lemma_env_map_binds(names: Names, list: Bindings, k: Seq<u8>)
    ensures
        env_map(names, list).contains_key(k) <==> binds(names, list, k),
    decreases list.len(),
{
    if list.len() > 0 {
        let init = list.drop_last();
        lemma_env_map_binds(names, init, k);
        if binds(names, list, k) {
            let i = choose|i: int| 0 <= i < list.len() && key(names, (#[trigger] list[i]).0) == k;
            if i < init.len() {
                assert(key(names, init[i].0) == k);
            }
        }
        if binds(names, init, k) {
            let i = choose|i: int| 0 <= i < init.len() && key(names, (#[trigger] init[i]).0) == k;
            assert(key(names, list[i].0) == k);
        }
        assert(list[list.len() - 1] == list.last());
    }
}

/// A bound variable has a first place.
proof fn lemma_place_of(names: Names, list: Bindings, k: Seq<u8>)
    requires
        binds(names, list, k),
    ensures
        first_at(names, list, k, place_of(names, list, k)),
{
    let i = choose|i: int| 0 <= i < list.len() && key(names, (#[trigger] list[i]).0) == k;
    let first = lemma_first_place(names, list, k, i);
    assert(first_at(names, list, k, first));
}

/// At or before any place of a variable there is its first one.
proof fn lemma_first_place(names: Names, list: Bindings, k: Seq<u8>, i: int) -> (first: int)
    requires
        0 <= i < list.len(),
        key(names, list[i].0) == k,
    ensures
        first_at(names, list, k, first),
    decreases i,
{
    if exists|j: int| 0 <= j < i && key(names, (#[trigger] list[j]).0) == k {
        let j = choose|j: int| 0 <= j < i && key(names, (#[trigger] list[j]).0) == k;
        lemma_first_place(names, list, k, j)
    } else {
        i
    }
}

/// Changing the bindings of a variable changes its value, if it is bound.
proof fn lemma_rebound(names: Names, list: Bindings, k: Seq<u8>, value: Seq<u8>)
    ensures
        binds(names, list, k) ==> env_map(names, rebound(names, list, k, value)) == env_map(
            names,
            list,
        ).insert(k, value),
        !binds(names, list, k) ==> rebound(names, list, k, value) == list,
    decreases list.len(),
{
    let after = rebound(names, list, k, value);
    if !binds(names, list, k) {
        assert(after =~= list);
    } else {
        let init = list.drop_last();
        lemma_rebound(names, init, k, value);
        assert(after.drop_last() =~= rebound(names, init, k, value));
        if !binds(names, init, k) {
            let i = choose|i: int| 0 <= i < list.len() && key(names, (#[trigger] list[i]).0) == k;
            if i < init.len() {
                assert(key(names, init[i].0) == k);
            }
        }
        assert(env_map(names, after) =~= env_map(names, list).insert(k, value));
    }
}

/// Binding a name in a list binds its variable in the environment.
proof fn lemma_bound(names: Names, list: Bindings, name: Seq<u8>, value: Seq<u8>)
    ensures
        env_map(names, bound(names, list, name, value)) == env_map(names, list).insert(
            key(names, name),
            value,
        ),
{
    if binds(names, list, key(names, name)) {
        lemma_rebound(names, list, key(names, name), value);
    } else {
        assert(list.push((name, value)).drop_last() =~= list);
    }
}

/// Environments that differ in one variable alone still do with one more
/// value.
proof fn lemma_insert_apart(a: Env, b: Env, k: Seq<u8>, other: Seq<u8>, value: Seq<u8>)
    requires
        a.remove(k) == b.remove(k),
    ensures
        a.insert(other, value).remove(k) == b.insert(other, value).remove(k),
{
    let both = a.remove(k).insert(other, value).remove(k);
    assert(a.insert(other, value).remove(k) =~= both);
    assert(b.insert(other, value).remove(k) =~= b.remove(k).insert(other, value).remove(k));
}

/// Taking a binding out of its place changes the value of its variable alone.
proof fn lemma_removed_at(names: Names, list: Bindings, i: int)
    requires
        0 <= i < list.len(),
    ensures
        env_map(names, list.remove(i)).remove(key(names, list[i].0)) == env_map(names, list).remove(
            key(names, list[i].0),
        ),
    decreases list.len(),
{
    let init = list.drop_last();
    let k = key(names, list[i].0);
    let after = list.remove(i);
    if i == init.len() {
        assert(after =~= init);
        assert(env_map(names, after).remove(k) =~= env_map(names, list).remove(k));
    } else {
        let last = list.last();
        lemma_removed_at(names, init, i);
        assert(after.drop_last() =~= init.remove(i));
        assert(after.last() == last);
        lemma_insert_apart(
            env_map(names, init.remove(i)),
            env_map(names, init),
            k,
            key(names, last.0),
            last.1,
        );
    }
}

/// Putting a binding of a fresh variable over another changes these two
/// variables alone.
proof fn lemma_put_over(names: Names, list: Bindings, i: int, binding: (Seq<u8>, Seq<u8>))
    requires
        0 <= i < list.len(),
        !binds(names, list, key(names, binding.0)),
    ensures
        env_map(names, list.update(i, binding)).remove(key(names, list[i].0)) == env_map(
            names,
            list,
        ).insert(key(names, binding.0), binding.1).remove(key(names, list[i].0)),
    decreases list.len(),
{
    let init = list.drop_last();
    let k = key(names, list[i].0);
    let fresh = key(names, binding.0);
    let after = list.update(i, binding);
    assert(key(names, list[list.len() - 1].0) != fresh);
    assert(k != fresh);
    assert forall|j: int| 0 <= j < init.len() implies key(names, (#[trigger] init[j]).0)
        != fresh by {
        assert(init[j] == list[j]);
    }
    let target = env_map(names, list).insert(fresh, binding.1);
    if i == init.len() {
        assert(after.drop_last() =~= init);
        assert(env_map(names, after).remove(k) =~= target.remove(k));
    } else {
        let last = list.last();
        let before = env_map(names, init).insert(fresh, binding.1);
        lemma_put_over(names, init, i, binding);
        assert(after.drop_last() =~= init.update(i, binding));
        assert(after.last() == last);
        lemma_insert_apart(
            env_map(names, init.update(i, binding)),
            before,
            k,
            key(names, last.0),
            last.1,
        );
        assert(before.insert(key(names, last.0), last.1) =~= target);
    }
}

/// Dropping a binding changes the value of its variable alone.
proof fn lemma_dropped(names: Names, list: Bindings, i: int)
    requires
        0 <= i < list.len(),
    ensures
        env_map(names, dropped(names, list, i)).remove(key(names, list[i].0)) == env_map(
            names,
            list,
        ).remove(key(names, list[i].0)),
{
    let init = list.drop_last();
    let last = list.last();
    if binds(names, init, key(names, last.0)) {
        lemma_removed_at(names, list, i);
    } else if i == init.len() {
        assert(dropped(names, list, i) =~= init);
        assert(env_map(names, init).remove(key(names, last.0)) =~= env_map(names, list).remove(
            key(names, last.0),
        ));
    } else {
        lemma_put_over(names, init, i, last);
        assert(dropped(names, list, i) =~= init.update(i, last));
    }
}

/// Unbinding a variable takes it out of the environment and leaves the
/// others.
proof fn lemma_unbound(names: Names, list: Bindings, k: Seq<u8>)
    ensures
        !binds(names, unbound(names, list, k), k),
        env_map(names, unbound(names, list, k)) == env_map(names, list).remove(k),
    decreases list.len(),
{
    if binds(names, list, k) {
        lemma_place_of(names, list, k);
        let i = place_of(names, list, k);
        lemma_dropped(names, list, i);
        lemma_unbound(names, dropped(names, list, i), k);
    } else {
        lemma_env_map_binds(names, list, k);
        assert(env_map(names, list).remove(k) =~= env_map(names, list));
    }
}

/// Making the bindings of a list one after the other overrides with them.
pub proof fn lemma_all_bound(names: Names, list: Bindings, added: Bindings)
    ensures
        env_map(names, all_bound(names, list, added)) == env_map(names, list).union_prefer_right(
            env_map(names, added),
        ),
    decreases added.len(),
{
    if added.len() == 0 {
        assert(env_map(names, list).union_prefer_right(env_map(names, added)) =~= env_map(
            names,
            list,
        ));
    } else {
        let init = added.drop_last();
        lemma_all_bound(names, list, init);
        lemma_bound(names, all_bound(names, list, init), added.last().0, added.last().1);
        assert(env_map(names, all_bound(names, list, added)) =~= env_map(
            names,
            list,
        ).union_prefer_right(env_map(names, added)));
    }
}

/// Unbinding variables one after the other takes all of them out.
pub proof fn lemma_all_unbound(names: Names, list: Bindings, removed: Seq<Seq<u8>>)
    ensures
        env_map(names, all_unbound(names, list, removed)) == without_all(
            names,
            env_map(names, list),
            removed,
        ),
    decreases removed.len(),
{
    if removed.len() > 0 {
        let init = removed.drop_last();
        lemma_all_unbound(names, list, init);
        lemma_unbound(names, all_unbound(names, list, init), key(names, removed.last()));
    }
}

/// Dropping a variable from a list in order takes it out of the environment.
pub proof fn lemma_without_key(names: Names, list: Bindings, k: Seq<u8>)
    ensures
        env_map(names, without_key(names, list, k)) == env_map(names, list).remove(k),
    decreases list.len(),
{
    reveal(Seq::filter);
    let kept = without_key(names, list, k);
    if list.len() > 0 {
        let init = list.drop_last();
        lemma_without_key(names, init, k);
        if key(names, list.last().0) != k {
            assert(kept == without_key(names, init, k).push(list.last()));
            assert(kept.drop_last() == without_key(names, init, k));
        } else {
            assert(kept == without_key(names, init, k));
        }
    }
    assert(env_map(names, kept) =~= env_map(names, list).remove(k));
}

/// In a list that binds every variable once, changing one changes its one
/// binding, and removing it puts the last binding in its place; the variables
/// stay bound once.
pub proof fn law_single_bindings(names: Names, list: Bindings, name: Seq<u8>, value: Seq<u8>)
    requires
        distinct(names, list),
        binds(names, list, key(names, name)),
    ensures
        ({
            let k = key(names, name);
            let p = place_of(names, list, k);
            &&& bound(names, list, name, value) == list.update(p, (list[p].0, value))
            &&& unbound(names, list, k) == list.update(p, list.last()).drop_last()
            &&& distinct(names, bound(names, list, name, value))
            &&& distinct(names, unbound(names, list, k))
        }),
{
    let k = key(names, name);
    lemma_place_of(names, list, k);
    let p = place_of(names, list, k);
    let last = list.len() - 1;
    assert forall|i: int| 0 <= i < list.len() && i != p implies key(names, (#[trigger] list[i]).0)
        != k by {
        assert(key(names, list[p].0) == k);
    }
    assert(bound(names, list, name, value) =~= list.update(p, (list[p].0, value)));
    let after = list.update(p, list.last()).drop_last();
    assert forall|i: int, j: int| 0 <= i < j < after.len() implies key(
        names,
        (#[trigger] after[i]).0,
    ) != key(names, (#[trigger] after[j]).0) by {
        let si = if i == p { last } else { i };
        let sj = if j == p { last } else { j };
        assert(after[i] == list[si]);
        assert(after[j] == list[sj]);
    }
    assert(!binds(names, list.drop_last(), key(names, list.last().0))) by {
        assert forall|i: int| 0 <= i < last implies key(names, (#[trigger] list.drop_last()[i]).0)
            != key(names, list.last().0) by {
            assert(key(names, list[i].0) != key(names, list[last].0));
        }
    }
    assert(dropped(names, list, p) == after);
    assert(!binds(names, after, k)) by {
        assert forall|i: int| 0 <= i < after.len() implies key(names, (#[trigger] after[i]).0)
            != k by {
            let si = if i == p { last } else { i };
            assert(after[i] == list[si]);
        }
    }
    assert(unbound(names, after, k) == after);
}

/// Raises an ASCII letter to upper case.
fn upper8(byte: u8) -> (raised: u8)
    ensures
        raised == upper(byte),
{
    if 0x61 <= byte && byte <= 0x7a {
        byte - 0x20
    } else {
        byte
    }
}

/// Whether two names belong to the same variable.
pub fn same_variable(names: Names, a: &OsText, b: &OsText) -> (same: bool)
    ensures
        same == (key(names, a@) == key(names, b@)),
{
    match names {
        Names::Exact => a.same(b),
        Names::AnyCase => {
            let x: &[u8] = a.as_bytes();
            let y: &[u8] = b.as_bytes();
            let ghost kx = key(names, x@);
            let ghost ky = key(names, y@);
            if x.len() != y.len() {
                assert(kx.len() != ky.len());
                return false;
            }
            let mut i: usize = 0;
            while i < x.len()
                invariant
                    i <= x.len(),
                    x.len() == y.len(),
                    names == Names::AnyCase,
                    kx == key(names, x@),
                    ky == key(names, y@),
                    kx == key(names, a@),
                    ky == key(names, b@),
                    forall|j: int| 0 <= j < i ==> kx[j] == ky[j],
                decreases x.len() - i,
            {
                if upper8(x[i]) != upper8(y[i]) {
                    assert(kx[i as int] != ky[i as int]);
                    return false;
                }
                i += 1;
            }
            assert(kx =~= ky);
            true
        },
    }
}

/// Where the variable called `name` is bound first among the first `len` of
/// `vars`, if it is.
fn find(names: Names, vars: &Vec<Variable>, len: usize, name: &OsText) -> (place: Option<usize>)
    requires
        len <= vars@.len(),
    ensures
        match place {
            Some(i) => {
                &&& binds(names, bindings(vars@).take(len as int), key(names, name@))
                &&& i < len
                &&& i == place_of(names, bindings(vars@).take(len as int), key(names, name@))
            },
            None => !binds(names, bindings(vars@).take(len as int), key(names, name@)),
        },
{
    let ghost list = bindings(vars@).take(len as int);
    let ghost k = key(names, name@);
    let mut i: usize = 0;
    while i < len
        invariant
            i <= len <= vars.len(),
            list == bindings(vars@).take(len as int),
            k == key(names, name@),
            forall|j: int| 0 <= j < i ==> key(names, (#[trigger] list[j]).0) != k,
        decreases len - i,
    {
        if same_variable(names, &vars[i].0, name) {
            proof {
                assert(key(names, list[i as int].0) == k);
                assert(first_at(names, list, k, i as int));
                let p = place_of(names, list, k);
                assert(first_at(names, list, k, p));
                assert(key(names, list[p].0) == k);
            }
            return Some(i);
        }
        assert(key(names, list[i as int].0) != k);
        i += 1;
    }
    None
}

/// Binds `name` to `value`.
pub fn bind(names: Names, vars: &mut Vec<Variable>, name: OsText, value: OsText)
    ensures
        bindings(final(vars)@) == bound(names, bindings(old(vars)@), name@, value@),
{
    let ghost before = bindings(vars@);
    let ghost k = key(names, name@);
    let mut found: bool = false;
    let mut i: usize = 0;
    assert(bindings(vars@) == rebound(names, before.take(0), k, value@) + before.skip(0));
    while i < vars.len()
        invariant
            i <= vars.len(),
            before.len() == vars@.len(),
            k == key(names, name@),
            found == binds(names, before.take(i as int), k),
            bindings(vars@) == rebound(names, before.take(i as int), k, value@) + before.skip(
                i as int,
            ),
        decreases vars.len() - i,
    {
        let ghost now = bindings(vars@);
        assert(now[i as int] == before[i as int]);
        if same_variable(names, &vars[i].0, &name) {
            vars[i].1 = value.clone();
            found = true;
            assert(bindings(vars@) == now.update(i as int, (before[i as int].0, value@)));
            assert(key(names, before.take(i + 1)[i as int].0) == k);
        } else {
            proof {
                if binds(names, before.take(i + 1), k) {
                    let j = choose|j: int|
                        0 <= j < before.take(i + 1).len() && key(
                            names,
                            (#[trigger] before.take(i + 1)[j]).0,
                        ) == k;
                    assert(key(names, before.take(i as int)[j].0) == k);
                }
            }
        }
        proof {
            if binds(names, before.take(i as int), k) {
                let j = choose|j: int|
                    0 <= j < before.take(i as int).len() && key(
                        names,
                        (#[trigger] before.take(i as int)[j]).0,
                    ) == k;
                assert(key(names, before.take(i + 1)[j].0) == k);
            }
        }
        assert(bindings(vars@) == rebound(names, before.take(i + 1), k, value@) + before.skip(
            i + 1,
        ));
        i += 1;
    }
    assert(before.take(i as int) == before);
    assert(bindings(vars@) == rebound(names, before, k, value@));
    if !found {
        proof {
            lemma_rebound(names, before, k, value@);
        }
        vars.push((name, value));
        assert(bindings(vars@) == before.push((name@, value@)));
    }
}

/// Takes the variable called `name` out.
pub fn unbind(names: Names, vars: &mut Vec<Variable>, name: &OsText)
    ensures
        bindings(final(vars)@) == unbound(names, bindings(old(vars)@), key(names, name@)),
{
    let ghost before = bindings(vars@);
    let ghost k = key(names, name@);
    loop
        invariant
            k == key(names, name@),
            unbound(names, bindings(vars@), k) == unbound(names, before, k),
        ensures
            bindings(vars@) == unbound(names, before, k),
        decreases vars.len(),
    {
        let ghost now = bindings(vars@);
        let len: usize = vars.len();
        assert(now.take(len as int) == now);
        match find(names, vars, len, name) {
            Some(i) => {
                assert(now.take(len - 1) == now.drop_last());
                let shadows: bool = find(names, vars, len - 1, &vars[len - 1].0).is_some();
                if shadows {
                    let _ = vars.remove(i);
                    assert(bindings(vars@) == now.remove(i as int));
                } else {
                    let _ = vars.swap_remove(i);
                    assert(bindings(vars@) == now.update(i as int, now.last()).drop_last());
                }
                assert(bindings(vars@) == dropped(names, now, i as int));
            },
            None => {
                break;
            },
        }
    }
}

// ---------------------------------------------------------------------
// What names, lists and environments have to do with each other
// ---------------------------------------------------------------------
/// Whether two bytes are the same, or an ASCII letter in its two cases.
pub open spec fn same_letter(a: u8, b: u8) -> bool {
    ||| a == b
    ||| 0x41 <= a <= 0x5a && b == a + 0x20
    ||| 0x41 <= b <= 0x5a && a == b + 0x20
}

/// Where names are taken as they are, two of them belong to the same variable
/// if and only if they are the same bytes.
pub proof fn law_exact_names_are_told_apart(a: Seq<u8>, b: Seq<u8>)
    ensures
        key(Names::Exact, a) == key(Names::Exact, b) <==> a == b,
{
}

/// Where case is ignored, two names belong to the same variable if and only
/// if they have the same length and agree at every place up to the case of an
/// ASCII letter.
pub proof fn law_names_agree_up_to_case(a: Seq<u8>, b: Seq<u8>)
    ensures
        key(Names::AnyCase, a) == key(Names::AnyCase, b) <==> a.len() == b.len() && forall|i: int|
            0 <= i < a.len() ==> same_letter(#[trigger] a[i], b[i]),
{
    let ka = key(Names::AnyCase, a);
    let kb = key(Names::AnyCase, b);
    if ka == kb {
        assert(ka.len() == a.len() && kb.len() == b.len());
        assert forall|i: int| 0 <= i < a.len() implies same_letter(#[trigger] a[i], b[i]) by {
            assert(ka[i] == kb[i]);
            assert(ka[i] == upper(a[i]) && kb[i] == upper(b[i]));
        }
    }
    if a.len() == b.len() && forall|i: int|
        0 <= i < a.len() ==> same_letter(#[trigger] a[i], b[i]) {
        assert forall|i: int| 0 <= i < a.len() implies ka[i] == kb[i] by {
            assert(same_letter(a[i], b[i]));
        }
        assert(ka =~= kb);
    }
}

/// Of a list of variables every name and every value counts, in order.
pub proof fn law_bindings_are_the_bytes(vars: Seq<Variable>)
    ensures
        bindings(vars).len() == vars.len(),
        forall|i: int|
            0 <= i < vars.len() ==> (#[trigger] bindings(vars)[i]).0 == vars[i].0@ && bindings(
                vars,
            )[i].1 == vars[i].1@,
{
}

/// The last binding of a variable is the one that counts, and a variable
/// without a binding has no value.
pub proof fn law_last_binding_counts(names: Names, list: Bindings, i: int, k: Seq<u8>)
    ensures
        (forall|j: int| 0 <= j < list.len() ==> key(names, (#[trigger] list[j]).0) != k)
            ==> !env_map(names, list).contains_key(k),
        0 <= i < list.len() && key(names, list[i].0) == k && (forall|j: int|
            i < j < list.len() ==> key(names, (#[trigger] list[j]).0) != k) ==> env_map(
            names,
            list,
        ).contains_key(k) && env_map(names, list)[k] == list[i].1,
    decreases list.len(),
{
    if list.len() > 0 {
        let init = list.drop_last();
        let last = list.len() - 1;
        law_last_binding_counts(names, init, i, k);
        if forall|j: int| 0 <= j < list.len() ==> key(names, (#[trigger] list[j]).0) != k {
            assert forall|j: int| 0 <= j < init.len() implies key(names, (#[trigger] init[j]).0)
                != k by {
                assert(init[j] == list[j]);
            }
            assert(key(names, list[last].0) != k);
        }
        if 0 <= i < last && key(names, list[i].0) == k && (forall|j: int|
            i < j < list.len() ==> key(names, (#[trigger] list[j]).0) != k) {
            assert(key(names, list[last].0) != k);
            assert(init[i] == list[i]);
            assert forall|j: int| i < j < init.len() implies key(names, (#[trigger] init[j]).0)
                != k by {
                assert(init[j] == list[j]);
            }
        }
    }
}

/// Binding a name changes the value in every binding of its variable and in
/// no other, and leaves all names where they stand; a variable that is not
/// bound gets one binding, at the end.
pub proof fn law_binding_touches_its_variable_alone(
    names: Names,
    list: Bindings,
    name: Seq<u8>,
    value: Seq<u8>,
)
    ensures
        ({
            let after = bound(names, list, name, value);
            let is_bound = exists|i: int|
                0 <= i < list.len() && key(names, (#[trigger] list[i]).0) == key(names, name);
            &&& !is_bound ==> after == list.push((name, value))
            &&& is_bound ==> after.len() == list.len() && forall|i: int|
                0 <= i < list.len() ==> (#[trigger] after[i]).0 == list[i].0 && after[i].1 == if key(
                    names,
                    list[i].0,
                ) == key(names, name) {
                    value
                } else {
                    list[i].1
                }
            &&& env_map(names, after) == env_map(names, list).insert(key(names, name), value)
        }),
{
    lemma_bound(names, list, name, value);
}

/// Unbinding a variable takes all of its bindings out and keeps every binding
/// of the others, as often as it is there; a list without the variable stays
/// as it is.
pub proof fn law_unbinding_touches_its_variable_alone(
    names: Names,
    list: Bindings,
    k: Seq<u8>,
    other: (Seq<u8>, Seq<u8>),
)
    ensures
        ({
            let after = unbound(names, list, k);
            &&& (forall|i: int| 0 <= i < list.len() ==> key(names, (#[trigger] list[i]).0) != k)
                ==> after == list
            &&& forall|i: int| 0 <= i < after.len() ==> key(names, (#[trigger] after[i]).0) != k
            &&& key(names, other.0) != k ==> after.to_multiset().count(other)
                == list.to_multiset().count(other)
            &&& env_map(names, after) == env_map(names, list).remove(k)
        }),
    decreases list.len(),
{
    lemma_unbound(names, list, k);
    if binds(names, list, k) {
        lemma_place_of(names, list, k);
        let i = place_of(names, list, k);
        let next = dropped(names, list, i);
        law_unbinding_touches_its_variable_alone(names, next, k, other);
        assert(next.to_multiset() == list.to_multiset().remove(list[i])) by {
            let init = list.drop_last();
            let last = list.last();
            if binds(names, init, key(names, last.0)) {
                vstd::seq_lib::to_multiset_remove(list, i);
            } else {
                assert(init.push(last) == list);
                vstd::seq_lib::to_multiset_build(init, last);
                if i < init.len() {
                    assert(next == init.update(i, last));
                    vstd::seq_lib::to_multiset_update(init, i, last);
                } else {
                    assert(next == init);
                    assert(next.to_multiset() =~= list.to_multiset().remove(list[i]));
                }
            }
        }
    }
}

} // verus!
