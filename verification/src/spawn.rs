//! Spawn configuration: [`PtyBuilder`] glues together window size, script,
//! working directory and environment, and hands a backend everything it
//! needs as a [`SpawnSpec`].
//!
//! The environment follows the semantics of a process builder: by default
//! the parent environment is inherited untouched; `env`/`envs` add or
//! override individual variables, `env_remove` removes them, and `env_clear`
//! starts from an empty environment (subsequent `env` calls then build it
//! up). A call overrides the calls before it. On Windows the case of a name
//! does not matter.

use vstd::prelude::*;

use crate::environment::{
    all_bound, all_unbound, bind, bindings, bound, env_map, key, lemma_all_bound, lemma_all_unbound,
    lemma_without_key, same_variable, unbind, unbound, without_all, without_key, Bindings, Env, Names,
    Variable,
};
use crate::os_text::OsText;
use crate::pty::WindowSize;
use crate::script::Script;

verus! {

/// Everything a backend needs to spawn one pty session.
#[derive(Debug, Clone)]
pub struct SpawnSpec {
    /// Dimensions of the terminal.
    pub window_size: WindowSize,
    /// What to run.
    pub script: Script,
    /// Working directory, `None` → that of the parent.
    pub current_dir: Option<OsText>,
    /// The whole environment of the child, `None` → inherit the parent
    /// environment untouched.
    pub env: Option<Vec<Variable>>,
}

// ---------------------------------------------------------------------
// Environment changes
// ---------------------------------------------------------------------
/// One change of the environment.
#[derive(Debug, Clone)]
enum Change {
    /// Set the variable with this name to this value.
    Assign(OsText, OsText),
    /// Remove the variable with this name.
    Remove(OsText),
}

/// A change of the environment, as bytes.
pub enum ChangeView {
    /// Set the variable with this name to this value.
    Assign(Seq<u8>, Seq<u8>),
    /// Remove the variable with this name.
    Remove(Seq<u8>),
}

impl Change {
    spec fn bytes(self) -> ChangeView {
        match self {
            Change::Assign(name, value) => ChangeView::Assign(name@, value@),
            Change::Remove(name) => ChangeView::Remove(name@),
        }
    }
}

/// The bytes of each change.
spec fn change_bytes(changes: Seq<Change>) -> Seq<ChangeView> {
    changes.map_values(|c: Change| c.bytes())
}

/// The change that sets each of `vars`.
pub open spec fn sets_of(vars: Bindings) -> Seq<ChangeView> {
    vars.map_values(|v: (Seq<u8>, Seq<u8>)| ChangeView::Assign(v.0, v.1))
}

/// An environment after the changes, made one after the other.
pub open spec fn changed(names: Names, env: Env, changes: Seq<ChangeView>) -> Env
    decreases changes.len(),
{
    if changes.len() == 0 {
        env
    } else {
        let before = changed(names, env, changes.drop_last());
        match changes.last() {
            ChangeView::Assign(name, value) => before.insert(key(names, name), value),
            ChangeView::Remove(name) => before.remove(key(names, name)),
        }
    }
}

/// The names of the variables to remove, in order.
pub open spec fn removed_names(changes: Seq<ChangeView>) -> Seq<Seq<u8>>
    decreases changes.len(),
{
    if changes.len() == 0 {
        Seq::empty()
    } else {
        let before = removed_names(changes.drop_last());
        match changes.last() {
            ChangeView::Assign(_, _) => before,
            ChangeView::Remove(name) => before.push(name),
        }
    }
}

/// The variables to set, in order, without those removed afterwards.
pub open spec fn remaining_sets(names: Names, changes: Seq<ChangeView>) -> Bindings
    decreases changes.len(),
{
    if changes.len() == 0 {
        Seq::empty()
    } else {
        let before = remaining_sets(names, changes.drop_last());
        match changes.last() {
            ChangeView::Assign(name, value) => before.push((name, value)),
            ChangeView::Remove(name) => without_key(names, before, key(names, name)),
        }
    }
}

/// Modifications applied on top of the inherited environment.
#[derive(Debug, Clone)]
pub struct EnvMod {
    clear: bool,
    changes: Vec<Change>,
}

/// What [`EnvMod`] asks for.
pub struct EnvView {
    /// Whether to start from nothing instead of the parent environment.
    pub clear: bool,
    /// The changes to make, in order.
    pub changes: Seq<ChangeView>,
}

impl EnvView {
    /// No change at all.
    pub open spec fn none() -> EnvView {
        EnvView { clear: false, changes: Seq::empty() }
    }

    /// Whether the parent environment is inherited untouched.
    pub open spec fn is_noop(self) -> bool {
        !self.clear && self.changes.len() == 0
    }

    /// Set `name` to `value`, whatever was asked for it before.
    pub open spec fn setting(self, name: Seq<u8>, value: Seq<u8>) -> EnvView {
        EnvView { changes: self.changes.push(ChangeView::Assign(name, value)), ..self }
    }

    /// Set all of `vars`, one after the other.
    pub open spec fn setting_all(self, vars: Bindings) -> EnvView {
        EnvView { changes: self.changes + sets_of(vars), ..self }
    }

    /// Remove `name`, whatever was asked for it before.
    pub open spec fn removing(self, name: Seq<u8>) -> EnvView {
        EnvView { changes: self.changes.push(ChangeView::Remove(name)), ..self }
    }

    /// Start from nothing, and forget what was asked for before.
    pub open spec fn clearing(self) -> EnvView {
        EnvView { clear: true, changes: Seq::empty() }
    }

    /// The list of bindings that the child gets, for the list that the
    /// parent has: variables are removed first and set afterwards.
    pub open spec fn listed(self, names: Names, parent: Bindings) -> Bindings {
        let start: Bindings = if self.clear {
            Seq::empty()
        } else {
            parent
        };
        all_bound(
            names,
            all_unbound(names, start, removed_names(self.changes)),
            remaining_sets(names, self.changes),
        )
    }

    /// The environment of the child, for that of the parent.
    pub open spec fn applied(self, names: Names, parent: Env) -> Env {
        if self.clear {
            changed(names, Map::empty(), self.changes)
        } else {
            changed(names, parent, self.changes)
        }
    }

    /// Whether `env` is the environment to hand to the child of a parent with
    /// these variables.
    pub open spec fn gives(self, names: Names, parent: Bindings, env: Option<Vec<Variable>>) -> bool {
        &&& env is None <==> self.is_noop()
        &&& env matches Some(vars) ==> {
            &&& bindings(vars@) == self.listed(names, parent)
            &&& env_map(names, bindings(vars@)) == self.applied(names, env_map(names, parent))
        }
    }
}

impl View for EnvMod {
    type V = EnvView;

    closed spec fn view(&self) -> EnvView {
        EnvView { clear: self.clear, changes: change_bytes(self.changes@) }
    }
}

/// Removing first and setting afterwards what is not removed later gives what
/// the changes give one after the other.
proof fn lemma_changed(names: Names, env: Env, changes: Seq<ChangeView>)
    ensures
        changed(names, env, changes) == without_all(
            names,
            env,
            removed_names(changes),
        ).union_prefer_right(env_map(names, remaining_sets(names, changes))),
    decreases changes.len(),
{
    let removed = removed_names(changes);
    let sets = remaining_sets(names, changes);
    let target = without_all(names, env, removed).union_prefer_right(env_map(names, sets));
    if changes.len() > 0 {
        let init = changes.drop_last();
        lemma_changed(names, env, init);
        match changes.last() {
            ChangeView::Assign(name, value) => {
                assert(sets.drop_last() == remaining_sets(names, init));
            },
            ChangeView::Remove(name) => {
                assert(removed.drop_last() == removed_names(init));
                lemma_without_key(names, remaining_sets(names, init), key(names, name));
            },
        }
    }
    assert(changed(names, env, changes) =~= target);
}

/// Drops every binding of the variable called `name` from `vars`.
fn drop_name(names: Names, vars: &mut Vec<Variable>, name: &OsText)
    ensures
        bindings(final(vars)@) == without_key(names, bindings(old(vars)@), key(names, name@)),
{
    let ghost given = bindings(vars@);
    let ghost k = key(names, name@);
    let ghost keep = |b: (Seq<u8>, Seq<u8>)| key(names, b.0) != k;
    let ghost mut seen: int = 0;
    let mut i: usize = 0;
    proof {
        reveal(Seq::filter);
        assert(given.take(0).filter(keep) + given.skip(0) == given);
    }
    while i < vars.len()
        invariant
            0 <= i <= vars.len(),
            0 <= seen <= given.len(),
            k == key(names, name@),
            keep == (|b: (Seq<u8>, Seq<u8>)| key(names, b.0) != k),
            i == given.take(seen).filter(keep).len(),
            bindings(vars@) == given.take(seen).filter(keep) + given.skip(seen),
        decreases vars.len() - i,
    {
        let ghost kept = given.take(seen).filter(keep);
        let ghost now = bindings(vars@);
        proof {
            reveal(Seq::filter);
            assert(given.take(seen + 1).drop_last() == given.take(seen));
            assert(given.take(seen + 1).last() == given[seen]);
            assert(now[i as int] == given[seen]);
            assert(given.skip(seen + 1) == given.skip(seen).skip(1));
        }
        if same_variable(names, &vars[i].0, name) {
            let _ = vars.remove(i);
            assert(bindings(vars@) == now.remove(i as int));
            assert(bindings(vars@) == kept + given.skip(seen + 1));
        } else {
            i += 1;
            assert(now == kept.push(given[seen]) + given.skip(seen + 1));
        }
        proof {
            seen = seen + 1;
        }
    }
    assert(given.take(seen) == given);
    assert(keep =~= (|b: (Seq<u8>, Seq<u8>)| key(names, b.0) != k));
    assert(bindings(vars@) == without_key(names, given, k));
}

impl EnvMod {
    /// No change at all.
    pub fn new() -> (changes: EnvMod)
        ensures
            changes@ == EnvView::none(),
    {
        let changes = EnvMod { clear: false, changes: Vec::new() };
        assert(change_bytes(changes.changes@) == Seq::<ChangeView>::empty());
        changes
    }

    /// Whether the parent environment is inherited untouched.
    pub fn is_noop(&self) -> (noop: bool)
        ensures
            noop == self@.is_noop(),
    {
        !self.clear && self.changes.is_empty()
    }

    /// Whether [`EnvMod::materialize`] looks at the parent environment.
    pub fn needs_parent(&self) -> (needed: bool)
        ensures
            needed == (!self@.clear && !self@.is_noop()),
    {
        !self.clear && !self.is_noop()
    }

    /// Set `name` to `value`.
    pub fn set(&mut self, name: OsText, value: OsText)
        ensures
            final(self)@ == old(self)@.setting(name@, value@),
    {
        let ghost before = change_bytes(self.changes@);
        self.changes.push(Change::Assign(name, value));
        assert(change_bytes(self.changes@) == before.push(ChangeView::Assign(name@, value@)));
    }

    /// Set all of `vars`, one after the other.
    pub fn set_all(&mut self, vars: Vec<Variable>)
        ensures
            final(self)@ == old(self)@.setting_all(bindings(vars@)),
    {
        let ghost before = self@;
        let ghost added = sets_of(bindings(vars@));
        let mut i: usize = 0;
        assert(before.changes + added.take(0) == before.changes);
        while i < vars.len()
            invariant
                i <= vars.len(),
                added == sets_of(bindings(vars@)),
                self@ == (EnvView { changes: before.changes + added.take(i as int), ..before }),
            decreases vars.len() - i,
        {
            self.set(vars[i].0.clone(), vars[i].1.clone());
            assert(added[i as int] == ChangeView::Assign(vars@[i as int].0@, vars@[i as int].1@));
            assert((before.changes + added.take(i as int)).push(added[i as int]) == before.changes
                + added.take(i + 1));
            i += 1;
        }
        assert(added.take(added.len() as int) == added);
    }

    /// Remove `name`.
    pub fn remove(&mut self, name: OsText)
        ensures
            final(self)@ == old(self)@.removing(name@),
    {
        let ghost before = change_bytes(self.changes@);
        self.changes.push(Change::Remove(name));
        assert(change_bytes(self.changes@) == before.push(ChangeView::Remove(name@)));
    }

    /// Start from an empty environment.
    pub fn clear(&mut self)
        ensures
            final(self)@ == old(self)@.clearing(),
    {
        self.clear = true;
        self.changes = Vec::new();
        assert(change_bytes(self.changes@) == Seq::<ChangeView>::empty());
    }

    /// Collapse the modifications into one full environment, or `None`
    /// when the parent environment should be inherited as-is. `parent` holds
    /// the variables of the parent, and `names` says when two names belong to
    /// the same variable.
    pub fn materialize(&self, names: Names, parent: &Vec<Variable>) -> (env: Option<Vec<Variable>>)
        ensures
            self@.gives(names, bindings(parent@), env),
    {
        if self.is_noop() {
            return None;
        }
        let ghost given = bindings(parent@);
        let ghost changes = change_bytes(self.changes@);
        let mut vars: Vec<Variable> = Vec::new();
        assert(bindings(vars@) == Seq::<(Seq<u8>, Seq<u8>)>::empty());
        if !self.clear {
            let mut i: usize = 0;
            assert(given.take(0) == Seq::<(Seq<u8>, Seq<u8>)>::empty());
            while i < parent.len()
                invariant
                    i <= parent.len(),
                    given == bindings(parent@),
                    bindings(vars@) == given.take(i as int),
                decreases parent.len() - i,
            {
                let ghost before = bindings(vars@);
                vars.push((parent[i].0.clone(), parent[i].1.clone()));
                assert(bindings(vars@) == before.push(given[i as int]));
                assert(given.take(i + 1) == given.take(i as int).push(given[i as int]));
                i += 1;
            }
            assert(given.take(given.len() as int) == given);
        }
        let ghost start = bindings(vars@);
        let mut sets: Vec<Variable> = Vec::new();
        let mut j: usize = 0;
        assert(bindings(sets@) == Seq::<(Seq<u8>, Seq<u8>)>::empty());
        assert(changes.take(0) == Seq::<ChangeView>::empty());
        while j < self.changes.len()
            invariant
                j <= self.changes.len(),
                changes == change_bytes(self.changes@),
                bindings(vars@) == all_unbound(
                    names,
                    start,
                    removed_names(changes.take(j as int)),
                ),
                bindings(sets@) == remaining_sets(names, changes.take(j as int)),
            decreases self.changes.len() - j,
        {
            let ghost before = bindings(sets@);
            let ghost removed = removed_names(changes.take(j as int));
            assert(changes.take(j + 1).drop_last() == changes.take(j as int));
            assert(changes.take(j + 1).last() == changes[j as int]);
            match &self.changes[j] {
                Change::Assign(name, value) => {
                    sets.push((name.clone(), value.clone()));
                    assert(bindings(sets@) == before.push((name@, value@)));
                },
                Change::Remove(name) => {
                    unbind(names, &mut vars, name);
                    drop_name(names, &mut sets, name);
                    assert(removed.push(name@).drop_last() == removed);
                },
            }
            j += 1;
        }
        assert(changes.take(changes.len() as int) == changes);
        let ghost left = bindings(vars@);
        let ghost added = bindings(sets@);
        let mut k: usize = 0;
        assert(added.take(0) == Seq::<(Seq<u8>, Seq<u8>)>::empty());
        while k < sets.len()
            invariant
                k <= sets.len(),
                added == bindings(sets@),
                bindings(vars@) == all_bound(names, left, added.take(k as int)),
            decreases sets.len() - k,
        {
            assert(added.take(k + 1).drop_last() == added.take(k as int));
            assert(added.take(k + 1).last() == added[k as int]);
            bind(names, &mut vars, sets[k].0.clone(), sets[k].1.clone());
            k += 1;
        }
        assert(added.take(added.len() as int) == added);
        proof {
            lemma_all_unbound(names, start, removed_names(changes));
            lemma_all_bound(names, left, added);
            lemma_changed(names, env_map(names, start), changes);
        }
        Some(vars)
    }
}

// ---------------------------------------------------------------------
// The builder
// ---------------------------------------------------------------------
/// Builder for a pty session: window size, script, working directory and
/// environment.
///
/// The methods are plain configuration; [`PtyBuilder::spawn`] consumes the
/// builder and gives a backend its task. `openpty(window_size, script)` is
/// exactly `PtyBuilder::new(window_size, script).spawn(..)` without cwd/env
/// tweaks.
#[derive(Debug, Clone)]
pub struct PtyBuilder {
    window_size: WindowSize,
    script: Script,
    current_dir: Option<OsText>,
    env: EnvMod,
}

/// What a [`PtyBuilder`] is set to.
pub struct BuilderView {
    /// Dimensions of the terminal.
    pub window_size: WindowSize,
    /// What to run.
    pub script: Script,
    /// Working directory.
    pub current_dir: Option<Seq<u8>>,
    /// Changes of the environment.
    pub env: EnvView,
}

/// The bytes of a directory, if there is one.
pub open spec fn dir_bytes(dir: Option<OsText>) -> Option<Seq<u8>> {
    match dir {
        Some(path) => Some(path@),
        None => None,
    }
}

impl View for PtyBuilder {
    type V = BuilderView;

    closed spec fn view(&self) -> BuilderView {
        BuilderView {
            window_size: self.window_size,
            script: self.script,
            current_dir: dir_bytes(self.current_dir),
            env: self.env@,
        }
    }
}

impl BuilderView {
    /// Whether `spec` is the task that these settings describe, for a parent
    /// with these variables.
    pub open spec fn describes(self, names: Names, parent: Bindings, spec: SpawnSpec) -> bool {
        &&& spec.window_size == self.window_size
        &&& spec.script == self.script
        &&& dir_bytes(spec.current_dir) == self.current_dir
        &&& self.env.gives(names, parent, spec.env)
    }
}

impl PtyBuilder {
    /// Configure a new pty session for `script` at `window_size`.
    pub fn new(window_size: WindowSize, script: Script) -> (builder: PtyBuilder)
        ensures
            builder@ == (BuilderView {
                window_size,
                script,
                current_dir: None,
                env: EnvView::none(),
            }),
    {
        PtyBuilder { window_size, script, current_dir: None, env: EnvMod::new() }
    }

    /// Set the working directory of the spawned process.
    /// Without this call the process inherits the parent's cwd.
    pub fn current_dir(self, path: OsText) -> (builder: PtyBuilder)
        ensures
            builder@ == (BuilderView { current_dir: Some(path@), ..self@ }),
    {
        PtyBuilder {
            window_size: self.window_size,
            script: self.script,
            current_dir: Some(path),
            env: self.env,
        }
    }

    /// Add or override one environment variable of the spawned process.
    pub fn env(self, key: OsText, value: OsText) -> (builder: PtyBuilder)
        ensures
            builder@ == (BuilderView { env: self@.env.setting(key@, value@), ..self@ }),
    {
        let mut builder: PtyBuilder = self;
        builder.env.set(key, value);
        builder
    }

    /// Add or override several environment variables.
    pub fn envs(self, vars: Vec<Variable>) -> (builder: PtyBuilder)
        ensures
            builder@ == (BuilderView { env: self@.env.setting_all(bindings(vars@)), ..self@ }),
    {
        let mut builder: PtyBuilder = self;
        builder.env.set_all(vars);
        builder
    }

    /// Remove an environment variable the process would otherwise inherit.
    pub fn env_remove(self, key: OsText) -> (builder: PtyBuilder)
        ensures
            builder@ == (BuilderView { env: self@.env.removing(key@), ..self@ }),
    {
        let mut builder: PtyBuilder = self;
        builder.env.remove(key);
        builder
    }

    /// Start from an empty environment instead of the parent's one
    /// (subsequent `env`/`envs` calls then build it up; be aware most
    /// programs expect at least `PATH`).
    pub fn env_clear(self) -> (builder: PtyBuilder)
        ensures
            builder@ == (BuilderView { env: self@.env.clearing(), ..self@ }),
    {
        let mut builder: PtyBuilder = self;
        builder.env.clear();
        builder
    }

    /// Whether [`PtyBuilder::spawn`] looks at the parent environment.
    pub fn needs_parent_env(&self) -> (needed: bool)
        ensures
            needed == (!self@.env.clear && !self@.env.is_noop()),
    {
        self.env.needs_parent()
    }

    /// The configured session as a task for a backend. `parent` holds the
    /// variables of the parent, whose names are taken as they are.
    pub fn spawn(self, parent: &Vec<Variable>) -> (spec: SpawnSpec)
        ensures
            self@.describes(Names::Exact, bindings(parent@), spec),
    {
        self.task(Names::Exact, parent)
    }

    /// [`PtyBuilder::spawn`] for Windows, where two names that differ in case
    /// belong to the same variable: removing `PATH` removes an inherited
    /// `Path`.
    pub fn spawn_ignoring_case(self, parent: &Vec<Variable>) -> (spec: SpawnSpec)
        ensures
            self@.describes(Names::AnyCase, bindings(parent@), spec),
    {
        self.task(Names::AnyCase, parent)
    }

    fn task(self, names: Names, parent: &Vec<Variable>) -> (spec: SpawnSpec)
        ensures
            self@.describes(names, bindings(parent@), spec),
    {
        let env: Option<Vec<Variable>> = self.env.materialize(names, parent);
        SpawnSpec {
            window_size: self.window_size,
            script: self.script,
            current_dir: self.current_dir,
            env,
        }
    }
}

/// The task to spawn `script` attached to a fresh pseudo-terminal.
///
/// Shortcut for [`PtyBuilder::new`] and [`PtyBuilder::spawn`] — the process
/// inherits the parent's working directory and environment.
pub fn openpty(window_size: WindowSize, script: Script) -> (spec: SpawnSpec)
    ensures
        spec == (SpawnSpec { window_size, script, current_dir: None, env: None }),
{
    PtyBuilder::new(window_size, script).spawn(&Vec::new())
}

// ---------------------------------------------------------------------
// Laws
// ---------------------------------------------------------------------
/// Without any change the child has the environment of its parent.
pub proof fn law_env_is_inherited(names: Names, parent: Env)
    ensures
        EnvView::none().applied(names, parent) == parent,
{
}

/// `env` has the last word on its variable: whatever was asked for before,
/// the child finds `value` under `name`, and its other variables are as they
/// would be without the call.
pub proof fn law_env_adds_or_overrides(
    names: Names,
    changes: EnvView,
    name: Seq<u8>,
    value: Seq<u8>,
    parent: Env,
)
    ensures
        changes.setting(name, value).applied(names, parent) == changes.applied(
            names,
            parent,
        ).insert(key(names, name), value),
{
    assert(changes.setting(name, value).changes.drop_last() == changes.changes);
}

/// `envs` has the last word on all of its variables; of two values for one
/// variable the later counts.
pub proof fn law_envs_adds_or_overrides(
    names: Names,
    changes: EnvView,
    vars: Bindings,
    parent: Env,
)
    ensures
        changes.setting_all(vars).applied(names, parent) == changes.applied(
            names,
            parent,
        ).union_prefer_right(env_map(names, vars)),
    decreases vars.len(),
{
    let after = changes.setting_all(vars);
    if vars.len() == 0 {
        assert(after.changes == changes.changes);
    } else {
        let init = vars.drop_last();
        law_envs_adds_or_overrides(names, changes, init, parent);
        assert(after.changes.drop_last() == changes.setting_all(init).changes);
        assert(after.changes.last() == ChangeView::Assign(vars.last().0, vars.last().1));
    }
    assert(after.applied(names, parent) =~= changes.applied(names, parent).union_prefer_right(
        env_map(names, vars),
    ));
}

/// `env_remove` has the last word on its variable: whatever was asked for
/// before, the child does not find `name`, and its other variables are as
/// they would be without the call.
pub proof fn law_env_remove_removes(names: Names, changes: EnvView, name: Seq<u8>, parent: Env)
    ensures
        changes.removing(name).applied(names, parent) == changes.applied(names, parent).remove(
            key(names, name),
        ),
{
    assert(changes.removing(name).changes.drop_last() == changes.changes);
}

/// `env_clear` leaves nothing, neither of the parent nor of the calls before
/// it.
pub proof fn law_env_clear_starts_empty(names: Names, changes: EnvView, parent: Env)
    ensures
        changes.clearing().applied(names, parent) == Map::<Seq<u8>, Seq<u8>>::empty(),
{
}

/// Whether a change is about the variable with this key.
pub open spec fn is_about(names: Names, change: ChangeView, k: Seq<u8>) -> bool {
    match change {
        ChangeView::Assign(name, _) => key(names, name) == k,
        ChangeView::Remove(name) => key(names, name) == k,
    }
}

/// A variable that no call mentions reaches the child with the value it has
/// in the parent, unless the environment was cleared.
pub proof fn law_other_variables_are_inherited(
    names: Names,
    changes: EnvView,
    k: Seq<u8>,
    parent: Env,
)
    requires
        !changes.clear,
        forall|i: int|
            0 <= i < changes.changes.len() ==> !is_about(names, #[trigger] changes.changes[i], k),
    ensures
        changes.applied(names, parent).contains_key(k) <==> parent.contains_key(k),
        parent.contains_key(k) ==> changes.applied(names, parent)[k] == parent[k],
    decreases changes.changes.len(),
{
    if changes.changes.len() > 0 {
        let last = changes.changes.len() - 1;
        let init = EnvView { changes: changes.changes.drop_last(), ..changes };
        assert forall|i: int| 0 <= i < init.changes.len() implies !is_about(
            names,
            #[trigger] init.changes[i],
            k,
        ) by {
            assert(init.changes[i] == changes.changes[i]);
        }
        law_other_variables_are_inherited(names, init, k, parent);
        assert(!is_about(names, changes.changes[last], k));
    }
}

/// On Windows the spelling of a name does not matter: calls that spell it
/// differently do the same.
pub proof fn law_case_does_not_matter(
    changes: EnvView,
    a: Seq<u8>,
    b: Seq<u8>,
    value: Seq<u8>,
    parent: Env,
)
    requires
        key(Names::AnyCase, a) == key(Names::AnyCase, b),
    ensures
        changes.removing(a).applied(Names::AnyCase, parent) == changes.removing(b).applied(
            Names::AnyCase,
            parent,
        ),
        changes.setting(a, value).applied(Names::AnyCase, parent) == changes.setting(
            b,
            value,
        ).applied(Names::AnyCase, parent),
{
    law_env_remove_removes(Names::AnyCase, changes, a, parent);
    law_env_remove_removes(Names::AnyCase, changes, b, parent);
    law_env_adds_or_overrides(Names::AnyCase, changes, a, value, parent);
    law_env_adds_or_overrides(Names::AnyCase, changes, b, value, parent);
}

/// Only what was never touched is inherited untouched: every call on the
/// environment counts.
pub proof fn law_every_call_counts(
    changes: EnvView,
    name: Seq<u8>,
    value: Seq<u8>,
    vars: Bindings,
)
    ensures
        EnvView::none().is_noop(),
        !changes.setting(name, value).is_noop(),
        vars.len() > 0 ==> !changes.setting_all(vars).is_noop(),
        vars.len() == 0 ==> changes.setting_all(vars) == changes,
        !changes.removing(name).is_noop(),
        !changes.clearing().is_noop(),
{
    if vars.len() == 0 {
        assert(changes.setting_all(vars).changes == changes.changes);
    }
}

/// The task holds what was configured: the window, the script and the
/// directory as they were given, and, unless nothing was asked for, an
/// environment that a reader of the list finds as the calls describe it.
pub proof fn law_task_holds_the_settings(
    settings: BuilderView,
    names: Names,
    parent: Bindings,
    spec: SpawnSpec,
)
    requires
        settings.describes(names, parent, spec),
    ensures
        spec.window_size == settings.window_size,
        spec.script == settings.script,
        spec.current_dir is None <==> settings.current_dir is None,
        spec.current_dir matches Some(dir) ==> settings.current_dir == Some(dir@),
        spec.env is None <==> !settings.env.clear && settings.env.changes.len() == 0,
        spec.env matches Some(vars) ==> env_map(names, bindings(vars@)) == settings.env.applied(
            names,
            env_map(names, parent),
        ),
        spec.env matches Some(vars) ==> bindings(vars@) == settings.env.listed(names, parent),
{
}

/// A setting that comes last is made on the list that the calls before it
/// give.
pub proof fn law_last_setting_is_bound(
    names: Names,
    changes: EnvView,
    name: Seq<u8>,
    value: Seq<u8>,
    parent: Bindings,
)
    ensures
        changes.setting(name, value).listed(names, parent) == bound(
            names,
            changes.listed(names, parent),
            name,
            value,
        ),
{
    let after = changes.setting(name, value);
    assert(after.changes.drop_last() == changes.changes);
    let sets = remaining_sets(names, changes.changes);
    assert(sets.push((name, value)).drop_last() == sets);
}

/// Before any setting, a removal is made on the list that the calls before it
/// give; the parent's list is where they start, or nothing once it was
/// cleared.
pub proof fn law_removals_start_from_the_parent(
    names: Names,
    changes: EnvView,
    name: Seq<u8>,
    parent: Bindings,
)
    requires
        forall|i: int| 0 <= i < changes.changes.len() ==> (#[trigger] changes.changes[i]) is Remove,
    ensures
        changes.removing(name).listed(names, parent) == unbound(
            names,
            changes.listed(names, parent),
            key(names, name),
        ),
        EnvView::none().listed(names, parent) == parent,
        changes.clearing().listed(names, parent) == Seq::<(Seq<u8>, Seq<u8>)>::empty(),
{
    let after = changes.removing(name);
    assert(after.changes.drop_last() == changes.changes);
    let removed = removed_names(changes.changes);
    assert(removed.push(name).drop_last() == removed);
    lemma_no_sets(names, changes.changes);
    lemma_no_sets(names, after.changes);
}

/// Removals alone set nothing.
proof fn lemma_no_sets(names: Names, changes: Seq<ChangeView>)
    requires
        forall|i: int| 0 <= i < changes.len() ==> (#[trigger] changes[i]) is Remove,
    ensures
        remaining_sets(names, changes).len() == 0,
    decreases changes.len(),
{
    reveal(Seq::filter);
    if changes.len() > 0 {
        assert(changes[changes.len() - 1] is Remove);
        lemma_no_sets(names, changes.drop_last());
    }
}

/// A removal after a setting forgets the setting if both are about the same
/// variable; else it does not matter which of the two came first.
pub proof fn law_removal_after_a_setting(
    names: Names,
    changes: EnvView,
    name: Seq<u8>,
    value: Seq<u8>,
    removed: Seq<u8>,
    parent: Bindings,
)
    ensures
        key(names, name) == key(names, removed) ==> changes.setting(name, value).removing(
            removed,
        ).listed(names, parent) == changes.removing(removed).listed(names, parent),
        key(names, name) != key(names, removed) ==> changes.setting(name, value).removing(
            removed,
        ).listed(names, parent) == changes.removing(removed).setting(name, value).listed(
            names,
            parent,
        ),
{
    reveal(Seq::filter);
    let a = changes.setting(name, value);
    let ab = a.removing(removed);
    let b = changes.removing(removed);
    let ba = b.setting(name, value);
    assert(ab.changes.drop_last() == a.changes);
    assert(a.changes.drop_last() == changes.changes);
    assert(ba.changes.drop_last() == b.changes);
    assert(b.changes.drop_last() == changes.changes);
    let k = key(names, removed);
    let sets = remaining_sets(names, changes.changes);
    let names_removed = removed_names(changes.changes);
    assert(sets.push((name, value)).drop_last() == sets);
    assert(remaining_sets(names, a.changes) == sets.push((name, value)));
    assert(remaining_sets(names, ab.changes) == without_key(names, sets.push((name, value)), k));
    assert(remaining_sets(names, b.changes) == without_key(names, sets, k));
    assert(remaining_sets(names, ba.changes) == without_key(names, sets, k).push((name, value)));
    assert(removed_names(a.changes) == names_removed);
    assert(removed_names(ab.changes) == names_removed.push(removed));
    assert(removed_names(b.changes) == names_removed.push(removed));
    assert(removed_names(ba.changes) == names_removed.push(removed));
    assert(without_key(names, sets.push((name, value)), k) == if key(names, name) == k {
        without_key(names, sets, k)
    } else {
        without_key(names, sets, k).push((name, value))
    });
}

/// `envs` does what `env` does for each of its variables, one after the
/// other.
pub proof fn law_envs_is_repeated_env(
    changes: EnvView,
    vars: Bindings,
    name: Seq<u8>,
    value: Seq<u8>,
)
    ensures
        changes.setting_all(vars.push((name, value))) == changes.setting_all(vars).setting(
            name,
            value,
        ),
{
    assert(changes.setting_all(vars.push((name, value))).changes =~= changes.setting_all(
        vars,
    ).setting(name, value).changes);
}

/// The list handed to the child stands for the environment that the calls
/// describe; there is none exactly when there was no call.
pub proof fn law_child_gets_its_environment(
    changes: EnvView,
    names: Names,
    parent: Bindings,
    env: Option<Vec<Variable>>,
)
    requires
        changes.gives(names, parent, env),
    ensures
        env is None <==> !changes.clear && changes.changes.len() == 0,
        env matches Some(vars) ==> env_map(names, bindings(vars@)) == changes.applied(
            names,
            env_map(names, parent),
        ) && bindings(vars@) == changes.listed(names, parent),
{
}

} // verus!
