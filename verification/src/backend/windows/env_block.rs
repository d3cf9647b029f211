//! The environment block handed to `CreateProcessW`.
//!
//! Each variable is written as `NAME=VALUE` and ended by a NUL, and one more
//! NUL ends the block, so that the block always ends in two. Windows takes
//! two names that differ only in case for the same variable: such entries
//! are merged, the value given last wins, and the name keeps the spelling
//! and the place it was given first.

use vstd::prelude::*;

use crate::backend::windows::argv::NUL;

verus! {

/// The sign between a name and its value, as a UTF-16 unit.
pub const EQUALS: u16 = 0x3d;

/// A variable: its name and its value, in UTF-16 units.
pub type Variable = (Vec<u16>, Vec<u16>);

// ---------------------------------------------------------------------
// Merging by case-insensitive name
// ---------------------------------------------------------------------
/// `unit` with the ASCII letters `a` to `z` raised to upper case.
pub open spec fn upper(unit: u16) -> u16 {
    if 0x61 <= unit <= 0x7a {
        (unit - 0x20) as u16
    } else {
        unit
    }
}

/// Whether two names differ in case alone.
pub open spec fn same_name(a: Seq<u16>, b: Seq<u16>) -> bool {
    a.len() == b.len() && forall|i: int| 0 <= i < a.len() ==> upper(a[i]) == upper(b[i])
}

/// Whether `vars` holds a variable called `name`, whatever its case.
pub open spec fn holds_name(vars: Seq<(Seq<u16>, Seq<u16>)>, name: Seq<u16>) -> bool {
    exists|i: int| 0 <= i < vars.len() && same_name(#[trigger] vars[i].0, name)
}

/// Where the first variable called `name` stands.
pub open spec fn place_of(vars: Seq<(Seq<u16>, Seq<u16>)>, name: Seq<u16>) -> int
    recommends
        holds_name(vars, name),
{
    choose|i: int|
        0 <= i < vars.len() && same_name(#[trigger] vars[i].0, name) && forall|j: int|
            0 <= j < i ==> !same_name(#[trigger] vars[j].0, name)
}

/// `vars` with `name` set to `value`: in place if the name is there, else at
/// the end.
pub open spec fn stored(
    vars: Seq<(Seq<u16>, Seq<u16>)>,
    name: Seq<u16>,
    value: Seq<u16>,
) -> Seq<(Seq<u16>, Seq<u16>)> {
    if holds_name(vars, name) {
        let i = place_of(vars, name);
        vars.update(i, (vars[i].0, value))
    } else {
        vars.push((name, value))
    }
}

/// The variables of `vars` merged by name, in the order of their first
/// appearance.
pub open spec fn merged(vars: Seq<(Seq<u16>, Seq<u16>)>) -> Seq<(Seq<u16>, Seq<u16>)>
    decreases vars.len(),
{
    if vars.len() == 0 {
        Seq::empty()
    } else {
        stored(merged(vars.drop_last()), vars.last().0, vars.last().1)
    }
}

/// The value that a reader of `vars` gives `name`: the last one set.
pub open spec fn value_of(vars: Seq<(Seq<u16>, Seq<u16>)>, name: Seq<u16>) -> Option<Seq<u16>>
    decreases vars.len(),
{
    if vars.len() == 0 {
        None
    } else if same_name(vars.last().0, name) {
        Some(vars.last().1)
    } else {
        value_of(vars.drop_last(), name)
    }
}

/// The units of each variable.
pub open spec fn units(vars: Seq<Variable>) -> Seq<(Seq<u16>, Seq<u16>)> {
    vars.map_values(|v: Variable| (v.0@, v.1@))
}

// ---------------------------------------------------------------------
// The block
// ---------------------------------------------------------------------
/// `NAME=VALUE` for one variable.
pub open spec fn assignment(var: (Seq<u16>, Seq<u16>)) -> Seq<u16> {
    var.0 + seq![EQUALS] + var.1
}

/// The assignments one after the other, each ended by a NUL.
pub open spec fn assignments(vars: Seq<(Seq<u16>, Seq<u16>)>) -> Seq<u16>
    decreases vars.len(),
{
    if vars.len() == 0 {
        Seq::empty()
    } else {
        assignments(vars.drop_last()) + assignment(vars.last()) + seq![NUL]
    }
}

/// The block for variables with distinct names: their assignments and the
/// final NUL. Without variables two NULs are left.
pub open spec fn block_units(vars: Seq<(Seq<u16>, Seq<u16>)>) -> Seq<u16> {
    if vars.len() == 0 {
        seq![NUL, NUL]
    } else {
        assignments(vars) + seq![NUL]
    }
}

/// Where the first NUL of `block` stands, or its length.
pub open spec fn nul_at(block: Seq<u16>) -> nat
    decreases block.len(),
{
    if block.len() == 0 || block[0] == NUL {
        0
    } else {
        1 + nul_at(block.skip(1))
    }
}

/// The strings that a reader finds in `block`: it reads one up to each NUL
/// and stops at an empty one.
pub open spec fn read_block(block: Seq<u16>) -> Seq<Seq<u16>>
    decreases block.len(),
{
    let n = nul_at(block) as int;
    if n == 0 || n >= block.len() {
        Seq::empty()
    } else {
        seq![block.take(n)] + read_block(block.skip(n + 1))
    }
}

/// Raises an ASCII letter to upper case.
fn upper16(unit: u16) -> (raised: u16)
    ensures
        raised == upper(unit),
{
    if 0x61 <= unit && unit <= 0x7a {
        unit - 0x20
    } else {
        unit
    }
}

/// Whether two names differ in case alone.
fn names_match(a: &[u16], b: &[u16]) -> (same: bool)
    ensures
        same == same_name(a@, b@),
{
    if a.len() != b.len() {
        return false;
    }
    let mut i: usize = 0;
    while i < a.len()
        invariant
            i <= a.len(),
            a.len() == b.len(),
            forall|k: int| 0 <= k < i ==> upper(a@[k]) == upper(b@[k]),
        decreases a.len() - i,
    {
        if upper16(a[i]) != upper16(b[i]) {
            assert(upper(a@[i as int]) != upper(b@[i as int]));
            return false;
        }
        i += 1;
    }
    true
}

/// Sets `name` to `value` in `vars`.
fn store(vars: &mut Vec<Variable>, name: Vec<u16>, value: Vec<u16>)
    ensures
        units(final(vars)@) == stored(units(old(vars)@), name@, value@),
{
    let ghost before = units(vars@);
    let mut i: usize = 0;
    while i < vars.len()
        invariant
            i <= vars.len(),
            vars@ == old(vars)@,
            before == units(vars@),
            forall|k: int| 0 <= k < i ==> !same_name(#[trigger] before[k].0, name@),
        decreases vars.len() - i,
    {
        if names_match(vars[i].0.as_slice(), name.as_slice()) {
            assert(same_name(before[i as int].0, name@));
            assert(place_of(before, name@) == i);
            vars[i].1 = value;
            assert(units(vars@) == stored(before, name@, value@));
            return ;
        }
        i += 1;
    }
    vars.push((name, value));
    assert(units(vars@) == before.push((name@, value@)));
}

/// Builds the UTF-16 environment block for `CreateProcessW` out of the
/// variables of the child.
pub fn build_env_block(vars: Vec<Variable>) -> (block: Vec<u16>)
    ensures
        block@ == block_units(merged(units(vars@))),
{
    let ghost given = units(vars@);
    let mut entries: Vec<Variable> = Vec::new();
    let mut i: usize = 0;
    assert(units(entries@) == merged(given.take(0)));
    while i < vars.len()
        invariant
            i <= vars.len(),
            given == units(vars@),
            units(entries@) == merged(given.take(i as int)),
        decreases vars.len() - i,
    {
        let name: Vec<u16> = vstd::slice::slice_to_vec(vars[i].0.as_slice());
        let value: Vec<u16> = vstd::slice::slice_to_vec(vars[i].1.as_slice());
        store(&mut entries, name, value);
        assert(given.take(i + 1).drop_last() == given.take(i as int));
        assert(given.take(i + 1).last() == given[i as int]);
        i += 1;
    }
    assert(given.take(given.len() as int) == given);
    let ghost kept = units(entries@);
    let mut block: Vec<u16> = Vec::new();
    if entries.is_empty() {
        block.push(NUL);
        block.push(NUL);
        assert(block@ == seq![NUL, NUL]);
        return block;
    }
    let mut j: usize = 0;
    assert(block@ == assignments(kept.take(0)));
    while j < entries.len()
        invariant
            j <= entries.len(),
            kept == units(entries@),
            block@ == assignments(kept.take(j as int)),
        decreases entries.len() - j,
    {
        block.extend_from_slice(entries[j].0.as_slice());
        block.push(EQUALS);
        block.extend_from_slice(entries[j].1.as_slice());
        block.push(NUL);
        assert(kept.take(j + 1).drop_last() == kept.take(j as int));
        assert(kept.take(j + 1).last() == kept[j as int]);
        assert(block@ == assignments(kept.take(j as int)) + assignment(kept[j as int]) + seq![NUL]);
        j += 1;
    }
    assert(kept.take(kept.len() as int) == kept);
    block.push(NUL);
    block
}

// ---------------------------------------------------------------------
// Laws
// ---------------------------------------------------------------------
/// Being the same name is symmetric and carries over a third name.
proof fn lemma_same_name(a: Seq<u16>, b: Seq<u16>, c: Seq<u16>)
    requires
        same_name(a, b),
    ensures
        same_name(b, a),
        same_name(a, c) == same_name(b, c),
        same_name(c, a) == same_name(c, b),
{
    assert(forall|i: int| 0 <= i < a.len() ==> upper(a[i]) == upper(b[i]));
}

/// The first place of a held name is one.
proof fn lemma_place_of(vars: Seq<(Seq<u16>, Seq<u16>)>, name: Seq<u16>)
    requires
        holds_name(vars, name),
    ensures
        0 <= place_of(vars, name) < vars.len(),
        same_name(vars[place_of(vars, name)].0, name),
        forall|j: int| 0 <= j < place_of(vars, name) ==> !same_name(#[trigger] vars[j].0, name),
{
    let i = choose|i: int| 0 <= i < vars.len() && same_name(#[trigger] vars[i].0, name);
    lemma_first_place(vars, name, i);
}

/// Below any place of a name there is a first one.
proof fn lemma_first_place(vars: Seq<(Seq<u16>, Seq<u16>)>, name: Seq<u16>, i: int) -> (first: int)
    requires
        0 <= i < vars.len(),
        same_name(vars[i].0, name),
    ensures
        0 <= first <= i,
        same_name(vars[first].0, name),
        forall|j: int| 0 <= j < first ==> !same_name(#[trigger] vars[j].0, name),
    decreases i,
{
    if exists|j: int| 0 <= j < i && same_name(#[trigger] vars[j].0, name) {
        let j = choose|j: int| 0 <= j < i && same_name(#[trigger] vars[j].0, name);
        lemma_first_place(vars, name, j)
    } else {
        i
    }
}

/// Whether no two variables have the same name.
pub open spec fn names_differ(vars: Seq<(Seq<u16>, Seq<u16>)>) -> bool {
    forall|i: int, j: int|
        0 <= i < j < vars.len() ==> !same_name(#[trigger] vars[i].0, #[trigger] vars[j].0)
}

/// With distinct names, a reader gives a name the value that stands beside it.
proof fn lemma_value_at(vars: Seq<(Seq<u16>, Seq<u16>)>, i: int, name: Seq<u16>)
    requires
        names_differ(vars),
        0 <= i < vars.len(),
        same_name(vars[i].0, name),
    ensures
        value_of(vars, name) == Some(vars[i].1),
    decreases vars.len(),
{
    if i < vars.len() - 1 {
        let last = vars.len() - 1;
        assert(!same_name(vars[i].0, vars[last].0));
        lemma_same_name(vars[i].0, name, vars[last].0);
        if same_name(vars[last].0, name) {
            lemma_same_name(vars[last].0, name, vars[last].0);
        }
        assert(forall|k: int|
            0 <= k < vars.drop_last().len() ==> vars.drop_last()[k] == vars[k]);
        lemma_value_at(vars.drop_last(), i, name);
    }
}

/// A name that no variable has gets no value.
proof fn lemma_no_value(vars: Seq<(Seq<u16>, Seq<u16>)>, name: Seq<u16>)
    requires
        !holds_name(vars, name),
    ensures
        value_of(vars, name) is None,
    decreases vars.len(),
{
    if vars.len() > 0 {
        assert(!same_name(vars[vars.len() - 1].0, name));
        assert forall|i: int| 0 <= i < vars.drop_last().len() implies !same_name(
            #[trigger] vars.drop_last()[i].0,
            name,
        ) by {
            assert(vars.drop_last()[i] == vars[i]);
        }
        lemma_no_value(vars.drop_last(), name);
    }
}

/// Setting one name leaves the names distinct and the other values alone.
proof fn lemma_stored(
    vars: Seq<(Seq<u16>, Seq<u16>)>,
    name: Seq<u16>,
    value: Seq<u16>,
    asked: Seq<u16>,
)
    requires
        names_differ(vars),
    ensures
        names_differ(stored(vars, name, value)),
        value_of(stored(vars, name, value), asked) == if same_name(name, asked) {
            Some(value)
        } else {
            value_of(vars, asked)
        },
{
    let after = stored(vars, name, value);
    if holds_name(vars, name) {
        lemma_place_of(vars, name);
        let p = place_of(vars, name);
        assert(forall|i: int| 0 <= i < vars.len() ==> #[trigger] after[i].0 == vars[i].0);
        assert(names_differ(after));
        lemma_same_name(vars[p].0, name, asked);
        if same_name(name, asked) {
            lemma_value_at(after, p, asked);
        } else if holds_name(vars, asked) {
            let q = choose|q: int| 0 <= q < vars.len() && same_name(#[trigger] vars[q].0, asked);
            assert(q != p);
            lemma_value_at(vars, q, asked);
            assert(same_name(after[q].0, asked));
            lemma_value_at(after, q, asked);
        } else {
            lemma_no_value(vars, asked);
            assert forall|i: int| 0 <= i < after.len() implies !same_name(
                #[trigger] after[i].0,
                asked,
            ) by {
                assert(!same_name(vars[i].0, asked));
            }
            lemma_no_value(after, asked);
        }
    } else {
        assert(after.drop_last() == vars);
        assert forall|i: int, j: int| 0 <= i < j < after.len() implies !same_name(
            #[trigger] after[i].0,
            #[trigger] after[j].0,
        ) by {
            if j < vars.len() {
                assert(!same_name(vars[i].0, vars[j].0));
            } else {
                assert(!same_name(vars[i].0, name));
            }
        }
    }
}

/// Merging keeps what a reader sees: every name, in whatever case it is
/// asked for, has the value it was given last, and no name occurs twice.
pub proof fn law_last_value_wins(vars: Seq<(Seq<u16>, Seq<u16>)>, name: Seq<u16>)
    ensures
        value_of(merged(vars), name) == value_of(vars, name),
        names_differ(merged(vars)),
    decreases vars.len(),
{
    if vars.len() > 0 {
        law_last_value_wins(vars.drop_last(), name);
        lemma_stored(merged(vars.drop_last()), vars.last().0, vars.last().1, name);
    }
}

/// Variables whose names already differ are kept as they are.
pub proof fn law_distinct_names_are_kept(vars: Seq<(Seq<u16>, Seq<u16>)>)
    requires
        names_differ(vars),
    ensures
        merged(vars) == vars,
    decreases vars.len(),
{
    if vars.len() > 0 {
        let init = vars.drop_last();
        assert(forall|k: int| 0 <= k < init.len() ==> init[k] == vars[k]);
        law_distinct_names_are_kept(init);
        assert forall|i: int| 0 <= i < init.len() implies !same_name(
            #[trigger] init[i].0,
            vars.last().0,
        ) by {
            assert(!same_name(vars[i].0, vars[vars.len() - 1].0));
        }
        assert(init.push((vars.last().0, vars.last().1)) == vars);
    }
}

/// Every block ends in two NULs, that of an empty environment too.
pub proof fn law_block_ends_in_two_nuls(vars: Seq<(Seq<u16>, Seq<u16>)>)
    ensures
        block_units(vars).len() >= 2,
        block_units(vars)[block_units(vars).len() - 1] == NUL,
        block_units(vars)[block_units(vars).len() - 2] == NUL,
{
    if vars.len() > 0 {
        let text = assignments(vars);
        assert(text[text.len() - 1] == NUL);
    }
}

/// [`assignments`], taken from the front.
proof fn lemma_assignments_front(vars: Seq<(Seq<u16>, Seq<u16>)>)
    requires
        vars.len() > 0,
    ensures
        assignments(vars) == assignment(vars[0]) + seq![NUL] + assignments(vars.skip(1)),
    decreases vars.len(),
{
    if vars.len() == 1 {
        assert(vars.drop_last() == Seq::<(Seq<u16>, Seq<u16>)>::empty());
        assert(vars.skip(1) == Seq::<(Seq<u16>, Seq<u16>)>::empty());
        assert(assignments(vars) == assignment(vars[0]) + seq![NUL] + assignments(vars.skip(1)));
    } else {
        lemma_assignments_front(vars.drop_last());
        assert(vars.drop_last().skip(1) == vars.skip(1).drop_last());
        assert(assignments(vars) == assignment(vars[0]) + seq![NUL] + assignments(vars.skip(1)));
    }
}

/// A string without NULs goes up to the NUL behind it.
proof fn lemma_nul_at(text: Seq<u16>, tail: Seq<u16>)
    requires
        !text.contains(NUL),
        tail.len() > 0,
        tail[0] == NUL,
    ensures
        nul_at(text + tail) == text.len(),
    decreases text.len(),
{
    let block = text + tail;
    if text.len() == 0 {
        assert(block == tail);
    } else {
        assert(text[0] != NUL);
        assert(forall|i: int| 0 <= i < text.skip(1).len() ==> text.skip(1)[i] == text[i + 1]);
        assert(block.skip(1) == text.skip(1) + tail);
        lemma_nul_at(text.skip(1), tail);
    }
}

/// The assignments of a block read back as they were written.
proof fn lemma_read_assignments(vars: Seq<(Seq<u16>, Seq<u16>)>)
    requires
        without_nul(vars),
    ensures
        read_block(assignments(vars) + seq![NUL]) == vars.map_values(
            |v: (Seq<u16>, Seq<u16>)| assignment(v),
        ),
    decreases vars.len(),
{
    let block = assignments(vars) + seq![NUL];
    let strings = vars.map_values(|v: (Seq<u16>, Seq<u16>)| assignment(v));
    if vars.len() == 0 {
        assert(block == seq![NUL]);
        assert(nul_at(block) == 0);
        assert(read_block(block) == strings);
    } else {
        lemma_assignments_front(vars);
        let first = assignment(vars[0]);
        let rest = assignments(vars.skip(1)) + seq![NUL];
        let tail = seq![NUL] + rest;
        assert(block == first + tail);
        assert(!vars[0].0.contains(NUL) && !vars[0].1.contains(NUL));
        lemma_nul_at(first, tail);
        assert(block.take(first.len() as int) == first);
        assert(block.skip(first.len() as int + 1) == rest);
        assert forall|i: int| 0 <= i < vars.skip(1).len() implies !(#[trigger] vars.skip(
            1,
        )[i]).0.contains(NUL) && !vars.skip(1)[i].1.contains(NUL) by {
            assert(vars.skip(1)[i] == vars[i + 1]);
        }
        lemma_read_assignments(vars.skip(1));
        assert(read_block(block) == seq![first] + read_block(rest));
        assert(read_block(block) == strings);
    }
}

/// Whether no name and no value holds a NUL.
pub open spec fn without_nul(vars: Seq<(Seq<u16>, Seq<u16>)>) -> bool {
    forall|i: int|
        0 <= i < vars.len() ==> !(#[trigger] vars[i]).0.contains(NUL) && !vars[i].1.contains(NUL)
}

/// Merging brings no NULs in.
proof fn lemma_merged_without_nul(vars: Seq<(Seq<u16>, Seq<u16>)>)
    requires
        without_nul(vars),
    ensures
        without_nul(merged(vars)),
    decreases vars.len(),
{
    if vars.len() > 0 {
        let init = vars.drop_last();
        assert(forall|k: int| 0 <= k < init.len() ==> init[k] == vars[k]);
        lemma_merged_without_nul(init);
        let before = merged(init);
        let last = vars[vars.len() - 1];
        if holds_name(before, last.0) {
            lemma_place_of(before, last.0);
        }
    }
}

/// The child reads its environment as it was meant: the block for `vars`
/// holds one `NAME=VALUE` string for each variable that is left after
/// merging, in order. A NUL ends a string, so no name and no value may hold
/// one.
pub proof fn law_block_reads_back(vars: Seq<(Seq<u16>, Seq<u16>)>)
    requires
        without_nul(vars),
    ensures
        read_block(block_units(merged(vars))) == merged(vars).map_values(
            |v: (Seq<u16>, Seq<u16>)| assignment(v),
        ),
{
    let kept = merged(vars);
    lemma_merged_without_nul(vars);
    if kept.len() == 0 {
        assert(nul_at(seq![NUL, NUL]) == 0);
        assert(read_block(block_units(kept)) == kept.map_values(
            |v: (Seq<u16>, Seq<u16>)| assignment(v),
        ));
    } else {
        lemma_read_assignments(kept);
    }
}

/// Whether two units are the same, or an ASCII letter in its two cases.
pub open spec fn same_letter(a: u16, b: u16) -> bool {
    ||| a == b
    ||| 0x41 <= a <= 0x5a && b == a + 0x20
    ||| 0x41 <= b <= 0x5a && a == b + 0x20
}

/// Two names are the same if and only if they have the same length and agree
/// at every place up to the case of an ASCII letter.
pub proof fn law_names_agree_up_to_case(a: Seq<u16>, b: Seq<u16>)
    ensures
        same_name(a, b) <==> a.len() == b.len() && forall|i: int|
            0 <= i < a.len() ==> same_letter(#[trigger] a[i], b[i]),
{
    if same_name(a, b) {
        assert forall|i: int| 0 <= i < a.len() implies same_letter(#[trigger] a[i], b[i]) by {
            assert(upper(a[i]) == upper(b[i]));
        }
    }
    if a.len() == b.len() && forall|i: int|
        0 <= i < a.len() ==> same_letter(#[trigger] a[i], b[i]) {
        assert forall|i: int| 0 <= i < a.len() implies upper(a[i]) == upper(b[i]) by {
            assert(same_letter(a[i], b[i]));
        }
    }
}

/// Of a list of variables every name and every value counts, in order.
pub proof fn law_units_are_the_variables(vars: Seq<Variable>)
    ensures
        units(vars).len() == vars.len(),
        forall|i: int|
            0 <= i < vars.len() ==> (#[trigger] units(vars)[i]).0 == vars[i].0@ && units(vars)[i].1
                == vars[i].1@,
{
}

/// One more variable is added at the end if its name is new; else it changes
/// the value of the variable with its name and nothing else, neither the
/// spelling nor the place of any name.
pub proof fn law_merging_one_more(
    vars: Seq<(Seq<u16>, Seq<u16>)>,
    name: Seq<u16>,
    value: Seq<u16>,
)
    ensures
        ({
            let before = merged(vars);
            let after = merged(vars.push((name, value)));
            &&& merged(Seq::empty()) == Seq::<(Seq<u16>, Seq<u16>)>::empty()
            &&& (forall|i: int| 0 <= i < before.len() ==> !same_name(#[trigger] before[i].0, name))
                ==> after == before.push((name, value))
            &&& forall|i: int|
                0 <= i < before.len() && same_name(#[trigger] before[i].0, name) ==> after
                    == before.update(i, (before[i].0, value))
        }),
{
    let before = merged(vars);
    assert(vars.push((name, value)).drop_last() == vars);
    law_last_value_wins(vars, name);
    assert forall|i: int|
        0 <= i < before.len() && same_name(#[trigger] before[i].0, name) implies merged(
        vars.push((name, value)),
    ) == before.update(i, (before[i].0, value)) by {
        lemma_place_of(before, name);
        let p = place_of(before, name);
        if p < i {
            lemma_same_name(before[p].0, name, before[i].0);
            lemma_same_name(before[i].0, name, before[i].0);
            assert(same_name(before[p].0, before[i].0));
        }
    }
}

/// A block grows by one assignment in front of the NUL that ends it; without
/// variables it is two NULs.
pub proof fn law_block_grows_by_its_variables(
    vars: Seq<(Seq<u16>, Seq<u16>)>,
    name: Seq<u16>,
    value: Seq<u16>,
)
    ensures
        block_units(Seq::empty()) == seq![0u16, 0u16],
        block_units(seq![(name, value)]) == name + seq![0x3du16] + value + seq![0u16, 0u16],
        vars.len() > 0 ==> block_units(vars.push((name, value))) == block_units(vars).drop_last()
            + name + seq![0x3du16] + value + seq![0u16, 0u16],
{
    let one = seq![(name, value)];
    assert(one.drop_last() == Seq::<(Seq<u16>, Seq<u16>)>::empty());
    assert(assignments(one.drop_last()) == Seq::<u16>::empty());
    assert(block_units(one) =~= name + seq![EQUALS] + value + seq![NUL, NUL]);
    if vars.len() > 0 {
        assert(vars.push((name, value)).drop_last() == vars);
        assert(block_units(vars).drop_last() == assignments(vars));
        assert(block_units(vars.push((name, value))) =~= assignments(vars) + name + seq![EQUALS]
            + value + seq![NUL, NUL]);
    }
}

} // verus!
