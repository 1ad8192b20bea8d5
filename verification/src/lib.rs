//! A minimal rule-driven state-transition engine.
//!
//! An [`Fsm`] binds one caller-defined state value to a fixed, ordered table
//! of rules. Each rule pairs a pure precondition over the state with an
//! activation that mutates it. One call to [`Fsm::fire`] scans the table in
//! order and applies the activation of the first rule whose precondition
//! holds, or does nothing when none does: first match wins, not best match,
//! not all matches.

use vstd::prelude::*;
use vstd::slice::slice_index_get;

verus! {

/// One rule of a transition table: a pure precondition over the state paired
/// with an activation that mutates it in place.
///
/// The two spec functions give the rule's mathematical meaning: `precond`
/// says on which states the rule is enabled, and `next` says which state the
/// activation produces. The two exec methods must behave exactly as the spec
/// functions say, so a precondition is side-effect-free by construction and
/// the activation is the only mutation path.
pub trait Transition<S> {
    /// On which states this rule is enabled.
    spec fn precond(&self, s: S) -> bool;

    /// The state the activation produces from `s`.
    spec fn next(&self, s: S) -> S;

    /// Evaluates the precondition on the current state, without mutating it.
    fn matches(&self, s: &S) -> (r: bool)
        ensures
            r == self.precond(*s),
    ;

    /// Applies the activation to the state in place. Only called on states
    /// where the precondition holds.
    fn apply(&self, s: &mut S)
        requires
            self.precond(*old(s)),
        ensures
            *final(s) == self.next(*old(s)),
    ;
}

/// The state that one evaluation pass reaches from `s` when the scan starts
/// at rule `i` of `table`: the first enabled rule at or after `i` fires, and
/// the state is unchanged when none is enabled there.
pub open spec fn step_from<S, T: Transition<S>>(table: Seq<T>, s: S, i: int) -> S
    decreases table.len() - i,
{
    if i < 0 || i >= table.len() {
        s
    } else if table[i].precond(s) {
        table[i].next(s)
    } else {
        step_from(table, s, i + 1)
    }
}

/// The state that one call to [`Fsm::fire`] reaches from `s` under `table`:
/// the scan of the whole table, from its first rule.
pub open spec fn step<S, T: Transition<S>>(table: Seq<T>, s: S) -> S {
    step_from(table, s, 0)
}

/// No rule of `table` is enabled on `s`.
pub open spec fn matches_none<S, T: Transition<S>>(table: Seq<T>, s: S) -> bool {
    forall|k: int| 0 <= k < table.len() ==> !(#[trigger] table[k].precond(s))
}

/// Rule `i` is the first rule of `table` enabled on `s`.
pub open spec fn is_first_match<S, T: Transition<S>>(table: Seq<T>, s: S, i: int) -> bool {
    &&& 0 <= i < table.len()
    &&& table[i].precond(s)
    &&& forall|k: int| 0 <= k < i ==> !(#[trigger] table[k].precond(s))
}

/// A rule engine: one state value, owned exclusively, and one borrowed,
/// ordered transition table, fixed for the engine's lifetime. The order of
/// the table encodes priority among rules whose preconditions hold at once.
pub struct Fsm<'a, S, T> {
    state: S,
    transition_table: &'a [T],
}

impl<'a, S, T: Transition<S>> Fsm<'a, S, T> {
    /// The current state.
    pub closed spec fn state_of(&self) -> S {
        self.state
    }

    /// The rules of the engine's table, in scan order.
    pub closed spec fn table_of(&self) -> Seq<T> {
        self.transition_table@
    }

    /// Builds an engine over `state` and `transition_table`. The table's
    /// contents are not validated: it may be empty, in which case every
    /// [`Fsm::fire`] is a no-op.
    pub fn new(state: S, transition_table: &'a [T]) -> (fsm: Self)
        ensures
            fsm.state_of() == state,
            fsm.table_of() == transition_table@,
    {
        Fsm { state, transition_table }
    }

    /// A read-only view of the current state.
    pub fn get_state(&self) -> (s: &S)
        ensures
            *s == self.state_of(),
    {
        &self.state
    }

    /// One step: scans the table in order and applies the activation of the
    /// first rule whose precondition holds on the current state, then stops.
    /// When no precondition holds — in particular on an empty table — the
    /// state is left unchanged. The table is never changed.
    pub fn fire(&mut self)
        ensures
            final(self).table_of() == old(self).table_of(),
            final(self).state_of() == step(old(self).table_of(), old(self).state_of()),
    {
        let ghost s0 = self.state;
        let table: &[T] = self.transition_table;
        let n: usize = table.len();
        let mut i: usize = 0;
        while i < n
            invariant
                n == table@.len(),
                i <= n,
                table@ == old(self).table_of(),
                s0 == old(self).state_of(),
                self.transition_table@ == table@,
                self.state == s0,
                step(table@, s0) == step_from(table@, s0, i as int),
            decreases n - i,
        {
            let t = slice_index_get(table, i);
            if t.matches(&self.state) {
                proof {
                    assert(step_from(table@, s0, i as int) == table@[i as int].next(s0));
                }
                t.apply(&mut self.state);
                return;
            }
            i = i + 1;
        }
    }
}

proof fn lemma_step_from_no_match<S, T: Transition<S>>(table: Seq<T>, s: S, i: int)
    requires
        0 <= i <= table.len(),
        forall|k: int| i <= k < table.len() ==> !(#[trigger] table[k].precond(s)),
    ensures
        step_from(table, s, i) == s,
    decreases table.len() - i,
{
    if i < table.len() {
        lemma_step_from_no_match(table, s, i + 1);
    }
}

proof fn lemma_step_from_first_match<S, T: Transition<S>>(table: Seq<T>, s: S, i: int, m: int)
    requires
        0 <= i <= m < table.len(),
        forall|k: int| i <= k < m ==> !(#[trigger] table[k].precond(s)),
        table[m].precond(s),
    ensures
        step_from(table, s, i) == table[m].next(s),
    decreases m - i,
{
    if i < m {
        lemma_step_from_first_match(table, s, i + 1, m);
    }
}

/// Some rule of `table` is enabled on `s`, so a first enabled rule exists.
proof fn lemma_first_match_exists<S, T: Transition<S>>(table: Seq<T>, s: S, j: int)
    requires
        0 <= j < table.len(),
        table[j].precond(s),
    ensures
        exists|m: int| #[trigger] is_first_match(table, s, m) && m <= j,
    decreases j,
{
    if forall|k: int| 0 <= k < j ==> !(#[trigger] table[k].precond(s)) {
        assert(is_first_match(table, s, j));
    } else {
        let k = choose|k: int| 0 <= k < j && #[trigger] table[k].precond(s);
        lemma_first_match_exists(table, s, k);
    }
}

/// No-match idempotence: when no precondition in the table holds, one step
/// leaves the state identical to its value before.
pub proof fn lemma_step_no_match<S, T: Transition<S>>(table: Seq<T>, s: S)
    requires
        matches_none(table, s),
    ensures
        step(table, s) == s,
{
    lemma_step_from_no_match(table, s, 0);
}

/// Empty-table safety: under an empty table, every step leaves the state
/// unchanged.
pub proof fn lemma_step_empty<S, T: Transition<S>>(table: Seq<T>, s: S)
    requires
        table.len() == 0,
    ensures
        step(table, s) == s,
{
    lemma_step_no_match(table, s);
}

/// One step applies exactly the first enabled rule's activation.
pub proof fn lemma_step_first_match<S, T: Transition<S>>(table: Seq<T>, s: S, m: int)
    requires
        is_first_match(table, s, m),
    ensures
        step(table, s) == table[m].next(s),
{
    lemma_step_from_first_match(table, s, 0, m);
}

/// The first enabled rule is unique: priority among simultaneously enabled
/// rules is resolved deterministically, by position alone.
pub proof fn lemma_first_match_unique<S, T: Transition<S>>(table: Seq<T>, s: S, i: int, j: int)
    requires
        is_first_match(table, s, i),
        is_first_match(table, s, j),
    ensures
        i == j,
{
}

/// First-match determinism: when rule `i` and rule `j` with `i < j` are both
/// enabled on `s`, one step applies the activation of the first enabled rule,
/// which sits at or before `i` — never rule `j`'s.
pub proof fn lemma_first_match_wins<S, T: Transition<S>>(table: Seq<T>, s: S, i: int, j: int)
    requires
        0 <= i < j < table.len(),
        table[i].precond(s),
        table[j].precond(s),
    ensures
        exists|m: int|
            #[trigger] is_first_match(table, s, m) && m <= i && step(table, s) == table[m].next(s),
{
    lemma_first_match_exists(table, s, i);
    let m = choose|m: int| #[trigger] is_first_match(table, s, m) && m <= i;
    lemma_step_first_match(table, s, m);
}

/// Single-activation-per-step: one step either leaves the state unchanged —
/// exactly when no rule is enabled — or produces the next state of the one
/// first enabled rule; no other combination of effects can be observed.
pub proof fn lemma_step_cases<S, T: Transition<S>>(table: Seq<T>, s: S)
    ensures
        matches_none(table, s) ==> step(table, s) == s,
        !matches_none(table, s) ==> exists|m: int|
            #[trigger] is_first_match(table, s, m) && step(table, s) == table[m].next(s),
{
    if matches_none(table, s) {
        lemma_step_no_match(table, s);
    } else {
        let j = choose|j: int| 0 <= j < table.len() && #[trigger] table[j].precond(s);
        lemma_first_match_exists(table, s, j);
        let m = choose|m: int| #[trigger] is_first_match(table, s, m);
        lemma_step_first_match(table, s, m);
    }
}

/// The state reached from `s` by `n` successive steps under `table`.
pub open spec fn run<S, T: Transition<S>>(table: Seq<T>, s: S, n: nat) -> S
    decreases n,
{
    if n == 0 {
        s
    } else {
        step(table, run(table, s, (n - 1) as nat))
    }
}

/// Sequential composition: `m + n` steps in one run end in the same state as
/// `m` steps followed by `n` steps observed from the intermediate state — no
/// batching or reordering.
pub proof fn lemma_run_add<S, T: Transition<S>>(table: Seq<T>, s: S, m: nat, n: nat)
    ensures
        run(table, s, m + n) == run(table, run(table, s, m), n),
    decreases n,
{
    if n > 0 {
        lemma_run_add(table, s, m, (n - 1) as nat);
    }
}

} // verus!
