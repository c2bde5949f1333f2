//! Exhaustive enumeration of the reachable state space: a depth-first
//! frontier and a visited set of mirror-canonical 128-bit keys, seeded with
//! the initial position. Non-terminal states are expanded through every
//! legal action; a successor is kept only when its canonical key is new.
//! The whole bounded search is defined once more as a specification-level
//! function, and the driver returns exactly its value.
use vstd::prelude::*;

use std::collections::BTreeSet;
use std::collections::VecDeque;

use crate::actions::is_legal;
use crate::actions::legal_seq;
use crate::actions::lemma_legal_seq_is_legal;
use crate::encode::canonical_key;
use crate::encode::canonical_key_spec;
use crate::laws::lemma_next_preserves_valid;
use crate::state::Game;
use crate::state::State;
use crate::state::StateModel;
use crate::state::initial_model;
use crate::state::lemma_initial_valid;
use crate::state::valid_state;
use crate::terminal::is_terminal_state;
use crate::terminal::terminal_spec;
use crate::transition::next_model;

verus! {

/// One expansion step: some legal action of `m1` leads to `m2`.
pub open spec fn step_rel(m1: StateModel, m2: StateModel) -> bool {
    exists|a: (u8, u8)| is_legal(m1, a) && m2 == next_model(m1, a)
}

/// `m` is reached from the initial position in exactly `n` expansions of
/// non-terminal states.
pub open spec fn reachable_in(n: nat, m: StateModel) -> bool
    decreases n,
{
    if n == 0 {
        m == initial_model()
    } else {
        exists|p: StateModel|
            reachable_in((n - 1) as nat, p) && !terminal_spec(p) && step_rel(p, m)
    }
}

/// `m` is reachable from the initial position.
pub open spec fn reachable(m: StateModel) -> bool {
    exists|n: nat| reachable_in(n, m)
}

/// Every reachable state satisfies the structural state invariant.
pub proof fn lemma_reachable_in_valid(n: nat, m: StateModel)
    requires
        reachable_in(n, m),
    ensures
        valid_state(m),
    decreases n,
{
    if n == 0 {
        lemma_initial_valid();
    } else {
        let p = choose|p: StateModel|
            reachable_in((n - 1) as nat, p) && !terminal_spec(p) && step_rel(p, m);
        lemma_reachable_in_valid((n - 1) as nat, p);
        let a = choose|a: (u8, u8)| is_legal(p, a) && m == next_model(p, a);
        lemma_next_preserves_valid(p, a);
    }
}

/// The models of a frontier of states, in stack order.
pub open spec fn frontier_models(states: Seq<State>) -> Seq<StateModel> {
    states.map_values(|st: State| st@)
}

/// Expanding one state through its first `k` legal actions: each successor
/// whose canonical key is new joins the frontier and its key the visited
/// set; the others are dropped.
pub open spec fn expand_spec(
    frontier: Seq<StateModel>,
    visited: Set<u128>,
    s: StateModel,
    k: int,
) -> (Seq<StateModel>, Set<u128>)
    decreases k,
{
    if k <= 0 {
        (frontier, visited)
    } else {
        let prev = expand_spec(frontier, visited, s, k - 1);
        let ns = next_model(s, legal_seq(s)[k - 1]);
        let key = canonical_key_spec(ns);
        if prev.1.contains(key) {
            prev
        } else {
            (prev.0.push(ns), prev.1.insert(key))
        }
    }
}

/// The bounded depth-first search: take the last frontier state; skip it
/// when its turn counter is saturated or it is terminal, else expand it
/// through all its legal actions; each taken state costs one unit of
/// budget. The search is finished when the frontier empties, unfinished
/// when the budget runs out first.
pub open spec fn search_from(frontier: Seq<StateModel>, visited: Set<u128>, budget: u64) -> (
    Set<u128>,
    bool,
)
    decreases budget,
{
    if frontier.len() == 0 {
        (visited, true)
    } else if budget == 0 {
        (visited, false)
    } else {
        let s = frontier.last();
        let rest = frontier.drop_last();
        if s.turn >= 0xffff || terminal_spec(s) {
            search_from(rest, visited, (budget - 1) as u64)
        } else {
            let fv = expand_spec(rest, visited, s, legal_seq(s).len() as int);
            search_from(fv.0, fv.1, (budget - 1) as u64)
        }
    }
}

/// What the bounded search yields from the initial position with the given
/// budget: the set of canonical keys seen, and whether the frontier was
/// exhausted.
pub open spec fn search_spec(max_expansions: u64) -> (Set<u128>, bool) {
    search_from(
        seq![initial_model()],
        Set::empty().insert(canonical_key_spec(initial_model())),
        max_expansions,
    )
}

/// Enumerates the reachable state space, deduplicated by mirror-canonical
/// key, until the frontier is exhausted or `max_expansions` states have
/// been taken from it. The result is exactly what the specification-level
/// search yields: the number of distinct keys seen and whether the frontier
/// was exhausted; every such key is the canonical key of a reachable state.
/// A state whose turn counter has reached its maximum is not expanded.
#[verifier::rlimit(100)]
pub fn count_reachable_states(max_expansions: u64) -> (r: (u64, bool))
    ensures
        r.0 == search_spec(max_expansions).0.len(),
        r.1 == search_spec(max_expansions).1,
        r.0 >= 1,
        forall|k: u128|
            search_spec(max_expansions).0.contains(k) ==> exists|s: StateModel|
                reachable(s) && k == #[trigger] canonical_key_spec(s),
{
    broadcast use vstd::std_specs::btree::group_btree_axioms;
    broadcast use vstd::laws_cmp::group_laws_cmp;
    broadcast use vstd::set::group_set_axioms;

    let initial = Game::initial_state();
    proof {
        assert(reachable_in(0, initial@));
        assert(reachable(initial@));
    }
    let mut stack: VecDeque<State> = VecDeque::new();
    stack.push_back(initial);
    let mut visited: BTreeSet<u128> = BTreeSet::new();
    visited.insert(canonical_key(&initial));
    let mut expansions: u64 = 0;
    proof {
        assert(frontier_models(stack@) =~= seq![initial_model()]);
    }
    while stack.len() > 0 && expansions < max_expansions
        invariant
            expansions <= max_expansions,
            search_from(
                frontier_models(stack@),
                visited@,
                (max_expansions - expansions) as u64,
            ) == search_spec(max_expansions),
            forall|j: int|
                0 <= j < stack@.len() ==> valid_state(#[trigger] stack@[j]@) && reachable(
                    stack@[j]@,
                ),
            visited@.finite(),
            visited@.len() >= 1,
            forall|k: u128|
                visited@.contains(k) ==> exists|s: StateModel|
                    reachable(s) && k == #[trigger] canonical_key_spec(s),
        decreases max_expansions - expansions,
    {
        let ghost models_pre = frontier_models(stack@);
        let ghost budget_pre = (max_expansions - expansions) as u64;
        expansions = expansions + 1;
        let state = match stack.pop_back() {
            Some(s) => s,
            None => {
                proof {
                    assert(false);
                }
                continue ;
            },
        };
        proof {
            assert(models_pre.len() > 0 && budget_pre > 0);
            assert(models_pre.last() == state@);
            assert(frontier_models(stack@) =~= models_pre.drop_last());
        }
        if state.turn >= 0xffff {
            proof {
                assert(search_from(models_pre, visited@, budget_pre) == search_from(
                    models_pre.drop_last(),
                    visited@,
                    (budget_pre - 1) as u64,
                ));
            }
            continue ;
        }
        if is_terminal_state(&state) {
            proof {
                assert(search_from(models_pre, visited@, budget_pre) == search_from(
                    models_pre.drop_last(),
                    visited@,
                    (budget_pre - 1) as u64,
                ));
            }
            continue ;
        }
        let ghost rest_models = frontier_models(stack@);
        let ghost v0 = visited@;
        let legal = Game::legal_actions(&state);
        proof {
            let fv = expand_spec(rest_models, v0, state@, legal_seq(state@).len() as int);
            assert(search_from(models_pre, v0, budget_pre) == search_from(
                fv.0,
                fv.1,
                (budget_pre - 1) as u64,
            ));
        }
        let mut li: usize = 0;
        while li < legal.len()
            invariant
                li <= legal@.len(),
                legal@ == legal_seq(state@),
                valid_state(state@),
                reachable(state@),
                !terminal_spec(state@),
                state@.turn < 0xffff,
                expansions <= max_expansions,
                frontier_models(stack@) == expand_spec(
                    rest_models,
                    v0,
                    state@,
                    li as int,
                ).0,
                visited@ == expand_spec(rest_models, v0, state@, li as int).1,
                search_from(
                    expand_spec(rest_models, v0, state@, legal_seq(state@).len() as int).0,
                    expand_spec(rest_models, v0, state@, legal_seq(state@).len() as int).1,
                    (max_expansions - expansions) as u64,
                ) == search_spec(max_expansions),
                forall|j: int|
                    0 <= j < stack@.len() ==> valid_state(#[trigger] stack@[j]@) && reachable(
                        stack@[j]@,
                    ),
                visited@.finite(),
                visited@.len() >= 1,
                forall|k: u128|
                    visited@.contains(k) ==> exists|s: StateModel|
                        reachable(s) && k == #[trigger] canonical_key_spec(s),
            decreases legal@.len() - li,
        {
            let a = legal[li];
            proof {
                assert(legal_seq(state@).contains(a));
                lemma_legal_seq_is_legal(state@, a);
            }
            match Game::next_state(&state, a) {
                Some(ns) => {
                    proof {
                        lemma_next_preserves_valid(state@, a);
                        let n = choose|n: nat| reachable_in(n, state@);
                        assert(reachable_in(n + 1, ns@));
                        assert(reachable(ns@));
                    }
                    let key = canonical_key(&ns);
                    if !visited.contains(&key) {
                        visited.insert(key);
                        stack.push_back(ns);
                        proof {
                            assert(frontier_models(stack@) =~= expand_spec(
                                rest_models,
                                v0,
                                state@,
                                li as int,
                            ).0.push(ns@));
                        }
                    }
                },
                None => {
                    proof {
                        assert(false);
                    }
                },
            }
            li = li + 1;
        }
    }
    let count = visited.len() as u64;
    let finished = stack.len() == 0;
    proof {
        assert(visited@.len() == count);
        if finished {
            assert(frontier_models(stack@) =~= Seq::<StateModel>::empty());
            assert(search_spec(max_expansions) == (visited@, true));
        } else {
            assert(frontier_models(stack@).len() > 0);
            assert(search_spec(max_expansions) == (visited@, false));
        }
    }
    (count, finished)
}

} // verus!
