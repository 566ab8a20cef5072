use vstd::prelude::*;

use crate::registry::{
    after_connect_failure_of, after_connected, after_dispense, connect_failure_step,
    dispense_outcome, with_slot, DispenseError, DispenseOutcome, EntryView, Slot,
};
use crate::retry::{ConnectStep, CONNECT_ATTEMPTS, CONNECT_DELAY_MS};

verus! {

/// What `k` calls of `dispense(name)` in a row answer, starting from `m`.
pub open spec fn dispense_run<P, C>(
    m: Map<Seq<char>, EntryView<P, C>>,
    name: Seq<char>,
    k: nat,
) -> Seq<DispenseOutcome>
    decreases k,
{
    if k == 0 {
        Seq::empty()
    } else {
        seq![dispense_outcome(m, name)] + dispense_run(after_dispense(m, name), name, (k - 1) as nat)
    }
}

proof fn lemma_run_after_claim<P, C>(m: Map<Seq<char>, EntryView<P, C>>, name: Seq<char>, k: nat)
    requires
        m.contains_key(name),
        m[name].slot is Starting,
    ensures
        dispense_run(m, name, k).len() == k,
        forall|j: int| 0 <= j < k ==> #[trigger] dispense_run(m, name, k)[j] == DispenseOutcome::Wait,
    decreases k,
{
    if k > 0 {
        lemma_run_after_claim(m, name, (k - 1) as nat);
        let rest = dispense_run(m, name, (k - 1) as nat);
        assert(after_dispense(m, name) == m);
        assert forall|j: int| 0 <= j < k implies #[trigger] dispense_run(m, name, k)[j]
            == DispenseOutcome::Wait by {
            if j > 0 {
                assert(dispense_run(m, name, k)[j] == rest[j - 1]);
            }
        }
    }
}

/// However many callers ask for the same idle plugin one after another, the
/// first is told to spawn it and every later one to wait: at most one
/// process is started per name, and none for a name that is not idle.
pub proof fn lemma_at_most_one_spawn<P, C>(
    m: Map<Seq<char>, EntryView<P, C>>,
    name: Seq<char>,
    k: nat,
)
    ensures
        dispense_run(m, name, k).len() == k,
        forall|j: int| 1 <= j < k ==> !(#[trigger] dispense_run(m, name, k)[j] is Spawn),
        k >= 1 ==> (dispense_run(m, name, k)[0] is Spawn <==> m.contains_key(name)
            && m[name].slot is Idle),
    decreases k,
{
    if k > 0 {
        let m1 = after_dispense(m, name);
        let rest = dispense_run(m1, name, (k - 1) as nat);
        lemma_at_most_one_spawn(m1, name, (k - 1) as nat);
        if m.contains_key(name) && m[name].slot is Idle {
            lemma_run_after_claim(m1, name, (k - 1) as nat);
        } else {
            assert(m1 == m);
        }
        assert forall|j: int| 1 <= j < k implies !(#[trigger] dispense_run(m, name, k)[j] is Spawn) by {
            assert(dispense_run(m, name, k)[j] == rest[j - 1]);
            if !(m.contains_key(name) && m[name].slot is Idle) && j - 1 >= 1 {
                assert(!(rest[j - 1] is Spawn));
            }
        }
    }
}

/// The registry after `k` calls of `dispense(name)` in a row, starting from
/// `m`.
pub open spec fn after_dispenses<P, C>(
    m: Map<Seq<char>, EntryView<P, C>>,
    name: Seq<char>,
    k: nat,
) -> Map<Seq<char>, EntryView<P, C>>
    decreases k,
{
    if k == 0 {
        m
    } else {
        after_dispenses(after_dispense(m, name), name, (k - 1) as nat)
    }
}

/// Once the plugin runs with client `c`, however many callers ask for it are
/// all told to reuse it, and the registry keeps that one client throughout:
/// `cached_client` hands each of them `c`.
pub proof fn lemma_all_callers_share_client<P, C>(
    m: Map<Seq<char>, EntryView<P, C>>,
    name: Seq<char>,
    p: P,
    c: C,
    k: nat,
)
    requires
        m.contains_key(name),
        m[name].slot == Slot::<P, C>::Active(p, c),
    ensures
        dispense_run(m, name, k).len() == k,
        forall|j: int| 0 <= j < k ==> #[trigger] dispense_run(m, name, k)[j] == DispenseOutcome::Reuse,
        after_dispenses(m, name, k) == m,
    decreases k,
{
    if k > 0 {
        assert(after_dispense(m, name) == m);
        lemma_all_callers_share_client(m, name, p, c, (k - 1) as nat);
        let rest = dispense_run(m, name, (k - 1) as nat);
        assert forall|j: int| 0 <= j < k implies #[trigger] dispense_run(m, name, k)[j]
            == DispenseOutcome::Reuse by {
            if j > 0 {
                assert(dispense_run(m, name, k)[j] == rest[j - 1]);
            }
        }
    }
}

/// What `k` failed connection attempts in a row for `name` give, starting
/// from `m`.
pub open spec fn failure_run<P, C>(
    m: Map<Seq<char>, EntryView<P, C>>,
    name: Seq<char>,
    k: nat,
) -> Seq<ConnectStep>
    decreases k,
{
    if k == 0 {
        Seq::empty()
    } else {
        seq![connect_failure_step(m, name)] + failure_run(
            after_connect_failure_of(m, name),
            name,
            (k - 1) as nat,
        )
    }
}

/// The registry after `k` failed connection attempts in a row for `name`.
pub open spec fn after_failures<P, C>(
    m: Map<Seq<char>, EntryView<P, C>>,
    name: Seq<char>,
    k: nat,
) -> Map<Seq<char>, EntryView<P, C>>
    decreases k,
{
    if k == 0 {
        m
    } else {
        after_failures(after_connect_failure_of(m, name), name, (k - 1) as nat)
    }
}

proof fn lemma_failures_from<P, C>(m: Map<Seq<char>, EntryView<P, C>>, name: Seq<char>, f: u32)
    requires
        m.contains_key(name),
        m[name].slot == Slot::<P, C>::Starting(f),
        f < CONNECT_ATTEMPTS,
    ensures
        ({
            let k = (CONNECT_ATTEMPTS - f) as nat;
            &&& failure_run(m, name, k).len() == k
            &&& forall|j: int|
                0 <= j < k - 1 ==> #[trigger] failure_run(m, name, k)[j] == ConnectStep::RetryAfter(
                    CONNECT_DELAY_MS,
                )
            &&& failure_run(m, name, k)[k - 1] == ConnectStep::GiveUp
            &&& after_failures(m, name, k) == m.insert(name, with_slot(m[name], Slot::Idle))
        }),
    decreases CONNECT_ATTEMPTS - f,
{
    let k = (CONNECT_ATTEMPTS - f) as nat;
    let m1 = after_connect_failure_of(m, name);
    if f + 1 == CONNECT_ATTEMPTS {
        assert(failure_run(m1, name, 0) =~= Seq::<ConnectStep>::empty());
        assert(failure_run(m, name, k) =~= seq![ConnectStep::GiveUp]);
        assert(after_failures(m, name, k) == after_failures(m1, name, 0));
        assert(m1 == m.insert(name, with_slot(m[name], Slot::Idle)));
    } else {
        let g = (f + 1) as u32;
        assert(m1 == m.insert(name, with_slot(m[name], Slot::Starting(g))));
        lemma_failures_from(m1, name, g);
        let rest = failure_run(m1, name, (k - 1) as nat);
        assert(failure_run(m, name, k) == seq![ConnectStep::RetryAfter(CONNECT_DELAY_MS)] + rest);
        assert forall|j: int| 0 <= j < k - 1 implies #[trigger] failure_run(m, name, k)[j]
            == ConnectStep::RetryAfter(CONNECT_DELAY_MS) by {
            if j > 0 {
                assert(failure_run(m, name, k)[j] == rest[j - 1]);
            }
        }
        assert(failure_run(m, name, k)[k - 1] == rest[k - 2]);
        assert(after_failures(m, name, k) == after_failures(m1, name, (k - 1) as nat));
        assert(m1.insert(name, with_slot(m1[name], Slot::Idle)) =~= m.insert(
            name,
            with_slot(m[name], Slot::Idle),
        ));
    }
}

/// When a spawned plugin's endpoint never becomes reachable, the `dispense`
/// that claimed it is told to retry after `CONNECT_DELAY_MS` for each of the
/// first `CONNECT_ATTEMPTS - 1` failed attempts and to give up at the
/// `CONNECT_ATTEMPTS`-th: exactly that many attempts, evenly spaced, none
/// after the last. The plugin is then idle again, as before the `dispense`.
pub proof fn lemma_unreachable_plugin<P, C>(m: Map<Seq<char>, EntryView<P, C>>, name: Seq<char>)
    requires
        m.contains_key(name),
        m[name].slot is Idle,
    ensures
        dispense_outcome(m, name) is Spawn,
        ({
            let m1 = after_dispense(m, name);
            let k = CONNECT_ATTEMPTS as nat;
            &&& failure_run(m1, name, k).len() == k
            &&& forall|j: int|
                0 <= j < k - 1 ==> #[trigger] failure_run(m1, name, k)[j]
                    == ConnectStep::RetryAfter(CONNECT_DELAY_MS)
            &&& failure_run(m1, name, k)[k - 1] == ConnectStep::GiveUp
            &&& after_failures(m1, name, k) == m
        }),
{
    let m1 = after_dispense(m, name);
    lemma_failures_from(m1, name, 0);
    assert(m1.insert(name, with_slot(m1[name], Slot::Idle)) =~= m);
}

/// Once the caller told to spawn has reported its connection, every later
/// `dispense` of that name reuses the running process and its client: a
/// second call never spawns a second process.
pub proof fn lemma_reuse_after_connect<P, C>(
    m: Map<Seq<char>, EntryView<P, C>>,
    name: Seq<char>,
    p: P,
    c: C,
)
    requires
        dispense_outcome(m, name) is Spawn,
    ensures
        ({
            let m2 = after_connected(after_dispense(m, name), name, p, c);
            &&& dispense_outcome(m2, name) == DispenseOutcome::Reuse
            &&& after_dispense(m2, name) == m2
            &&& m2[name].slot == Slot::<P, C>::Active(p, c)
        }),
{
}

/// A running plugin keeps answering `Reuse`, and `dispense` leaves it as it
/// is.
pub proof fn lemma_reuse_is_idempotent<P, C>(m: Map<Seq<char>, EntryView<P, C>>, name: Seq<char>)
    requires
        m.contains_key(name),
        m[name].slot is Active,
    ensures
        dispense_outcome(m, name) == DispenseOutcome::Reuse,
        after_dispense(m, name) == m,
        dispense_outcome(after_dispense(m, name), name) == DispenseOutcome::Reuse,
{
}

/// After a plugin has been reaped, the next `dispense` spawns it afresh
/// from its path.
pub proof fn lemma_reap_then_spawn<P, C>(m: Map<Seq<char>, EntryView<P, C>>, name: Seq<char>)
    requires
        m.contains_key(name),
        m[name].slot is Active,
    ensures
        dispense_outcome(m.insert(name, with_slot(m[name], Slot::Idle)), name)
            == DispenseOutcome::Spawn(m[name].path),
{
}

/// An unknown name is refused and leaves the registry unchanged.
pub proof fn lemma_unknown_name<P, C>(m: Map<Seq<char>, EntryView<P, C>>, name: Seq<char>)
    requires
        !m.contains_key(name),
    ensures
        dispense_outcome(m, name) == DispenseOutcome::Failed(DispenseError::NotFound),
        after_dispense(m, name) == m,
{
}

} // verus!
