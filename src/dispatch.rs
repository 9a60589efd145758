use vstd::prelude::*;

use crate::error::ConnectionError;
use crate::registry::{has_name, index_of, name_set, names_unique, Global, GlobalView, RegistryState};

verus! {

/// An event addressed to the registry object, once decoded.
#[derive(Debug)]
pub enum RegistryEvent {
    /// The server announces a global.
    Global { name: u32, interface: String, version: u32 },
    /// The server withdraws the global with this name.
    GlobalRemove { name: u32 },
    /// An event kind this client does not know; it is ignored.
    Unrecognized { opcode: u16 },
}

/// What a [`RegistryEvent`] means.
pub ghost enum EventView {
    Added(GlobalView),
    Removed(u32),
    Other,
}

impl View for RegistryEvent {
    type V = EventView;

    open spec fn view(&self) -> EventView {
        match self {
            RegistryEvent::Global { name, interface, version } => EventView::Added(
                GlobalView { name: *name, interface: interface@, version: *version },
            ),
            RegistryEvent::GlobalRemove { name } => EventView::Removed(*name),
            RegistryEvent::Unrecognized { .. } => EventView::Other,
        }
    }
}

impl RegistryEvent {
    /// A copy of the event that owns its own interface string.
    pub fn copy(&self) -> (r: RegistryEvent)
        ensures
            r@ == self@,
    {
        match self {
            RegistryEvent::Global { name, interface, version } => RegistryEvent::Global {
                name: *name,
                interface: interface.clone(),
                version: *version,
            },
            RegistryEvent::GlobalRemove { name } => RegistryEvent::GlobalRemove { name: *name },
            RegistryEvent::Unrecognized { opcode } => RegistryEvent::Unrecognized { opcode: *opcode },
        }
    }
}

/// The table after one event: an announcement of a new name is appended, a
/// withdrawal of a live name takes that entry out, and everything else
/// (a repeated announcement, a withdrawal of an unknown name, an unknown
/// event kind) leaves the table alone.
pub open spec fn step(s: Seq<GlobalView>, e: EventView) -> Seq<GlobalView> {
    match e {
        EventView::Added(g) => if has_name(s, g.name) {
            s
        } else {
            s.push(g)
        },
        EventView::Removed(n) => if has_name(s, n) {
            s.remove(index_of(s, n))
        } else {
            s
        },
        EventView::Other => s,
    }
}

/// What dispatching one event reports: a consistency violation for a
/// repeated announcement or a withdrawal of an unknown name, success
/// otherwise.
pub open spec fn step_result(s: Seq<GlobalView>, e: EventView) -> Result<(), ConnectionError> {
    match e {
        EventView::Added(g) => if has_name(s, g.name) {
            Err(ConnectionError::ProtocolConsistencyViolation { name: g.name })
        } else {
            Ok(())
        },
        EventView::Removed(n) => if has_name(s, n) {
            Ok(())
        } else {
            Err(ConnectionError::ProtocolConsistencyViolation { name: n })
        },
        EventView::Other => Ok(()),
    }
}

/// The table after the events `es`, applied in order to `s`.
pub open spec fn apply_all(s: Seq<GlobalView>, es: Seq<EventView>) -> Seq<GlobalView>
    decreases es.len(),
{
    if es.len() == 0 {
        s
    } else {
        step(apply_all(s, es.drop_last()), es.last())
    }
}

/// The names that `es` announces at some point and does not withdraw later.
pub open spec fn live_names(es: Seq<EventView>) -> Set<u32> {
    Set::new(
        |n: u32|
            exists|i: int|
                0 <= i < es.len() && #[trigger] es[i] is Added && es[i]->Added_0.name == n
                    && forall|j: int| i < j < es.len() ==> #[trigger] es[j] != EventView::Removed(n),
    )
}

/// Applies one registry event to the table, as the registry object's event
/// sink does for each message addressed to it.
pub fn dispatch(state: &mut RegistryState, event: RegistryEvent) -> (r: Result<(), ConnectionError>)
    requires
        old(state).wf(),
    ensures
        final(state).wf(),
        final(state)@ == step(old(state)@, event@),
        r == step_result(old(state)@, event@),
{
    match event {
        RegistryEvent::Global { name, interface, version } => {
            match state.add(Global { name, interface, version }) {
                Ok(()) => Ok(()),
                Err(e) => Err(e),
            }
        },
        RegistryEvent::GlobalRemove { name } => {
            match state.remove(name) {
                Ok(_) => Ok(()),
                Err(e) => Err(e),
            }
        },
        RegistryEvent::Unrecognized { .. } => Ok(()),
    }
}

/// Applies `events` to the table in arrival order. Each event's outcome is
/// reported at its own position; a violation does not stop the rest.
pub fn apply_events(state: &mut RegistryState, events: &Vec<RegistryEvent>) -> (r: Vec<
    Result<(), ConnectionError>,
>)
    requires
        old(state).wf(),
    ensures
        final(state).wf(),
        final(state)@ == apply_all(old(state)@, events@.map_values(|e: RegistryEvent| e@)),
        r@.len() == events@.len(),
        forall|i: int|
            0 <= i < events@.len() ==> #[trigger] r@[i] == step_result(
                apply_all(old(state)@, events@.map_values(|e: RegistryEvent| e@).take(i)),
                events@[i]@,
            ),
{
    let ghost start = state@;
    let ghost es = events@.map_values(|e: RegistryEvent| e@);
    let mut results: Vec<Result<(), ConnectionError>> = Vec::new();
    let mut i: usize = 0;
    while i < events.len()
        invariant
            i <= events@.len(),
            es == events@.map_values(|e: RegistryEvent| e@),
            state.wf(),
            state@ == apply_all(start, es.take(i as int)),
            results@.len() == i,
            forall|k: int|
                0 <= k < i ==> #[trigger] results@[k] == step_result(
                    apply_all(start, es.take(k)),
                    events@[k]@,
                ),
        decreases events@.len() - i,
    {
        let ghost before = state@;
        let res = dispatch(state, events[i].copy());
        proof {
            let next = es.take(i + 1);
            assert(next.drop_last() =~= es.take(i as int));
            assert(next.last() == es[i as int]);
        }
        results.push(res);
        i += 1;
    }
    assert(es.take(i as int) =~= es);
    results
}

proof fn lemma_step_names(s: Seq<GlobalView>, e: EventView)
    requires
        names_unique(s),
    ensures
        names_unique(step(s, e)),
        e is Added ==> name_set(step(s, e)) == name_set(s).insert(e->Added_0.name),
        e is Removed ==> name_set(step(s, e)) == name_set(s).remove(e->Removed_0),
        e is Other ==> name_set(step(s, e)) == name_set(s),
{
    let t = step(s, e);
    match e {
        EventView::Added(g) => {
            if !has_name(s, g.name) {
                assert forall|n: u32| has_name(t, n) <==> has_name(s, n) || n == g.name by {
                    if has_name(s, n) {
                        let k = choose|k: int| 0 <= k < s.len() && #[trigger] s[k].name == n;
                        assert(t[k].name == n);
                    }
                    if n == g.name {
                        assert(t[s.len() as int].name == n);
                    }
                    if has_name(t, n) {
                        let k = choose|k: int| 0 <= k < t.len() && #[trigger] t[k].name == n;
                        if k < s.len() {
                            assert(s[k].name == n);
                        }
                    }
                }
            } else {
                assert forall|n: u32| has_name(t, n) <==> has_name(s, n) || n == g.name by {}
            }
            assert(name_set(t) =~= name_set(s).insert(g.name));
        },
        EventView::Removed(m) => {
            if has_name(s, m) {
                let x = index_of(s, m);
                assert(0 <= x < s.len() && s[x].name == m);
                assert forall|n: u32| has_name(t, n) <==> has_name(s, n) && n != m by {
                    if has_name(t, n) {
                        let k = choose|k: int| 0 <= k < t.len() && #[trigger] t[k].name == n;
                        if k < x {
                            assert(s[k].name == n);
                        } else {
                            assert(s[k + 1].name == n);
                        }
                    }
                    if has_name(s, n) && n != m {
                        let k = choose|k: int| 0 <= k < s.len() && #[trigger] s[k].name == n;
                        if k < x {
                            assert(t[k].name == n);
                        } else {
                            assert(k != x);
                            assert(t[k - 1].name == n);
                        }
                    }
                }
            } else {
                assert forall|n: u32| has_name(t, n) <==> has_name(s, n) && n != m by {}
            }
            assert(name_set(t) =~= name_set(s).remove(m));
        },
        EventView::Other => {
            assert(name_set(t) =~= name_set(s));
        },
    }
}

/// Whatever events arrive, and in whatever order, the table built from them
/// holds each name at most once, and its names are exactly those that were
/// announced and not withdrawn afterwards.
pub proof fn lemma_final_names(es: Seq<EventView>)
    ensures
        names_unique(apply_all(Seq::empty(), es)),
        name_set(apply_all(Seq::empty(), es)) == live_names(es),
    decreases es.len(),
{
    if es.len() == 0 {
        assert(name_set(Seq::<GlobalView>::empty()) =~= live_names(es));
    } else {
        let prev = es.drop_last();
        let e = es.last();
        let last = es.len() - 1;
        lemma_final_names(prev);
        lemma_step_names(apply_all(Seq::empty(), prev), e);
        assert forall|n: u32| #[trigger] live_names(es).contains(n) <==> match e {
            EventView::Added(g) => live_names(prev).contains(n) || n == g.name,
            EventView::Removed(m) => live_names(prev).contains(n) && n != m,
            EventView::Other => live_names(prev).contains(n),
        } by {
            if live_names(es).contains(n) {
                let i = choose|i: int|
                    0 <= i < es.len() && #[trigger] es[i] is Added && es[i]->Added_0.name == n
                        && forall|j: int| i < j < es.len() ==> #[trigger] es[j] != EventView::Removed(n);
                if i < last {
                    assert(prev[i] == es[i]);
                    assert forall|j: int| i < j < prev.len() implies #[trigger] prev[j]
                        != EventView::Removed(n) by {
                        assert(prev[j] == es[j]);
                    }
                    assert(live_names(prev).contains(n));
                }
                if e is Removed {
                    assert(es[last] != EventView::Removed(n));
                }
            }
            if e is Added && n == e->Added_0.name {
                assert(es[last] is Added);
                assert(live_names(es).contains(n));
            }
            if live_names(prev).contains(n) && e != EventView::Removed(n) {
                let i = choose|i: int|
                    0 <= i < prev.len() && #[trigger] prev[i] is Added && prev[i]->Added_0.name == n
                        && forall|j: int| i < j < prev.len() ==> #[trigger] prev[j] != EventView::Removed(n);
                assert(es[i] == prev[i]);
                assert forall|j: int| i < j < es.len() implies #[trigger] es[j] != EventView::Removed(
                    n,
                ) by {
                    if j < last {
                        assert(prev[j] == es[j]);
                    }
                }
                assert(live_names(es).contains(n));
            }
        }
        match e {
            EventView::Added(g) => {
                assert(live_names(es) =~= live_names(prev).insert(g.name));
            },
            EventView::Removed(m) => {
                assert(live_names(es) =~= live_names(prev).remove(m));
            },
            EventView::Other => {
                assert(live_names(es) =~= live_names(prev));
            },
        }
    }
}

/// Withdrawing a name that is not live is reported as a consistency
/// violation for that name, and leaves the table exactly as it was.
pub proof fn lemma_unknown_removal_is_harmless(s: Seq<GlobalView>, n: u32)
    requires
        !has_name(s, n),
    ensures
        step(s, EventView::Removed(n)) == s,
        step_result(s, EventView::Removed(n)) == Err::<(), ConnectionError>(
            ConnectionError::ProtocolConsistencyViolation { name: n },
        ),
{
}

/// After any run of events that never announced `n`, withdrawing `n` is
/// reported as a consistency violation and changes nothing.
pub proof fn lemma_removal_of_never_added(es: Seq<EventView>, n: u32)
    requires
        forall|i: int| 0 <= i < es.len() ==> !(#[trigger] es[i] is Added && es[i]->Added_0.name == n),
    ensures
        step(apply_all(Seq::empty(), es), EventView::Removed(n)) == apply_all(Seq::empty(), es),
        step_result(apply_all(Seq::empty(), es), EventView::Removed(n)) == Err::<(), ConnectionError>(
            ConnectionError::ProtocolConsistencyViolation { name: n },
        ),
{
    let s = apply_all(Seq::empty(), es);
    lemma_final_names(es);
    assert(!live_names(es).contains(n));
    assert(!name_set(s).contains(n));
    lemma_unknown_removal_is_harmless(s, n);
}

} // verus!
