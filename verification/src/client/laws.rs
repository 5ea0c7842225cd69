use crate::client::state::ActionView;
use crate::client::state::Alert;
use crate::client::state::ComputationView;
use crate::client::state::NodeView;
use crate::client::state::Setup;
use crate::diagnosis_server_state::ChunkView;
use crate::diagnosis_server_state::ComputationStateView;
use crate::diagnosis_server_state::ListType;
use crate::primitives::ComputationId;
use crate::primitives::TemporaryExposureKey;
use crate::primitives::Validity;
use crate::rpcs::ForwardParams;
use crate::tek_set::seq_has;
use vstd::prelude::*;

verus! {

/// Whether the computations of `node` that count as the participant's own are exactly
/// those that the participant `started` by an upload of its own.
pub open spec fn own_iff_started(node: NodeView, started: Set<ComputationId>) -> bool {
    forall|id: ComputationId|
        (node.has(id) && node.computation(id).is_own()) <==> #[trigger] started.contains(id)
}

/// Whether `after` knows every computation that `before` knows, each as the
/// participant's own or not as before and with at least the same redlisted keys, and
/// whether no computation that came to be known counts as the participant's own.
pub open spec fn grown(before: NodeView, after: NodeView) -> bool {
    &&& after.wf()
    &&& forall|id: ComputationId| #[trigger] before.has(id) ==> after.has(id)
    &&& forall|id: ComputationId|
        before.has(id) ==> (#[trigger] after.computation(id)).is_own() == before.computation(
            id,
        ).is_own()
    &&& forall|id: ComputationId|
        !before.has(id) && #[trigger] after.has(id) ==> !after.computation(id).is_own()
    &&& forall|id: ComputationId, key: (int, Seq<u8>)| #[trigger]
        seq_has(before.computation(id).redlist, key) ==> seq_has(after.computation(id).redlist, key)
}

/// States with the same computations know the same of each.
pub proof fn lemma_same_computations(a: NodeView, b: NodeView)
    requires
        a.computations == b.computations,
    ensures
        a.wf() == b.wf(),
        forall|id: ComputationId| #[trigger] a.has(id) == b.has(id),
        forall|id: ComputationId| #[trigger] a.computation(id) == b.computation(id),
{
    assert forall|id: ComputationId| #[trigger] a.has(id) == b.has(id) by {
        if a.has(id) {
            let i = a.place_of(id);
            assert(b.computations[i].0 == id);
        }
        if b.has(id) {
            let i = b.place_of(id);
            assert(a.computations[i].0 == id);
        }
    }
    assert forall|id: ComputationId| #[trigger] a.computation(id) == b.computation(id) by {
        assert(a.has(id) == b.has(id));
        assert(a.place_of(id) == b.place_of(id));
    }
}

/// What is known of a computation after one computation was set.
pub proof fn lemma_with_computation(node: NodeView, id: ComputationId, computation: ComputationView)
    requires
        node.wf(),
    ensures
        node.with_computation(id, computation).wf(),
        forall|other: ComputationId| #[trigger]
            node.with_computation(id, computation).has(other) == (node.has(other) || other == id),
        forall|other: ComputationId| #[trigger]
            node.with_computation(id, computation).computation(other) == if other == id {
                computation
            } else {
                node.computation(other)
            },
{
    let after = node.with_computation(id, computation);
    let place = if node.has(id) {
        node.place_of(id)
    } else {
        node.computations.len() as int
    };
    assert forall|a: int, b: int| 0 <= a < b < after.computations.len() implies (
    #[trigger] after.computations[a]).0 != (#[trigger] after.computations[b]).0 by {
        if node.has(id) {
            assert(node.computations[a].0 != node.computations[b].0);
        } else if b == place {
            assert(node.computations[a].0 != id);
        } else {
            assert(node.computations[a].0 != node.computations[b].0);
        }
    }
    assert(after.computations[place] == (id, computation));
    after.lemma_place(place);
    assert forall|other: ComputationId| #[trigger]
        after.has(other) == (node.has(other) || other == id) by {
        if after.has(other) && other != id {
            let p = after.place_of(other);
            assert(node.computations[p].0 == other);
        }
        if node.has(other) && other != id {
            let p = node.place_of(other);
            assert(after.computations[p].0 == other);
        }
    }
    assert forall|other: ComputationId| #[trigger]
        after.computation(other) == if other == id {
            computation
        } else {
            node.computation(other)
        } by {
        if other != id && node.has(other) {
            let p = node.place_of(other);
            assert(after.computations[p] == node.computations[p]);
            after.lemma_place(p);
        }
    }
}

/// A computation that the participant starts by an upload of its own counts as its own
/// from then on, and the computations that count as its own stay exactly those that it
/// started.
pub proof fn law_started_computation_is_own(
    node: NodeView,
    started: Set<ComputationId>,
    id: ComputationId,
)
    requires
        node.wf(),
        own_iff_started(node, started),
    ensures
        node.with_computation(id, ComputationView::started()).computation(id).is_own(),
        own_iff_started(node.with_computation(id, ComputationView::started()), started.insert(id)),
{
    lemma_with_computation(node, id, ComputationView::started());
    let after = node.with_computation(id, ComputationView::started());
    assert forall|other: ComputationId|
        (after.has(other) && after.computation(other).is_own()) <==> #[trigger] started.insert(
            id,
        ).contains(other) by {
        if other != id {
            assert(started.contains(other) == (node.has(other) && node.computation(
                other,
            ).is_own()));
        }
    }
}

/// A temporary exposure key from a list of the diagnosis server takes nothing away: the
/// computations stay known, each stays the participant's own or not as it was, also
/// where it gains a successor, a computation that comes to be known is not the
/// participant's own, and no redlist changes.
pub proof fn law_tek_match_grows(
    setup: Setup,
    node: NodeView,
    tek: Validity<TemporaryExposureKey>,
    list: ListType,
    id: ComputationId,
)
    requires
        node.wf(),
    ensures
        grown(node, setup.tek_match(node, tek, list, id).0),
        forall|other: ComputationId| #[trigger]
            setup.tek_match(node, tek, list, id).0.computation(other).redlist == node.computation(
                other,
            ).redlist,
{
    let after = setup.tek_match(node, tek, list, id).0;
    if setup.matched(tek) is Some {
        let found = setup.matched(tek)->0;
        let high = found.high != Set::<int>::empty();
        let noted = node.with_traced_contact(list == ListType::Blacklist && high);
        lemma_same_computations(noted, node);
        let grown_computation = noted.computation(id).with_successor(found);
        lemma_with_computation(noted, id, grown_computation);
        assert(grown_computation.is_own() == noted.computation(id).is_own());
    }
}

/// A forward changes no successors, so a computation is the participant's own after it
/// exactly if it was before; and it takes no key off a redlist.
pub proof fn law_tek_forward_keeps(setup: Setup, node: NodeView, params: ForwardParams)
    requires
        node.wf(),
    ensures
        grown(node, setup.tek_forward(node, params).0),
        forall|id: ComputationId| #[trigger]
            setup.tek_forward(node, params).0.has(id) == node.has(id),
        forall|id: ComputationId| #[trigger]
            setup.tek_forward(node, params).0.computation(id).successors == node.computation(
                id,
            ).successors,
{
    let after = setup.tek_forward(node, params).0;
    let id = params.computation_id;
    let predecessor = params.predecessor_at(setup.tekrp);
    if setup.matched(predecessor) is Some && node.has(id) {
        let computation = if params.first() {
            node.computation(id).with_redlisted(predecessor)
        } else {
            node.computation(id)
        };
        lemma_with_computation(node, id, computation);
        assert forall|other: ComputationId, key: (int, Seq<u8>)| #[trigger]
            seq_has(node.computation(other).redlist, key) implies seq_has(
            after.computation(other).redlist,
            key,
        ) by {
            if other == id && params.first() && !seq_has(node.computation(id).redlist, predecessor@) {
                let i = choose|i: int|
                    0 <= i < node.computation(id).redlist.len() && (#[trigger] node.computation(
                        id,
                    ).redlist[i])@ == key;
                assert(computation.redlist[i]@ == key);
            }
        }
    }
}

/// Once a predecessor is on the redlist of a computation, a further first forward from
/// it changes nothing: the key is not put there a second time.
pub proof fn law_redlisted_stays_once(setup: Setup, node: NodeView, params: ForwardParams)
    requires
        node.wf(),
        node.has(params.computation_id),
        seq_has(
            node.computation(params.computation_id).redlist,
            params.predecessor_at(setup.tekrp)@,
        ),
    ensures
        setup.tek_forward(node, params).0 == node,
{
    let id = params.computation_id;
    node.lemma_place(node.place_of(id));
    assert(node.with_computation(id, node.computation(id)).computations =~= node.computations);
}

/// Growth carries over from one step to the next.
pub proof fn lemma_grown_transitive(a: NodeView, b: NodeView, c: NodeView)
    requires
        grown(a, b),
        grown(b, c),
    ensures
        grown(a, c),
{
    assert forall|id: ComputationId| a.has(id) implies (#[trigger] c.computation(id)).is_own()
        == a.computation(id).is_own() by {
        assert(b.has(id));
        assert(b.computation(id).is_own() == a.computation(id).is_own());
    }
    assert forall|id: ComputationId| !a.has(id) && #[trigger] c.has(id) implies !c.computation(
        id,
    ).is_own() by {
        if b.has(id) {
            assert(!b.computation(id).is_own());
            assert(c.computation(id).is_own() == b.computation(id).is_own());
        }
    }
    assert forall|id: ComputationId, key: (int, Seq<u8>)| #[trigger]
        seq_has(a.computation(id).redlist, key) implies seq_has(c.computation(id).redlist, key) by {
        assert(seq_has(b.computation(id).redlist, key));
    }
}

/// A state has grown from itself.
pub proof fn lemma_grown_reflexive(node: NodeView)
    requires
        node.wf(),
    ensures
        grown(node, node),
{
}

/// A row of keys takes nothing away.
pub proof fn law_tek_matches_grow(
    setup: Setup,
    node: NodeView,
    teks: Seq<Validity<TemporaryExposureKey>>,
    list: ListType,
    id: ComputationId,
)
    requires
        node.wf(),
    ensures
        grown(node, setup.tek_matches(node, teks, list, id).0),
    decreases teks.len(),
{
    if teks.len() == 0 {
        lemma_grown_reflexive(node);
    } else {
        let before = setup.tek_matches(node, teks.drop_last(), list, id).0;
        law_tek_matches_grow(setup, node, teks.drop_last(), list, id);
        law_tek_match_grows(setup, before, teks.last(), list, id);
        lemma_grown_transitive(node, before, setup.tek_match(before, teks.last(), list, id).0);
    }
}

/// The lists of one computation in a chunk take nothing away.
pub proof fn law_entry_grows(setup: Setup, node: NodeView, id: ComputationId, lists: ComputationStateView)
    requires
        node.wf(),
    ensures
        grown(node, setup.entry_processed(node, id, lists).0),
{
    let hit = node.has(id) && setup.any_own(lists.greylist);
    let noted = node.with_transitive_contact(hit);
    lemma_same_computations(noted, node);
    assert(grown(node, noted));
    let black = setup.tek_matches(noted, lists.blacklist, ListType::Blacklist, id).0;
    law_tek_matches_grow(setup, noted, lists.blacklist, ListType::Blacklist, id);
    law_tek_matches_grow(setup, black, lists.greylist, ListType::Greylist, id);
    lemma_grown_transitive(node, noted, black);
    lemma_grown_transitive(
        node,
        black,
        setup.tek_matches(black, lists.greylist, ListType::Greylist, id).0,
    );
}

/// A chunk takes nothing away.
pub proof fn law_chunk_grows(setup: Setup, node: NodeView, data: Seq<(ComputationId, ComputationStateView)>)
    requires
        node.wf(),
    ensures
        grown(node, setup.chunk_processed(node, data).0),
    decreases data.len(),
{
    if data.len() == 0 {
        lemma_grown_reflexive(node);
    } else {
        let before = setup.chunk_processed(node, data.drop_last()).0;
        law_chunk_grows(setup, node, data.drop_last());
        law_entry_grows(setup, before, data.last().0, data.last().1);
        lemma_grown_transitive(
            node,
            before,
            setup.entry_processed(before, data.last().0, data.last().1).0,
        );
    }
}

/// A row of chunks takes nothing away.
pub proof fn law_chunks_grow(setup: Setup, node: NodeView, chunks: Seq<ChunkView>)
    requires
        node.wf(),
    ensures
        grown(node, setup.chunks_processed(node, chunks).0),
    decreases chunks.len(),
{
    if chunks.len() == 0 {
        lemma_grown_reflexive(node);
    } else {
        let before = setup.chunks_processed(node, chunks.drop_last()).0;
        law_chunks_grow(setup, node, chunks.drop_last());
        law_chunk_grows(setup, before, chunks.last().data);
        lemma_grown_transitive(node, before, setup.chunk_processed(before, chunks.last().data).0);
    }
}

/// Whatever has grown from a state in which the computations of the participant's own
/// are exactly those that it started is such a state again: a computation is the
/// participant's own if and only if an upload of the participant's own started it,
/// whatever keys were matched and whatever forwards came in since.
pub proof fn law_own_iff_started(before: NodeView, after: NodeView, started: Set<ComputationId>)
    requires
        grown(before, after),
        own_iff_started(before, started),
    ensures
        own_iff_started(after, started),
{
    assert forall|id: ComputationId|
        (after.has(id) && after.computation(id).is_own()) <==> #[trigger] started.contains(
            id,
        ) by {
        if started.contains(id) {
            assert(before.has(id) && before.computation(id).is_own());
            assert(after.has(id));
            assert(after.computation(id).is_own() == before.computation(id).is_own());
        }
        if after.has(id) && after.computation(id).is_own() {
            if before.has(id) {
                assert(after.computation(id).is_own() == before.computation(id).is_own());
            }
        }
    }
}

/// The instant from which a participant asks for chunks never moves back, and no chunk
/// that the participant took in starts after it.
pub proof fn law_next_from_monotone(last_from: int, chunks: Seq<ChunkView>)
    ensures
        Setup::next_from(last_from, chunks) >= last_from,
        forall|i: int|
            0 <= i < chunks.len() ==> Setup::next_from(last_from, chunks) >= (
            #[trigger] chunks[i]).covers.start(),
    decreases chunks.len(),
{
    if chunks.len() > 0 {
        law_next_from_monotone(last_from, chunks.drop_last());
        assert forall|i: int| 0 <= i < chunks.len() implies Setup::next_from(last_from, chunks)
            >= (#[trigger] chunks[i]).covers.start() by {
            if i < chunks.len() - 1 {
                assert(chunks.drop_last()[i] == chunks[i]);
            }
        }
    }
}

/// What is known of a computation after one computation was taken out.
pub proof fn lemma_without_computation(node: NodeView, id: ComputationId)
    requires
        node.wf(),
        node.has(id),
    ensures
        ({
            let after = NodeView {
                traced_contact: node.traced_contact,
                transitive_contact: node.transitive_contact,
                computations: node.computations.remove(node.place_of(id)),
            };
            &&& after.wf()
            &&& forall|other: ComputationId| #[trigger]
                after.has(other) == (node.has(other) && other != id)
            &&& forall|other: ComputationId|
                other != id ==> #[trigger] after.computation(other) == node.computation(other)
        }),
{
    let place = node.place_of(id);
    let after = NodeView {
        traced_contact: node.traced_contact,
        transitive_contact: node.transitive_contact,
        computations: node.computations.remove(place),
    };
    let moved = |j: int| if j < place { j } else { j + 1 };
    assert forall|a: int, b: int| 0 <= a < b < after.computations.len() implies (
    #[trigger] after.computations[a]).0 != (#[trigger] after.computations[b]).0 by {
        assert(node.computations[moved(a)].0 != node.computations[moved(b)].0);
    }
    assert forall|other: ComputationId| #[trigger]
        after.has(other) == (node.has(other) && other != id) by {
        if after.has(other) {
            let p = after.place_of(other);
            assert(node.computations[moved(p)].0 == other);
            if other == id {
                node.lemma_place(moved(p));
            }
        }
        if node.has(other) && other != id {
            let p = node.place_of(other);
            let q = if p < place { p } else { p - 1 };
            assert(after.computations[q].0 == other);
        }
    }
    assert forall|other: ComputationId| other != id implies #[trigger] after.computation(other)
        == node.computation(other) by {
        if node.has(other) {
            let p = node.place_of(other);
            let q = if p < place { p } else { p - 1 };
            assert(after.computations[q] == node.computations[p]);
            after.lemma_place(q);
        }
    }
}

/// A forward that did not get through and is taken back leaves the computations of the
/// participant's own as they are: they are still exactly those that it started.
pub proof fn law_forward_failed_keeps_own(
    node: NodeView,
    started: Set<ComputationId>,
    id: ComputationId,
    key: (int, Seq<u8>),
)
    requires
        node.wf(),
        own_iff_started(node, started),
    ensures
        node.forward_failed(id, key).wf(),
        own_iff_started(node.forward_failed(id, key), started),
{
    let after = node.forward_failed(id, key);
    if node.has(id) && node.computation(id).has_successor(key) {
        let computation = node.computation(id).without_successor(key);
        if !computation.own && computation.successors.len() == 0 {
            lemma_without_computation(node, id);
            assert(!started.contains(id));
        } else {
            lemma_with_computation(node, id, computation);
        }
        assert forall|other: ComputationId|
            (after.has(other) && after.computation(other).is_own()) <==> #[trigger] started.contains(
                other,
            ) by {
            assert(started.contains(other) == (node.has(other) && node.computation(
                other,
            ).is_own()));
        }
    }
}

/// Whether `actions` start with an alert for a traced contact of high risk and hold no
/// other alert.
pub open spec fn one_high_risk_alert(actions: Seq<ActionView>) -> bool {
    &&& actions.len() >= 1
    &&& actions[0] == ActionView::Raise(Alert::HighRiskTracedContact)
    &&& forall|i: int| 1 <= i < actions.len() ==> !(#[trigger] actions[i] is Raise)
}

/// A key from the blacklist whose owner was met with high risk raises one alert for a
/// traced contact of high risk and no other, and makes the participant a traced
/// contact; whether it is a transitive contact stays as it was.
pub proof fn law_blacklist_match_alerts(
    setup: Setup,
    node: NodeView,
    id: ComputationId,
    tek: Validity<TemporaryExposureKey>,
)
    requires
        setup.matched(tek) is Some,
        setup.matched(tek)->0.high != Set::<int>::empty(),
    ensures
        setup.tek_match(node, tek, ListType::Blacklist, id).0.traced_contact,
        setup.tek_match(node, tek, ListType::Blacklist, id).0.transitive_contact
            == node.transitive_contact,
        one_high_risk_alert(setup.tek_match(node, tek, ListType::Blacklist, id).1),
{
    let found = setup.matched(tek)->0;
    let alerts = seq![ActionView::Raise(Alert::HighRiskTracedContact)];
    let noted = node.with_traced_contact(true);
    let step = setup.tek_match(node, tek, ListType::Blacklist, id);
    match setup.own_tek(found.key.0) {
        None => {
            assert(step.1 == alerts);
        },
        Some(own) => {
            let more = seq![
                ActionView::OpenWindow,
                ActionView::Forward {
                    endpoint: found.endpoint,
                    params: setup.first_forward(id, found, own),
                    successor: if noted.computation(id).has_successor(found.key) {
                        None
                    } else {
                        Some(found.key)
                    },
                },
            ];
            assert(step.1 == alerts + more);
            assert(step.1[0] == alerts[0]);
            assert forall|i: int| 1 <= i < step.1.len() implies !(#[trigger] step.1[i] is Raise) by {
                assert(step.1[i] == more[i - 1]);
            }
        },
    }
}

/// What a row of one key leads to is what that key leads to.
pub proof fn lemma_one_tek_matches(
    setup: Setup,
    node: NodeView,
    tek: Validity<TemporaryExposureKey>,
    list: ListType,
    id: ComputationId,
)
    ensures
        setup.tek_matches(node, seq![tek], list, id).0 == setup.tek_match(node, tek, list, id).0,
        setup.tek_matches(node, seq![tek], list, id).1 == setup.tek_match(node, tek, list, id).1,
{
    let teks = seq![tek];
    assert(teks.drop_last() =~= Seq::<Validity<TemporaryExposureKey>>::empty());
    assert(teks.last() == tek);
    assert(setup.tek_matches(node, teks.drop_last(), list, id) == (
        node,
        Seq::<ActionView>::empty(),
    ));
    let step = setup.tek_match(node, tek, list, id);
    assert(Seq::<ActionView>::empty() + step.1 =~= step.1);
}

/// What a chunk with one computation leads to is what the lists of that computation
/// lead to.
pub proof fn lemma_one_entry_processed(
    setup: Setup,
    node: NodeView,
    id: ComputationId,
    lists: ComputationStateView,
)
    ensures
        setup.chunk_processed(node, seq![(id, lists)]).0 == setup.entry_processed(
            node,
            id,
            lists,
        ).0,
        setup.chunk_processed(node, seq![(id, lists)]).1 == setup.entry_processed(
            node,
            id,
            lists,
        ).1,
{
    let data = seq![(id, lists)];
    assert(data.drop_last() =~= Seq::<(ComputationId, ComputationStateView)>::empty());
    assert(data.last() == (id, lists));
    assert(setup.chunk_processed(node, data.drop_last()) == (node, Seq::<ActionView>::empty()));
    let entry = setup.entry_processed(node, id, lists);
    assert(Seq::<ActionView>::empty() + entry.1 =~= entry.1);
}

/// A participant that was told of nothing yet and finds, in a chunk, a computation
/// whose blacklist holds one key, that of someone it met with high risk, and whose
/// greylist is empty, is told of one traced contact of high risk and of nothing else,
/// and is from then on a traced contact and no transitive one.
pub proof fn law_direct_high_risk_alert(
    setup: Setup,
    node: NodeView,
    id: ComputationId,
    tek: Validity<TemporaryExposureKey>,
)
    requires
        !node.transitive_contact,
        setup.matched(tek) is Some,
        setup.matched(tek)->0.high != Set::<int>::empty(),
    ensures
        ({
            let lists = ComputationStateView { blacklist: seq![tek], greylist: Seq::empty() };
            let after = setup.chunk_processed(node, seq![(id, lists)]);
            &&& after.0.traced_contact
            &&& !after.0.transitive_contact
            &&& one_high_risk_alert(after.1)
        }),
{
    let lists = ComputationStateView { blacklist: seq![tek], greylist: Seq::empty() };
    lemma_one_entry_processed(setup, node, id, lists);
    assert(!setup.any_own(lists.greylist));
    let noted = node.with_transitive_contact(false);
    lemma_one_tek_matches(setup, noted, tek, ListType::Blacklist, id);
    law_blacklist_match_alerts(setup, noted, id, tek);
    let black = setup.tek_matches(noted, lists.blacklist, ListType::Blacklist, id);
    assert(setup.tek_matches(black.0, lists.greylist, ListType::Greylist, id) == (
        black.0,
        Seq::<ActionView>::empty(),
    ));
    let entry = setup.entry_processed(node, id, lists);
    assert(entry.1 =~= Seq::<ActionView>::empty() + black.1 + Seq::<ActionView>::empty());
    assert(entry.1 =~= black.1);
}

} // verus!
