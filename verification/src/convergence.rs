//! Why gossip converges when nothing is lost: a model of a cluster of
//! broadcast nodes and of the gossip that is under way between them, and
//! the proof that every value reaches every node that a path leads to, in
//! as many rounds as the path has hops.
//!
//! All of this is about the nodes' states as plain values. The payloads are
//! any that a node may send (`valid_payload`), so what is proved holds
//! whatever the random sample turns out to be. Gossip may be under way for
//! any time and may arrive in any order; a round is over when all of it has
//! arrived.

use vstd::prelude::*;
use crate::broadcast::{BroadcastMessage, BroadcastState, GossipProtocol};
use crate::gossip::{delta, valid_payload};
use crate::message::Message;

verus! {

/// Gossip under way from the node at `from` to the node at `to`.
pub struct Packet {
    pub from: int,
    pub to: int,
    pub payload: Set<usize>,
}

/// A cluster: its nodes, and the gossip that is under way.
pub struct Network {
    pub nodes: Seq<BroadcastState>,
    pub packets: Seq<Packet>,
}

/// What happens in a cluster.
pub enum Event {
    /// A node sends gossip to one of its neighbors.
    Send(Packet),
    /// The gossip at position `at` of those under way arrives.
    Receive { at: int },
}

/// The node at `from` has the node at `to` among its neighbors.
pub open spec fn edge(nodes: Seq<BroadcastState>, from: int, to: int) -> bool {
    &&& 0 <= from < nodes.len()
    &&& 0 <= to < nodes.len()
    &&& nodes[from].neighbors.contains(nodes[to].id)
}

/// The event can take place: gossip is sent along an edge with a payload
/// that the sender may gossip to the receiver, and gossip that arrives was
/// under way.
pub open spec fn allowed(net: Network, event: Event) -> bool {
    match event {
        Event::Send(packet) => {
            &&& edge(net.nodes, packet.from, packet.to)
            &&& valid_payload(
                net.nodes[packet.from].messages,
                net.nodes[packet.from].known[net.nodes[packet.to].id],
                net.nodes[packet.from].redundancy,
                packet.payload,
            )
        },
        Event::Receive { at } => 0 <= at < net.packets.len(),
    }
}

/// The cluster after the event: gossip that was sent is under way, and
/// gossip that arrived is no longer under way and its receiver has taken it
/// in.
pub open spec fn apply(net: Network, event: Event) -> Network {
    match event {
        Event::Send(packet) => Network { nodes: net.nodes, packets: net.packets.push(packet) },
        Event::Receive { at } => {
            let packet = net.packets[at];
            Network {
                nodes: net.nodes.update(
                    packet.to,
                    net.nodes[packet.to].after_gossip(net.nodes[packet.from].id, packet.payload),
                ),
                packets: net.packets.remove(at),
            }
        },
    }
}

/// The model is true to the nodes. When the node at `from` accepts a tick,
/// the `k`-th message that it sends is gossip that the model allows it to
/// send to its `k`-th neighbor; and when a node accepts that message, it
/// goes to the state that the model gives it on arrival.
pub proof fn lemma_steps_are_events(
    nodes: Seq<BroadcastState>,
    from: int,
    to: int,
    k: int,
    tick: Message<BroadcastMessage>,
    sent: Seq<Message<BroadcastMessage>>,
    receiver: BroadcastState,
    next: BroadcastState,
    answer: Seq<Message<BroadcastMessage>>,
)
    requires
        0 <= from < nodes.len(),
        0 <= to < nodes.len(),
        tick.body.payload == BroadcastMessage::Extended(GossipProtocol::GossipAlert),
        nodes[from].accepts(tick, nodes[from], sent),
        0 <= k < sent.len(),
        nodes[from].neighbors[k] == nodes[to].id,
        receiver.accepts(sent[k], next, answer),
    ensures
        sent[k].body.payload matches BroadcastMessage::Extended(
            GossipProtocol::Gossip { messages },
        ) && allowed(
            Network { nodes, packets: Seq::empty() },
            Event::Send(Packet { from, to, payload: messages@ }),
        ) && next == receiver.after_gossip(nodes[from].id, messages@),
{
    assert(nodes[from].gossips(sent[k], k));
}

/// The node at `i` keeps a record of the node at `j`, and what it records
/// the node at `j` does hold.
pub open spec fn record_true(nodes: Seq<BroadcastState>, i: int, j: int) -> bool {
    &&& nodes[i].known.contains_key(nodes[j].id)
    &&& nodes[i].known[nodes[j].id].subset_of(nodes[j].messages)
}

/// The nodes at `i` and `j` have different ids.
pub open spec fn told_apart(nodes: Seq<BroadcastState>, i: int, j: int) -> bool {
    nodes[i].id != nodes[j].id
}

/// The gossip at position `k` of those under way goes from a node to a
/// node, and its sender holds every value of it.
pub open spec fn packet_true(net: Network, k: int) -> bool {
    &&& 0 <= net.packets[k].from < net.nodes.len()
    &&& 0 <= net.packets[k].to < net.nodes.len()
    &&& net.packets[k].payload.subset_of(net.nodes[net.packets[k].from].messages)
}

/// No two nodes share an id, every record is true, and so is all gossip
/// under way.
pub open spec fn sound(net: Network) -> bool {
    &&& forall|i: int, j: int|
        0 <= i < net.nodes.len() && 0 <= j < net.nodes.len() && i != j ==> #[trigger] told_apart(
            net.nodes,
            i,
            j,
        )
    &&& forall|i: int, j: int|
        0 <= i < net.nodes.len() && 0 <= j < net.nodes.len() ==> #[trigger] record_true(
            net.nodes,
            i,
            j,
        )
    &&& forall|k: int| 0 <= k < net.packets.len() ==> #[trigger] packet_true(net, k)
}

/// The node at `i` is the same node in both clusters, and in `after` it
/// holds at least what it holds in `before`.
pub open spec fn grew_at(
    before: Seq<BroadcastState>,
    after: Seq<BroadcastState>,
    i: int,
) -> bool {
    &&& after[i].id == before[i].id
    &&& after[i].neighbors == before[i].neighbors
    &&& after[i].redundancy == before[i].redundancy
    &&& before[i].messages.subset_of(after[i].messages)
}

/// `after` has the nodes of `before` with the same neighbors, and no node
/// has lost a value.
pub open spec fn grew(before: Seq<BroadcastState>, after: Seq<BroadcastState>) -> bool {
    &&& after.len() == before.len()
    &&& forall|i: int| 0 <= i < before.len() ==> #[trigger] grew_at(before, after, i)
}

/// The node at `i` holds `value`.
pub open spec fn holds(nodes: Seq<BroadcastState>, i: int, value: usize) -> bool {
    0 <= i < nodes.len() && nodes[i].messages.contains(value)
}

/// Every value that some node of the cluster holds.
pub open spec fn all_values(nodes: Seq<BroadcastState>) -> Set<usize> {
    Set::new(|value: usize| exists|i: int| holds(nodes, i, value))
}

/// The gossip at position `k` of those under way goes to the node at `to`
/// and brings it whatever it lacks of `values`.
pub open spec fn carries(net: Network, k: int, to: int, values: Set<usize>) -> bool {
    &&& 0 <= k < net.packets.len()
    &&& net.packets[k].to == to
    &&& values.subset_of(net.packets[k].payload.union(net.nodes[to].messages))
}

/// The node at `to` holds `values`, or gossip is under way that brings it
/// whatever it lacks of them.
pub open spec fn owed(net: Network, to: int, values: Set<usize>) -> bool {
    ||| values.subset_of(net.nodes[to].messages)
    ||| exists|k: int| carries(net, k, to, values)
}

/// One event keeps a sound cluster sound, takes no value from any node and
/// brings no value into the cluster.
pub proof fn lemma_apply(net: Network, event: Event)
    requires
        sound(net),
        allowed(net, event),
    ensures
        sound(apply(net, event)),
        grew(net.nodes, apply(net, event).nodes),
        all_values(apply(net, event).nodes) == all_values(net.nodes),
{
    let after = apply(net, event);
    match event {
        Event::Send(packet) => {
            assert forall|i: int| 0 <= i < net.nodes.len() implies #[trigger] grew_at(
                net.nodes,
                after.nodes,
                i,
            ) by {}
            assert forall|k: int| 0 <= k < after.packets.len() implies #[trigger] packet_true(
                after,
                k,
            ) by {
                if k < net.packets.len() {
                    assert(packet_true(net, k));
                }
            }
            assert forall|i: int, j: int|
                0 <= i < after.nodes.len() && 0 <= j < after.nodes.len() && i
                    != j implies #[trigger] told_apart(after.nodes, i, j) by {
                assert(told_apart(net.nodes, i, j));
            }
            assert forall|i: int, j: int|
                0 <= i < after.nodes.len() && 0 <= j < after.nodes.len() implies #[trigger] record_true(
                after.nodes,
                i,
                j,
            ) by {
                assert(record_true(net.nodes, i, j));
            }
        },
        Event::Receive { at } => {
            let packet = net.packets[at];
            assert(packet_true(net, at));
            let sender = net.nodes[packet.from];
            assert(record_true(net.nodes, packet.to, packet.from));
            assert forall|i: int| 0 <= i < net.nodes.len() implies #[trigger] grew_at(
                net.nodes,
                after.nodes,
                i,
            ) by {}
            assert forall|k: int| 0 <= k < after.packets.len() implies #[trigger] packet_true(
                after,
                k,
            ) by {
                let before = if k < at {
                    k
                } else {
                    k + 1
                };
                assert(after.packets[k] == net.packets[before]);
                assert(packet_true(net, before));
                assert(grew_at(net.nodes, after.nodes, net.packets[before].from));
            }
            assert forall|i: int, j: int|
                0 <= i < after.nodes.len() && 0 <= j < after.nodes.len() && i
                    != j implies #[trigger] told_apart(after.nodes, i, j) by {
                assert(told_apart(net.nodes, i, j));
            }
            assert forall|i: int, j: int|
                0 <= i < after.nodes.len() && 0 <= j < after.nodes.len() implies #[trigger] record_true(
                after.nodes,
                i,
                j,
            ) by {
                assert(record_true(net.nodes, i, j));
                assert(grew_at(net.nodes, after.nodes, j));
                if i == packet.to && net.nodes[j].id == sender.id {
                    if j != packet.from {
                        assert(told_apart(net.nodes, j, packet.from));
                    }
                }
            }
        },
    }
    assert forall|value: usize| all_values(after.nodes).contains(value) <==> all_values(
        net.nodes,
    ).contains(value) by {
        if all_values(after.nodes).contains(value) {
            let i = choose|i: int| holds(after.nodes, i, value);
            if net.nodes[i].messages.contains(value) {
                assert(holds(net.nodes, i, value));
            } else {
                let at = event->at;
                assert(packet_true(net, at));
                assert(holds(net.nodes, net.packets[at].from, value));
            }
        }
        if all_values(net.nodes).contains(value) {
            let i = choose|i: int| holds(net.nodes, i, value);
            assert(grew_at(net.nodes, after.nodes, i));
            assert(holds(after.nodes, i, value));
        }
    }
    assert(all_values(after.nodes) =~= all_values(net.nodes));
}

/// What a node is owed it stays owed, whatever happens, until it holds it.
pub proof fn lemma_owed_kept(net: Network, event: Event, to: int, values: Set<usize>)
    requires
        sound(net),
        allowed(net, event),
        0 <= to < net.nodes.len(),
        owed(net, to, values),
    ensures
        owed(apply(net, event), to, values),
{
    let after = apply(net, event);
    lemma_apply(net, event);
    assert(grew_at(net.nodes, after.nodes, to));
    if !values.subset_of(net.nodes[to].messages) {
        let k = choose|k: int| carries(net, k, to, values);
        match event {
            Event::Send(packet) => {
                assert(after.packets[k] == net.packets[k]);
                assert(carries(after, k, to, values));
            },
            Event::Receive { at } => {
                if k == at {
                    assert(values.subset_of(after.nodes[to].messages));
                } else {
                    let moved = if k < at {
                        k
                    } else {
                        k - 1
                    };
                    assert(after.packets[moved] == net.packets[k]);
                    assert(carries(after, moved, to, values));
                }
            },
        }
    }
}

/// Once a node has sent gossip to a neighbor, the neighbor is owed every
/// value that the sender held.
pub proof fn lemma_send_owes(net: Network, packet: Packet)
    requires
        sound(net),
        allowed(net, Event::Send(packet)),
    ensures
        owed(apply(net, Event::Send(packet)), packet.to, net.nodes[packet.from].messages),
{
    let after = apply(net, Event::Send(packet));
    let sender = net.nodes[packet.from];
    let receiver = net.nodes[packet.to];
    let k = net.packets.len() as int;
    assert(after.packets[k] == packet);
    assert(record_true(net.nodes, packet.from, packet.to));
    assert forall|value: usize| sender.messages.contains(value) implies packet.payload.union(
        receiver.messages,
    ).contains(value) by {
        if !sender.known[receiver.id].contains(value) {
            assert(delta(sender.messages, sender.known[receiver.id]).contains(value));
        }
    }
    assert(carries(after, k, packet.to, sender.messages));
}

/// The cluster after a run of events, one after the other.
pub open spec fn run(net: Network, events: Seq<Event>) -> Network
    decreases events.len(),
{
    if events.len() == 0 {
        net
    } else {
        apply(run(net, events.drop_last()), events.last())
    }
}

/// Every event of the run can take place in the cluster as it stands when
/// its turn comes.
pub open spec fn allowed_run(net: Network, events: Seq<Event>) -> bool
    decreases events.len(),
{
    events.len() == 0 || (allowed_run(net, events.drop_last()) && allowed(
        run(net, events.drop_last()),
        events.last(),
    ))
}

/// `grew` is transitive.
proof fn lemma_grew_twice(a: Seq<BroadcastState>, b: Seq<BroadcastState>, c: Seq<BroadcastState>)
    requires
        grew(a, b),
        grew(b, c),
    ensures
        grew(a, c),
{
    assert forall|i: int| 0 <= i < a.len() implies #[trigger] grew_at(a, c, i) by {
        assert(grew_at(a, b, i));
        assert(grew_at(b, c, i));
    }
}

/// Every cluster has grown from itself.
proof fn lemma_grew_none(a: Seq<BroadcastState>)
    ensures
        grew(a, a),
{
    assert forall|i: int| 0 <= i < a.len() implies #[trigger] grew_at(a, a, i) by {}
}

/// A run of events keeps a sound cluster sound, takes no value from any
/// node and brings no value into the cluster.
pub proof fn lemma_run(net: Network, events: Seq<Event>)
    requires
        sound(net),
        allowed_run(net, events),
    ensures
        sound(run(net, events)),
        grew(net.nodes, run(net, events).nodes),
        all_values(run(net, events).nodes) == all_values(net.nodes),
    decreases events.len(),
{
    if events.len() == 0 {
        lemma_grew_none(net.nodes);
    } else {
        let before = run(net, events.drop_last());
        lemma_run(net, events.drop_last());
        lemma_apply(before, events.last());
        lemma_grew_twice(net.nodes, before.nodes, run(net, events).nodes);
    }
}

/// The event at `k` is gossip sent from the node at `from` to the node at
/// `to`.
pub open spec fn sends(events: Seq<Event>, k: int, from: int, to: int) -> bool {
    &&& 0 <= k < events.len()
    &&& events[k] matches Event::Send(packet)
    &&& packet.from == from
    &&& packet.to == to
}

/// After a run in which a node sent gossip to a neighbor, the neighbor is
/// owed every value that the sender held when the run began.
pub proof fn lemma_run_owes(net: Network, events: Seq<Event>, k: int, from: int, to: int)
    requires
        sound(net),
        allowed_run(net, events),
        sends(events, k, from, to),
    ensures
        0 <= from < net.nodes.len(),
        0 <= to < net.nodes.len(),
        owed(run(net, events), to, net.nodes[from].messages),
    decreases events.len(),
{
    let before = run(net, events.drop_last());
    let after = run(net, events);
    lemma_run(net, events.drop_last());
    if k == events.len() - 1 {
        let packet = events[k]->Send_0;
        assert(edge(before.nodes, from, to));
        lemma_send_owes(before, packet);
        assert(grew_at(net.nodes, before.nodes, from));
        let values = net.nodes[from].messages;
        if !before.nodes[from].messages.subset_of(after.nodes[to].messages) {
            let at = choose|at: int| carries(after, at, to, before.nodes[from].messages);
            assert(carries(after, at, to, values));
        }
    } else {
        assert(events.drop_last()[k] == events[k]);
        lemma_run_owes(net, events.drop_last(), k, from, to);
        lemma_owed_kept(before, events.last(), to, net.nodes[from].messages);
    }
}

/// A round: a run in which gossip is sent along every edge at least once.
pub open spec fn covers(nodes: Seq<BroadcastState>, events: Seq<Event>) -> bool {
    forall|from: int, to: int| #[trigger]
        edge(nodes, from, to) ==> exists|k: int| sends(events, k, from, to)
}

/// The cluster after a number of rounds.
pub open spec fn run_rounds(net: Network, rounds: Seq<Seq<Event>>) -> Network
    decreases rounds.len(),
{
    if rounds.len() == 0 {
        net
    } else {
        run(run_rounds(net, rounds.drop_last()), rounds.last())
    }
}

/// No gossip is under way at the beginning, and every one of the rounds is
/// a run of events that sends gossip along every edge and at whose end no
/// gossip is under way: nothing is lost, and what is sent in a round
/// arrives in that round.
pub open spec fn fair(net: Network, rounds: Seq<Seq<Event>>) -> bool
    decreases rounds.len(),
{
    if rounds.len() == 0 {
        net.packets.len() == 0
    } else {
        let before = run_rounds(net, rounds.drop_last());
        &&& fair(net, rounds.drop_last())
        &&& allowed_run(before, rounds.last())
        &&& covers(before.nodes, rounds.last())
        &&& run(before, rounds.last()).packets.len() == 0
    }
}

/// Fair rounds keep a sound cluster sound, take no value from any node and
/// bring no value into the cluster, and leave no gossip under way.
pub proof fn lemma_rounds(net: Network, rounds: Seq<Seq<Event>>)
    requires
        sound(net),
        fair(net, rounds),
    ensures
        sound(run_rounds(net, rounds)),
        grew(net.nodes, run_rounds(net, rounds).nodes),
        all_values(run_rounds(net, rounds).nodes) == all_values(net.nodes),
        run_rounds(net, rounds).packets.len() == 0,
    decreases rounds.len(),
{
    if rounds.len() == 0 {
        lemma_grew_none(net.nodes);
    } else {
        let before = run_rounds(net, rounds.drop_last());
        lemma_rounds(net, rounds.drop_last());
        lemma_run(before, rounds.last());
        lemma_grew_twice(net.nodes, before.nodes, run_rounds(net, rounds).nodes);
    }
}

/// A path of at most `hops` edges leads from the node at `from` to the
/// node at `to`.
pub open spec fn within(nodes: Seq<BroadcastState>, from: int, to: int, hops: nat) -> bool
    decreases hops,
{
    if hops == 0 {
        from == to && 0 <= from < nodes.len()
    } else {
        within(nodes, from, to, (hops - 1) as nat) || exists|via: int|
            #[trigger] edge(nodes, via, to) && within(nodes, from, via, (hops - 1) as nat)
    }
}

/// A path only leads from a node of the cluster to a node of the cluster.
proof fn lemma_within_range(nodes: Seq<BroadcastState>, from: int, to: int, hops: nat)
    requires
        within(nodes, from, to, hops),
    ensures
        0 <= from < nodes.len(),
        0 <= to < nodes.len(),
    decreases hops,
{
    if hops > 0 {
        if within(nodes, from, to, (hops - 1) as nat) {
            lemma_within_range(nodes, from, to, (hops - 1) as nat);
        } else {
            let via = choose|via: int|
                #[trigger] edge(nodes, via, to) && within(nodes, from, via, (hops - 1) as nat);
            lemma_within_range(nodes, from, via, (hops - 1) as nat);
        }
    }
}

/// Values travel one hop a round: after as many fair rounds as a path has
/// hops, the node at the path's end holds every value that the node at its
/// start held at the beginning.
pub proof fn lemma_values_spread(net: Network, rounds: Seq<Seq<Event>>, from: int, to: int)
    requires
        sound(net),
        fair(net, rounds),
        within(net.nodes, from, to, rounds.len()),
    ensures
        0 <= to < net.nodes.len(),
        net.nodes[from].messages.subset_of(run_rounds(net, rounds).nodes[to].messages),
    decreases rounds.len(),
{
    lemma_within_range(net.nodes, from, to, rounds.len());
    if rounds.len() > 0 {
        let earlier = rounds.drop_last();
        let before = run_rounds(net, earlier);
        let after = run_rounds(net, rounds);
        lemma_rounds(net, earlier);
        lemma_run(before, rounds.last());
        if within(net.nodes, from, to, earlier.len()) {
            lemma_values_spread(net, earlier, from, to);
            assert(grew_at(before.nodes, after.nodes, to));
        } else {
            let via = choose|via: int|
                #[trigger] edge(net.nodes, via, to) && within(net.nodes, from, via, earlier.len());
            lemma_values_spread(net, earlier, from, via);
            assert(grew_at(net.nodes, before.nodes, via));
            assert(grew_at(net.nodes, before.nodes, to));
            assert(edge(before.nodes, via, to));
            let k = choose|k: int| sends(rounds.last(), k, via, to);
            lemma_run_owes(before, rounds.last(), k, via, to);
        }
    }
}

/// Convergence: when a path of at most `rounds.len()` edges leads from
/// every node to every node, then after these fair rounds every node holds
/// exactly the values that the nodes held between them at the beginning.
pub proof fn lemma_convergence(net: Network, rounds: Seq<Seq<Event>>)
    requires
        sound(net),
        fair(net, rounds),
        forall|from: int, to: int|
            0 <= from < net.nodes.len() && 0 <= to < net.nodes.len() ==> #[trigger] within(
                net.nodes,
                from,
                to,
                rounds.len(),
            ),
    ensures
        run_rounds(net, rounds).nodes.len() == net.nodes.len(),
        forall|to: int|
            0 <= to < net.nodes.len() ==> (#[trigger] run_rounds(net, rounds).nodes[to]).messages
                == all_values(net.nodes),
{
    let after = run_rounds(net, rounds).nodes;
    lemma_rounds(net, rounds);
    assert forall|to: int| 0 <= to < net.nodes.len() implies (#[trigger] after[to]).messages
        == all_values(net.nodes) by {
        assert forall|value: usize| all_values(net.nodes).contains(value) implies after[to].messages.contains(
            value,
        ) by {
            let from = choose|from: int| holds(net.nodes, from, value);
            assert(within(net.nodes, from, to, rounds.len()));
            lemma_values_spread(net, rounds, from, to);
        }
        assert forall|value: usize| after[to].messages.contains(value) implies all_values(
            net.nodes,
        ).contains(value) by {
            assert(holds(after, to, value));
            assert(all_values(after).contains(value));
        }
        assert(after[to].messages =~= all_values(net.nodes));
    }
}

/// A broadcast to one node keeps a sound cluster sound.
pub proof fn lemma_broadcast_keeps_sound(net: Network, at: int, value: usize)
    requires
        sound(net),
        0 <= at < net.nodes.len(),
    ensures
        sound(
            Network {
                nodes: net.nodes.update(at, net.nodes[at].after_broadcast(value)),
                packets: net.packets,
            },
        ),
        grew(net.nodes, net.nodes.update(at, net.nodes[at].after_broadcast(value))),
{
    let after = Network {
        nodes: net.nodes.update(at, net.nodes[at].after_broadcast(value)),
        packets: net.packets,
    };
    assert forall|i: int| 0 <= i < net.nodes.len() implies #[trigger] grew_at(
        net.nodes,
        after.nodes,
        i,
    ) by {}
    assert forall|i: int, j: int|
        0 <= i < after.nodes.len() && 0 <= j < after.nodes.len() && i
            != j implies #[trigger] told_apart(after.nodes, i, j) by {
        assert(told_apart(net.nodes, i, j));
    }
    assert forall|i: int, j: int|
        0 <= i < after.nodes.len() && 0 <= j < after.nodes.len() implies #[trigger] record_true(
        after.nodes,
        i,
        j,
    ) by {
        assert(record_true(net.nodes, i, j));
    }
    assert forall|k: int| 0 <= k < after.packets.len() implies #[trigger] packet_true(after, k) by {
        assert(packet_true(net, k));
    }
}

/// A cluster of nodes that were each built from a handshake that names all
/// of them, with ids that differ, and in which no gossip is under way, is
/// sound.
pub proof fn lemma_new_cluster_sound(net: Network, ids: Seq<Seq<char>>)
    requires
        ids.no_duplicates(),
        net.nodes.len() == ids.len(),
        net.packets.len() == 0,
        forall|i: int|
            0 <= i < net.nodes.len() ==> {
                &&& (#[trigger] net.nodes[i]).id == ids[i]
                &&& net.nodes[i].messages == Set::<usize>::empty()
                &&& net.nodes[i].known == Map::new(
                    |id: Seq<char>| ids.contains(id),
                    |id: Seq<char>| Set::<usize>::empty(),
                )
            },
    ensures
        sound(net),
{
    assert forall|i: int, j: int|
        0 <= i < net.nodes.len() && 0 <= j < net.nodes.len() && i
            != j implies #[trigger] told_apart(net.nodes, i, j) by {
        assert(net.nodes[i].id == ids[i] && net.nodes[j].id == ids[j]);
    }
    assert forall|i: int, j: int|
        0 <= i < net.nodes.len() && 0 <= j < net.nodes.len() implies #[trigger] record_true(
        net.nodes,
        i,
        j,
    ) by {
        assert(net.nodes[j].id == ids[j]);
        assert(ids.contains(ids[j]));
        assert(net.nodes[i].known.contains_key(ids[j]));
    }
}

} // verus!
