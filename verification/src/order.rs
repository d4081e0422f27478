//! The order in which what arrives is handed on: replication diffs group by group,
//! and the messages to pass on.

use vstd::prelude::*;
use crate::connection::{flatten_diffs, tagged, ConnectionView, PendingDiff, Rebroadcast};
use crate::keyed::{distinct_keys, find, lemma_find_found, lemma_find_none, lemma_find_some, Keyed};
use crate::message::{EnvelopeView, ReplicationDataView};
use crate::replication::{lemma_receive_diff_distinct, receive_diff, GroupDiffs};
use crate::target::NetworkTarget;
use crate::transport::{arrive, Batch, PacketMessageView, PayloadView, TransportView};
use crate::types::{ChangeTick, ChannelKind, Entity, GroupId, Tick, Time};

verus! {

/// A diff with its group and the tick at which it left the sender.
pub type Diff = (GroupId, Tick, ReplicationDataView);

/// The diffs of `group` among `s`, in their order.
pub open spec fn of_group(s: Seq<Diff>, group: GroupId) -> Seq<Diff>
    decreases s.len(),
{
    if s.len() == 0 {
        Seq::empty()
    } else {
        let rest = of_group(s.drop_last(), group);
        if s.last().0 == group {
            rest.push(s.last())
        } else {
            rest
        }
    }
}

/// The diffs that a connection has reported for application or will report next, in
/// the order in which the application sees them.
pub open spec fn reported(c: ConnectionView) -> Seq<Diff> {
    c.events.replication + flatten_diffs(c.waiting)
}

/// The diff that an envelope holds, if it holds one.
pub open spec fn diff_in(tick: Tick, envelope: EnvelopeView) -> Seq<Diff> {
    match envelope {
        EnvelopeView::Replication { group_id, data } => seq![(group_id, tick, data)],
        _ => Seq::empty(),
    }
}

/// The diffs among the envelopes `msgs`, in their order.
pub open spec fn diffs_in(msgs: Seq<(Tick, EnvelopeView)>) -> Seq<Diff>
    decreases msgs.len(),
{
    if msgs.len() == 0 {
        Seq::empty()
    } else {
        diffs_in(msgs.drop_last()) + diff_in(msgs.last().0, msgs.last().1)
    }
}

/// The diffs among what an inbox holds, in the order of arrival.
pub open spec fn diffs_in_batches(batches: Seq<Batch>) -> Seq<Diff>
    decreases batches.len(),
{
    if batches.len() == 0 {
        Seq::empty()
    } else {
        diffs_in_batches(batches.drop_last()) + diffs_in(batches.last().1)
    }
}

/// The diffs among the messages `msgs` of a payload that left at `tick`, in their order.
pub open spec fn diffs_of_messages(msgs: Seq<PacketMessageView>, tick: Tick) -> Seq<Diff>
    decreases msgs.len(),
{
    if msgs.len() == 0 {
        Seq::empty()
    } else {
        diffs_of_messages(msgs.drop_last(), tick) + diff_in(tick, msgs.last().envelope)
    }
}

/// The diffs `diffs` as they arrive when sent at `tick`, in the order in which they
/// were handed out for sending.
pub open spec fn sent(diffs: Seq<PendingDiff>, tick: Tick) -> Seq<Diff> {
    Seq::new(diffs.len(), |i: int| (diffs[i].1, tick, diffs[i].2))
}

/// The diffs of a group among two lists in a row are those of the first list, then
/// those of the second.
pub proof fn lemma_of_group_concat(a: Seq<Diff>, b: Seq<Diff>, group: GroupId)
    ensures
        of_group(a + b, group) == of_group(a, group) + of_group(b, group),
    decreases b.len(),
{
    if b.len() == 0 {
        assert(a + b =~= a);
        assert(of_group(a, group) + of_group(b, group) =~= of_group(a, group));
    } else {
        assert((a + b).drop_last() =~= a + b.drop_last());
        assert((a + b).last() == b.last());
        lemma_of_group_concat(a, b.drop_last(), group);
        if b.last().0 == group {
            assert(of_group(a, group) + of_group(b.drop_last(), group).push(b.last()) =~= (
            of_group(a, group) + of_group(b.drop_last(), group)).push(b.last()));
        }
    }
}

proof fn lemma_of_group_tagged(g: GroupDiffs, group: GroupId)
    ensures
        of_group(tagged(g), group) == if g.0 == group {
            tagged(g)
        } else {
            Seq::empty()
        },
    decreases g.1.len(),
{
    if g.1.len() == 0 {
        assert(tagged(g) =~= Seq::<Diff>::empty());
    } else {
        let shorter: GroupDiffs = (g.0, g.1.drop_last());
        assert(tagged(g).drop_last() =~= tagged(shorter));
        lemma_of_group_tagged(shorter, group);
        if g.0 == group {
            assert(tagged(shorter).push(tagged(g).last()) =~= tagged(g));
        }
    }
}

proof fn lemma_flatten_of_group(w: Seq<GroupDiffs>, group: GroupId)
    requires
        distinct_keys(w),
    ensures
        of_group(flatten_diffs(w), group) == match find(w, group) {
            Some(i) => tagged(w[i]),
            None => Seq::empty(),
        },
    decreases w.len(),
{
    if w.len() == 0 {
        lemma_find_none(w, group);
    } else {
        let p = w.drop_last();
        let l = w.last();
        assert(distinct_keys(p)) by {
            assert forall|a: int, b: int| 0 <= a < b < p.len() implies (#[trigger] p[a]).key() != (
            #[trigger] p[b]).key() by {
                assert(p[a] == w[a] && p[b] == w[b]);
            }
        }
        lemma_flatten_of_group(p, group);
        lemma_of_group_concat(flatten_diffs(p), tagged(l), group);
        lemma_of_group_tagged(l, group);
        lemma_find_found(p, group);
        if l.0 == group {
            assert forall|j: int| 0 <= j < p.len() implies (#[trigger] p[j]).key() != group by {
                assert(p[j] == w[j]);
                assert(w[j].key() != w[w.len() - 1].key());
            }
            lemma_find_none(p, group);
            assert forall|j: int| 0 <= j < w.len() - 1 implies (#[trigger] w[j]).key() != group by {
                assert(p[j] == w[j]);
            }
            lemma_find_some(w, group, w.len() - 1);
            assert(Seq::<Diff>::empty() + tagged(l) =~= tagged(l));
        } else {
            match find(p, group) {
                Some(i) => {
                    assert forall|j: int| 0 <= j < i implies (#[trigger] w[j]).key() != group by {
                        assert(p[j] == w[j]);
                    }
                    assert(w[i] == p[i]);
                    lemma_find_some(w, group, i);
                    assert(tagged(p[i]) + Seq::<Diff>::empty() =~= tagged(p[i]));
                },
                None => {
                    assert forall|j: int| 0 <= j < w.len() implies (#[trigger] w[j]).key()
                        != group by {
                        if j < p.len() {
                            assert(p[j] == w[j]);
                        }
                    }
                    lemma_find_none(w, group);
                    assert(Seq::<Diff>::empty() + Seq::<Diff>::empty() =~= Seq::<Diff>::empty());
                },
            }
        }
    }
}

/// A diff that arrives becomes the last of its group to be reported, and leaves
/// the diffs of every other group as they are.
pub proof fn lemma_receive_diff_of_group(
    w: Seq<GroupDiffs>,
    arrived: GroupId,
    tick: Tick,
    data: ReplicationDataView,
    group: GroupId,
)
    requires
        distinct_keys(w),
    ensures
        distinct_keys(receive_diff(w, arrived, tick, data)),
        of_group(flatten_diffs(receive_diff(w, arrived, tick, data)), group) == of_group(
            flatten_diffs(w),
            group,
        ) + of_group(seq![(arrived, tick, data)], group),
{
    let after = receive_diff(w, arrived, tick, data);
    let one: Seq<Diff> = seq![(arrived, tick, data)];
    lemma_receive_diff_distinct(w, arrived, tick, data);
    lemma_flatten_of_group(w, group);
    lemma_flatten_of_group(after, group);
    lemma_find_found(w, arrived);
    lemma_find_found(w, group);
    assert(one.drop_last() =~= Seq::<Diff>::empty());
    assert(of_group(Seq::<Diff>::empty(), group) =~= Seq::<Diff>::empty());
    assert(of_group(one.drop_last(), group) =~= Seq::<Diff>::empty());
    assert(of_group(one, group) =~= if arrived == group {
        one
    } else {
        Seq::<Diff>::empty()
    });
    match find(w, arrived) {
        Some(i) => {
            assert forall|j: int| 0 <= j < after.len() implies (#[trigger] after[j]).key()
                == w[j].key() by {}
            match find(w, group) {
                Some(k) => {
                    assert forall|j: int| 0 <= j < k implies (#[trigger] after[j]).key()
                        != group by {
                        assert(w[j].key() != group);
                    }
                    lemma_find_some(after, group, k);
                    if group == arrived {
                        assert(k == i) by {
                            if k < i {
                                assert(w[k].key() != arrived);
                            } else if i < k {
                                assert(w[i].key() != group);
                            }
                        }
                        assert(tagged(after[i]) =~= tagged(w[i]) + one);
                    } else {
                        assert(k != i);
                        assert(after[k] == w[k]);
                        assert(tagged(w[k]) + Seq::<Diff>::empty() =~= tagged(w[k]));
                    }
                },
                None => {
                    assert forall|j: int| 0 <= j < after.len() implies (#[trigger] after[j]).key()
                        != group by {
                        assert(w[j].key() != group);
                    }
                    lemma_find_none(after, group);
                    assert(group != arrived) by {
                        assert(w[i].key() != group);
                    }
                    assert(Seq::<Diff>::empty() + Seq::<Diff>::empty() =~= Seq::<Diff>::empty());
                },
            }
        },
        None => {
            let opened: GroupDiffs = (arrived, seq![(tick, data)]);
            assert(after[w.len() as int] == opened);
            assert(tagged(opened) =~= one);
            match find(w, group) {
                Some(k) => {
                    assert forall|j: int| 0 <= j < k implies (#[trigger] after[j]).key()
                        != group by {
                        assert(after[j] == w[j]);
                    }
                    assert(after[k] == w[k]);
                    lemma_find_some(after, group, k);
                    assert(group != arrived) by {
                        assert(w[k].key() != arrived);
                    }
                    assert(tagged(w[k]) + Seq::<Diff>::empty() =~= tagged(w[k]));
                },
                None => {
                    if group == arrived {
                        assert forall|j: int| 0 <= j < w.len() implies (#[trigger] after[j]).key()
                            != group by {
                            assert(after[j] == w[j]);
                        }
                        lemma_find_some(after, group, w.len() as int);
                        assert(Seq::<Diff>::empty() + one =~= one);
                    } else {
                        assert forall|j: int| 0 <= j < after.len() implies (
                        #[trigger] after[j]).key() != group by {
                            if j < w.len() {
                                assert(after[j] == w[j]);
                            }
                        }
                        lemma_find_none(after, group);
                        assert(Seq::<Diff>::empty() + Seq::<Diff>::empty() =~= Seq::<
                            Diff,
                        >::empty());
                    }
                },
            }
        },
    }
}

proof fn lemma_of_group_push(s: Seq<Diff>, d: Diff, group: GroupId)
    ensures
        of_group(s.push(d), group) == of_group(s, group) + of_group(seq![d], group),
{
    assert(s.push(d) =~= s + seq![d]);
    lemma_of_group_concat(s, seq![d], group);
}

/// One envelope that is read adds the diff it holds, if any, after the diffs of that
/// group that are reported already, and no other diff.
pub proof fn lemma_dispatch_reported(
    c: ConnectionView,
    channel: ChannelKind,
    tick: Tick,
    envelope: EnvelopeView,
    time: Time,
    group: GroupId,
)
    requires
        c.wf(),
    ensures
        c.dispatch(channel, tick, envelope, time).wf(),
        of_group(reported(c.dispatch(channel, tick, envelope, time)), group) == of_group(
            reported(c),
            group,
        ) + of_group(diff_in(tick, envelope), group),
{
    let after = c.dispatch(channel, tick, envelope, time);
    match envelope {
        EnvelopeView::Replication { group_id, data } => {
            lemma_receive_diff_of_group(c.waiting, group_id, tick, data, group);
            lemma_of_group_concat(c.events.replication, flatten_diffs(c.waiting), group);
            lemma_of_group_concat(c.events.replication, flatten_diffs(after.waiting), group);
            assert(of_group(c.events.replication, group) + (of_group(flatten_diffs(c.waiting), group)
                + of_group(diff_in(tick, envelope), group)) =~= (of_group(
                c.events.replication,
                group,
            ) + of_group(flatten_diffs(c.waiting), group)) + of_group(
                diff_in(tick, envelope),
                group,
            ));
        },
        _ => {
            assert(after.waiting == c.waiting);
            assert(after.events.replication == c.events.replication);
            assert(of_group(reported(c), group) + Seq::<Diff>::empty() =~= of_group(
                reported(c),
                group,
            ));
        },
    }
}

proof fn lemma_dispatch_all_reported(
    c: ConnectionView,
    channel: ChannelKind,
    msgs: Seq<(Tick, EnvelopeView)>,
    time: Time,
    group: GroupId,
)
    requires
        c.wf(),
    ensures
        c.dispatch_all(channel, msgs, time).wf(),
        of_group(reported(c.dispatch_all(channel, msgs, time)), group) == of_group(
            reported(c),
            group,
        ) + of_group(diffs_in(msgs), group),
    decreases msgs.len(),
{
    if msgs.len() == 0 {
        assert(of_group(reported(c), group) + Seq::<Diff>::empty() =~= of_group(
            reported(c),
            group,
        ));
    } else {
        let before = c.dispatch_all(channel, msgs.drop_last(), time);
        lemma_dispatch_all_reported(c, channel, msgs.drop_last(), time, group);
        lemma_dispatch_reported(before, channel, msgs.last().0, msgs.last().1, time, group);
        lemma_of_group_concat(
            diffs_in(msgs.drop_last()),
            diff_in(msgs.last().0, msgs.last().1),
            group,
        );
        let a = of_group(reported(c), group);
        let b = of_group(diffs_in(msgs.drop_last()), group);
        let d = of_group(diff_in(msgs.last().0, msgs.last().1), group);
        assert((a + b) + d =~= a + (b + d));
    }
}

proof fn lemma_apply_ready_reported(c: ConnectionView)
    requires
        c.wf(),
    ensures
        c.apply_ready().wf(),
        c.apply_ready().waiting.len() == 0,
        reported(c.apply_ready()) == reported(c),
{
    assert(flatten_diffs(Seq::<GroupDiffs>::empty()) =~= Seq::<Diff>::empty());
    assert(reported(c.apply_ready()) =~= reported(c));
}

proof fn lemma_receive_batches_reported(
    c: ConnectionView,
    batches: Seq<Batch>,
    time: Time,
    group: GroupId,
)
    requires
        c.wf(),
    ensures
        c.receive_batches(batches, time).wf(),
        c.waiting.len() == 0 ==> c.receive_batches(batches, time).waiting.len() == 0,
        of_group(reported(c.receive_batches(batches, time)), group) == of_group(
            reported(c),
            group,
        ) + of_group(diffs_in_batches(batches), group),
    decreases batches.len(),
{
    if batches.len() == 0 {
        assert(of_group(reported(c), group) + Seq::<Diff>::empty() =~= of_group(
            reported(c),
            group,
        ));
    } else {
        let before = c.receive_batches(batches.drop_last(), time);
        let last = batches.last();
        lemma_receive_batches_reported(c, batches.drop_last(), time, group);
        lemma_of_group_concat(diffs_in_batches(batches.drop_last()), diffs_in(last.1), group);
        let a = of_group(reported(c), group);
        let b = of_group(diffs_in_batches(batches.drop_last()), group);
        let d = of_group(diffs_in(last.1), group);
        assert((a + b) + d =~= a + (b + d));
        if last.1.len() > 0 {
            lemma_dispatch_all_reported(before, last.0, last.1, time, group);
            lemma_apply_ready_reported(before.dispatch_all(last.0, last.1, time));
        } else {
            assert((a + b) + Seq::<Diff>::empty() =~= a + b);
        }
    }
}

/// Reading what arrived reports the diffs of each group in the order in which they
/// arrived, after those of the group that were reported before.
pub proof fn lemma_receive_keeps_group_order(c: ConnectionView, time: Time, group: GroupId)
    requires
        c.wf(),
    ensures
        c.received(time).wf(),
        c.waiting.len() == 0 ==> c.received(time).waiting.len() == 0 && reported(c.received(time))
            == c.received(time).events.replication,
        of_group(reported(c.received(time)), group) == of_group(reported(c), group) + of_group(
            diffs_in_batches(c.transport.inbox),
            group,
        ),
{
    let start = ConnectionView { transport: c.transport.after_read(), ..c };
    lemma_receive_batches_reported(start, c.transport.inbox, time, group);
    assert(reported(start) == reported(c));
    if c.waiting.len() == 0 {
        let r = c.received(time);
        assert(r.waiting =~= Seq::<GroupDiffs>::empty());
        assert(reported(r) =~= r.events.replication);
    }
}

proof fn lemma_arrive_diffs(inbox: Seq<Batch>, channel: ChannelKind, tick: Tick, envelope: EnvelopeView)
    ensures
        diffs_in_batches(arrive(inbox, channel, tick, envelope)) == diffs_in_batches(inbox)
            + diff_in(tick, envelope),
{
    let after = arrive(inbox, channel, tick, envelope);
    if inbox.len() > 0 && inbox.last().0 == channel {
        assert(after.drop_last() =~= inbox.drop_last());
        assert(after.last().1.drop_last() =~= inbox.last().1);
        assert(diffs_in_batches(inbox.drop_last()) + (diffs_in(inbox.last().1) + diff_in(
            tick,
            envelope,
        )) =~= (diffs_in_batches(inbox.drop_last()) + diffs_in(inbox.last().1)) + diff_in(
            tick,
            envelope,
        ));
    } else {
        assert(after.drop_last() =~= inbox);
        let one: Seq<(Tick, EnvelopeView)> = seq![(tick, envelope)];
        assert(one.drop_last() =~= Seq::<(Tick, EnvelopeView)>::empty());
        assert(diffs_in(Seq::<(Tick, EnvelopeView)>::empty()) =~= Seq::<Diff>::empty());
        assert(diffs_in(one.drop_last()) =~= Seq::<Diff>::empty());
        assert(diffs_in(one) =~= diff_in(tick, envelope));
    }
}

proof fn lemma_deliver_all_diffs(t: TransportView, msgs: Seq<PacketMessageView>, tick: Tick)
    ensures
        diffs_in_batches(t.deliver_all(msgs, tick).inbox) == diffs_in_batches(t.inbox)
            + diffs_of_messages(msgs, tick),
    decreases msgs.len(),
{
    if msgs.len() == 0 {
        assert(diffs_in_batches(t.inbox) + Seq::<Diff>::empty() =~= diffs_in_batches(t.inbox));
    } else {
        let before = t.deliver_all(msgs.drop_last(), tick);
        lemma_deliver_all_diffs(t, msgs.drop_last(), tick);
        lemma_arrive_diffs(before.inbox, msgs.last().channel, tick, msgs.last().envelope);
        let a = diffs_in_batches(t.inbox);
        let b = diffs_of_messages(msgs.drop_last(), tick);
        let d = diff_in(tick, msgs.last().envelope);
        assert((a + b) + d =~= a + (b + d));
    }
}

proof fn lemma_diffs_of_messages_push(msgs: Seq<PacketMessageView>, m: PacketMessageView, tick: Tick)
    ensures
        diffs_of_messages(msgs.push(m), tick) == diffs_of_messages(msgs, tick) + diff_in(
            tick,
            m.envelope,
        ),
{
    assert(msgs.push(m).drop_last() =~= msgs);
}

proof fn lemma_send_diffs_outbound(c: ConnectionView, diffs: Seq<PendingDiff>, tick: Tick)
    requires
        c.send_diffs_result(diffs) is Ok,
    ensures
        diffs_of_messages(c.send_diffs(diffs).transport.outbound, tick) == diffs_of_messages(
            c.transport.outbound,
            tick,
        ) + sent(diffs, tick),
    decreases diffs.len(),
{
    if diffs.len() == 0 {
        assert(sent(diffs, tick) =~= Seq::<Diff>::empty());
        assert(diffs_of_messages(c.transport.outbound, tick) + Seq::<Diff>::empty()
            =~= diffs_of_messages(c.transport.outbound, tick));
    } else {
        let d = diffs[0];
        let next = c.send_diff(d);
        lemma_send_diffs_outbound(next, diffs.skip(1), tick);
        let id = c.transport.send_result(d.0)->Ok_0;
        let m = PacketMessageView {
            channel: d.0,
            id,
            envelope: EnvelopeView::Replication { group_id: d.1, data: d.2 },
        };
        assert(next.transport.outbound == c.transport.outbound.push(m));
        lemma_diffs_of_messages_push(c.transport.outbound, m, tick);
        let one: Seq<Diff> = seq![(d.1, tick, d.2)];
        assert(one + sent(diffs.skip(1), tick) =~= sent(diffs, tick));
        let a = diffs_of_messages(c.transport.outbound, tick);
        assert((a + one) + sent(diffs.skip(1), tick) =~= a + (one + sent(diffs.skip(1), tick)));
    }
}

/// From one end of a connection to the other, the diffs of each group are reported
/// for application in the order in which they were handed out for sending: after
/// what the receiver had reported or read before, the diffs of the group that waited
/// in the sender's transport, then those newly handed out, in their order. Diffs of
/// different groups may be reported in any order relative to each other.
pub proof fn lemma_group_order_end_to_end(
    sender: ConnectionView,
    receiver: ConnectionView,
    payload: PayloadView,
    tick: Tick,
    clock: ChangeTick,
    time: Time,
    group: GroupId,
)
    requires
        receiver.wf(),
        sender.buffer_replication_result(tick) is Ok,
        sender.buffer_replication_messages(tick).transport.payloads(tick) == seq![payload],
        receiver.transport.recv_result(payload) is Ok,
    ensures
        of_group(reported(receiver.recv_packet(payload, clock).received(time)), group) == of_group(
            reported(receiver),
            group,
        ) + of_group(diffs_in_batches(receiver.transport.inbox), group) + of_group(
            diffs_of_messages(sender.transport.outbound, tick),
            group,
        ) + of_group(sent(sender.sender.pending, tick), group),
{
    let finalized = ConnectionView { sender: sender.sender.finalize(tick), ..sender };
    let sent_state = sender.buffer_replication_messages(tick);
    lemma_send_diffs_outbound(finalized, sender.sender.pending, tick);
    let formed = PayloadView {
        tick,
        messages: sent_state.transport.outbound,
        acks: sent_state.transport.acks_to_send,
    };
    assert(seq![payload].len() == 1);
    assert(seq![payload][0] == payload);
    assert(seq![formed][0] == formed);
    assert(sent_state.transport.payloads(tick) == seq![formed]);
    assert(payload == formed);
    assert(payload.messages == sent_state.transport.outbound);
    assert(payload.tick == tick);
    let got = receiver.recv_packet(payload, clock);
    let start = TransportView {
        received_acks: receiver.transport.after_acks().received_acks + payload.acks,
        ..receiver.transport.after_acks()
    };
    lemma_deliver_all_diffs(start, payload.messages, tick);
    assert(got.transport == start.deliver_all(payload.messages, tick));
    assert(got.waiting == receiver.waiting);
    assert(reported(got) == reported(receiver));
    lemma_receive_keeps_group_order(got, time, group);
    let a = diffs_in_batches(receiver.transport.inbox);
    let b = diffs_of_messages(sender.transport.outbound, tick);
    let d = sent(sender.sender.pending, tick);
    lemma_of_group_concat(a, b + d, group);
    lemma_of_group_concat(b, d, group);
    assert(a + (b + d) =~= (a + b) + d);
    let r = of_group(reported(receiver), group);
    assert(r + (of_group(a, group) + (of_group(b, group) + of_group(d, group))) =~= r + of_group(
        a,
        group,
    ) + of_group(b, group) + of_group(d, group));
}

/// The message that an envelope read from `channel` leaves to be passed on, if any:
/// an application message with a target other than nobody, its entity references
/// translated by `to_local`.
pub open spec fn passed_on_by(
    to_local: Map<Entity, Entity>,
    channel: ChannelKind,
    envelope: EnvelopeView,
) -> Seq<Rebroadcast> {
    match envelope {
        EnvelopeView::Message { message, target } => if target != NetworkTarget::Nobody {
            seq![(message.map_entities(to_local), target, channel)]
        } else {
            Seq::empty()
        },
        _ => Seq::empty(),
    }
}

/// The messages that the envelopes `msgs`, read from `channel`, leave to be passed
/// on, in their order.
pub open spec fn passed_on(
    to_local: Map<Entity, Entity>,
    channel: ChannelKind,
    msgs: Seq<(Tick, EnvelopeView)>,
) -> Seq<Rebroadcast>
    decreases msgs.len(),
{
    if msgs.len() == 0 {
        Seq::empty()
    } else {
        passed_on(to_local, channel, msgs.drop_last()) + passed_on_by(
            to_local,
            channel,
            msgs.last().1,
        )
    }
}

/// The messages that what an inbox holds leaves to be passed on, in the order of arrival.
pub open spec fn passed_on_batches(to_local: Map<Entity, Entity>, batches: Seq<Batch>) -> Seq<
    Rebroadcast,
>
    decreases batches.len(),
{
    if batches.len() == 0 {
        Seq::empty()
    } else {
        passed_on_batches(to_local, batches.drop_last()) + passed_on(
            to_local,
            batches.last().0,
            batches.last().1,
        )
    }
}

proof fn lemma_dispatch_all_passed_on(
    c: ConnectionView,
    channel: ChannelKind,
    msgs: Seq<(Tick, EnvelopeView)>,
    time: Time,
)
    ensures
        c.dispatch_all(channel, msgs, time).to_local == c.to_local,
        c.dispatch_all(channel, msgs, time).rebroadcast == c.rebroadcast + passed_on(
            c.to_local,
            channel,
            msgs,
        ),
    decreases msgs.len(),
{
    if msgs.len() == 0 {
        assert(c.rebroadcast + Seq::<Rebroadcast>::empty() =~= c.rebroadcast);
    } else {
        let before = c.dispatch_all(channel, msgs.drop_last(), time);
        lemma_dispatch_all_passed_on(c, channel, msgs.drop_last(), time);
        let a = c.rebroadcast;
        let b = passed_on(c.to_local, channel, msgs.drop_last());
        let d = passed_on_by(c.to_local, channel, msgs.last().1);
        assert(before.dispatch(channel, msgs.last().0, msgs.last().1, time).rebroadcast =~= (a + b)
            + d);
        assert((a + b) + d =~= a + (b + d));
    }
}

proof fn lemma_receive_batches_passed_on(c: ConnectionView, batches: Seq<Batch>, time: Time)
    ensures
        c.receive_batches(batches, time).to_local == c.to_local,
        c.receive_batches(batches, time).rebroadcast == c.rebroadcast + passed_on_batches(
            c.to_local,
            batches,
        ),
    decreases batches.len(),
{
    if batches.len() == 0 {
        assert(c.rebroadcast + Seq::<Rebroadcast>::empty() =~= c.rebroadcast);
    } else {
        let before = c.receive_batches(batches.drop_last(), time);
        let last = batches.last();
        lemma_receive_batches_passed_on(c, batches.drop_last(), time);
        lemma_dispatch_all_passed_on(before, last.0, last.1, time);
        let a = c.rebroadcast;
        let b = passed_on_batches(c.to_local, batches.drop_last());
        let d = passed_on(c.to_local, last.0, last.1);
        assert((a + b) + d =~= a + (b + d));
        if last.1.len() == 0 {
            assert((a + b) + Seq::<Rebroadcast>::empty() =~= a + b);
        }
    }
}

/// Reading what arrived keeps for passing on exactly the application messages that
/// came with a target other than nobody, in the order of arrival: no diff, no ping,
/// no pong, and no message for nobody.
pub proof fn lemma_receive_passes_on(c: ConnectionView, time: Time)
    ensures
        c.received(time).rebroadcast == c.rebroadcast + passed_on_batches(
            c.to_local,
            c.transport.inbox,
        ),
        c.receive(time).rebroadcast == c.received(time).rebroadcast,
{
    lemma_receive_batches_passed_on(
        ConnectionView { transport: c.transport.after_read(), ..c },
        c.transport.inbox,
        time,
    );
}

} // verus!
