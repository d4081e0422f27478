//! Bookkeeping of replication: what waits to be sent, which message carried which
//! group's values, and what arrived and waits to be applied.

use vstd::prelude::*;
use std::collections::HashMap;
use crate::entity_map::EntityMap;
use crate::keyed::{distinct_keys, find, lemma_find_found, lemma_find_none, lemma_find_some, Keyed};
use crate::message::{ReplicationDataView, ReplicationMessageData};
use crate::types::{ChangeTick, ChannelKind, GroupId, MessageId, Tick};

verus! {

broadcast use vstd::std_specs::hash::group_hash_axioms;

/// The value of a `ReplicationSender`.
pub struct SenderView {
    /// The diffs that wait to be sent, oldest first, each with its channel and group.
    pub pending: Seq<(ChannelKind, GroupId, ReplicationDataView)>,
    /// For each message that carried values and was not acknowledged yet, its group.
    pub in_flight: Map<MessageId, GroupId>,
    /// For each group that had values acknowledged, the world's clock at the last
    /// acknowledgment: values older than that need not be sent again.
    pub acked: Map<GroupId, ChangeTick>,
    /// The tick for which diffs were last handed out.
    pub last_tick: Option<Tick>,
}

impl SenderView {
    /// With one more diff waiting.
    pub open spec fn prepare(
        self,
        channel: ChannelKind,
        group: GroupId,
        data: ReplicationDataView,
    ) -> SenderView {
        SenderView { pending: self.pending.push((channel, group, data)), ..self }
    }

    /// After the waiting diffs were handed out for `tick`.
    pub open spec fn finalize(self, tick: Tick) -> SenderView {
        SenderView { pending: Seq::empty(), last_tick: Some(tick), ..self }
    }

    /// After the message `id` was recorded as carrying values of `group`.
    pub open spec fn track(self, id: MessageId, group: GroupId) -> SenderView {
        SenderView { in_flight: self.in_flight.insert(id, group), ..self }
    }

    /// After the acknowledgment of the message `id` arrived while the world's clock
    /// stood at `clock`. An identifier that is not in flight changes nothing.
    pub open spec fn ack(self, id: MessageId, clock: ChangeTick) -> SenderView {
        if self.in_flight.contains_key(id) {
            SenderView {
                in_flight: self.in_flight.remove(id),
                acked: self.acked.insert(self.in_flight[id], clock),
                ..self
            }
        } else {
            self
        }
    }

    /// After the acknowledgments `ids` arrived in order.
    pub open spec fn ack_all(self, ids: Seq<MessageId>, clock: ChangeTick) -> SenderView
        decreases ids.len(),
    {
        if ids.len() == 0 {
            self
        } else {
            self.ack_all(ids.drop_last(), clock).ack(ids.last(), clock)
        }
    }

    /// The groups whose values the acknowledgments `ids` confirm, one for each
    /// acknowledgment that was in flight, in order.
    pub open spec fn acked_groups(self, ids: Seq<MessageId>, clock: ChangeTick) -> Seq<GroupId>
        decreases ids.len(),
    {
        if ids.len() == 0 {
            Seq::empty()
        } else {
            let before = self.ack_all(ids.drop_last(), clock);
            let groups = self.acked_groups(ids.drop_last(), clock);
            if before.in_flight.contains_key(ids.last()) {
                groups.push(before.in_flight[ids.last()])
            } else {
                groups
            }
        }
    }
}

/// An acknowledgment removes the entry of its message and no other.
pub proof fn lemma_ack_removes_one(s: SenderView, id: MessageId, clock: ChangeTick)
    ensures
        !s.ack(id, clock).in_flight.contains_key(id),
        forall|other: MessageId|
            other != id ==> (s.ack(id, clock).in_flight.contains_key(other)
                <==> s.in_flight.contains_key(other)),
        forall|other: MessageId|
            other != id && s.in_flight.contains_key(other) ==> s.ack(id, clock).in_flight[other]
                == s.in_flight[other],
        s.ack(id, clock).in_flight == s.in_flight.remove(id),
{
    assert(s.ack(id, clock).in_flight =~= s.in_flight.remove(id));
}

/// Produces the diffs to send and remembers which message carried which group's values.
pub struct ReplicationSender {
    pending: Vec<(ChannelKind, GroupId, ReplicationMessageData)>,
    updates_message_id_to_group_id: HashMap<MessageId, GroupId>,
    acked: HashMap<GroupId, ChangeTick>,
    last_tick: Option<Tick>,
}

impl DeepView for ReplicationSender {
    type V = SenderView;

    closed spec fn deep_view(&self) -> SenderView {
        SenderView {
            pending: self.pending.deep_view(),
            in_flight: self.updates_message_id_to_group_id@,
            acked: self.acked@,
            last_tick: self.last_tick,
        }
    }
}

impl ReplicationSender {
    /// A sender with nothing waiting and nothing in flight.
    pub fn new() -> (r: Self)
        ensures
            r.deep_view() == (SenderView {
                pending: Seq::empty(),
                in_flight: Map::empty(),
                acked: Map::empty(),
                last_tick: None,
            }),
    {
        let r = ReplicationSender {
            pending: Vec::new(),
            updates_message_id_to_group_id: HashMap::new(),
            acked: HashMap::new(),
            last_tick: None,
        };
        proof {
            assert(r.pending.deep_view() =~= Seq::empty());
        }
        r
    }

    /// Queues a diff of `group` to be sent on `channel`.
    pub fn prepare(&mut self, channel: ChannelKind, group: GroupId, data: ReplicationMessageData)
        ensures
            final(self).deep_view() == old(self).deep_view().prepare(
                channel,
                group,
                data.deep_view(),
            ),
    {
        let ghost before = self.pending.deep_view();
        let ghost dv = data.deep_view();
        self.pending.push((channel, group, data));
        proof {
            assert(self.pending.deep_view() =~= before.push((channel, group, dv)));
        }
    }

    /// Hands out the diffs that wait, oldest first, to be sent for `tick`.
    pub fn finalize(&mut self, tick: Tick) -> (r: Vec<(ChannelKind, GroupId, ReplicationMessageData)>)
        ensures
            r.deep_view() == old(self).deep_view().pending,
            final(self).deep_view() == old(self).deep_view().finalize(tick),
    {
        let mut out: Vec<(ChannelKind, GroupId, ReplicationMessageData)> = Vec::new();
        std::mem::swap(&mut self.pending, &mut out);
        self.last_tick = Some(tick);
        proof {
            assert(self.pending.deep_view() =~= Seq::empty());
        }
        out
    }

    /// Records that the message `id` carried values of `group`.
    pub fn track(&mut self, id: MessageId, group: GroupId)
        ensures
            final(self).deep_view() == old(self).deep_view().track(id, group),
    {
        self.updates_message_id_to_group_id.insert(id, group);
    }

    /// Takes in the acknowledgments `ids`, which arrived while the world's clock stood
    /// at `clock`. Each one that is in flight is struck off, and its group is noted as
    /// confirmed up to `clock`. Returns those groups, in order.
    pub fn recv_update_acks(&mut self, ids: &Vec<MessageId>, clock: ChangeTick) -> (r: Vec<GroupId>)
        ensures
            final(self).deep_view() == old(self).deep_view().ack_all(ids@, clock),
            r@ == old(self).deep_view().acked_groups(ids@, clock),
    {
        let ghost before = self.deep_view();
        let mut groups: Vec<GroupId> = Vec::new();
        let n = ids.len();
        let mut i: usize = 0;
        while i < n
            invariant
                i <= n,
                n == ids@.len(),
                self.deep_view() == before.ack_all(ids@.take(i as int), clock),
                groups@ == before.acked_groups(ids@.take(i as int), clock),
            decreases n - i,
        {
            let id = ids[i];
            proof {
                assert(ids@.take(i + 1).drop_last() =~= ids@.take(i as int));
            }
            match self.updates_message_id_to_group_id.remove(&id) {
                Some(group) => {
                    self.acked.insert(group, clock);
                    groups.push(group);
                },
                None => {
                    assert(self.updates_message_id_to_group_id@ =~= before.ack_all(
                        ids@.take(i as int),
                        clock,
                    ).in_flight);
                },
            }
            i += 1;
        }
        proof {
            assert(ids@.take(n as int) =~= ids@);
        }
        groups
    }

    /// The group whose values the message `id` carried, while it is in flight.
    pub fn group_of(&self, id: MessageId) -> (r: Option<GroupId>)
        ensures
            r == (if self.deep_view().in_flight.contains_key(id) {
                Some(self.deep_view().in_flight[id])
            } else {
                None
            }),
    {
        match self.updates_message_id_to_group_id.get(&id) {
            Some(g) => Some(*g),
            None => None,
        }
    }

    /// How many messages that carried values are in flight.
    pub fn in_flight_len(&self) -> (r: usize)
        ensures
            self.deep_view().in_flight.dom().finite(),
            r == self.deep_view().in_flight.dom().len(),
    {
        self.updates_message_id_to_group_id.len()
    }

    /// The world's clock at the last acknowledgment of values of `group`.
    pub fn acked_clock(&self, group: GroupId) -> (r: Option<ChangeTick>)
        ensures
            r == (if self.deep_view().acked.contains_key(group) {
                Some(self.deep_view().acked[group])
            } else {
                None
            }),
    {
        match self.acked.get(&group) {
            Some(c) => Some(*c),
            None => None,
        }
    }

    /// How many diffs wait to be sent.
    pub fn pending_len(&self) -> (r: usize)
        ensures
            r == self.deep_view().pending.len(),
    {
        self.pending.len()
    }
}

/// The diffs of one group that wait to be applied, oldest first, each with the tick at
/// which it left the other end.
pub type GroupDiffs = (GroupId, Seq<(Tick, ReplicationDataView)>);

impl Keyed for GroupDiffs {
    open spec fn key(&self) -> u64 {
        self.0
    }
}

/// The groups `s` after a diff of `group`, which left at `tick`, arrived: it joins the
/// diffs of its group, or opens the list of a group that had none.
pub open spec fn receive_diff(
    s: Seq<GroupDiffs>,
    group: GroupId,
    tick: Tick,
    data: ReplicationDataView,
) -> Seq<GroupDiffs> {
    match find(s, group) {
        Some(i) => s.update(i, (group, s[i].1.push((tick, data)))),
        None => s.push((group, seq![(tick, data)])),
    }
}

/// A diff that arrives leaves each group with one list.
pub proof fn lemma_receive_diff_distinct(
    s: Seq<GroupDiffs>,
    group: GroupId,
    tick: Tick,
    data: ReplicationDataView,
)
    requires
        distinct_keys(s),
    ensures
        distinct_keys(receive_diff(s, group, tick, data)),
{
    lemma_find_found(s, group);
    let after = receive_diff(s, group, tick, data);
    match find(s, group) {
        Some(i) => {
            assert forall|a: int, b: int| 0 <= a < b < after.len() implies (#[trigger] after[a]).key()
                != (#[trigger] after[b]).key() by {
                assert(after[a].key() == s[a].key());
                assert(after[b].key() == s[b].key());
            }
        },
        None => {
            assert forall|a: int, b: int| 0 <= a < b < after.len() implies (#[trigger] after[a]).key()
                != (#[trigger] after[b]).key() by {
                assert(after[a].key() == s[a].key());
                if b < s.len() {
                    assert(after[b].key() == s[b].key());
                }
            }
        },
    }
}

/// Takes in the diffs that arrive and hands them out group by group.
pub struct ReplicationReceiver {
    groups: Vec<(GroupId, Vec<(Tick, ReplicationMessageData)>)>,
    remote_entity_map: EntityMap,
}

impl ReplicationReceiver {
    /// The diffs that wait to be applied, group by group, in the order in which the
    /// groups first had a diff.
    pub closed spec fn waiting(&self) -> Seq<GroupDiffs> {
        self.groups.deep_view()
    }

    /// The entities that the other end named, and what they are called here.
    pub closed spec fn entity_map(&self) -> EntityMap {
        self.remote_entity_map
    }

    /// The representation invariant: each group has one list.
    pub open spec fn wf(&self) -> bool {
        distinct_keys(self.waiting())
    }

    /// A receiver with nothing waiting and no entity known.
    pub fn new() -> (r: Self)
        ensures
            r.wf(),
            r.waiting() == Seq::<GroupDiffs>::empty(),
            r.entity_map().to_local() == Map::<u64, u64>::empty(),
            r.entity_map().to_remote() == Map::<u64, u64>::empty(),
    {
        let r = ReplicationReceiver { groups: Vec::new(), remote_entity_map: EntityMap::new() };
        proof {
            assert(r.groups.deep_view() =~= Seq::<GroupDiffs>::empty());
        }
        r
    }

    /// Takes in a diff of `group` that left the other end at `tick`.
    pub fn recv_message(&mut self, group: GroupId, tick: Tick, data: ReplicationMessageData)
        requires
            old(self).wf(),
        ensures
            final(self).wf(),
            final(self).waiting() == receive_diff(
                old(self).waiting(),
                group,
                tick,
                data.deep_view(),
            ),
            final(self).entity_map() == old(self).entity_map(),
    {
        let ghost before = self.groups.deep_view();
        let ghost dv = data.deep_view();
        proof {
            lemma_receive_diff_distinct(before, group, tick, dv);
        }
        let n = self.groups.len();
        let mut i: usize = 0;
        while i < n
            invariant
                i <= n,
                n == self.groups@.len(),
                *self == *old(self),
                before == self.groups.deep_view(),
                dv == data.deep_view(),
                distinct_keys(receive_diff(before, group, tick, dv)),
                forall|j: int| 0 <= j < i ==> (#[trigger] before[j]).key() != group,
            decreases n - i,
        {
            if self.groups[i].0 == group {
                proof {
                    assert(before[i as int].key() == group);
                    lemma_find_some(before, group, i as int);
                }
                let ghost diffs_before = self.groups@[i as int].1.deep_view();
                self.groups[i].1.push((tick, data));
                proof {
                    assert(self.groups@[i as int].1.deep_view() =~= diffs_before.push((tick, dv)));
                    assert(self.groups.deep_view() =~= before.update(
                        i as int,
                        (group, before[i as int].1.push((tick, dv))),
                    ));
                }
                return ;
            }
            i += 1;
        }
        proof {
            lemma_find_none(before, group);
        }
        let mut diffs: Vec<(Tick, ReplicationMessageData)> = Vec::new();
        diffs.push((tick, data));
        proof {
            assert(diffs.deep_view() =~= seq![(tick, dv)]);
        }
        self.groups.push((group, diffs));
        proof {
            assert(self.groups.deep_view() =~= before.push((group, seq![(tick, dv)])));
        }
    }

    /// The entities that the other end named, and what they are called here.
    pub fn remote_entity_map(&self) -> (r: &EntityMap)
        ensures
            *r == self.entity_map(),
    {
        &self.remote_entity_map
    }

    /// Records that the other end's `remote` is `local` here.
    pub fn map_entity(&mut self, remote: u64, local: u64)
        ensures
            final(self).waiting() == old(self).waiting(),
            final(self).wf() == old(self).wf(),
            final(self).entity_map().to_local() == old(self).entity_map().to_local().insert(
                remote,
                local,
            ),
            final(self).entity_map().to_remote() == old(self).entity_map().to_remote().insert(
                local,
                remote,
            ),
    {
        self.remote_entity_map.insert(remote, local);
    }

    /// Hands out the diffs that wait to be applied, group by group.
    pub fn read_messages(&mut self) -> (r: Vec<(GroupId, Vec<(Tick, ReplicationMessageData)>)>)
        ensures
            final(self).wf(),
            r.deep_view() == old(self).waiting(),
            final(self).waiting() == Seq::<GroupDiffs>::empty(),
            final(self).entity_map() == old(self).entity_map(),
    {
        let mut out: Vec<(GroupId, Vec<(Tick, ReplicationMessageData)>)> = Vec::new();
        std::mem::swap(&mut self.groups, &mut out);
        proof {
            assert(self.groups.deep_view() =~= Seq::<GroupDiffs>::empty());
        }
        out
    }
}

} // verus!
