//! The per-flow DNS mark map as programmed into the kernel: for each
//! flow id, a table from resolved address to mark. Replacement swaps a
//! whole table; upserts add or update single addresses.

use vstd::prelude::*;
use vstd::pervasive::VecAdditionalExecFns;

use crate::dns_records::{FlowDnsMarkInfo, LdIp};

verus! {

/// Folding `items` into `m`: each pair in turn sets its address to its
/// mark, so a later pair for the same address wins.
pub open spec fn upsert_model(m: Map<LdIp, u32>, items: Seq<FlowDnsMarkInfo>) -> Map<LdIp, u32>
    decreases items.len(),
{
    if items.len() == 0 {
        m
    } else {
        upsert_model(m, items.drop_last()).insert(items.last().ip, items.last().mark)
    }
}

/// The table that `items` alone describe.
pub open spec fn table_model(items: Seq<FlowDnsMarkInfo>) -> Map<LdIp, u32> {
    upsert_model(Map::empty(), items)
}

/// Some pair of `items` carries the address `ip`.
pub open spec fn ip_in_items(items: Seq<FlowDnsMarkInfo>, ip: LdIp) -> bool {
    exists|i: int| 0 <= i < items.len() && (#[trigger] items[i]).ip == ip
}

/// The mark of the last pair of `items` that carries `ip`.
pub open spec fn last_mark_of(items: Seq<FlowDnsMarkInfo>, ip: LdIp) -> u32
    recommends
        ip_in_items(items, ip),
    decreases items.len(),
{
    if items.len() == 0 {
        0
    } else if items.last().ip == ip {
        items.last().mark
    } else {
        last_mark_of(items.drop_last(), ip)
    }
}

/// What folding `items` into `m` does, address by address: addresses of
/// `items` take their last mark, all others keep what `m` says.
pub proof fn lemma_upsert_model_pointwise(m: Map<LdIp, u32>, items: Seq<FlowDnsMarkInfo>)
    ensures
        forall|ip: LdIp|
            ip_in_items(items, ip) ==> upsert_model(m, items).dom().contains(ip) && upsert_model(
                m,
                items,
            )[ip] == last_mark_of(items, ip),
        forall|ip: LdIp|
            !ip_in_items(items, ip) ==> (upsert_model(m, items).dom().contains(ip)
                == m.dom().contains(ip)) && (m.dom().contains(ip) ==> upsert_model(m, items)[ip]
                == m[ip]),
    decreases items.len(),
{
    if items.len() > 0 {
        lemma_upsert_model_pointwise(m, items.drop_last());
        let rest = items.drop_last();
        let x = items.last();
        assert forall|ip: LdIp| ip_in_items(items, ip) implies upsert_model(
            m,
            items,
        ).dom().contains(ip) && upsert_model(m, items)[ip] == last_mark_of(items, ip) by {
            if ip != x.ip {
                let i = choose|i: int| 0 <= i < items.len() && (#[trigger] items[i]).ip == ip;
                assert(rest[i] == items[i]);
                assert(ip_in_items(rest, ip));
            }
        }
        assert forall|ip: LdIp| !ip_in_items(items, ip) implies (upsert_model(
            m,
            items,
        ).dom().contains(ip) == m.dom().contains(ip)) && (m.dom().contains(ip) ==> upsert_model(
            m,
            items,
        )[ip] == m[ip]) by {
            assert forall|i: int| 0 <= i < rest.len() implies (#[trigger] rest[i]).ip != ip by {
                assert(items[i] == rest[i]);
            }
            assert(!ip_in_items(rest, ip));
            assert(x.ip != ip) by {
                assert(items[items.len() - 1] == x);
            }
        }
    }
}

/// Law: folding the same pairs in twice leaves the table as after the
/// first fold.
pub proof fn lemma_upsert_idempotent(m: Map<LdIp, u32>, items: Seq<FlowDnsMarkInfo>)
    ensures
        upsert_model(upsert_model(m, items), items) == upsert_model(m, items),
{
    let once = upsert_model(m, items);
    let twice = upsert_model(once, items);
    lemma_upsert_model_pointwise(m, items);
    lemma_upsert_model_pointwise(once, items);
    assert forall|ip: LdIp| twice.dom().contains(ip) == once.dom().contains(ip) by {
        if !ip_in_items(items, ip) {
            assert(twice.dom().contains(ip) == once.dom().contains(ip));
        }
    }
    assert(twice.dom() =~= once.dom());
    assert(twice =~= once);
}

/// One flow's table, as a vector of pairs with pairwise distinct
/// addresses.
pub struct FlowEntry {
    pub flow_id: u32,
    pub entries: Vec<FlowDnsMarkInfo>,
}

/// Addresses in `s` are pairwise distinct.
pub open spec fn unique_ips(s: Seq<FlowDnsMarkInfo>) -> bool {
    forall|i: int, j: int|
        0 <= i < j < s.len() ==> (#[trigger] s[i]).ip != (#[trigger] s[j]).ip
}

/// An address present in `s` is in the fold's domain, with no others.
proof fn lemma_table_model_dom(s: Seq<FlowDnsMarkInfo>)
    ensures
        forall|ip: LdIp| table_model(s).dom().contains(ip) == ip_in_items(s, ip),
{
    lemma_upsert_model_pointwise(Map::empty(), s);
}

/// Updating the pair that holds `x.ip` acts on the fold like appending
/// `x`, as long as addresses are pairwise distinct.
proof fn lemma_table_model_update(s: Seq<FlowDnsMarkInfo>, pos: int, x: FlowDnsMarkInfo)
    requires
        unique_ips(s),
        0 <= pos < s.len(),
        s[pos].ip == x.ip,
    ensures
        table_model(s.update(pos, x)) == table_model(s).insert(x.ip, x.mark),
    decreases s.len(),
{
    let su = s.update(pos, x);
    if pos == s.len() - 1 {
        assert(su.drop_last() =~= s.drop_last());
        assert(su.last() == x);
        assert(table_model(su) == table_model(s.drop_last()).insert(x.ip, x.mark));
        assert(table_model(s) == table_model(s.drop_last()).insert(s.last().ip, s.last().mark));
        assert(s.last().ip == x.ip);
        assert(table_model(s.drop_last()).insert(x.ip, s.last().mark).insert(x.ip, x.mark)
            =~= table_model(s.drop_last()).insert(x.ip, x.mark));
    } else {
        let y = s.last();
        assert(su.drop_last() =~= s.drop_last().update(pos, x));
        assert(su.last() == y);
        lemma_table_model_update(s.drop_last(), pos, x);
        assert(table_model(su) == table_model(s.drop_last()).insert(x.ip, x.mark).insert(
            y.ip,
            y.mark,
        ));
        assert(y.ip != x.ip) by {
            assert(s[pos].ip != s[s.len() - 1].ip);
        }
        assert(table_model(s.drop_last()).insert(x.ip, x.mark).insert(y.ip, y.mark)
            =~= table_model(s.drop_last()).insert(y.ip, y.mark).insert(x.ip, x.mark));
    }
}

impl FlowEntry {
    /// The table this entry describes.
    pub open spec fn model(&self) -> Map<LdIp, u32> {
        table_model(self.entries@)
    }
}

/// The kernel's flow-DNS map: one table per flow id.
pub struct FlowDnsMap {
    pub flows: Vec<FlowEntry>,
}

impl FlowDnsMap {
    /// Flow ids are pairwise distinct and every table holds pairwise
    /// distinct addresses.
    pub open spec fn wf(&self) -> bool {
        &&& forall|i: int, j: int|
            0 <= i < j < self.flows@.len() ==> (#[trigger] self.flows@[i]).flow_id != (
            #[trigger] self.flows@[j]).flow_id
        &&& forall|i: int|
            0 <= i < self.flows@.len() ==> unique_ips((#[trigger] self.flows@[i]).entries@)
    }

    /// Some table is kept for `flow_id`.
    pub open spec fn has_flow(&self, flow_id: u32) -> bool {
        exists|i: int| 0 <= i < self.flows@.len() && (#[trigger] self.flows@[i]).flow_id == flow_id
    }

    /// The table kept for `flow_id`; empty when none is.
    pub open spec fn flow_model(&self, flow_id: u32) -> Map<LdIp, u32> {
        if self.has_flow(flow_id) {
            let i = choose|i: int|
                0 <= i < self.flows@.len() && (#[trigger] self.flows@[i]).flow_id == flow_id;
            table_model(self.flows@[i].entries@)
        } else {
            Map::empty()
        }
    }

    /// With distinct flow ids, the model of flow `flows[i].flow_id` is
    /// the table at position `i`.
    pub proof fn lemma_flow_model_at(&self, i: int)
        requires
            self.wf(),
            0 <= i < self.flows@.len(),
        ensures
            self.has_flow(self.flows@[i].flow_id),
            self.flow_model(self.flows@[i].flow_id) == table_model(self.flows@[i].entries@),
    {
        let f = self.flows@[i].flow_id;
        assert(self.has_flow(f));
        let j = choose|j: int|
            0 <= j < self.flows@.len() && (#[trigger] self.flows@[j]).flow_id == f;
        if i != j {
            if i < j {
                assert(self.flows@[i].flow_id != self.flows@[j].flow_id);
            } else {
                assert(self.flows@[j].flow_id != self.flows@[i].flow_id);
            }
        }
    }

    /// An empty map: no flow has a table.
    pub fn new() -> (r: FlowDnsMap)
        ensures
            r.wf(),
            forall|f: u32| !r.has_flow(f),
            forall|f: u32| r.flow_model(f) == Map::<LdIp, u32>::empty(),
    {
        FlowDnsMap { flows: Vec::new() }
    }

    /// The position of the table kept for `flow_id`.
    fn find_flow(&self, flow_id: u32) -> (r: Option<usize>)
        ensures
            match r {
                Some(i) => i < self.flows@.len() && self.flows@[i as int].flow_id == flow_id,
                None => !self.has_flow(flow_id),
            },
    {
        let mut i: usize = 0;
        while i < self.flows.len()
            invariant
                i <= self.flows@.len(),
                forall|j: int| 0 <= j < i ==> (#[trigger] self.flows@[j]).flow_id != flow_id,
            decreases self.flows.len() - i,
        {
            if self.flows[i].flow_id == flow_id {
                return Some(i);
            }
            i = i + 1;
        }
        None
    }

    /// Folds `items` into `entries`, address by address: an address
    /// already present takes the new mark, a new address is appended.
    fn upsert_into_entries(entries: &mut Vec<FlowDnsMarkInfo>, items: &Vec<FlowDnsMarkInfo>)
        requires
            unique_ips(old(entries)@),
        ensures
            unique_ips(final(entries)@),
            table_model(final(entries)@) == upsert_model(table_model(old(entries)@), items@),
    {
        let mut t: usize = 0;
        proof {
            assert(items@.take(0int) =~= Seq::<FlowDnsMarkInfo>::empty());
        }
        while t < items.len()
            invariant
                t <= items@.len(),
                unique_ips(entries@),
                table_model(entries@) == upsert_model(
                    table_model(old(entries)@),
                    items@.take(t as int),
                ),
            decreases items.len() - t,
        {
            let item: FlowDnsMarkInfo = items[t];
            proof {
                assert(items@.take(t as int + 1).drop_last() =~= items@.take(t as int));
                assert(items@.take(t as int + 1).last() == item);
            }
            let ghost pre = entries@;
            let mut pos: usize = 0;
            let mut found: bool = false;
            while pos < entries.len() && !found
                invariant
                    pos <= entries@.len(),
                    entries@ == pre,
                    found ==> pos < entries@.len() && entries@[pos as int].ip == item.ip,
                    !found ==> forall|j: int|
                        0 <= j < pos ==> (#[trigger] entries@[j]).ip != item.ip,
                decreases entries.len() - pos + (if found { 0int } else { 1int }),
            {
                if entries[pos].ip == item.ip {
                    found = true;
                } else {
                    pos = pos + 1;
                }
            }
            if found {
                entries.set(pos, item);
                proof {
                    lemma_table_model_update(pre, pos as int, item);
                }
            } else {
                proof {
                    lemma_table_model_dom(pre);
                    assert(!ip_in_items(pre, item.ip));
                }
                entries.push(item);
                proof {
                    assert(entries@.drop_last() =~= pre);
                    assert forall|i: int, j: int| 0 <= i < j < entries@.len() implies (
                    #[trigger] entries@[i]).ip != (#[trigger] entries@[j]).ip by {
                        if j == entries@.len() - 1 {
                            assert(pre[i] == entries@[i]);
                            assert(ip_in_items(pre, pre[i].ip));
                        }
                    }
                }
            }
            t = t + 1;
        }
        proof {
            assert(items@.take(items@.len() as int) =~= items@);
        }
    }

    /// Whole-table replacement for one flow: afterwards the flow's table
    /// is exactly what `items` describe; other flows are untouched.
    pub fn replace(&mut self, flow_id: u32, items: Vec<FlowDnsMarkInfo>)
        requires
            old(self).wf(),
        ensures
            final(self).wf(),
            final(self).has_flow(flow_id),
            final(self).flow_model(flow_id) == table_model(items@),
            forall|g: u32|
                g != flow_id ==> final(self).flow_model(g) == old(self).flow_model(g)
                    && final(self).has_flow(g) == old(self).has_flow(g),
    {
        let ghost pre = *self;
        let mut fresh: Vec<FlowDnsMarkInfo> = Vec::new();
        proof {
            assert(table_model(fresh@) =~= Map::<LdIp, u32>::empty());
        }
        Self::upsert_into_entries(&mut fresh, &items);
        proof {
            assert(table_model(fresh@) == table_model(items@));
        }
        let ghost tm = table_model(fresh@);
        let entry = FlowEntry { flow_id, entries: fresh };
        let r = self.find_flow(flow_id);
        let pos: usize = match r {
            Some(i) => i,
            None => {
                let n = self.flows.len();
                self.flows.push(FlowEntry { flow_id, entries: Vec::new() });
                n
            },
        };
        self.flows.set(pos, entry);
        proof {
            self.install_post(pre, pos as int, flow_id, tm);
        }
    }

    /// After writing a table for `flow_id` at position `i` (replacing it
    /// or appending), the map is well formed, `flow_id`'s model is the
    /// written table `tm`, and every other flow is untouched.
    proof fn install_post(&self, pre: FlowDnsMap, i: int, flow_id: u32, tm: Map<LdIp, u32>)
        requires
            pre.wf(),
            0 <= i < self.flows@.len(),
            self.flows@.len() == if i < pre.flows@.len() {
                pre.flows@.len() as int
            } else {
                pre.flows@.len() + 1int
            },
            forall|j: int|
                0 <= j < pre.flows@.len() && j != i ==> #[trigger] self.flows@[j]
                    == pre.flows@[j],
            i < pre.flows@.len() ==> pre.flows@[i].flow_id == flow_id,
            i == pre.flows@.len() ==> !pre.has_flow(flow_id),
            self.flows@[i].flow_id == flow_id,
            unique_ips(self.flows@[i].entries@),
            table_model(self.flows@[i].entries@) == tm,
        ensures
            self.wf(),
            self.has_flow(flow_id),
            self.flow_model(flow_id) == tm,
            forall|g: u32|
                g != flow_id ==> self.flow_model(g) == pre.flow_model(g) && self.has_flow(g)
                    == pre.has_flow(g),
    {
        assert forall|a: int, b: int| 0 <= a < b < self.flows@.len() implies (
        #[trigger] self.flows@[a]).flow_id != (#[trigger] self.flows@[b]).flow_id by {
            if a != i && b != i {
                assert(pre.flows@[a].flow_id != pre.flows@[b].flow_id);
            } else if a == i {
                if i < pre.flows@.len() {
                    assert(pre.flows@[a].flow_id != pre.flows@[b].flow_id);
                }
            } else {
                if i < pre.flows@.len() {
                    assert(pre.flows@[a].flow_id != pre.flows@[b].flow_id);
                } else {
                    if self.flows@[a].flow_id == flow_id {
                        assert(pre.has_flow(flow_id));
                    }
                }
            }
        }
        assert forall|j: int| 0 <= j < self.flows@.len() implies unique_ips(
            (#[trigger] self.flows@[j]).entries@,
        ) by {
            if j != i {
                assert(unique_ips(pre.flows@[j].entries@));
            }
        }
        self.lemma_flow_model_at(i);
        assert forall|g: u32| g != flow_id implies self.flow_model(g) == pre.flow_model(g)
            && self.has_flow(g) == pre.has_flow(g) by {
            if pre.has_flow(g) {
                let j = choose|j: int|
                    0 <= j < pre.flows@.len() && (#[trigger] pre.flows@[j]).flow_id == g;
                assert(j != i);
                assert(self.flows@[j] == pre.flows@[j]);
                assert(self.has_flow(g));
                self.lemma_flow_model_at(j);
                pre.lemma_flow_model_at(j);
            } else {
                if self.has_flow(g) {
                    let j = choose|j: int|
                        0 <= j < self.flows@.len() && (#[trigger] self.flows@[j]).flow_id == g;
                    assert(j != i);
                    assert(j < pre.flows@.len());
                    assert(pre.flows@[j].flow_id == g);
                    assert(pre.has_flow(g));
                }
            }
        }
    }

    /// Incremental update for one flow: each pair of `items` sets its
    /// address to its mark in the flow's table (a missing table starts
    /// empty); other flows are untouched.
    pub fn upsert(&mut self, flow_id: u32, items: &Vec<FlowDnsMarkInfo>)
        requires
            old(self).wf(),
        ensures
            final(self).wf(),
            final(self).has_flow(flow_id),
            final(self).flow_model(flow_id) == upsert_model(
                old(self).flow_model(flow_id),
                items@,
            ),
            forall|g: u32|
                g != flow_id ==> final(self).flow_model(g) == old(self).flow_model(g)
                    && final(self).has_flow(g) == old(self).has_flow(g),
    {
        let ghost pre = *self;
        let r = self.find_flow(flow_id);
        let mut new_entries: Vec<FlowDnsMarkInfo>;
        let pos: usize;
        match r {
            Some(i) => {
                pos = i;
                new_entries = crate::util::copy_vec(&self.flows[i].entries);
                proof {
                    pre.lemma_flow_model_at(i as int);
                }
            },
            None => {
                pos = self.flows.len();
                new_entries = Vec::new();
                self.flows.push(FlowEntry { flow_id, entries: Vec::new() });
                proof {
                    assert(table_model(new_entries@) =~= Map::<LdIp, u32>::empty());
                }
            },
        }
        proof {
            assert(table_model(new_entries@) == pre.flow_model(flow_id));
            assert(unique_ips(new_entries@));
        }
        Self::upsert_into_entries(&mut new_entries, items);
        let ghost tm = table_model(new_entries@);
        self.flows.set(pos, FlowEntry { flow_id, entries: new_entries });
        proof {
            self.install_post(pre, pos as int, flow_id, tm);
        }
    }
}

} // verus!
