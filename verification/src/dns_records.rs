//! DNS records as plain values, flow marks, cache items, and the answer
//! filter that restricts a response to one address family.

use vstd::prelude::*;

verus! {

/// Record type code of an IPv4 address record.
pub const RTYPE_A: u16 = 1;

/// Record type code of an IPv6 address record.
pub const RTYPE_AAAA: u16 = 28;

/// An IP address as a plain value.
#[derive(Clone, Copy, Debug, PartialEq, Eq, Hash, Structural)]
pub enum LdIp {
    V4(u32),
    V6(u128),
}

/// The payload of a DNS record: an address, or something the resolver
/// only carries through.
#[derive(Clone, Copy, Debug, PartialEq, Eq, Hash, Structural)]
pub enum RecordData {
    V4(u32),
    V6(u128),
    Other,
}

/// One DNS resource record: its type code, its time to live in seconds,
/// and its payload.
#[derive(Clone, Copy, Debug, PartialEq, Eq, Hash, Structural)]
pub struct DnsRecord {
    pub rtype: u16,
    pub ttl: u32,
    pub data: RecordData,
}

impl DnsRecord {
    /// The address this record carries, if it is an address record.
    pub open spec fn spec_address(self) -> Option<LdIp> {
        match self.data {
            RecordData::V4(ip) => Some(LdIp::V4(ip)),
            RecordData::V6(ip) => Some(LdIp::V6(ip)),
            RecordData::Other => None,
        }
    }

    pub fn address(&self) -> (r: Option<LdIp>)
        ensures
            r == self.spec_address(),
    {
        match self.data {
            RecordData::V4(ip) => Some(LdIp::V4(ip)),
            RecordData::V6(ip) => Some(LdIp::V6(ip)),
            RecordData::Other => None,
        }
    }
}

/// Which address family a rule lets through.
#[derive(Clone, Copy, Debug, PartialEq, Eq, Hash, Structural)]
pub enum FilterResult {
    Unfilter,
    OnlyIPv4,
    OnlyIPv6,
}

/// The mark a rule attaches to resolved addresses; zero is the neutral
/// mark that asks for no kernel programming.
#[derive(Clone, Copy, Debug, PartialEq, Eq, Hash, Structural)]
pub struct FlowMark {
    pub mark: u32,
}

impl FlowMark {
    /// Whether addresses resolved under this mark must be published into
    /// the kernel's flow map.
    pub open spec fn spec_need_insert_in_ebpf_map(self) -> bool {
        self.mark != 0
    }

    pub fn need_insert_in_ebpf_map(&self) -> (r: bool)
        ensures
            r == self.spec_need_insert_in_ebpf_map(),
    {
        self.mark != 0
    }
}

/// One (address, mark) pair as published into the kernel's per-flow map.
#[derive(Clone, Copy, Debug, PartialEq, Eq, Hash, Structural)]
pub struct FlowDnsMarkInfo {
    pub ip: LdIp,
    pub mark: u32,
}

/// Whether the filter lets this record through: a neutral filter passes
/// everything, OnlyIPv4 drops AAAA records, OnlyIPv6 drops A records,
/// and records that carry no address always pass.
pub open spec fn record_passes_filter(r: DnsRecord, f: FilterResult) -> bool {
    &&& !(r.rtype == RTYPE_A && f == FilterResult::OnlyIPv6)
    &&& !(r.rtype == RTYPE_AAAA && f == FilterResult::OnlyIPv4)
}

/// The records of `records` that pass `filter`, in their given order.
pub fn fiter_result(un_filter_records: Vec<DnsRecord>, filter: &FilterResult) -> (r: Vec<
    DnsRecord,
>)
    ensures
        r@ == un_filter_records@.filter(|x: DnsRecord| record_passes_filter(x, *filter)),
        forall|i: int|
            0 <= i < r@.len() ==> record_passes_filter(#[trigger] r@[i], *filter),
        *filter == FilterResult::OnlyIPv6 ==> forall|i: int|
            0 <= i < r@.len() ==> (#[trigger] r@[i]).rtype != RTYPE_A,
        *filter == FilterResult::OnlyIPv4 ==> forall|i: int|
            0 <= i < r@.len() ==> (#[trigger] r@[i]).rtype != RTYPE_AAAA,
{
    let ghost pred = |x: DnsRecord| record_passes_filter(x, *filter);
    let mut valid_records: Vec<DnsRecord> = Vec::new();
    let mut idx: usize = 0;
    proof {
        assert(un_filter_records@.take(0int).filter(pred) =~= Seq::<DnsRecord>::empty());
    }
    while idx < un_filter_records.len()
        invariant
            idx <= un_filter_records.len(),
            valid_records@ == un_filter_records@.take(idx as int).filter(pred),
            pred == (|x: DnsRecord| record_passes_filter(x, *filter)),
        decreases un_filter_records.len() - idx,
    {
        let rec: DnsRecord = un_filter_records[idx];
        let keep: bool = match (filter, rec.rtype) {
            (FilterResult::Unfilter, _) => true,
            (FilterResult::OnlyIPv4, t) => t != RTYPE_AAAA,
            (FilterResult::OnlyIPv6, t) => t != RTYPE_A,
        };
        proof {
            lemma_filter_push(un_filter_records@.take(idx as int), rec, pred);
            assert(un_filter_records@.take(idx as int).push(rec) =~= un_filter_records@.take(
                idx as int + 1,
            ));
        }
        if keep {
            valid_records.push(rec);
        }
        idx = idx + 1;
    }
    proof {
        assert(un_filter_records@.take(un_filter_records@.len() as int) =~= un_filter_records@);
        assert forall|i: int| 0 <= i < valid_records@.len() implies record_passes_filter(
            #[trigger] valid_records@[i],
            *filter,
        ) by {
            un_filter_records@.lemma_filter_pred(pred, i);
        }
    }
    valid_records
}

/// Pushing one element onto a sequence extends its filtered image by that
/// element exactly when the element satisfies the predicate.
pub proof fn lemma_filter_push<A>(s: Seq<A>, x: A, pred: spec_fn(A) -> bool)
    ensures
        s.push(x).filter(pred) == if pred(x) {
            s.filter(pred).push(x)
        } else {
            s.filter(pred)
        },
{
    reveal(Seq::filter);
    assert(s.push(x).drop_last() =~= s);
    assert(s.push(x).last() == x);
}

/// One cached answer: the records of one upstream reply, when it was
/// inserted (wall clock, milliseconds), and the mark and filter of the
/// rule that produced it.
#[derive(Clone, Debug)]
pub struct CacheDNSItem {
    pub rdatas: Vec<DnsRecord>,
    pub insert_time: u64,
    pub mark: FlowMark,
    pub filter: FilterResult,
}

/// Mathematical image of a `CacheDNSItem`.
pub ghost struct CacheItemV {
    pub rdatas: Seq<DnsRecord>,
    pub insert_time: u64,
    pub mark: FlowMark,
    pub filter: FilterResult,
}

impl View for CacheDNSItem {
    type V = CacheItemV;

    open spec fn view(&self) -> CacheItemV {
        CacheItemV {
            rdatas: self.rdatas@,
            insert_time: self.insert_time,
            mark: self.mark,
            filter: self.filter,
        }
    }
}

impl DeepView for CacheDNSItem {
    type V = CacheItemV;

    open spec fn deep_view(&self) -> CacheItemV {
        self.view()
    }
}

/// The (address, mark) pairs that `rdatas`' address records yield under
/// `mark`, in record order.
pub open spec fn update_rules_of(rdatas: Seq<DnsRecord>, mark: u32) -> Seq<FlowDnsMarkInfo>
    decreases rdatas.len(),
{
    if rdatas.len() == 0 {
        Seq::empty()
    } else {
        let rest = update_rules_of(rdatas.drop_last(), mark);
        match rdatas.last().spec_address() {
            Some(ip) => rest.push(FlowDnsMarkInfo { ip, mark }),
            None => rest,
        }
    }
}

impl CacheDNSItem {
    /// A fresh copy of this cache item.
    pub fn duplicate(&self) -> (r: CacheDNSItem)
        ensures
            r@ == self@,
    {
        CacheDNSItem {
            rdatas: crate::util::copy_vec(&self.rdatas),
            insert_time: self.insert_time,
            mark: self.mark,
            filter: self.filter,
        }
    }

    /// The kernel-map pairs of this item under its own mark.
    pub fn get_update_rules(&self) -> (r: Vec<FlowDnsMarkInfo>)
        ensures
            r@ == update_rules_of(self.rdatas@, self.mark.mark),
    {
        self.get_update_rules_with_mark(&self.mark)
    }

    /// The kernel-map pairs of this item, but tagged with `new_mark`
    /// instead of the item's own mark.
    pub fn get_update_rules_with_mark(&self, new_mark: &FlowMark) -> (r: Vec<FlowDnsMarkInfo>)
        ensures
            r@ == update_rules_of(self.rdatas@, new_mark.mark),
    {
        let mut out: Vec<FlowDnsMarkInfo> = Vec::new();
        let mut idx: usize = 0;
        proof {
            assert(self.rdatas@.take(0int) =~= Seq::<DnsRecord>::empty());
        }
        while idx < self.rdatas.len()
            invariant
                idx <= self.rdatas.len(),
                out@ == update_rules_of(self.rdatas@.take(idx as int), new_mark.mark),
            decreases self.rdatas.len() - idx,
        {
            let rec: DnsRecord = self.rdatas[idx];
            proof {
                assert(self.rdatas@.take(idx as int + 1).drop_last() =~= self.rdatas@.take(
                    idx as int,
                ));
                assert(self.rdatas@.take(idx as int + 1).last() == rec);
            }
            match rec.address() {
                Some(ip) => {
                    out.push(FlowDnsMarkInfo { ip, mark: new_mark.mark });
                },
                None => {
                },
            }
            idx = idx + 1;
        }
        proof {
            assert(self.rdatas@.take(self.rdatas@.len() as int) =~= self.rdatas@);
        }
        out
    }
}

} // verus!
