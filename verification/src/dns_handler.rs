//! The DNS resolver front-end: it answers queries from the cache,
//! selects the first matching rule for what the cache cannot answer,
//! stores upstream replies, and publishes marked addresses into the
//! kernel's flow map.

use vstd::prelude::*;

use crate::dns_cache::{
    key_index, key_view, seq_has_key, CacheEntryV, CacheKey, DnsCache,
};
use crate::dns_records::{
    fiter_result, record_passes_filter, update_rules_of, CacheDNSItem, CacheItemV, DnsRecord,
    FilterResult, FlowDnsMarkInfo, FlowMark,
};
use crate::dns_rule::{DnsRule, DnsRuleSet};
use crate::flow_map::{upsert_model, FlowDnsMap};
use crate::util::copy_vec;

verus! {

/// DNS response code: no error.
pub const RCODE_NOERROR: u16 = 0;

/// DNS response code: format error.
pub const RCODE_FORMERR: u16 = 1;

/// DNS response code: server failure.
pub const RCODE_SERVFAIL: u16 = 2;

/// How many entries the answer cache holds.
pub const DNS_CACHE_CAP: usize = 2048;

/// One response as the resolver hands it to the wire layer.
#[derive(Debug)]
pub struct DnsResponse {
    pub rcode: u16,
    pub authoritative: bool,
    pub recursion_available: bool,
    pub records: Vec<DnsRecord>,
}

/// The response sent when nothing else can be: server failure, no
/// records, no flags.
pub fn serve_failed() -> (r: DnsResponse)
    ensures
        r.rcode == RCODE_SERVFAIL,
        r.records@.len() == 0,
        !r.authoritative,
        !r.recursion_available,
{
    DnsResponse {
        rcode: RCODE_SERVFAIL,
        authoritative: false,
        recursion_available: false,
        records: Vec::new(),
    }
}

/// The response to a request that carries no question: format error.
pub fn form_error_response() -> (r: DnsResponse)
    ensures
        r.rcode == RCODE_FORMERR,
        r.records@.len() == 0,
{
    DnsResponse {
        rcode: RCODE_FORMERR,
        authoritative: false,
        recursion_available: false,
        records: Vec::new(),
    }
}

/// Milliseconds elapsed from `insert_ms` to `now_ms`; zero when the
/// clock stands before the insertion.
pub open spec fn elapsed_ms(insert_ms: u64, now_ms: u64) -> int {
    if now_ms >= insert_ms {
        (now_ms - insert_ms) as int
    } else {
        0
    }
}

/// No record of the item has outlived its time to live at `now_ms`:
/// the time since insertion stays within every record's time to live.
pub open spec fn item_fresh(item: CacheItemV, now_ms: u64) -> bool {
    forall|i: int|
        0 <= i < item.rdatas.len() ==> elapsed_ms(item.insert_time, now_ms) <= (
        #[trigger] item.rdatas[i]).ttl * 1000
}

/// Every item is fresh at `now_ms`.
pub open spec fn items_fresh(items: Seq<CacheItemV>, now_ms: u64) -> bool {
    forall|i: int| 0 <= i < items.len() ==> item_fresh(#[trigger] items[i], now_ms)
}

/// All records of all items, in item order.
pub open spec fn all_records(items: Seq<CacheItemV>) -> Seq<DnsRecord>
    decreases items.len(),
{
    if items.len() == 0 {
        Seq::empty()
    } else {
        all_records(items.drop_last()) + items.last().rdatas
    }
}

/// A lookup of `kv` at `now_ms` in entries `s` is answered from the
/// cache: the key is present, every cached item is fresh, and the items
/// hold at least one record.
pub open spec fn cache_hit(s: Seq<CacheEntryV>, kv: (Seq<u8>, u16), now_ms: u64) -> bool {
    &&& seq_has_key(s, kv)
    &&& items_fresh(s[key_index(s, kv)].1, now_ms)
    &&& all_records(s[key_index(s, kv)].1).len() > 0
}

/// The records a cache hit hands back.
pub open spec fn hit_records(s: Seq<CacheEntryV>, kv: (Seq<u8>, u16)) -> Seq<DnsRecord> {
    all_records(s[key_index(s, kv)].1)
}

/// The filter a cache hit hands back: the one of the last stored item.
pub open spec fn hit_filter(s: Seq<CacheEntryV>, kv: (Seq<u8>, u16)) -> FilterResult {
    s[key_index(s, kv)].1.last().filter
}

/// The cache after the recency of a present key was refreshed; the
/// entries as they were when the key is absent.
pub open spec fn touched(s: Seq<CacheEntryV>, kv: (Seq<u8>, u16)) -> Seq<CacheEntryV> {
    if seq_has_key(s, kv) {
        seq![s[key_index(s, kv)]] + s.remove(key_index(s, kv))
    } else {
        s
    }
}

/// The rule-driven resolver: the ordered rule set, the answer cache,
/// and the flow the kernel map is programmed under.
pub struct LandscapeDnsRequestHandle {
    pub resolves: DnsRuleSet,
    pub cache: DnsCache,
    pub flow_id: u32,
}

impl LandscapeDnsRequestHandle {
    /// The rule set is ordered, the cache keys are distinct, and the
    /// cache stands within its bound.
    pub open spec fn wf(&self) -> bool {
        &&& self.resolves.wf()
        &&& self.cache.wf()
        &&& self.cache.model().len() <= self.cache.cap()
        &&& self.cache.cap() == DNS_CACHE_CAP
    }

    /// A fresh handle over the given rules: the rule set is built from
    /// them (later duplicate indexes win) and the cache starts empty.
    pub fn new(dns_rules: Vec<DnsRule>, flow_id: u32) -> (r: LandscapeDnsRequestHandle)
        ensures
            r.wf(),
            r.flow_id == flow_id,
            r.cache.model().len() == 0,
            forall|k: u32|
                crate::dns_rule::has_index(r.resolves.rules@, k) <==> crate::dns_rule::has_index(
                    dns_rules@,
                    k,
                ),
            forall|p: int|
                0 <= p < r.resolves.rules@.len() ==> crate::dns_rule::is_last_with_index(
                    dns_rules@,
                    (#[trigger] r.resolves.rules@[p])@,
                ),
    {
        let resolves = DnsRuleSet::from_rules(dns_rules);
        let cache = DnsCache::new(DNS_CACHE_CAP);
        LandscapeDnsRequestHandle { resolves, cache, flow_id }
    }

    /// Answers a query from the cache alone. A hit hands back every
    /// cached record together with the filter of the last stored item,
    /// and refreshes the entry's recency; an expired or empty entry is
    /// a miss. A hit is fresh: no record has outlived its time to live.
    pub fn lookup_cache(&mut self, domain: &Vec<u8>, query_type: u16, now_ms: u64) -> (r: Option<
        (Vec<DnsRecord>, FilterResult),
    >)
        requires
            old(self).wf(),
        ensures
            final(self).wf(),
            final(self).resolves == old(self).resolves,
            final(self).flow_id == old(self).flow_id,
            final(self).cache.model() == touched(old(self).cache.model(), (domain@, query_type)),
            final(self).cache.cap() == old(self).cache.cap(),
            r is Some <==> cache_hit(old(self).cache.model(), (domain@, query_type), now_ms),
            r matches Some(hit) ==> ({
                let s = old(self).cache.model();
                let kv = (domain@, query_type);
                &&& hit.0@ == hit_records(s, kv)
                &&& hit.1 == hit_filter(s, kv)
            }),
    {
        let key: CacheKey = (copy_vec(domain), query_type);
        let got = self.cache.get(&key);
        let ghost s = old(self).cache.model();
        let ghost kv = (domain@, query_type);
        match got {
            None => {
                proof {
                    assert(!cache_hit(s, kv, now_ms));
                }
                None
            },
            Some(items) => {
                let ghost stored: Seq<CacheItemV> = s[key_index(s, kv)].1;
                proof {
                    assert(items.deep_view() == stored);
                    assert(items@.len() == stored.len());
                }
                let mut is_expire: bool = false;
                let mut valid_records: Vec<DnsRecord> = Vec::new();
                let mut ret_filter: FilterResult = FilterResult::Unfilter;
                let mut i: usize = 0;
                proof {
                    assert(all_records(stored.take(0int)) =~= Seq::<DnsRecord>::empty());
                }
                while i < items.len()
                    invariant
                        i <= items@.len(),
                        items.deep_view() == stored,
                        items@.len() == stored.len(),
                        is_expire == !items_fresh(stored.take(i as int), now_ms),
                        valid_records@ == all_records(stored.take(i as int)),
                        i > 0 ==> ret_filter == stored[i - 1].filter,
                    decreases items.len() - i,
                {
                    let item = &items[i];
                    proof {
                        assert(item@ == stored[i as int]);
                        assert(stored.take(i as int + 1).drop_last() =~= stored.take(i as int));
                        assert(stored.take(i as int + 1).last() == stored[i as int]);
                    }
                    ret_filter = item.filter;
                    let mut j: usize = 0;
                    let mut this_stale: bool = false;
                    while j < item.rdatas.len()
                        invariant
                            j <= item.rdatas@.len(),
                            item@ == stored[i as int],
                            this_stale == !(forall|m: int|
                                0 <= m < j ==> elapsed_ms(item@.insert_time, now_ms) <= (
                                #[trigger] item@.rdatas[m]).ttl * 1000),
                        decreases item.rdatas.len() - j,
                    {
                        let elapsed: u64 = if now_ms >= item.insert_time {
                            now_ms - item.insert_time
                        } else {
                            0
                        };
                        if elapsed > (item.rdatas[j].ttl as u64) * 1000 {
                            this_stale = true;
                        }
                        j = j + 1;
                    }
                    proof {
                        assert(this_stale == !item_fresh(stored[i as int], now_ms));
                        assert forall|t: int|
                            0 <= t < stored.take(i as int + 1).len()
                                && !item_fresh(#[trigger] stored.take(i as int + 1)[t], now_ms)
                            implies !items_fresh(stored.take(i as int + 1), now_ms) by {}
                    }
                    if this_stale {
                        is_expire = true;
                    }
                    let mut rc: Vec<DnsRecord> = copy_vec(&item.rdatas);
                    valid_records.append(&mut rc);
                    proof {
                        assert(valid_records@ == all_records(stored.take(i as int))
                            + stored[i as int].rdatas);
                        assert(all_records(stored.take(i as int + 1)) == all_records(
                            stored.take(i as int),
                        ) + stored[i as int].rdatas);
                        if !is_expire {
                            assert forall|t: int| 0 <= t < i + 1 implies item_fresh(
                                #[trigger] stored.take(i as int + 1)[t],
                                now_ms,
                            ) by {
                                assert(stored.take(i as int + 1)[t] == stored[t]);
                                if t < i {
                                    assert(stored.take(i as int)[t] == stored[t]);
                                    assert(item_fresh(stored.take(i as int)[t], now_ms));
                                }
                            }
                        }
                    }
                    i = i + 1;
                }
                proof {
                    assert(stored.take(stored.len() as int) =~= stored);
                }
                if is_expire {
                    return None;
                }
                if valid_records.len() == 0 {
                    return None;
                }
                proof {
                    assert(stored.len() > 0);
                    assert(ret_filter == stored[stored.len() - 1].filter);
                    assert(cache_hit(s, kv, now_ms));
                }
                Some((valid_records, ret_filter))
            },
        }
    }
}

/// The cache after storing `items` under `kv`: the entry stands at the
/// front; a present key is replaced, and a full cache drops its least
/// recently used entry.
pub open spec fn put_model(
    s: Seq<CacheEntryV>,
    kv: (Seq<u8>, u16),
    items: Seq<CacheItemV>,
    cap: nat,
) -> Seq<CacheEntryV> {
    let fresh = (kv, items);
    if seq_has_key(s, kv) {
        seq![fresh] + s.remove(key_index(s, kv))
    } else if s.len() >= cap {
        seq![fresh] + s.drop_last()
    } else {
        seq![fresh] + s
    }
}

/// What an upstream resolution came to: an answer, a response code, or
/// nothing within the time allowed.
#[derive(Debug)]
pub enum UpstreamOutcome {
    Answered(Vec<DnsRecord>),
    Failed(u16),
    TimedOut,
}

/// The first step of handling a query: answer it, or name the rule to
/// resolve it with.
#[derive(Debug)]
pub enum QueryStep {
    Respond(DnsResponse),
    NeedUpstream(usize),
}

/// What the resolver answers for diagnostics: the rule that would
/// handle the domain, what upstream answered, and what the cache holds.
#[derive(Debug)]
pub struct CheckDnsResult {
    pub config: Option<DnsRule>,
    pub records: Option<Vec<DnsRecord>>,
    pub cache_records: Option<Vec<DnsRecord>>,
}

impl LandscapeDnsRequestHandle {
    /// Stores one upstream reply in the cache as a single item stamped
    /// `now_ms`, and, when the mark asks for it, publishes the reply's
    /// addresses into the kernel map under this handle's flow.
    pub fn insert(
        &mut self,
        kernel: &mut FlowDnsMap,
        domain: &Vec<u8>,
        query_type: u16,
        rdata_ttl_vec: Vec<DnsRecord>,
        mark: &FlowMark,
        filter: FilterResult,
        now_ms: u64,
    )
        requires
            old(self).wf(),
            old(kernel).wf(),
        ensures
            final(self).wf(),
            final(kernel).wf(),
            final(self).resolves == old(self).resolves,
            final(self).flow_id == old(self).flow_id,
            final(self).cache.cap() == old(self).cache.cap(),
            final(self).cache.model() == put_model(
                old(self).cache.model(),
                (domain@, query_type),
                seq![
                    CacheItemV {
                        rdatas: rdata_ttl_vec@,
                        insert_time: now_ms,
                        mark: *mark,
                        filter,
                    },
                ],
                old(self).cache.cap(),
            ),
            mark.spec_need_insert_in_ebpf_map() ==> final(kernel).flow_model(old(self).flow_id)
                == upsert_model(
                old(kernel).flow_model(old(self).flow_id),
                update_rules_of(rdata_ttl_vec@, mark.mark),
            ) && (forall|g: u32|
                g != old(self).flow_id ==> final(kernel).flow_model(g) == old(kernel).flow_model(
                    g,
                ) && final(kernel).has_flow(g) == old(kernel).has_flow(g)),
            !mark.spec_need_insert_in_ebpf_map() ==> *final(kernel) == *old(kernel),
    {
        let cache_item = CacheDNSItem {
            rdatas: rdata_ttl_vec,
            insert_time: now_ms,
            mark: *mark,
            filter,
        };
        let update_dns_mark_list = cache_item.get_update_rules();
        let key: CacheKey = (copy_vec(domain), query_type);
        let mut items: Vec<CacheDNSItem> = Vec::new();
        items.push(cache_item);
        proof {
            assert(items.deep_view() =~= seq![
                CacheItemV {
                    rdatas: rdata_ttl_vec@,
                    insert_time: now_ms,
                    mark: *mark,
                    filter,
                },
            ]);
        }
        self.cache.put(key, items);
        if mark.need_insert_in_ebpf_map() {
            kernel.upsert(self.flow_id, &update_dns_mark_list);
        }
    }

    /// Begins one query: a fresh cache hit is answered at once, with
    /// the stored filter applied; otherwise the first matching rule is
    /// named, and with no matching rule an empty answer goes out.
    pub fn handle_query_start(
        &mut self,
        domain: &Vec<u8>,
        query_type: u16,
        now_ms: u64,
    ) -> (r: QueryStep)
        requires
            old(self).wf(),
        ensures
            final(self).wf(),
            final(self).resolves == old(self).resolves,
            final(self).flow_id == old(self).flow_id,
            final(self).cache.cap() == old(self).cache.cap(),
            final(self).cache.model() == touched(old(self).cache.model(), (domain@, query_type)),
            match r {
                QueryStep::Respond(resp) => {
                    let s = old(self).cache.model();
                    let kv = (domain@, query_type);
                    &&& resp.rcode == RCODE_NOERROR
                    &&& resp.authoritative
                    &&& resp.recursion_available
                    &&& cache_hit(s, kv, now_ms) ==> resp.records@ == hit_records(s, kv).filter(
                        |x: DnsRecord| record_passes_filter(x, hit_filter(s, kv)),
                    )
                    &&& !cache_hit(s, kv, now_ms) ==> (forall|j: int|
                        0 <= j < old(self).resolves.rules@.len()
                            ==> !crate::dns_rule::rule_matches(
                            (#[trigger] old(self).resolves.rules@[j])@,
                            domain@,
                        )) && resp.records@.len() == 0
                },
                QueryStep::NeedUpstream(i) => {
                    &&& !cache_hit(old(self).cache.model(), (domain@, query_type), now_ms)
                    &&& i < old(self).resolves.rules@.len()
                    &&& crate::dns_rule::rule_matches(
                        old(self).resolves.rules@[i as int]@,
                        domain@,
                    )
                    &&& forall|j: int|
                        0 <= j < i ==> !crate::dns_rule::rule_matches(
                            (#[trigger] old(self).resolves.rules@[j])@,
                            domain@,
                        )
                },
            },
    {
        let hit = self.lookup_cache(domain, query_type, now_ms);
        match hit {
            Some((result, filter)) => {
                let records = fiter_result(result, &filter);
                QueryStep::Respond(
                    DnsResponse {
                        rcode: RCODE_NOERROR,
                        authoritative: true,
                        recursion_available: true,
                        records,
                    },
                )
            },
            None => {
                match self.resolves.match_rule(domain) {
                    Some(i) => QueryStep::NeedUpstream(i),
                    None => QueryStep::Respond(
                        DnsResponse {
                            rcode: RCODE_NOERROR,
                            authoritative: true,
                            recursion_available: true,
                            records: Vec::new(),
                        },
                    ),
                }
            },
        }
    }

    /// Finishes a query through the rule at `rule_pos`. A non-empty
    /// answer is cached under the rule's mark and filter and, when the
    /// mark asks for it, published to the kernel; the response carries
    /// the filtered records. An empty answer, an upstream error and a
    /// timeout change nothing and answer accordingly.
    pub fn handle_query_upstream(
        &mut self,
        kernel: &mut FlowDnsMap,
        domain: &Vec<u8>,
        query_type: u16,
        rule_pos: usize,
        outcome: UpstreamOutcome,
        now_ms: u64,
    ) -> (resp: DnsResponse)
        requires
            old(self).wf(),
            old(kernel).wf(),
            rule_pos < old(self).resolves.rules@.len(),
        ensures
            final(self).wf(),
            final(kernel).wf(),
            final(self).resolves == old(self).resolves,
            final(self).flow_id == old(self).flow_id,
            final(self).cache.cap() == old(self).cache.cap(),
            ({
                let rule = old(self).resolves.rules@[rule_pos as int]@;
                let s = old(self).cache.model();
                let kv = (domain@, query_type);
                match outcome {
                    UpstreamOutcome::Answered(recs) => {
                        &&& resp.rcode == RCODE_NOERROR
                        &&& resp.authoritative
                        &&& resp.recursion_available
                        &&& resp.records@ == recs@.filter(
                            |x: DnsRecord| record_passes_filter(x, rule.filter),
                        )
                        &&& recs@.len() > 0 ==> final(self).cache.model() == put_model(
                            s,
                            kv,
                            seq![
                                CacheItemV {
                                    rdatas: recs@,
                                    insert_time: now_ms,
                                    mark: rule.mark,
                                    filter: rule.filter,
                                },
                            ],
                            old(self).cache.cap(),
                        )
                        &&& recs@.len() > 0 && rule.mark.spec_need_insert_in_ebpf_map()
                            ==> final(kernel).flow_model(old(self).flow_id) == upsert_model(
                            old(kernel).flow_model(old(self).flow_id),
                            update_rules_of(recs@, rule.mark.mark),
                        )
                        &&& recs@.len() > 0 && !rule.mark.spec_need_insert_in_ebpf_map()
                            ==> *final(kernel) == *old(kernel)
                        &&& recs@.len() == 0 ==> final(self).cache.model() == s && *final(kernel)
                            == *old(kernel)
                    },
                    UpstreamOutcome::Failed(code) => {
                        &&& resp.rcode == code
                        &&& resp.records@.len() == 0
                        &&& final(self).cache.model() == s
                        &&& *final(kernel) == *old(kernel)
                    },
                    UpstreamOutcome::TimedOut => {
                        &&& resp.rcode == RCODE_SERVFAIL
                        &&& resp.records@.len() == 0
                        &&& final(self).cache.model() == s
                        &&& *final(kernel) == *old(kernel)
                    },
                }
            }),
    {
        match outcome {
            UpstreamOutcome::Answered(rdata_vec) => {
                let mark: FlowMark = self.resolves.rules[rule_pos].mark();
                let filter: FilterResult = self.resolves.rules[rule_pos].filter_mode();
                if rdata_vec.len() > 0 {
                    let stored = copy_vec(&rdata_vec);
                    self.insert(kernel, domain, query_type, stored, &mark, filter, now_ms);
                }
                let records = fiter_result(rdata_vec, &filter);
                DnsResponse {
                    rcode: RCODE_NOERROR,
                    authoritative: true,
                    recursion_available: true,
                    records,
                }
            },
            UpstreamOutcome::Failed(code) => DnsResponse {
                rcode: code,
                authoritative: true,
                recursion_available: true,
                records: Vec::new(),
            },
            UpstreamOutcome::TimedOut => serve_failed(),
        }
    }

    /// Diagnostic lookup of one domain: which rule would handle it,
    /// what upstream answered (handed in by the caller), and what the
    /// cache holds for it. Nothing is written but the entry's recency.
    pub fn check_domain(
        &mut self,
        domain: &Vec<u8>,
        query_type: u16,
        now_ms: u64,
        upstream_outcome: Option<UpstreamOutcome>,
    ) -> (r: CheckDnsResult)
        requires
            old(self).wf(),
        ensures
            final(self).wf(),
            final(self).resolves == old(self).resolves,
            final(self).flow_id == old(self).flow_id,
            final(self).cache.cap() == old(self).cache.cap(),
            final(self).cache.model() == touched(old(self).cache.model(), (domain@, query_type)),
            ({
                let s = old(self).cache.model();
                let kv = (domain@, query_type);
                &&& (r.config is Some <==> exists|j: int|
                    0 <= j < old(self).resolves.rules@.len() && crate::dns_rule::rule_matches(
                        (#[trigger] old(self).resolves.rules@[j])@,
                        domain@,
                    ))
                &&& r.config matches Some(cfg) ==> exists|i: int|
                    0 <= i < old(self).resolves.rules@.len() && cfg@ == (
                    #[trigger] old(self).resolves.rules@[i])@ && crate::dns_rule::rule_matches(
                        old(self).resolves.rules@[i]@,
                        domain@,
                    ) && (forall|j: int|
                        0 <= j < i ==> !crate::dns_rule::rule_matches(
                            (#[trigger] old(self).resolves.rules@[j])@,
                            domain@,
                        ))
                &&& (r.records is Some <==> upstream_outcome matches Some(
                    UpstreamOutcome::Answered(_),
                ))
                &&& (upstream_outcome matches Some(UpstreamOutcome::Answered(recs)) ==> (
                r.records matches Some(rv) && rv@ == recs@))
                &&& (r.cache_records is Some <==> cache_hit(s, kv, now_ms))
                &&& (r.cache_records matches Some(cv) ==> cv@ == hit_records(s, kv))
            }),
    {
        let config: Option<DnsRule> = match self.resolves.match_rule(domain) {
            Some(i) => Some(self.resolves.rules[i].get_runtime_config()),
            None => None,
        };
        let records: Option<Vec<DnsRecord>> = match upstream_outcome {
            Some(UpstreamOutcome::Answered(recs)) => Some(recs),
            Some(UpstreamOutcome::Failed(_)) => None,
            Some(UpstreamOutcome::TimedOut) => None,
            None => None,
        };
        let cache_records: Option<Vec<DnsRecord>> = match self.lookup_cache(
            domain,
            query_type,
            now_ms,
        ) {
            Some((recs, _)) => Some(recs),
            None => None,
        };
        CheckDnsResult { config, records, cache_records }
    }
}

/// The images of the rules, in their vector order.
pub open spec fn rule_views(v: Seq<DnsRule>) -> Seq<crate::dns_rule::DnsRuleV> {
    Seq::new(v.len(), |i: int| v[i]@)
}

/// The position of the first rule that matches `domain`, walking the
/// rules in order.
pub open spec fn spec_first_match(
    rules: Seq<crate::dns_rule::DnsRuleV>,
    domain: Seq<u8>,
) -> Option<int>
    decreases rules.len(),
{
    if rules.len() == 0 {
        None
    } else if crate::dns_rule::rule_matches(rules[0], domain) {
        Some(0int)
    } else {
        match spec_first_match(rules.skip(1), domain) {
            Some(i) => Some(i + 1),
            None => None,
        }
    }
}

/// A scan that finds the first match (or none) names exactly what
/// `spec_first_match` names.
pub proof fn lemma_first_match_from_scan(
    rules: Seq<crate::dns_rule::DnsRuleV>,
    domain: Seq<u8>,
    r: Option<int>,
)
    requires
        match r {
            Some(i) => 0 <= i < rules.len() && crate::dns_rule::rule_matches(rules[i], domain)
                && forall|j: int|
                0 <= j < i ==> !crate::dns_rule::rule_matches(#[trigger] rules[j], domain),
            None => forall|j: int|
                0 <= j < rules.len() ==> !crate::dns_rule::rule_matches(
                    #[trigger] rules[j],
                    domain,
                ),
        },
    ensures
        spec_first_match(rules, domain) == r,
    decreases rules.len(),
{
    if rules.len() > 0 {
        if crate::dns_rule::rule_matches(rules[0], domain) {
            match r {
                Some(i) => {
                    if i != 0 {
                        assert(!crate::dns_rule::rule_matches(rules[0], domain));
                    }
                },
                None => {
                    assert(!crate::dns_rule::rule_matches(rules[0], domain));
                },
            }
        } else {
            let tail = rules.skip(1);
            assert(forall|j: int| 0 <= j < tail.len() ==> tail[j] == rules[j + 1]);
            match r {
                Some(i) => {
                    assert(i != 0);
                    assert forall|j: int| 0 <= j < i - 1 implies !crate::dns_rule::rule_matches(
                        #[trigger] tail[j],
                        domain,
                    ) by {
                        assert(tail[j] == rules[j + 1]);
                    }
                    assert(crate::dns_rule::rule_matches(tail[i - 1], domain));
                    lemma_first_match_from_scan(tail, domain, Some(i - 1));
                },
                None => {
                    assert forall|j: int| 0 <= j < tail.len() implies
                        !crate::dns_rule::rule_matches(#[trigger] tail[j], domain) by {
                        assert(tail[j] == rules[j + 1]);
                    }
                    lemma_first_match_from_scan(tail, domain, None);
                },
            }
        }
    }
}

/// The items with their records and insertion times kept, and mark and
/// filter taken from `rule`.
pub open spec fn rewritten_items(
    items: Seq<CacheItemV>,
    rule: crate::dns_rule::DnsRuleV,
) -> Seq<CacheItemV> {
    Seq::new(
        items.len(),
        |i: int|
            CacheItemV {
                rdatas: items[i].rdatas,
                insert_time: items[i].insert_time,
                mark: rule.mark,
                filter: rule.filter,
            },
    )
}

/// The cache after a reload: every old entry whose domain some new rule
/// matches survives with its items rewritten to that first matching
/// rule's mark and filter; entries no rule matches are dropped. The
/// surviving entries stand in reversed order of their old recency,
/// as refilling the fresh cache leaves them.
pub open spec fn migrate_model(
    s: Seq<CacheEntryV>,
    rules: Seq<crate::dns_rule::DnsRuleV>,
) -> Seq<CacheEntryV>
    decreases s.len(),
{
    if s.len() == 0 {
        Seq::empty()
    } else {
        let rest = migrate_model(s.drop_last(), rules);
        let e = s.last();
        match spec_first_match(rules, e.0.0) {
            Some(i) => {
                if e.1.len() > 0 {
                    seq![(e.0, rewritten_items(e.1, rules[i]))] + rest
                } else {
                    rest
                }
            },
            None => rest,
        }
    }
}

/// The kernel pairs of all items of one entry, under `mark`.
pub open spec fn entry_updates(items: Seq<CacheItemV>, mark: u32) -> Seq<FlowDnsMarkInfo>
    decreases items.len(),
{
    if items.len() == 0 {
        Seq::empty()
    } else {
        entry_updates(items.drop_last(), mark) + update_rules_of(items.last().rdatas, mark)
    }
}

/// The pairs published during a reload: the union, over the surviving
/// entries whose new mark asks for kernel publishing, of their items'
/// records under the new mark.
pub open spec fn migrate_updates(
    s: Seq<CacheEntryV>,
    rules: Seq<crate::dns_rule::DnsRuleV>,
) -> Seq<FlowDnsMarkInfo>
    decreases s.len(),
{
    if s.len() == 0 {
        Seq::empty()
    } else {
        let rest = migrate_updates(s.drop_last(), rules);
        let e = s.last();
        match spec_first_match(rules, e.0.0) {
            Some(i) => {
                if rules[i].mark.spec_need_insert_in_ebpf_map() {
                    rest + entry_updates(e.1, rules[i].mark.mark)
                } else {
                    rest
                }
            },
            None => rest,
        }
    }
}

/// Every migrated entry keeps the key of some old entry.
proof fn lemma_migrate_entry_origin(s: Seq<CacheEntryV>, rules: Seq<crate::dns_rule::DnsRuleV>)
    ensures
        forall|q: int|
            0 <= q < migrate_model(s, rules).len() ==> exists|j: int|
                0 <= j < s.len() && (#[trigger] migrate_model(s, rules)[q]).0 == s[j].0,
    decreases s.len(),
{
    if s.len() > 0 {
        lemma_migrate_entry_origin(s.drop_last(), rules);
        let m = migrate_model(s, rules);
        let rest = migrate_model(s.drop_last(), rules);
        assert forall|q: int| 0 <= q < m.len() implies exists|j: int|
            0 <= j < s.len() && (#[trigger] m[q]).0 == s[j].0 by {
            if m.len() == rest.len() {
                assert(m[q] == rest[q]);
                let j = choose|j: int| 0 <= j < s.drop_last().len() && rest[q].0 == s.drop_last()[j].0;
                assert(s.drop_last()[j] == s[j]);
                assert(m[q].0 == s[j].0);
            } else {
                if q == 0 {
                    assert(m[0].0 == s.last().0);
                    assert(s[s.len() - 1] == s.last());
                } else {
                    assert(m[q] == rest[q - 1]);
                    let j = choose|j: int|
                        0 <= j < s.drop_last().len() && rest[q - 1].0 == s.drop_last()[j].0;
                    assert(s.drop_last()[j] == s[j]);
                    assert(m[q].0 == s[j].0);
                }
            }
        }
    }
}

/// Law: after a reload, every entry of the migrated cache takes both
/// its mark and its filter from the one rule that is the first match
/// for its domain in the new rule set, and keeps its records and
/// insertion times as they were.
pub proof fn lemma_reload_single_rule_version(
    s: Seq<CacheEntryV>,
    rules: Seq<crate::dns_rule::DnsRuleV>,
    q: int,
)
    requires
        0 <= q < migrate_model(s, rules).len(),
    ensures
        exists|j: int, i: int|
            0 <= j < s.len() && 0 <= i < rules.len() && spec_first_match(rules, s[j].0.0)
                == Some(i) && #[trigger] migrate_model(s, rules)[q] == (
            s[j].0,
            rewritten_items(s[j].1, rules[i]),
            ),
    decreases s.len(),
{
    let m = migrate_model(s, rules);
    let rest = migrate_model(s.drop_last(), rules);
    if s.len() > 0 {
        if m.len() != rest.len() && q == 0 {
            let e = s.last();
            let i = spec_first_match(rules, e.0.0).unwrap();
            lemma_first_match_in_range(rules, e.0.0);
            assert(s[s.len() - 1] == e);
            assert(m[0] == (e.0, rewritten_items(e.1, rules[i])));
        } else {
            let q0 = if m.len() == rest.len() {
                q
            } else {
                q - 1
            };
            lemma_reload_single_rule_version(s.drop_last(), rules, q0);
            let (j, i) = choose|j: int, i: int|
                0 <= j < s.drop_last().len() && 0 <= i < rules.len() && spec_first_match(
                    rules,
                    s.drop_last()[j].0.0,
                ) == Some(i) && #[trigger] rest[q0] == (
                s.drop_last()[j].0,
                rewritten_items(s.drop_last()[j].1, rules[i]),
                );
            assert(s.drop_last()[j] == s[j]);
            assert(m[q] == rest[q0]);
        }
    }
}

/// A found first match lies within the rules.
proof fn lemma_first_match_in_range(rules: Seq<crate::dns_rule::DnsRuleV>, domain: Seq<u8>)
    ensures
        spec_first_match(rules, domain) matches Some(i) ==> 0 <= i < rules.len(),
    decreases rules.len(),
{
    if rules.len() > 0 && !crate::dns_rule::rule_matches(rules[0], domain) {
        lemma_first_match_in_range(rules.skip(1), domain);
    }
}

/// The kernel pairs of the items whose own mark asks for kernel
/// publishing, in item order.
pub open spec fn entry_own_updates(items: Seq<CacheItemV>) -> Seq<FlowDnsMarkInfo>
    decreases items.len(),
{
    if items.len() == 0 {
        Seq::empty()
    } else {
        entry_own_updates(items.drop_last()) + (
        if items.last().mark.spec_need_insert_in_ebpf_map() {
            update_rules_of(items.last().rdatas, items.last().mark.mark)
        } else {
            Seq::empty()
        })
    }
}

/// The kernel pairs of a whole cache state: the union, over its
/// entries, of the pairs of the items whose own mark asks for kernel
/// publishing.
pub open spec fn cache_updates(s: Seq<CacheEntryV>) -> Seq<FlowDnsMarkInfo>
    decreases s.len(),
{
    if s.len() == 0 {
        Seq::empty()
    } else {
        cache_updates(s.drop_last()) + entry_own_updates(s.last().1)
    }
}

/// Items rewritten to one rule publish exactly that rule's pairs: all
/// of them under a publishing mark, none under a neutral one.
proof fn lemma_rewritten_own_updates(items: Seq<CacheItemV>, rule: crate::dns_rule::DnsRuleV)
    ensures
        entry_own_updates(rewritten_items(items, rule)) == if rule
            .mark
            .spec_need_insert_in_ebpf_map() {
            entry_updates(items, rule.mark.mark)
        } else {
            Seq::<FlowDnsMarkInfo>::empty()
        },
    decreases items.len(),
{
    let rw = rewritten_items(items, rule);
    if items.len() == 0 {
        assert(rw =~= Seq::<CacheItemV>::empty());
    } else {
        lemma_rewritten_own_updates(items.drop_last(), rule);
        assert(rw.drop_last() =~= rewritten_items(items.drop_last(), rule));
        assert(rw.last().rdatas == items.last().rdatas);
        assert(rw.last().mark == rule.mark);
        if rule.mark.spec_need_insert_in_ebpf_map() {
            assert(entry_own_updates(rw) == entry_own_updates(rw.drop_last())
                + update_rules_of(items.last().rdatas, rule.mark.mark));
        } else {
            assert(entry_own_updates(rw) =~= entry_own_updates(rw.drop_last())
                + Seq::<FlowDnsMarkInfo>::empty());
            assert(entry_own_updates(rw.drop_last()) + Seq::<FlowDnsMarkInfo>::empty()
                =~= entry_own_updates(rw.drop_last()));
        }
    }
}

/// Prepending one entry prepends its own pairs.
proof fn lemma_cache_updates_cons(x: CacheEntryV, m: Seq<CacheEntryV>)
    ensures
        cache_updates(seq![x] + m) == entry_own_updates(x.1) + cache_updates(m),
    decreases m.len(),
{
    if m.len() == 0 {
        assert(seq![x] + m =~= seq![x]);
        assert(cache_updates(seq![x]) == cache_updates(seq![x].drop_last())
            + entry_own_updates(x.1));
        assert(seq![x].drop_last() =~= Seq::<CacheEntryV>::empty());
        assert(Seq::<FlowDnsMarkInfo>::empty() + entry_own_updates(x.1) =~= entry_own_updates(
            x.1,
        ));
        assert(entry_own_updates(x.1) + cache_updates(m) =~= entry_own_updates(x.1));
    } else {
        lemma_cache_updates_cons(x, m.drop_last());
        assert((seq![x] + m).drop_last() =~= seq![x] + m.drop_last());
        assert((seq![x] + m).last() == m.last());
        assert(cache_updates(seq![x] + m) == cache_updates(seq![x] + m.drop_last())
            + entry_own_updates(m.last().1));
        assert((entry_own_updates(x.1) + cache_updates(m.drop_last())) + entry_own_updates(
            m.last().1,
        ) =~= entry_own_updates(x.1) + (cache_updates(m.drop_last()) + entry_own_updates(
            m.last().1,
        )));
    }
}

/// Law: the pairs published during a reload are, as a multiset, exactly
/// the pairs of the publishing-marked items of the post-reload cache;
/// the kernel table a reload writes thus mirrors what the migrated
/// cache says should be published.
pub proof fn lemma_kernel_map_parity(s: Seq<CacheEntryV>, rules: Seq<crate::dns_rule::DnsRuleV>)
    ensures
        migrate_updates(s, rules).to_multiset() == cache_updates(
            migrate_model(s, rules),
        ).to_multiset(),
    decreases s.len(),
{
    if s.len() == 0 {
        assert(migrate_updates(s, rules).to_multiset() =~= cache_updates(
            migrate_model(s, rules),
        ).to_multiset());
    } else {
        lemma_kernel_map_parity(s.drop_last(), rules);
        let e = s.last();
        let mu0 = migrate_updates(s.drop_last(), rules);
        let mm0 = migrate_model(s.drop_last(), rules);
        match spec_first_match(rules, e.0.0) {
            Some(i) => {
                lemma_first_match_in_range(rules, e.0.0);
                let rule = rules[i];
                lemma_rewritten_own_updates(e.1, rule);
                if e.1.len() > 0 {
                    let x = (e.0, rewritten_items(e.1, rule));
                    lemma_cache_updates_cons(x, mm0);
                    vstd::seq_lib::lemma_multiset_commutative(
                        entry_own_updates(x.1),
                        cache_updates(mm0),
                    );
                    if rule.mark.spec_need_insert_in_ebpf_map() {
                        vstd::seq_lib::lemma_multiset_commutative(
                            mu0,
                            entry_updates(e.1, rule.mark.mark),
                        );
                        assert(mu0.to_multiset().add(
                            entry_updates(e.1, rule.mark.mark).to_multiset(),
                        ) =~= entry_updates(e.1, rule.mark.mark).to_multiset().add(
                            cache_updates(mm0).to_multiset(),
                        ));
                    } else {
                        assert(entry_own_updates(x.1) =~= Seq::<FlowDnsMarkInfo>::empty());
                        assert(entry_own_updates(x.1) + cache_updates(mm0) =~= cache_updates(
                            mm0,
                        ));
                    }
                } else {
                    if rule.mark.spec_need_insert_in_ebpf_map() {
                        assert(entry_updates(e.1, rule.mark.mark) =~= Seq::<
                            FlowDnsMarkInfo,
                        >::empty());
                        assert(mu0 + entry_updates(e.1, rule.mark.mark) =~= mu0);
                    }
                }
            },
            None => {
            },
        }
    }
}


impl LandscapeDnsRequestHandle {
    /// A rule reload: rebuilds the rule set from `dns_rules`, migrates
    /// the cache through the new rules, publishes the surviving marked
    /// pairs to the kernel as this flow's whole table, and swaps both
    /// in. Entries no new rule matches are dropped; the kernel table
    /// afterwards holds exactly the published pairs.
    pub fn renew_rules(&mut self, kernel: &mut FlowDnsMap, dns_rules: Vec<DnsRule>)
        requires
            old(self).wf(),
            old(kernel).wf(),
        ensures
            final(self).wf(),
            final(kernel).wf(),
            final(self).flow_id == old(self).flow_id,
            forall|k: u32|
                crate::dns_rule::has_index(final(self).resolves.rules@, k)
                    <==> crate::dns_rule::has_index(dns_rules@, k),
            forall|p: int|
                0 <= p < final(self).resolves.rules@.len() ==> crate::dns_rule::is_last_with_index(
                    dns_rules@,
                    (#[trigger] final(self).resolves.rules@[p])@,
                ),
            final(self).cache.model() == migrate_model(
                old(self).cache.model(),
                rule_views(final(self).resolves.rules@),
            ),
            final(kernel).flow_model(old(self).flow_id) == crate::flow_map::table_model(
                migrate_updates(
                    old(self).cache.model(),
                    rule_views(final(self).resolves.rules@),
                ),
            ),
            forall|g: u32|
                g != old(self).flow_id ==> final(kernel).flow_model(g) == old(kernel).flow_model(
                    g,
                ) && final(kernel).has_flow(g) == old(kernel).has_flow(g),
    {
        let resolves = DnsRuleSet::from_rules(dns_rules);
        let mut cache = DnsCache::new(DNS_CACHE_CAP);
        let mut update_dns_mark_list: Vec<FlowDnsMarkInfo> = Vec::new();
        let old_entries = self.cache.entries();
        let ghost s = self.cache.model();
        let ghost rv = rule_views(resolves.rules@);
        let mut t: usize = 0;
        proof {
            assert(s.take(0int) =~= Seq::<CacheEntryV>::empty());
        }
        while t < old_entries.len()
            invariant
                t <= old_entries@.len(),
                old_entries@.len() == s.len(),
                s.len() <= DNS_CACHE_CAP,
                forall|i: int|
                    0 <= i < s.len() ==> key_view((#[trigger] old_entries@[i]).0) == s[i].0
                        && old_entries@[i].1.deep_view() == s[i].1,
                crate::dns_cache::unique_keys(s),
                resolves.wf(),
                rv == rule_views(resolves.rules@),
                cache.wf(),
                cache.cap() == DNS_CACHE_CAP,
                cache.model() == migrate_model(s.take(t as int), rv),
                cache.model().len() <= t,
                update_dns_mark_list@ == migrate_updates(s.take(t as int), rv),
            decreases old_entries.len() - t,
        {
            let domain_ref: &Vec<u8> = &old_entries[t].0.0;
            let query_type: u16 = old_entries[t].0.1;
            proof {
                assert(s.take(t as int + 1).drop_last() =~= s.take(t as int));
                assert(s.take(t as int + 1).last() == s[t as int]);
                assert forall|j: int| 0 <= j < rv.len() implies rv[j] == (
                #[trigger] resolves.rules@[j])@ by {}
            }
            match resolves.match_rule(domain_ref) {
                Some(ri) => {
                    proof {
                        lemma_first_match_from_scan(rv, domain_ref@, Some(ri as int));
                        assert(domain_ref@ == s[t as int].0.0);
                    }
                    let new_mark: FlowMark = self_rule_mark(&resolves, ri);
                    let new_filter: FilterResult = self_rule_filter(&resolves, ri);
                    let needs: bool = new_mark.need_insert_in_ebpf_map();
                    let items_ref: &Vec<CacheDNSItem> = &old_entries[t].1;
                    let ghost stored: Seq<CacheItemV> = s[t as int].1;
                    let ghost rulev = rv[ri as int];
                    let ghost upd0 = update_dns_mark_list@;
                    let mut cache_items: Vec<CacheDNSItem> = Vec::new();
                    let mut j: usize = 0;
                    proof {
                        assert(stored.take(0int) =~= Seq::<CacheItemV>::empty());
                        assert(rewritten_items(stored.take(0int), rulev) =~= Seq::<
                            CacheItemV,
                        >::empty());
                        assert(entry_updates(stored.take(0int), rulev.mark.mark) =~= Seq::<
                            FlowDnsMarkInfo,
                        >::empty());
                    }
                    while j < items_ref.len()
                        invariant
                            j <= items_ref@.len(),
                            items_ref.deep_view() == stored,
                            items_ref@.len() == stored.len(),
                            new_mark == rulev.mark,
                            new_filter == rulev.filter,
                            needs == rulev.mark.spec_need_insert_in_ebpf_map(),
                            cache_items.deep_view() =~= rewritten_items(
                                stored.take(j as int),
                                rulev,
                            ),
                            needs ==> update_dns_mark_list@ == upd0 + entry_updates(
                                stored.take(j as int),
                                rulev.mark.mark,
                            ),
                            !needs ==> update_dns_mark_list@ == upd0,
                        decreases items_ref.len() - j,
                    {
                        let item = &items_ref[j];
                        proof {
                            assert(item@ == stored[j as int]);
                            assert(stored.take(j as int + 1).drop_last() =~= stored.take(
                                j as int,
                            ));
                            assert(stored.take(j as int + 1).last() == stored[j as int]);
                        }
                        if needs {
                            let mut upd = item.get_update_rules_with_mark(&new_mark);
                            update_dns_mark_list.append(&mut upd);
                        }
                        let new_record = CacheDNSItem {
                            rdatas: copy_vec(&item.rdatas),
                            insert_time: item.insert_time,
                            mark: new_mark,
                            filter: new_filter,
                        };
                        let ghost pre_items = cache_items.deep_view();
                        let ghost new_rec_v = new_record@;
                        cache_items.push(new_record);
                        proof {
                            assert(new_rec_v == CacheItemV {
                                rdatas: stored[j as int].rdatas,
                                insert_time: stored[j as int].insert_time,
                                mark: rulev.mark,
                                filter: rulev.filter,
                            });
                            assert(cache_items@.len() == pre_items.len() + 1);
                            assert forall|q: int| 0 <= q < cache_items@.len() implies
                                cache_items.deep_view()[q] == rewritten_items(
                                stored.take(j as int + 1),
                                rulev,
                            )[q] by {
                                assert(cache_items.deep_view()[q] == cache_items@[q]@);
                                if q < pre_items.len() {
                                    assert(cache_items@[q] == cache_items@.drop_last()[q]);
                                    assert(pre_items[q] == rewritten_items(
                                        stored.take(j as int),
                                        rulev,
                                    )[q]);
                                    assert(stored.take(j as int + 1)[q] == stored[q]);
                                    assert(stored.take(j as int)[q] == stored[q]);
                                } else {
                                    assert(cache_items@[q] == new_record);
                                    assert(stored.take(j as int + 1)[q] == stored[j as int]);
                                }
                            }
                            assert(cache_items.deep_view() =~= rewritten_items(
                                stored.take(j as int + 1),
                                rulev,
                            ));
                        }
                        j = j + 1;
                    }
                    proof {
                        assert(stored.take(stored.len() as int) =~= stored);
                    }
                    if cache_items.len() > 0 {
                        proof {
                            lemma_migrate_entry_origin(s.take(t as int), rv);
                            assert forall|q: int| 0 <= q < cache.model().len() implies (
                            #[trigger] cache.model()[q]).0 != s[t as int].0 by {
                                let jj = choose|jj: int|
                                    0 <= jj < s.take(t as int).len() && cache.model()[q].0
                                        == s.take(t as int)[jj].0;
                                assert(s.take(t as int)[jj] == s[jj]);
                                assert(s[jj].0 != s[t as int].0);
                            }
                            assert(!crate::dns_cache::seq_has_key(cache.model(), s[t as int].0));
                        }
                        let key: CacheKey = (copy_vec(domain_ref), query_type);
                        cache.put(key, cache_items);
                    }
                    t = t + 1;
                },
                None => {
                    proof {
                        lemma_first_match_from_scan(rv, domain_ref@, None);
                        assert(domain_ref@ == s[t as int].0.0);
                    }
                    t = t + 1;
                },
            }
        }
        proof {
            assert(s.take(s.len() as int) =~= s);
        }
        kernel.replace(self.flow_id, update_dns_mark_list);
        self.resolves = resolves;
        self.cache = cache;
    }
}

/// The mark of the rule at `i`.
fn self_rule_mark(rs: &DnsRuleSet, i: usize) -> (r: FlowMark)
    requires
        i < rs.rules@.len(),
    ensures
        r == rs.rules@[i as int].mark,
{
    rs.rules[i].mark()
}

/// The filter of the rule at `i`.
fn self_rule_filter(rs: &DnsRuleSet, i: usize) -> (r: FilterResult)
    requires
        i < rs.rules@.len(),
    ensures
        r == rs.rules@[i as int].filter,
{
    rs.rules[i].filter_mode()
}

} // verus!


