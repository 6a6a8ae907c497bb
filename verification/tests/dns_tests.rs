use landscape_core::dns_cache::DnsCache;
use landscape_core::dns_handler::{
    serve_failed, form_error_response, LandscapeDnsRequestHandle, QueryStep, UpstreamOutcome,
    RCODE_FORMERR, RCODE_NOERROR, RCODE_SERVFAIL,
};
use landscape_core::dns_records::{
    fiter_result, CacheDNSItem, DnsRecord, FilterResult, FlowMark, LdIp, RecordData, RTYPE_A,
    RTYPE_AAAA,
};
use landscape_core::dns_rule::{DnsRule, DnsRuleSet, DomainConfig, DomainMatchType, ResolveMode};
use landscape_core::flow_map::FlowDnsMap;

fn a_record(ip: u32, ttl: u32) -> DnsRecord {
    DnsRecord { rtype: RTYPE_A, ttl, data: RecordData::V4(ip) }
}

fn aaaa_record(ip: u128, ttl: u32) -> DnsRecord {
    DnsRecord { rtype: RTYPE_AAAA, ttl, data: RecordData::V6(ip) }
}

fn suffix_rule(index: u32, suffix: &[u8], mark: u32, filter: FilterResult) -> DnsRule {
    DnsRule {
        id: index as u128,
        name: suffix.to_vec(),
        index,
        enable: true,
        filter,
        resolve_mode: ResolveMode::System,
        mark: FlowMark { mark },
        flow_id: 7,
        source: vec![DomainConfig { match_type: DomainMatchType::Domain, value: suffix.to_vec() }],
    }
}

#[test]
fn filter_only_ipv4_drops_aaaa() {
    let records = vec![a_record(0x01020304, 60), aaaa_record(1, 60)];
    let out = fiter_result(records, &FilterResult::OnlyIPv4);
    assert_eq!(out.len(), 1);
    assert_eq!(out[0].rtype, RTYPE_A);
}

#[test]
fn filter_only_ipv6_drops_a() {
    let records = vec![a_record(0x01020304, 60), aaaa_record(1, 60)];
    let out = fiter_result(records, &FilterResult::OnlyIPv6);
    assert_eq!(out.len(), 1);
    assert_eq!(out[0].rtype, RTYPE_AAAA);
}

#[test]
fn filter_unfilter_passes_all() {
    let records = vec![a_record(0x01020304, 60), aaaa_record(1, 60)];
    let out = fiter_result(records, &FilterResult::Unfilter);
    assert_eq!(out.len(), 2);
}

#[test]
fn rule_set_orders_by_index_and_last_wins() {
    let rules = vec![
        suffix_rule(20, b".com", 2, FilterResult::Unfilter),
        suffix_rule(10, b"example.com", 1, FilterResult::Unfilter),
        suffix_rule(10, b"example.org", 3, FilterResult::Unfilter),
    ];
    let set = DnsRuleSet::from_rules(rules);
    assert_eq!(set.len(), 2);
    assert_eq!(set.rules[0].index, 10);
    assert_eq!(set.rules[1].index, 20);
    // the later rule with index 10 replaced the earlier one
    assert_eq!(set.rules[0].mark.mark, 3);
}

#[test]
fn rule_tie_break_uses_smallest_index() {
    // Rules {index:10, suffix:"example.com", mark:1} and {index:20, suffix:".com", mark:2}.
    let rules = vec![
        suffix_rule(10, b"example.com", 1, FilterResult::Unfilter),
        suffix_rule(20, b".com", 2, FilterResult::Unfilter),
    ];
    let mut handler = LandscapeDnsRequestHandle::new(rules, 7);
    let mut kernel = FlowDnsMap::new();
    let domain = b"a.example.com".to_vec();
    let step = handler.handle_query_start(&domain, RTYPE_A, 1_000);
    let pos = match step {
        QueryStep::NeedUpstream(p) => p,
        QueryStep::Respond(_) => panic!("expected an upstream step"),
    };
    assert_eq!(handler.resolves.rules[pos].index, 10);
    let answer = vec![a_record(0x0102_0304, 60)];
    let resp = handler.handle_query_upstream(
        &mut kernel,
        &domain,
        RTYPE_A,
        pos,
        UpstreamOutcome::Answered(answer),
        1_000,
    );
    assert_eq!(resp.rcode, RCODE_NOERROR);
    assert_eq!(resp.records.len(), 1);
    // the cache item carries the winning rule's mark
    let entries = handler.cache.entries();
    assert_eq!(entries.len(), 1);
    assert_eq!(entries[0].1[0].mark.mark, 1);
    // the kernel map for the flow holds (resolved ip, winning mark)
    assert_eq!(kernel.flows.len(), 1);
    assert_eq!(kernel.flows[0].flow_id, 7);
    assert_eq!(kernel.flows[0].entries.len(), 1);
    assert_eq!(kernel.flows[0].entries[0].ip, LdIp::V4(0x0102_0304));
    assert_eq!(kernel.flows[0].entries[0].mark, 1);
}

#[test]
fn filter_scenario_response_a_only_cache_both() {
    // Rule OnlyIPv4; upstream returns A and AAAA, both TTL 60.
    let rules = vec![suffix_rule(10, b"example.com", 1, FilterResult::OnlyIPv4)];
    let mut handler = LandscapeDnsRequestHandle::new(rules, 7);
    let mut kernel = FlowDnsMap::new();
    let domain = b"a.example.com".to_vec();
    let step = handler.handle_query_start(&domain, RTYPE_A, 1_000);
    let pos = match step {
        QueryStep::NeedUpstream(p) => p,
        QueryStep::Respond(_) => panic!("expected an upstream step"),
    };
    let answer = vec![a_record(0x0102_0304, 60), aaaa_record(1, 60)];
    let resp = handler.handle_query_upstream(
        &mut kernel,
        &domain,
        RTYPE_A,
        pos,
        UpstreamOutcome::Answered(answer),
        1_000,
    );
    assert_eq!(resp.records.len(), 1);
    assert_eq!(resp.records[0].rtype, RTYPE_A);
    // the cache stores both records
    let entries = handler.cache.entries();
    assert_eq!(entries.len(), 1);
    assert_eq!(entries[0].1[0].rdatas.len(), 2);
    // a subsequent AAAA query is resolved by the same rule and comes
    // out empty after the filter
    let step2 = handler.handle_query_start(&domain, RTYPE_AAAA, 2_000);
    let pos2 = match step2 {
        QueryStep::NeedUpstream(p) => p,
        QueryStep::Respond(_) => panic!("expected an upstream step"),
    };
    let resp2 = handler.handle_query_upstream(
        &mut kernel,
        &domain,
        RTYPE_AAAA,
        pos2,
        UpstreamOutcome::Answered(vec![aaaa_record(1, 60)]),
        2_000,
    );
    assert_eq!(resp2.rcode, RCODE_NOERROR);
    assert_eq!(resp2.records.len(), 0);
}

#[test]
fn ttl_expiry_gives_cache_miss_and_consults_upstream() {
    // Insert with record TTL 1 s; after 1.1 s the entry is expired.
    let rules = vec![suffix_rule(10, b"example.com", 0, FilterResult::Unfilter)];
    let mut handler = LandscapeDnsRequestHandle::new(rules, 7);
    let mut kernel = FlowDnsMap::new();
    let domain = b"a.example.com".to_vec();
    handler.insert(
        &mut kernel,
        &domain,
        RTYPE_A,
        vec![a_record(0x0102_0304, 1)],
        &FlowMark { mark: 0 },
        FilterResult::Unfilter,
        10_000,
    );
    // within the TTL: a hit
    let hit = handler.lookup_cache(&domain, RTYPE_A, 10_900);
    assert!(hit.is_some());
    // past the TTL: a miss, and the rule set is consulted again
    let miss = handler.lookup_cache(&domain, RTYPE_A, 11_100);
    assert!(miss.is_none());
    let step = handler.handle_query_start(&domain, RTYPE_A, 11_100);
    assert!(matches!(step, QueryStep::NeedUpstream(_)));
}

#[test]
fn cache_hit_answers_without_upstream() {
    let rules = vec![suffix_rule(10, b"example.com", 0, FilterResult::Unfilter)];
    let mut handler = LandscapeDnsRequestHandle::new(rules, 7);
    let mut kernel = FlowDnsMap::new();
    let domain = b"a.example.com".to_vec();
    handler.insert(
        &mut kernel,
        &domain,
        RTYPE_A,
        vec![a_record(0x0102_0304, 60)],
        &FlowMark { mark: 0 },
        FilterResult::Unfilter,
        1_000,
    );
    let step = handler.handle_query_start(&domain, RTYPE_A, 2_000);
    match step {
        QueryStep::Respond(resp) => {
            assert_eq!(resp.rcode, RCODE_NOERROR);
            assert!(resp.authoritative);
            assert!(resp.recursion_available);
            assert_eq!(resp.records.len(), 1);
        },
        QueryStep::NeedUpstream(_) => panic!("expected a cached answer"),
    }
}

#[test]
fn upstream_error_and_timeout_responses() {
    let rules = vec![suffix_rule(10, b"example.com", 0, FilterResult::Unfilter)];
    let mut handler = LandscapeDnsRequestHandle::new(rules, 7);
    let mut kernel = FlowDnsMap::new();
    let domain = b"a.example.com".to_vec();
    let resp = handler.handle_query_upstream(
        &mut kernel,
        &domain,
        RTYPE_A,
        0,
        UpstreamOutcome::Failed(3),
        1_000,
    );
    assert_eq!(resp.rcode, 3);
    assert_eq!(resp.records.len(), 0);
    let resp2 = handler.handle_query_upstream(
        &mut kernel,
        &domain,
        RTYPE_A,
        0,
        UpstreamOutcome::TimedOut,
        1_000,
    );
    assert_eq!(resp2.rcode, RCODE_SERVFAIL);
}

#[test]
fn no_matching_rule_answers_empty() {
    let rules = vec![suffix_rule(10, b"example.com", 0, FilterResult::Unfilter)];
    let mut handler = LandscapeDnsRequestHandle::new(rules, 7);
    let domain = b"elsewhere.net".to_vec();
    let step = handler.handle_query_start(&domain, RTYPE_A, 1_000);
    match step {
        QueryStep::Respond(resp) => {
            assert_eq!(resp.rcode, RCODE_NOERROR);
            assert_eq!(resp.records.len(), 0);
        },
        QueryStep::NeedUpstream(_) => panic!("no rule matches this domain"),
    }
}

#[test]
fn reload_migration_rewrites_mark_and_kernel_map() {
    // Pre-reload: rule with mark 1 matches foo.net; the answer is cached.
    let rules = vec![suffix_rule(10, b"foo.net", 1, FilterResult::Unfilter)];
    let mut handler = LandscapeDnsRequestHandle::new(rules, 9);
    let mut kernel = FlowDnsMap::new();
    let domain = b"foo.net".to_vec();
    handler.insert(
        &mut kernel,
        &domain,
        RTYPE_A,
        vec![a_record(0x0A00_0001, 600)],
        &FlowMark { mark: 1 },
        FilterResult::Unfilter,
        5_000,
    );
    assert_eq!(kernel.flows[0].entries[0].mark, 1);
    // Post-reload: a lower-index rule matches foo.net with mark 2.
    let new_rules = vec![suffix_rule(5, b"foo.net", 2, FilterResult::OnlyIPv4)];
    handler.renew_rules(&mut kernel, new_rules);
    let entries = handler.cache.entries();
    assert_eq!(entries.len(), 1);
    assert_eq!(entries[0].0 .0, domain);
    assert_eq!(entries[0].1[0].mark.mark, 2);
    assert!(matches!(entries[0].1[0].filter, FilterResult::OnlyIPv4));
    // records and insertion time survive
    assert_eq!(entries[0].1[0].rdatas.len(), 1);
    assert_eq!(entries[0].1[0].insert_time, 5_000);
    // the kernel map holds (10.0.0.1, 2) and no longer (10.0.0.1, 1)
    assert_eq!(kernel.flows.len(), 1);
    assert_eq!(kernel.flows[0].entries.len(), 1);
    assert_eq!(kernel.flows[0].entries[0].ip, LdIp::V4(0x0A00_0001));
    assert_eq!(kernel.flows[0].entries[0].mark, 2);
}

#[test]
fn reload_drops_unmatched_entries() {
    let rules = vec![suffix_rule(10, b"foo.net", 1, FilterResult::Unfilter)];
    let mut handler = LandscapeDnsRequestHandle::new(rules, 9);
    let mut kernel = FlowDnsMap::new();
    let domain = b"foo.net".to_vec();
    handler.insert(
        &mut kernel,
        &domain,
        RTYPE_A,
        vec![a_record(0x0A00_0001, 600)],
        &FlowMark { mark: 1 },
        FilterResult::Unfilter,
        5_000,
    );
    let new_rules = vec![suffix_rule(5, b"bar.org", 2, FilterResult::Unfilter)];
    handler.renew_rules(&mut kernel, new_rules);
    assert_eq!(handler.cache.entries().len(), 0);
    assert_eq!(kernel.flows[0].entries.len(), 0);
}

#[test]
fn lru_cache_eviction_and_recency() {
    let mut cache = DnsCache::new(2);
    let item = CacheDNSItem {
        rdatas: vec![a_record(1, 60)],
        insert_time: 0,
        mark: FlowMark { mark: 0 },
        filter: FilterResult::Unfilter,
    };
    cache.put((b"a".to_vec(), 1), vec![item.clone()]);
    cache.put((b"b".to_vec(), 1), vec![item.clone()]);
    assert_eq!(cache.len(), 2);
    // touch "a" so "b" becomes least recently used
    assert!(cache.get(&(b"a".to_vec(), 1)).is_some());
    cache.put((b"c".to_vec(), 1), vec![item.clone()]);
    assert_eq!(cache.len(), 2);
    let keys: Vec<Vec<u8>> = cache.entries().into_iter().map(|e| e.0 .0).collect();
    assert_eq!(keys, vec![b"c".to_vec(), b"a".to_vec()]);
    assert!(cache.get(&(b"b".to_vec(), 1)).is_none());
}

#[test]
fn check_domain_reports_rule_answer_and_cache() {
    let rules = vec![suffix_rule(10, b"example.com", 1, FilterResult::Unfilter)];
    let mut handler = LandscapeDnsRequestHandle::new(rules, 7);
    let mut kernel = FlowDnsMap::new();
    let domain = b"a.example.com".to_vec();
    handler.insert(
        &mut kernel,
        &domain,
        RTYPE_A,
        vec![a_record(5, 60)],
        &FlowMark { mark: 1 },
        FilterResult::Unfilter,
        1_000,
    );
    let result = handler.check_domain(
        &domain,
        RTYPE_A,
        1_500,
        Some(UpstreamOutcome::Answered(vec![a_record(6, 60)])),
    );
    let cfg = result.config.expect("a rule matches");
    assert_eq!(cfg.index, 10);
    let recs = result.records.expect("upstream answered");
    assert_eq!(recs.len(), 1);
    let cached = result.cache_records.expect("the cache holds the domain");
    assert_eq!(cached.len(), 1);
}

#[test]
fn failure_responses_have_their_codes() {
    let failed = serve_failed();
    assert_eq!(failed.rcode, RCODE_SERVFAIL);
    assert_eq!(failed.records.len(), 0);
    let form = form_error_response();
    assert_eq!(form.rcode, RCODE_FORMERR);
}

#[test]
fn cache_hit_applies_stored_filter() {
    let rules = vec![suffix_rule(10, b"example.com", 0, FilterResult::OnlyIPv4)];
    let mut handler = LandscapeDnsRequestHandle::new(rules, 7);
    let mut kernel = FlowDnsMap::new();
    let domain = b"a.example.com".to_vec();
    // both records are stored; the filter is stored beside them
    handler.insert(
        &mut kernel,
        &domain,
        RTYPE_A,
        vec![a_record(0x0102_0304, 60), aaaa_record(1, 60)],
        &FlowMark { mark: 0 },
        FilterResult::OnlyIPv4,
        1_000,
    );
    let step = handler.handle_query_start(&domain, RTYPE_A, 1_500);
    match step {
        QueryStep::Respond(resp) => {
            assert_eq!(resp.records.len(), 1);
            assert_eq!(resp.records[0].rtype, RTYPE_A);
        },
        QueryStep::NeedUpstream(_) => panic!("expected a cached answer"),
    }
}
