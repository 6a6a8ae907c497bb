use landscape_core::dns_records::{FilterResult, FlowMark};
use landscape_core::dns_rule::{DomainConfig, DomainMatchType, ResolveMode};
use landscape_core::geo::{
    select_refresh, upper_bytes, DNSRuleConfig, GeoConfigKey, GeoDomainConfig, GeoFileCacheKey,
    GeoSiteFileConfig, GeoSiteService, GeoSiteSourceConfig, RuleSource,
};

fn file_entry(value: &[u8], attrs: Vec<Vec<u8>>) -> GeoSiteFileConfig {
    GeoSiteFileConfig { match_type: DomainMatchType::Domain, value: value.to_vec(), attributes: attrs }
}

fn bundle(name: &[u8], key: &[u8], values: Vec<GeoSiteFileConfig>) -> GeoDomainConfig {
    GeoDomainConfig { name: name.to_vec(), key: key.to_vec(), values }
}

fn rule_config(index: u32, source: Vec<RuleSource>) -> DNSRuleConfig {
    DNSRuleConfig {
        id: index as u128,
        name: b"rule".to_vec(),
        index,
        enable: true,
        filter: FilterResult::Unfilter,
        resolve_mode: ResolveMode::System,
        mark: FlowMark { mark: 0 },
        flow_id: 0,
        source,
    }
}

#[test]
fn store_set_get_del_keys() {
    let mut svc = GeoSiteService::new();
    svc.file_cache.set(bundle(b"site", b"CN", vec![file_entry(b"a.cn", vec![])]));
    svc.file_cache.set(bundle(b"site", b"US", vec![file_entry(b"b.us", vec![])]));
    let keys = svc.list_all_keys();
    assert_eq!(keys.len(), 2);
    let got = svc
        .get_cache_value_by_key(&GeoFileCacheKey { name: b"site".to_vec(), key: b"CN".to_vec() })
        .expect("stored");
    assert_eq!(got.values.len(), 1);
    assert_eq!(got.values[0].value, b"a.cn".to_vec());
    // replacing a bundle under the same key keeps one entry
    svc.file_cache.set(bundle(b"site", b"CN", vec![]));
    assert_eq!(svc.file_cache.len(), 2);
    svc.file_cache.del(&GeoFileCacheKey { name: b"site".to_vec(), key: b"CN".to_vec() });
    assert_eq!(svc.file_cache.len(), 1);
    assert!(svc
        .get_cache_value_by_key(&GeoFileCacheKey { name: b"site".to_vec(), key: b"CN".to_vec() })
        .is_none());
}

#[test]
fn convert_resolves_geo_keys_and_plain_sources() {
    let mut svc = GeoSiteService::new();
    svc.file_cache.set(bundle(
        b"site",
        b"CN",
        vec![file_entry(b"a.cn", vec![]), file_entry(b"ads.cn", vec![b"ads".to_vec()])],
    ));
    let sources = vec![
        RuleSource::Config(DomainConfig {
            match_type: DomainMatchType::Full,
            value: b"plain.example".to_vec(),
        }),
        RuleSource::GeoKey(GeoConfigKey {
            name: b"site".to_vec(),
            key: b"CN".to_vec(),
            inverse: false,
            attribute_key: None,
        }),
    ];
    let rules = svc.convert_config_to_runtime_rule(vec![rule_config(10, sources)]);
    assert_eq!(rules.len(), 1);
    assert_eq!(rules[0].index, 10);
    let values: Vec<Vec<u8>> = rules[0].source.iter().map(|d| d.value.clone()).collect();
    assert_eq!(values, vec![b"plain.example".to_vec(), b"a.cn".to_vec(), b"ads.cn".to_vec()]);
}

#[test]
fn convert_selects_by_attribute() {
    let mut svc = GeoSiteService::new();
    svc.file_cache.set(bundle(
        b"site",
        b"CN",
        vec![file_entry(b"a.cn", vec![]), file_entry(b"ads.cn", vec![b"ads".to_vec()])],
    ));
    let sources = vec![RuleSource::GeoKey(GeoConfigKey {
        name: b"site".to_vec(),
        key: b"CN".to_vec(),
        inverse: false,
        attribute_key: Some(b"ads".to_vec()),
    })];
    let rules = svc.convert_config_to_runtime_rule(vec![rule_config(10, sources)]);
    assert_eq!(rules[0].source.len(), 1);
    assert_eq!(rules[0].source[0].value, b"ads.cn".to_vec());
}

#[test]
fn convert_expands_inverse_keys() {
    let mut svc = GeoSiteService::new();
    svc.file_cache.set(bundle(b"site", b"CN", vec![file_entry(b"a.cn", vec![])]));
    svc.file_cache.set(bundle(b"site", b"US", vec![file_entry(b"b.us", vec![])]));
    svc.file_cache.set(bundle(b"site", b"EU", vec![file_entry(b"c.eu", vec![])]));
    // everything of source "site" except key CN
    let sources = vec![RuleSource::GeoKey(GeoConfigKey {
        name: b"site".to_vec(),
        key: b"CN".to_vec(),
        inverse: true,
        attribute_key: None,
    })];
    let rules = svc.convert_config_to_runtime_rule(vec![rule_config(10, sources)]);
    let values: Vec<Vec<u8>> = rules[0].source.iter().map(|d| d.value.clone()).collect();
    assert_eq!(values, vec![b"b.us".to_vec(), b"c.eu".to_vec()]);
}

#[test]
fn convert_inverse_skips_keys_already_used() {
    let mut svc = GeoSiteService::new();
    svc.file_cache.set(bundle(b"site", b"CN", vec![file_entry(b"a.cn", vec![])]));
    svc.file_cache.set(bundle(b"site", b"US", vec![file_entry(b"b.us", vec![])]));
    let sources = vec![
        RuleSource::GeoKey(GeoConfigKey {
            name: b"site".to_vec(),
            key: b"US".to_vec(),
            inverse: false,
            attribute_key: None,
        }),
        RuleSource::GeoKey(GeoConfigKey {
            name: b"site".to_vec(),
            key: b"CN".to_vec(),
            inverse: true,
            attribute_key: None,
        }),
    ];
    let rules = svc.convert_config_to_runtime_rule(vec![rule_config(10, sources)]);
    // "US" came in straight, so the inverse pass does not add it again
    let values: Vec<Vec<u8>> = rules[0].source.iter().map(|d| d.value.clone()).collect();
    assert_eq!(values, vec![b"b.us".to_vec()]);
}

#[test]
fn select_refresh_filters_by_due_time() {
    let mk = |name: &[u8], next: u64| GeoSiteSourceConfig {
        id: None,
        update_at: 0,
        url: b"http://host/geosite.dat".to_vec(),
        name: name.to_vec(),
        enable: true,
        next_update_at: next,
        geo_keys: vec![],
    };
    let configs = vec![mk(b"due", 5), mk(b"later", 50)];
    let due = select_refresh(configs, 10, false);
    assert_eq!(due.len(), 1);
    assert_eq!(due[0].name, b"due".to_vec());
    let all = select_refresh(vec![mk(b"due", 5), mk(b"later", 50)], 10, true);
    assert_eq!(all.len(), 2);
}

#[test]
fn apply_geo_update_stores_upper_keys_and_prunes_stale() {
    let mut svc = GeoSiteService::new();
    svc.file_cache.set(bundle(b"site", b"OLD", vec![file_entry(b"gone.io", vec![])]));
    svc.file_cache.set(bundle(b"other", b"KEEP", vec![file_entry(b"kept.io", vec![])]));
    let name = b"site".to_vec();
    svc.apply_geo_update(
        &name,
        vec![(b"cn".to_vec(), vec![file_entry(b"a.cn", vec![])])],
    );
    // the new bundle stands under the uppercased key
    assert!(svc
        .get_cache_value_by_key(&GeoFileCacheKey { name: b"site".to_vec(), key: b"CN".to_vec() })
        .is_some());
    // the stale bundle of the same source is gone
    assert!(svc
        .get_cache_value_by_key(&GeoFileCacheKey { name: b"site".to_vec(), key: b"OLD".to_vec() })
        .is_none());
    // another source's bundle stands untouched
    assert!(svc
        .get_cache_value_by_key(&GeoFileCacheKey {
            name: b"other".to_vec(),
            key: b"KEEP".to_vec(),
        })
        .is_some());
}

#[test]
fn update_geo_config_keeps_other_keys() {
    let mut svc = GeoSiteService::new();
    svc.file_cache.set(bundle(b"site", b"OLD", vec![file_entry(b"old.io", vec![])]));
    let name = b"site".to_vec();
    svc.update_geo_config(&name, vec![(b"cn".to_vec(), vec![file_entry(b"a.cn", vec![])])]);
    // without the pruning pass, the old key stays
    assert!(svc
        .get_cache_value_by_key(&GeoFileCacheKey { name: b"site".to_vec(), key: b"OLD".to_vec() })
        .is_some());
    assert!(svc
        .get_cache_value_by_key(&GeoFileCacheKey { name: b"site".to_vec(), key: b"CN".to_vec() })
        .is_some());
}

#[test]
fn upper_bytes_raises_ascii_lowercase() {
    assert_eq!(upper_bytes(&b"geo-Key_9".to_vec()), b"GEO-KEY_9".to_vec());
}

#[test]
fn bump_next_update_adds_one_day() {
    let mut cfg = GeoSiteSourceConfig {
        id: None,
        update_at: 3,
        url: b"http://host/geosite.dat".to_vec(),
        name: b"site".to_vec(),
        enable: true,
        next_update_at: 0,
        geo_keys: vec![],
    };
    landscape_core::geo::bump_next_update(&mut cfg, 1_000);
    assert_eq!(cfg.next_update_at, 1_000 + 86_400_000);
    assert_eq!(cfg.update_at, 3);
}
