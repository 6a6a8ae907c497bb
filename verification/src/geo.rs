//! GeoSite domain bundles: the keyed store of downloaded domain lists,
//! and the compilation of rule configurations into runtime rules by
//! resolving their GeoSite references against that store.

use vstd::prelude::*;

use crate::dns_records::{FilterResult, FlowMark};
use crate::dns_rule::{DnsRule, DomainConfig, DomainConfigV, DomainMatchType, ResolveMode};
use crate::util::{bytes_eq, copy_vec};

verus! {

/// One domain entry of a downloaded bundle: how it matches, its
/// pattern, and its attribute tags.
#[derive(Debug)]
pub struct GeoSiteFileConfig {
    pub match_type: DomainMatchType,
    pub value: Vec<u8>,
    pub attributes: Vec<Vec<u8>>,
}

/// Mathematical image of a `GeoSiteFileConfig`.
pub ghost struct GeoFileV {
    pub match_type: DomainMatchType,
    pub value: Seq<u8>,
    pub attributes: Seq<Seq<u8>>,
}

impl View for GeoSiteFileConfig {
    type V = GeoFileV;

    open spec fn view(&self) -> GeoFileV {
        GeoFileV {
            match_type: self.match_type,
            value: self.value@,
            attributes: Seq::new(self.attributes@.len(), |i: int| self.attributes@[i]@),
        }
    }
}

impl DeepView for GeoSiteFileConfig {
    type V = GeoFileV;

    open spec fn deep_view(&self) -> GeoFileV {
        self.view()
    }
}

impl GeoSiteFileConfig {
    /// A fresh copy of this entry.
    pub fn duplicate(&self) -> (r: GeoSiteFileConfig)
        ensures
            r@ == self@,
    {
        let mut attributes: Vec<Vec<u8>> = Vec::new();
        let mut i: usize = 0;
        while i < self.attributes.len()
            invariant
                i <= self.attributes@.len(),
                attributes@.len() == i,
                forall|j: int| 0 <= j < i ==> (#[trigger] attributes@[j])@ == self.attributes@[j]@,
            decreases self.attributes.len() - i,
        {
            attributes.push(copy_vec(&self.attributes[i]));
            i = i + 1;
        }
        let r = GeoSiteFileConfig {
            match_type: self.match_type,
            value: copy_vec(&self.value),
            attributes,
        };
        proof {
            assert(r@.attributes =~= self@.attributes);
        }
        r
    }
}

/// The name and key one bundle is stored under.
#[derive(Debug)]
pub struct GeoFileCacheKey {
    pub name: Vec<u8>,
    pub key: Vec<u8>,
}

/// One stored bundle: its source name, its category key, and its
/// domain entries.
#[derive(Debug)]
pub struct GeoDomainConfig {
    pub name: Vec<u8>,
    pub key: Vec<u8>,
    pub values: Vec<GeoSiteFileConfig>,
}

/// Mathematical image of a `GeoDomainConfig`.
pub ghost struct GeoDomainV {
    pub name: Seq<u8>,
    pub key: Seq<u8>,
    pub values: Seq<GeoFileV>,
}

impl View for GeoDomainConfig {
    type V = GeoDomainV;

    open spec fn view(&self) -> GeoDomainV {
        GeoDomainV {
            name: self.name@,
            key: self.key@,
            values: Seq::new(self.values@.len(), |i: int| self.values@[i]@),
        }
    }
}

impl GeoDomainConfig {
    /// The key this bundle is stored under.
    pub fn get_store_key(&self) -> (r: GeoFileCacheKey)
        ensures
            r.name@ == self.name@,
            r.key@ == self.key@,
    {
        GeoFileCacheKey { name: copy_vec(&self.name), key: copy_vec(&self.key) }
    }

    /// A fresh copy of this bundle.
    pub fn duplicate(&self) -> (r: GeoDomainConfig)
        ensures
            r@ == self@,
    {
        let mut values: Vec<GeoSiteFileConfig> = Vec::new();
        let mut i: usize = 0;
        while i < self.values.len()
            invariant
                i <= self.values@.len(),
                values@.len() == i,
                forall|j: int| 0 <= j < i ==> (#[trigger] values@[j])@ == self.values@[j]@,
            decreases self.values.len() - i,
        {
            values.push(self.values[i].duplicate());
            i = i + 1;
        }
        let r = GeoDomainConfig {
            name: copy_vec(&self.name),
            key: copy_vec(&self.key),
            values,
        };
        proof {
            assert(r@.values =~= self@.values);
        }
        r
    }
}

/// One GeoSite reference in a rule configuration: the bundle it names,
/// whether the reference is inverted, and an attribute to select by.
#[derive(Debug)]
pub struct GeoConfigKey {
    pub name: Vec<u8>,
    pub key: Vec<u8>,
    pub inverse: bool,
    pub attribute_key: Option<Vec<u8>>,
}

/// One source of a rule configuration: a GeoSite reference or a plain
/// domain pattern.
#[derive(Debug)]
pub enum RuleSource {
    GeoKey(GeoConfigKey),
    Config(DomainConfig),
}

/// Mathematical image of a `RuleSource`.
pub ghost enum RuleSourceV {
    GeoKey { name: Seq<u8>, key: Seq<u8>, inverse: bool, attribute_key: Option<Seq<u8>> },
    Config(DomainConfigV),
}

impl View for RuleSource {
    type V = RuleSourceV;

    open spec fn view(&self) -> RuleSourceV {
        match self {
            RuleSource::GeoKey(k) => RuleSourceV::GeoKey {
                name: k.name@,
                key: k.key@,
                inverse: k.inverse,
                attribute_key: match k.attribute_key {
                    Some(a) => Some(a@),
                    None => None,
                },
            },
            RuleSource::Config(c) => RuleSourceV::Config(c@),
        }
    }
}

/// One rule as configured, before its GeoSite references are resolved.
#[derive(Debug)]
pub struct DNSRuleConfig {
    pub id: u128,
    pub name: Vec<u8>,
    pub index: u32,
    pub enable: bool,
    pub filter: FilterResult,
    pub resolve_mode: ResolveMode,
    pub mark: FlowMark,
    pub flow_id: u32,
    pub source: Vec<RuleSource>,
}

/// One configured download source of GeoSite bundles.
#[derive(Debug)]
pub struct GeoSiteSourceConfig {
    pub id: Option<u128>,
    pub update_at: u64,
    pub url: Vec<u8>,
    pub name: Vec<u8>,
    pub enable: bool,
    pub next_update_at: u64,
    pub geo_keys: Vec<Vec<u8>>,
}

/// The filesystem-backed store of downloaded bundles, keyed by source
/// name and category key.
pub struct GeoCacheStore {
    items: Vec<GeoDomainConfig>,
}

/// Some bundle of `m` is stored under (`name`, `key`).
pub open spec fn cache_has(m: Seq<GeoDomainV>, name: Seq<u8>, key: Seq<u8>) -> bool {
    exists|i: int|
        0 <= i < m.len() && (#[trigger] m[i]).name == name && m[i].key == key
}

/// The position of the bundle stored under (`name`, `key`).
pub open spec fn cache_pos(m: Seq<GeoDomainV>, name: Seq<u8>, key: Seq<u8>) -> int {
    choose|i: int|
        0 <= i < m.len() && (#[trigger] m[i]).name == name && m[i].key == key
}

/// Store keys are pairwise distinct.
pub open spec fn cache_unique(m: Seq<GeoDomainV>) -> bool {
    forall|i: int, j: int|
        0 <= i < j < m.len() ==> !((#[trigger] m[i]).name == (#[trigger] m[j]).name && m[i].key
            == m[j].key)
}

impl GeoCacheStore {
    /// The stored bundles, in store order.
    pub closed spec fn model(&self) -> Seq<GeoDomainV> {
        Seq::new(self.items@.len(), |i: int| self.items@[i]@)
    }

    /// Store keys are pairwise distinct.
    pub open spec fn wf(&self) -> bool {
        cache_unique(self.model())
    }

    /// An empty store.
    pub fn new() -> (r: GeoCacheStore)
        ensures
            r.wf(),
            r.model() =~= Seq::<GeoDomainV>::empty(),
    {
        GeoCacheStore { items: Vec::new() }
    }

    /// The position of the bundle under (`name`, `key`).
    fn find(&self, name: &Vec<u8>, key: &Vec<u8>) -> (r: Option<usize>)
        ensures
            match r {
                Some(i) => i < self.model().len() && self.model()[i as int].name == name@
                    && self.model()[i as int].key == key@,
                None => !cache_has(self.model(), name@, key@),
            },
    {
        let mut i: usize = 0;
        while i < self.items.len()
            invariant
                i <= self.items@.len(),
                forall|j: int|
                    0 <= j < i ==> !((#[trigger] self.model()[j]).name == name@
                        && self.model()[j].key == key@),
        decreases self.items.len() - i,
        {
            if bytes_eq(&self.items[i].name, name) && bytes_eq(&self.items[i].key, key) {
                return Some(i);
            }
            i = i + 1;
        }
        None
    }

    /// The bundle stored under `k`, if any.
    pub fn get(&self, k: &GeoFileCacheKey) -> (r: Option<GeoDomainConfig>)
        requires
            self.wf(),
        ensures
            r is Some <==> cache_has(self.model(), k.name@, k.key@),
            r matches Some(v) ==> v@ == self.model()[cache_pos(self.model(), k.name@, k.key@)],
    {
        match self.find(&k.name, &k.key) {
            Some(i) => {
                proof {
                    crate::geo::lemma_cache_pos_unique(self.model(), k.name@, k.key@, i as int);
                }
                Some(self.items[i].duplicate())
            },
            None => None,
        }
    }

    /// Stores `info` under its key: a present key takes the new bundle,
    /// a new key is appended.
    pub fn set(&mut self, info: GeoDomainConfig)
        requires
            old(self).wf(),
        ensures
            final(self).wf(),
            final(self).model() == if cache_has(old(self).model(), info@.name, info@.key) {
                old(self).model().update(
                    cache_pos(old(self).model(), info@.name, info@.key),
                    info@,
                )
            } else {
                old(self).model().push(info@)
            },
    {
        let r = self.find(&info.name, &info.key);
        match r {
            Some(i) => {
                proof {
                    crate::geo::lemma_cache_pos_unique(self.model(), info@.name, info@.key,
                        i as int);
                }
                self.items.set(i, info);
                proof {
                    assert(self.model() =~= old(self).model().update(
                        cache_pos(old(self).model(), info@.name, info@.key),
                        info@,
                    ));
                    assert forall|a: int, b: int| 0 <= a < b < self.model().len() implies !((
                    #[trigger] self.model()[a]).name == (#[trigger] self.model()[b]).name
                        && self.model()[a].key == self.model()[b].key) by {
                        assert(old(self).model()[a].name == self.model()[a].name
                            || self.model()[a].name == info@.name);
                    }
                }
            },
            None => {
                self.items.push(info);
                proof {
                    assert(self.model() =~= old(self).model().push(info@));
                    assert forall|a: int, b: int| 0 <= a < b < self.model().len() implies !((
                    #[trigger] self.model()[a]).name == (#[trigger] self.model()[b]).name
                        && self.model()[a].key == self.model()[b].key) by {
                        if b == self.model().len() - 1 {
                            assert(self.model()[a] == old(self).model()[a]);
                            assert(!cache_has(old(self).model(), info@.name, info@.key));
                        }
                    }
                }
            },
        }
    }

    /// Removes the bundle under `k`, if one is stored.
    pub fn del(&mut self, k: &GeoFileCacheKey)
        requires
            old(self).wf(),
        ensures
            final(self).wf(),
            final(self).model() == if cache_has(old(self).model(), k.name@, k.key@) {
                old(self).model().remove(cache_pos(old(self).model(), k.name@, k.key@))
            } else {
                old(self).model()
            },
            !cache_has(final(self).model(), k.name@, k.key@),
    {
        let r = self.find(&k.name, &k.key);
        match r {
            Some(i) => {
                proof {
                    crate::geo::lemma_cache_pos_unique(self.model(), k.name@, k.key@, i as int);
                }
                let _ = self.items.remove(i);
                proof {
                    assert(self.model() =~= old(self).model().remove(
                        cache_pos(old(self).model(), k.name@, k.key@),
                    ));
                    assert forall|a: int, b: int| 0 <= a < b < self.model().len() implies !((
                    #[trigger] self.model()[a]).name == (#[trigger] self.model()[b]).name
                        && self.model()[a].key == self.model()[b].key) by {
                        let a0 = if a < i { a } else { a + 1 };
                        let b0 = if b < i { b } else { b + 1 };
                        assert(self.model()[a] == old(self).model()[a0]);
                        assert(self.model()[b] == old(self).model()[b0]);
                    }
                    assert(!cache_has(self.model(), k.name@, k.key@)) by {
                        if cache_has(self.model(), k.name@, k.key@) {
                            let q = cache_pos(self.model(), k.name@, k.key@);
                            let q0 = if q < i { q } else { q + 1 };
                            assert(self.model()[q] == old(self).model()[q0]);
                            crate::geo::lemma_cache_pos_unique(old(self).model(), k.name@,
                                k.key@, i as int);
                        }
                    }
                }
            },
            None => {},
        }
    }

    /// Every stored key, in store order.
    pub fn keys(&self) -> (r: Vec<GeoFileCacheKey>)
        ensures
            r@.len() == self.model().len(),
            forall|i: int|
                0 <= i < r@.len() ==> (#[trigger] r@[i]).name@ == self.model()[i].name
                    && r@[i].key@ == self.model()[i].key,
    {
        let mut out: Vec<GeoFileCacheKey> = Vec::new();
        let mut i: usize = 0;
        while i < self.items.len()
            invariant
                i <= self.items@.len(),
                out@.len() == i,
                forall|j: int|
                    0 <= j < i ==> (#[trigger] out@[j]).name@ == self.model()[j].name
                        && out@[j].key@ == self.model()[j].key,
            decreases self.items.len() - i,
        {
            out.push(self.items[i].get_store_key());
            i = i + 1;
        }
        out
    }

    /// The bundle at position `i` of the store.
    pub fn get_at(&self, i: usize) -> (r: &GeoDomainConfig)
        requires
            i < self.model().len(),
        ensures
            r@ == self.model()[i as int],
    {
        &self.items[i]
    }

    /// How many bundles are stored.
    pub fn len(&self) -> (r: usize)
        ensures
            r == self.model().len(),
    {
        self.items.len()
    }
}

/// With distinct keys, a found position is the stored position.
pub proof fn lemma_cache_pos_unique(m: Seq<GeoDomainV>, name: Seq<u8>, key: Seq<u8>, i: int)
    requires
        cache_unique(m),
        0 <= i < m.len(),
        m[i].name == name,
        m[i].key == key,
    ensures
        cache_has(m, name, key),
        cache_pos(m, name, key) == i,
{
    assert(cache_has(m, name, key));
    let j = cache_pos(m, name, key);
    if i < j {
        assert(!(m[i].name == m[j].name && m[i].key == m[j].key));
    }
    if j < i {
        assert(!(m[j].name == m[i].name && m[j].key == m[i].key));
    }
}

/// The domain pattern of one bundle entry.
pub open spec fn file_to_domain(v: GeoFileV) -> DomainConfigV {
    DomainConfigV { match_type: v.match_type, value: v.value }
}

/// Whether the entry carries the wanted attribute; no wanted attribute
/// lets every entry through.
pub open spec fn attr_ok(v: GeoFileV, attr: Option<Seq<u8>>) -> bool {
    match attr {
        Some(a) => v.attributes.contains(a),
        None => true,
    }
}

/// The domain patterns of the entries that carry the wanted attribute,
/// in bundle order.
pub open spec fn attr_selected(values: Seq<GeoFileV>, attr: Option<Seq<u8>>) -> Seq<
    DomainConfigV,
>
    decreases values.len(),
{
    if values.len() == 0 {
        Seq::empty()
    } else {
        let rest = attr_selected(values.drop_last(), attr);
        if attr_ok(values.last(), attr) {
            rest.push(file_to_domain(values.last()))
        } else {
            rest
        }
    }
}

/// The images of a list of rule sources.
pub open spec fn sources_view(v: Seq<RuleSource>) -> Seq<RuleSourceV> {
    Seq::new(v.len(), |i: int| v[i]@)
}

/// The images of a list of domain patterns.
pub open spec fn dc_views(v: Seq<DomainConfig>) -> Seq<DomainConfigV> {
    Seq::new(v.len(), |i: int| v[i]@)
}

/// The pair (`name`, `key`) was already used.
pub open spec fn usage_has(usage: Seq<(Seq<u8>, Seq<u8>)>, name: Seq<u8>, key: Seq<u8>) -> bool {
    exists|i: int| 0 <= i < usage.len() && #[trigger] usage[i] == (name, key)
}

/// First pass over a rule's sources: plain patterns and the bundles of
/// straight GeoSite references, with attribute selection, in source
/// order. Inverted references contribute nothing here.
pub open spec fn pass1_domains(sources: Seq<RuleSourceV>, cache: Seq<GeoDomainV>) -> Seq<
    DomainConfigV,
>
    decreases sources.len(),
{
    if sources.len() == 0 {
        Seq::empty()
    } else {
        let rest = pass1_domains(sources.drop_last(), cache);
        match sources.last() {
            RuleSourceV::GeoKey { name, key, inverse, attribute_key } => {
                if inverse {
                    rest
                } else if cache_has(cache, name, key) {
                    rest + attr_selected(cache[cache_pos(cache, name, key)].values, attribute_key)
                } else {
                    rest
                }
            },
            RuleSourceV::Config(c) => rest.push(c),
        }
    }
}

/// The store keys that straight GeoSite references use, in source
/// order.
pub open spec fn pass1_usage(sources: Seq<RuleSourceV>) -> Seq<(Seq<u8>, Seq<u8>)>
    decreases sources.len(),
{
    if sources.len() == 0 {
        Seq::empty()
    } else {
        let rest = pass1_usage(sources.drop_last());
        match sources.last() {
            RuleSourceV::GeoKey { name, key, inverse, attribute_key } => {
                if inverse {
                    rest
                } else {
                    rest.push((name, key))
                }
            },
            RuleSourceV::Config(_) => rest,
        }
    }
}

/// Some inverse group is kept for `name`.
pub open spec fn inv_has(inv: Seq<(Seq<u8>, Seq<Seq<u8>>)>, name: Seq<u8>) -> bool {
    exists|i: int| 0 <= i < inv.len() && (#[trigger] inv[i]).0 == name
}

/// The position of the inverse group for `name`.
pub open spec fn inv_pos(inv: Seq<(Seq<u8>, Seq<Seq<u8>>)>, name: Seq<u8>) -> int {
    choose|i: int| 0 <= i < inv.len() && (#[trigger] inv[i]).0 == name
}

/// Adds an excluded `key` to `name`'s inverse group, opening the group
/// when `name` has none yet.
pub open spec fn inv_insert(
    inv: Seq<(Seq<u8>, Seq<Seq<u8>>)>,
    name: Seq<u8>,
    key: Seq<u8>,
) -> Seq<(Seq<u8>, Seq<Seq<u8>>)> {
    if inv_has(inv, name) {
        let p = inv_pos(inv, name);
        inv.update(p, (name, inv[p].1.push(key)))
    } else {
        inv.push((name, seq![key]))
    }
}

/// The inverse references of a rule's sources, grouped by source name
/// in first-occurrence order, each with its excluded keys.
pub open spec fn pass1_inverse(sources: Seq<RuleSourceV>) -> Seq<(Seq<u8>, Seq<Seq<u8>>)>
    decreases sources.len(),
{
    if sources.len() == 0 {
        Seq::empty()
    } else {
        let rest = pass1_inverse(sources.drop_last());
        match sources.last() {
            RuleSourceV::GeoKey { name, key, inverse, attribute_key } => {
                if inverse {
                    inv_insert(rest, name, key)
                } else {
                    rest
                }
            },
            RuleSourceV::Config(_) => rest,
        }
    }
}

/// Second pass, one inverse group: every stored bundle of that source
/// name whose key is neither excluded nor already used contributes all
/// its domains, and its key becomes used.
pub open spec fn pass2_one(
    cache: Seq<GeoDomainV>,
    name: Seq<u8>,
    excluded: Seq<Seq<u8>>,
    usage: Seq<(Seq<u8>, Seq<u8>)>,
) -> (Seq<DomainConfigV>, Seq<(Seq<u8>, Seq<u8>)>)
    decreases cache.len(),
{
    if cache.len() == 0 {
        (Seq::empty(), usage)
    } else {
        let r = pass2_one(cache.drop_last(), name, excluded, usage);
        let e = cache.last();
        if e.name == name && !excluded.contains(e.key) && !usage_has(r.1, e.name, e.key) {
            (r.0 + attr_selected(e.values, None), r.1.push((e.name, e.key)))
        } else {
            r
        }
    }
}

/// Second pass over all inverse groups, threading the used keys
/// through.
pub open spec fn pass2_all(
    inv: Seq<(Seq<u8>, Seq<Seq<u8>>)>,
    cache: Seq<GeoDomainV>,
    usage: Seq<(Seq<u8>, Seq<u8>)>,
) -> (Seq<DomainConfigV>, Seq<(Seq<u8>, Seq<u8>)>)
    decreases inv.len(),
{
    if inv.len() == 0 {
        (Seq::empty(), usage)
    } else {
        let pre = pass2_all(inv.drop_last(), cache, usage);
        let one = pass2_one(cache, inv.last().0, inv.last().1, pre.1);
        (pre.0 + one.0, one.1)
    }
}

/// The resolved domain patterns of one rule configuration: the first
/// pass over its sources, then the inverse groups expanded against the
/// store.
pub open spec fn runtime_sources(sources: Seq<RuleSourceV>, cache: Seq<GeoDomainV>) -> Seq<
    DomainConfigV,
> {
    pass1_domains(sources, cache) + pass2_all(
        pass1_inverse(sources),
        cache,
        pass1_usage(sources),
    ).0
}

/// Whether the entry carries the wanted attribute.
fn attr_ok_exec(file: &GeoSiteFileConfig, attr: &Option<Vec<u8>>) -> (r: bool)
    ensures
        r == attr_ok(file@, match *attr {
            Some(a) => Some(a@),
            None => None::<Seq<u8>>,
        }),
{
    match attr {
        None => true,
        Some(a) => {
            let mut i: usize = 0;
            while i < file.attributes.len()
                invariant
                    i <= file.attributes@.len(),
                    *attr == Some(*a),
                    forall|j: int| 0 <= j < i ==> file@.attributes[j] != a@,
                decreases file.attributes.len() - i,
            {
                if bytes_eq(&file.attributes[i], a) {
                    proof {
                        assert(file@.attributes[i as int] == a@);
                        assert(file@.attributes.contains(a@));
                    }
                    return true;
                }
                i = i + 1;
            }
            proof {
                if file@.attributes.contains(a@) {
                    let j = choose|j: int|
                        0 <= j < file@.attributes.len() && file@.attributes[j] == a@;
                    assert(file@.attributes[j] != a@);
                }
            }
            false
        },
    }
}

/// The domain patterns of the entries that carry the wanted attribute.
fn attr_selected_exec(values: &Vec<GeoSiteFileConfig>, attr: &Option<Vec<u8>>) -> (r: Vec<
    DomainConfig,
>)
    ensures
        dc_views(r@) == attr_selected(
            Seq::new(values@.len(), |i: int| values@[i]@),
            match *attr {
                Some(a) => Some(a@),
                None => None::<Seq<u8>>,
            },
        ),
{
    let ghost vv: Seq<GeoFileV> = Seq::new(values@.len(), |i: int| values@[i]@);
    let ghost av: Option<Seq<u8>> = match attr {
        Some(a) => Some(a@),
        None => None::<Seq<u8>>,
    };
    let mut out: Vec<DomainConfig> = Vec::new();
    let mut i: usize = 0;
    proof {
        assert(vv.take(0int) =~= Seq::<GeoFileV>::empty());
        assert(dc_views(out@) =~= attr_selected(vv.take(0int), av));
    }
    while i < values.len()
        invariant
            i <= values@.len(),
            vv == Seq::new(values@.len(), |k: int| values@[k]@),
            av == (match *attr {
                Some(a) => Some(a@),
                None => None::<Seq<u8>>,
            }),
            dc_views(out@) == attr_selected(vv.take(i as int), av),
        decreases values.len() - i,
    {
        proof {
            assert(vv.take(i as int + 1).drop_last() =~= vv.take(i as int));
            assert(vv.take(i as int + 1).last() == vv[i as int]);
            assert(vv[i as int] == values@[i as int]@);
        }
        let keep = attr_ok_exec(&values[i], attr);
        if keep {
            let dc = DomainConfig {
                match_type: values[i].match_type,
                value: copy_vec(&values[i].value),
            };
            proof {
                assert(dc@ == file_to_domain(vv[i as int]));
            }
            out.push(dc);
        }
        proof {
            assert(dc_views(out@) =~= attr_selected(vv.take(i as int + 1), av));
        }
        i = i + 1;
    }
    proof {
        assert(vv.take(values@.len() as int) =~= vv);
    }
    out
}

/// The images of the used-key pairs.
pub open spec fn usage_view(u: Seq<(Vec<u8>, Vec<u8>)>) -> Seq<(Seq<u8>, Seq<u8>)> {
    Seq::new(u.len(), |i: int| ((u[i].0)@, (u[i].1)@))
}

/// Whether the pair (`name`, `key`) was already used.
fn usage_contains(usage: &Vec<(Vec<u8>, Vec<u8>)>, name: &Vec<u8>, key: &Vec<u8>) -> (r: bool)
    ensures
        r == usage_has(usage_view(usage@), name@, key@),
{
    let mut i: usize = 0;
    while i < usage.len()
        invariant
            i <= usage@.len(),
            forall|j: int| 0 <= j < i ==> #[trigger] usage_view(usage@)[j] != (name@, key@),
        decreases usage.len() - i,
    {
        if bytes_eq(&usage[i].0, name) && bytes_eq(&usage[i].1, key) {
            proof {
                assert(usage_view(usage@)[i as int] == (name@, key@));
            }
            return true;
        }
        i = i + 1;
    }
    proof {
        if usage_has(usage_view(usage@), name@, key@) {
            let j = choose|j: int|
                0 <= j < usage_view(usage@).len() && #[trigger] usage_view(usage@)[j] == (
                name@,
                key@,
            );
            assert(usage_view(usage@)[j] != (name@, key@));
        }
    }
    false
}

/// The images of the inverse groups.
pub open spec fn inv_view(v: Seq<(Vec<u8>, Vec<Vec<u8>>)>) -> Seq<(Seq<u8>, Seq<Seq<u8>>)> {
    Seq::new(v.len(), |i: int| ((v[i].0)@, Seq::new(v[i].1@.len(), |j: int| (v[i].1@[j])@)))
}

/// Group names are pairwise distinct.
pub open spec fn inv_unique(inv: Seq<(Seq<u8>, Seq<Seq<u8>>)>) -> bool {
    forall|a: int, b: int|
        0 <= a < b < inv.len() ==> (#[trigger] inv[a]).0 != (#[trigger] inv[b]).0
}

/// Adds an excluded `key` to `name`'s inverse group.
fn inv_insert_exec(inv: &mut Vec<(Vec<u8>, Vec<Vec<u8>>)>, name: Vec<u8>, key: Vec<u8>)
    requires
        inv_unique(inv_view(old(inv)@)),
    ensures
        inv_view(final(inv)@) == inv_insert(inv_view(old(inv)@), name@, key@),
        inv_unique(inv_view(final(inv)@)),
{
    let ghost pre = inv_view(old(inv)@);
    let mut i: usize = 0;
    while i < inv.len()
        invariant
            i <= inv@.len(),
            inv@ == old(inv)@,
            inv_unique(pre),
            forall|j: int| 0 <= j < i ==> (#[trigger] pre[j]).0 != name@,
            pre == inv_view(inv@),
        decreases inv.len() - i,
    {
        if bytes_eq(&inv[i].0, &name) {
            proof {
                assert(pre[i as int].0 == name@);
                assert(inv_has(pre, name@));
                let p = inv_pos(pre, name@);
                if p < i {
                    assert(pre[p].0 != pre[i as int].0);
                } else if i < p {
                    assert(pre[i as int].0 != pre[p].0);
                }
                assert(p == i);
            }
            let ghost old_pair = inv@[i as int];
            let entry = &mut inv[i];
            entry.1.push(key);
            proof {
                assert(final(entry).0 == old_pair.0);
                assert(final(entry).1@ == old_pair.1@.push(key));
            }
            proof {
                assert(inv@ == old(inv)@.update(i as int, *final(entry)));
                assert(inv_view(inv@).len() == pre.len());
                assert(inv_insert(pre, name@, key@) == pre.update(
                    i as int,
                    (name@, pre[i as int].1.push(key@)),
                ));
                assert forall|q: int| 0 <= q < inv_view(inv@).len() implies inv_view(inv@)[q]
                    == inv_insert(pre, name@, key@)[q] by {
                    if q != i {
                        assert(inv@[q] == old(inv)@[q]);
                    } else {
                        assert((inv@[q].0)@ == name@);
                        assert(Seq::new(inv@[q].1@.len(), |j: int| (inv@[q].1@[j])@)
                            =~= pre[q].1.push(key@));
                    }
                }
                assert(inv_view(inv@) =~= inv_insert(pre, name@, key@));
                assert forall|a: int, b: int| 0 <= a < b < inv_view(inv@).len() implies (
                #[trigger] inv_view(inv@)[a]).0 != (#[trigger] inv_view(inv@)[b]).0 by {
                    assert(inv_view(inv@)[a].0 == pre[a].0);
                    assert(inv_view(inv@)[b].0 == pre[b].0);
                }
            }
            return ;
        }
        i = i + 1;
    }
    proof {
        if inv_has(pre, name@) {
            let p = inv_pos(pre, name@);
            assert(pre[p].0 != name@);
        }
    }
    let singleton = key_singleton(key);
    let ghost name_v = name@;
    inv.push((name, singleton));
    proof {
        assert forall|q: int| 0 <= q < inv_view(inv@).len() implies inv_view(inv@)[q]
            == inv_insert(pre, name_v, key@)[q] by {
            if q < pre.len() {
                assert(inv@[q] == old(inv)@[q]);
            } else {
                assert(inv@[q] == inv@.last());
                assert(Seq::new(inv@[q].1@.len(), |j: int| (inv@[q].1@[j])@) =~= seq![
                    (inv@[q].1@[0])@,
                ]);
            }
        }
        assert(inv_view(inv@) =~= inv_insert(pre, name_v, key@));
        assert forall|a: int, b: int| 0 <= a < b < inv_view(inv@).len() implies (
        #[trigger] inv_view(inv@)[a]).0 != (#[trigger] inv_view(inv@)[b]).0 by {
            if b < pre.len() {
                assert(inv_view(inv@)[a].0 == pre[a].0);
                assert(inv_view(inv@)[b].0 == pre[b].0);
            } else {
                assert(inv_view(inv@)[b].0 == name_v);
                assert(inv_view(inv@)[a].0 == pre[a].0);
                assert(pre[a].0 != name_v);
            }
        }
    }
}

/// A one-element list holding `key`.
fn key_singleton(key: Vec<u8>) -> (r: Vec<Vec<u8>>)
    ensures
        r@.len() == 1,
        r@[0] == key,
{
    let mut v: Vec<Vec<u8>> = Vec::new();
    v.push(key);
    v
}

/// Whether `x` stands in `list`.
fn list_contains_bytes(list: &Vec<Vec<u8>>, x: &Vec<u8>) -> (r: bool)
    ensures
        r == Seq::new(list@.len(), |i: int| (list@[i])@).contains(x@),
{
    let ghost lv: Seq<Seq<u8>> = Seq::new(list@.len(), |i: int| (list@[i])@);
    let mut i: usize = 0;
    while i < list.len()
        invariant
            i <= list@.len(),
            lv == Seq::new(list@.len(), |k: int| (list@[k])@),
            forall|j: int| 0 <= j < i ==> lv[j] != x@,
        decreases list.len() - i,
    {
        if bytes_eq(&list[i], x) {
            proof {
                assert(lv[i as int] == x@);
                assert(lv.contains(x@));
            }
            return true;
        }
        i = i + 1;
    }
    proof {
        if lv.contains(x@) {
            let j = choose|j: int| 0 <= j < lv.len() && lv[j] == x@;
            assert(lv[j] != x@);
        }
    }
    false
}

/// The GeoSite service's verified core: the bundle store and the
/// compilation of rule configurations against it.
pub struct GeoSiteService {
    pub file_cache: GeoCacheStore,
    /// The keys the latest stored download of one source carried.
    pub wanted: Vec<Vec<u8>>,
}

impl GeoSiteService {
    /// A service over an empty bundle store.
    pub fn new() -> (r: GeoSiteService)
        ensures
            r.file_cache.wf(),
            r.file_cache.model() =~= Seq::<GeoDomainV>::empty(),
    {
        GeoSiteService { file_cache: GeoCacheStore::new(), wanted: Vec::new() }
    }

    /// Compiles one rule configuration: its plain patterns and GeoSite
    /// references are resolved against the bundle store into the
    /// runtime rule's domain patterns; the other fields carry over.
    fn compile_rule(&self, config: DNSRuleConfig) -> (r: DnsRule)
        requires
            self.file_cache.wf(),
        ensures
            r.id == config.id,
            r.name@ == config.name@,
            r.index == config.index,
            r.enable == config.enable,
            r.filter == config.filter,
            r@.resolve_mode == config.resolve_mode@,
            r.mark == config.mark,
            r.flow_id == config.flow_id,
            r@.source == runtime_sources(sources_view(config.source@), self.file_cache.model()),
    {
        let DNSRuleConfig { id, name, index, enable, filter, resolve_mode, mark, flow_id, source: src_list } = config;
        let ghost sv: Seq<RuleSourceV> = sources_view(src_list@);
        let ghost cm: Seq<GeoDomainV> = self.file_cache.model();
        let mut src_list = src_list;
        let mut source: Vec<DomainConfig> = Vec::new();
        let mut usage: Vec<(Vec<u8>, Vec<u8>)> = Vec::new();
        let mut inverse: Vec<(Vec<u8>, Vec<Vec<u8>>)> = Vec::new();
        let ghost n0: int = sv.len() as int;
        let total: usize = src_list.len();
        let mut done: usize = 0;
        proof {
            assert(sv.take(0int) =~= Seq::<RuleSourceV>::empty());
            assert(dc_views(source@) =~= pass1_domains(sv.take(0int), cm));
            assert(usage_view(usage@) =~= pass1_usage(sv.take(0int)));
            assert(inv_view(inverse@) =~= pass1_inverse(sv.take(0int)));
        }
        while src_list.len() > 0
            invariant
                done + src_list@.len() == n0,
                total == n0,
                done <= total,
                sv.len() == n0,
                cm == self.file_cache.model(),
                cache_unique(cm),
                forall|j: int| 0 <= j < src_list@.len() ==> (#[trigger] src_list@[j])@ == sv[done
                    + j],
                dc_views(source@) == pass1_domains(sv.take(done as int), cm),
                usage_view(usage@) == pass1_usage(sv.take(done as int)),
                inv_view(inverse@) == pass1_inverse(sv.take(done as int)),
                inv_unique(inv_view(inverse@)),
            decreases src_list.len(),
        {
            let ghost pre_list = src_list@;
            let s0 = src_list.remove(0);
            proof {
                assert(s0@ == sv[done as int]);
                assert(sv.take(done as int + 1).drop_last() =~= sv.take(done as int));
                assert(sv.take(done as int + 1).last() == sv[done as int]);
                assert forall|j: int| 0 <= j < src_list@.len() implies (
                #[trigger] src_list@[j])@ == sv[done + 1 + j] by {
                    assert(src_list@[j] == pre_list[j + 1]);
                }
            }
            match s0 {
                RuleSource::GeoKey(k) => {
                    let ghost k_name: Seq<u8> = k.name@;
                    let ghost k_key: Seq<u8> = k.key@;
                    let ghost k_attr: Option<Seq<u8>> = match k.attribute_key {
                        Some(ref a) => Some(a@),
                        None => None,
                    };
                    if k.inverse {
                        inv_insert_exec(&mut inverse, k.name, k.key);
                        proof {
                            assert(inv_view(inverse@) =~= pass1_inverse(
                                sv.take(done as int + 1),
                            ));
                            assert(dc_views(source@) =~= pass1_domains(
                                sv.take(done as int + 1),
                                cm,
                            ));
                            assert(usage_view(usage@) =~= pass1_usage(sv.take(done as int + 1)));
                        }
                    } else {
                        let cache_key = GeoFileCacheKey { name: k.name, key: k.key };
                        match self.file_cache.get(&cache_key) {
                            Some(domains) => {
                                let ghost pre_src = dc_views(source@);
                                let mut sel = attr_selected_exec(
                                    &domains.values,
                                    &k.attribute_key,
                                );
                                let ghost sel_v = dc_views(sel@);
                                proof {
                                    assert(Seq::new(
                                        domains.values@.len(),
                                        |i: int| domains.values@[i]@,
                                    ) == cm[cache_pos(cm, k_name, k_key)].values);
                                    assert(sel_v == attr_selected(
                                        cm[cache_pos(cm, k_name, k_key)].values,
                                        k_attr,
                                    ));
                                }
                                source.append(&mut sel);
                                proof {
                                    assert(dc_views(source@) =~= pre_src + sel_v);
                                }
                            },
                            None => {},
                        }
                        usage.push((cache_key.name, cache_key.key));
                        proof {
                            assert(usage_view(usage@) =~= pass1_usage(sv.take(done as int + 1)));
                            assert(dc_views(source@) =~= pass1_domains(
                                sv.take(done as int + 1),
                                cm,
                            ));
                            assert(inv_view(inverse@) =~= pass1_inverse(
                                sv.take(done as int + 1),
                            ));
                        }
                    }
                },
                RuleSource::Config(c) => {
                    source.push(c);
                    proof {
                        assert(dc_views(source@) =~= pass1_domains(sv.take(done as int + 1), cm));
                        assert(usage_view(usage@) =~= pass1_usage(sv.take(done as int + 1)));
                        assert(inv_view(inverse@) =~= pass1_inverse(sv.take(done as int + 1)));
                    }
                },
            }
            done = done + 1;
        }
        proof {
            assert(sv.take(n0) =~= sv);
        }
        let ghost usage1: Seq<(Seq<u8>, Seq<u8>)> = usage_view(usage@);
        let ghost inv1: Seq<(Seq<u8>, Seq<Seq<u8>>)> = inv_view(inverse@);
        let ghost p1: Seq<DomainConfigV> = dc_views(source@);
        let mut e_idx: usize = 0;
        proof {
            assert(inv1.take(0int) =~= Seq::<(Seq<u8>, Seq<Seq<u8>>)>::empty());
        }
        while e_idx < inverse.len()
            invariant
                e_idx <= inverse@.len(),
                cm == self.file_cache.model(),
                cache_unique(cm),
                inv_view(inverse@) == inv1,
                dc_views(source@) == p1 + pass2_all(inv1.take(e_idx as int), cm, usage1).0,
                usage_view(usage@) == pass2_all(inv1.take(e_idx as int), cm, usage1).1,
            decreases inverse.len() - e_idx,
        {
            let ghost base_usage = pass2_all(inv1.take(e_idx as int), cm, usage1).1;
            let ghost base_src = p1 + pass2_all(inv1.take(e_idx as int), cm, usage1).0;
            let ghost g_name: Seq<u8> = inv1[e_idx as int].0;
            let ghost g_excl: Seq<Seq<u8>> = inv1[e_idx as int].1;
            let mut t: usize = 0;
            proof {
                assert(cm.take(0int) =~= Seq::<GeoDomainV>::empty());
            }
            let cache_len = self.file_cache.len();
            while t < cache_len
                invariant
                    t <= cm.len(),
                    cache_len == cm.len(),
                    cm == self.file_cache.model(),
                    cache_unique(cm),
                    e_idx < inverse@.len(),
                    inv_view(inverse@) == inv1,
                    g_name == inv1[e_idx as int].0,
                    g_excl == inv1[e_idx as int].1,
                    dc_views(source@) == base_src + pass2_one(
                        cm.take(t as int),
                        g_name,
                        g_excl,
                        base_usage,
                    ).0,
                    usage_view(usage@) == pass2_one(cm.take(t as int), g_name, g_excl, base_usage).1,
                decreases cache_len - t,
            {
                proof {
                    assert(cm.take(t as int + 1).drop_last() =~= cm.take(t as int));
                    assert(cm.take(t as int + 1).last() == cm[t as int]);
                }
                let e = self.file_cache.get_at(t);
                let name_hit = bytes_eq(&e.name, &inverse[e_idx].0);
                proof {
                    assert((inverse@[e_idx as int].0)@ == g_name);
                }
                if name_hit {
                    let excluded_hit = list_contains_bytes(&inverse[e_idx].1, &e.key);
                    proof {
                        assert(Seq::new(
                            inverse@[e_idx as int].1@.len(),
                            |j: int| (inverse@[e_idx as int].1@[j])@,
                        ) == g_excl);
                    }
                    if !excluded_hit {
                        let used = usage_contains(&usage, &e.name, &e.key);
                        if !used {
                            usage.push((copy_vec(&e.name), copy_vec(&e.key)));
                            let no_attr: Option<Vec<u8>> = None;
                            let ghost pre_src2 = dc_views(source@);
                            let mut sel = attr_selected_exec(&e.values, &no_attr);
                            let ghost sel_v2 = dc_views(sel@);
                            proof {
                                assert(Seq::new(e.values@.len(), |i: int| e.values@[i]@)
                                    == cm[t as int].values);
                                assert(sel_v2 == attr_selected(cm[t as int].values, None));
                            }
                            source.append(&mut sel);
                            proof {
                                assert(dc_views(source@) =~= pre_src2 + sel_v2);
                                assert(usage_view(usage@) =~= pass2_one(
                                    cm.take(t as int + 1),
                                    g_name,
                                    g_excl,
                                    base_usage,
                                ).1);
                                assert(dc_views(source@) =~= base_src + pass2_one(
                                    cm.take(t as int + 1),
                                    g_name,
                                    g_excl,
                                    base_usage,
                                ).0);
                            }
                        }
                    }
                }
                t = t + 1;
            }
            proof {
                assert(cm.take(cm.len() as int) =~= cm);
                assert(inv1.take(e_idx as int + 1).drop_last() =~= inv1.take(e_idx as int));
                assert(inv1.take(e_idx as int + 1).last() == inv1[e_idx as int]);
            }
            e_idx = e_idx + 1;
        }
        proof {
            assert(inv1.take(inverse@.len() as int) =~= inv1);
        }
        let r = DnsRule {
            id,
            name,
            index,
            enable,
            filter,
            resolve_mode,
            mark,
            flow_id,
            source,
        };
        proof {
            assert(r@.source =~= runtime_sources(sv, cm));
        }
        r
    }

    /// Compiles every rule configuration into a runtime rule, resolving
    /// GeoSite references against the bundle store.
    pub fn convert_config_to_runtime_rule(&self, configs: Vec<DNSRuleConfig>) -> (r: Vec<DnsRule>)
        requires
            self.file_cache.wf(),
        ensures
            r@.len() == configs@.len(),
            forall|i: int|
                0 <= i < r@.len() ==> {
                    let c = configs@[i];
                    &&& (#[trigger] r@[i]).id == c.id
                    &&& r@[i].name@ == c.name@
                    &&& r@[i].index == c.index
                    &&& r@[i].enable == c.enable
                    &&& r@[i].filter == c.filter
                    &&& r@[i]@.resolve_mode == c.resolve_mode@
                    &&& r@[i].mark == c.mark
                    &&& r@[i].flow_id == c.flow_id
                    &&& r@[i]@.source == runtime_sources(
                        sources_view(c.source@),
                        self.file_cache.model(),
                    )
                },
    {
        let ghost all: Seq<DNSRuleConfig> = configs@;
        let mut configs = configs;
        let mut result: Vec<DnsRule> = Vec::new();
        let total: usize = configs.len();
        let mut done: usize = 0;
        while configs.len() > 0
            invariant
                done + configs@.len() == all.len(),
                total == all.len(),
                done <= total,
                self.file_cache.wf(),
                configs@ == all.skip(done as int),
                result@.len() == done,
                forall|i: int|
                    0 <= i < done ==> {
                        let c = all[i];
                        &&& (#[trigger] result@[i]).id == c.id
                        &&& result@[i].name@ == c.name@
                        &&& result@[i].index == c.index
                        &&& result@[i].enable == c.enable
                        &&& result@[i].filter == c.filter
                        &&& result@[i]@.resolve_mode == c.resolve_mode@
                        &&& result@[i].mark == c.mark
                        &&& result@[i].flow_id == c.flow_id
                        &&& result@[i]@.source == runtime_sources(
                            sources_view(c.source@),
                            self.file_cache.model(),
                        )
                    },
            decreases configs.len(),
        {
            let config = configs.remove(0);
            proof {
                assert(config == all[done as int]);
                assert(all.skip(done as int).remove(0) =~= all.skip(done as int + 1));
            }
            let rule = self.compile_rule(config);
            result.push(rule);
            done = done + 1;
        }
        result
    }
}

/// The bundle stored under (`name`, `key`).
pub open spec fn cache_val(m: Seq<GeoDomainV>, name: Seq<u8>, key: Seq<u8>) -> GeoDomainV {
    m[cache_pos(m, name, key)]
}

/// Removing one bundle leaves every other key's bundle in place.
proof fn lemma_remove_preserves(m: Seq<GeoDomainV>, p: int)
    requires
        cache_unique(m),
        0 <= p < m.len(),
    ensures
        cache_unique(m.remove(p)),
        !cache_has(m.remove(p), m[p].name, m[p].key),
        forall|n: Seq<u8>, k: Seq<u8>|
            !(n == m[p].name && k == m[p].key) ==> #[trigger] cache_has(m.remove(p), n, k)
                == cache_has(m, n, k) && (cache_has(m, n, k) ==> cache_val(m.remove(p), n, k)
                == cache_val(m, n, k)),
{
    let m2 = m.remove(p);
    assert forall|a: int, b: int| 0 <= a < b < m2.len() implies !((#[trigger] m2[a]).name == (
    #[trigger] m2[b]).name && m2[a].key == m2[b].key) by {
        let a0 = if a < p { a } else { a + 1 };
        let b0 = if b < p { b } else { b + 1 };
        assert(m2[a] == m[a0]);
        assert(m2[b] == m[b0]);
    }
    assert(!cache_has(m2, m[p].name, m[p].key)) by {
        if cache_has(m2, m[p].name, m[p].key) {
            let q = cache_pos(m2, m[p].name, m[p].key);
            let q0 = if q < p { q } else { q + 1 };
            assert(m2[q] == m[q0]);
            if q0 < p {
                assert(!(m[q0].name == m[p].name && m[q0].key == m[p].key));
            } else {
                assert(!(m[p].name == m[q0].name && m[p].key == m[q0].key));
            }
        }
    }
    assert forall|n: Seq<u8>, k: Seq<u8>| !(n == m[p].name && k == m[p].key) implies
        #[trigger] cache_has(m2, n, k) == cache_has(m, n, k) && (cache_has(m, n, k)
        ==> cache_val(m2, n, k) == cache_val(m, n, k)) by {
        if cache_has(m, n, k) {
            let q = cache_pos(m, n, k);
            assert(q != p);
            let q2 = if q < p { q } else { q - 1 };
            assert(m2[q2] == m[q]);
            assert(cache_has(m2, n, k));
            lemma_cache_pos_unique(m2, n, k, q2);
        } else {
            if cache_has(m2, n, k) {
                let q = cache_pos(m2, n, k);
                let q0 = if q < p { q } else { q + 1 };
                assert(m2[q] == m[q0]);
                assert(cache_has(m, n, k));
            }
        }
    }
}

/// Replacing a bundle in place leaves every other key's bundle as it
/// was.
proof fn lemma_update_preserves(m: Seq<GeoDomainV>, p: int, info: GeoDomainV)
    requires
        cache_unique(m),
        0 <= p < m.len(),
        info.name == m[p].name,
        info.key == m[p].key,
    ensures
        cache_unique(m.update(p, info)),
        cache_has(m.update(p, info), info.name, info.key),
        cache_val(m.update(p, info), info.name, info.key) == info,
        forall|n: Seq<u8>, k: Seq<u8>|
            !(n == info.name && k == info.key) ==> #[trigger] cache_has(m.update(p, info), n, k)
                == cache_has(m, n, k) && (cache_has(m, n, k) ==> cache_val(
                m.update(p, info),
                n,
                k,
            ) == cache_val(m, n, k)),
{
    let m2 = m.update(p, info);
    assert forall|a: int, b: int| 0 <= a < b < m2.len() implies !((#[trigger] m2[a]).name == (
    #[trigger] m2[b]).name && m2[a].key == m2[b].key) by {
        assert(m2[a].name == m[a].name && m2[a].key == m[a].key);
        assert(m2[b].name == m[b].name && m2[b].key == m[b].key);
    }
    lemma_cache_pos_unique(m2, info.name, info.key, p);
    assert forall|n: Seq<u8>, k: Seq<u8>| !(n == info.name && k == info.key) implies
        #[trigger] cache_has(m2, n, k) == cache_has(m, n, k) && (cache_has(m, n, k)
        ==> cache_val(m2, n, k) == cache_val(m, n, k)) by {
        if cache_has(m, n, k) {
            let q = cache_pos(m, n, k);
            assert(q != p);
            assert(m2[q] == m[q]);
            assert(cache_has(m2, n, k));
            lemma_cache_pos_unique(m2, n, k, q);
        } else {
            if cache_has(m2, n, k) {
                let q = cache_pos(m2, n, k);
                assert(m2[q].name == m[q].name && m2[q].key == m[q].key);
                assert(cache_has(m, n, k));
            }
        }
    }
}

/// Appending a bundle under a fresh key leaves every other key's bundle
/// as it was.
proof fn lemma_push_preserves(m: Seq<GeoDomainV>, info: GeoDomainV)
    requires
        cache_unique(m),
        !cache_has(m, info.name, info.key),
    ensures
        cache_unique(m.push(info)),
        cache_has(m.push(info), info.name, info.key),
        cache_val(m.push(info), info.name, info.key) == info,
        forall|n: Seq<u8>, k: Seq<u8>|
            !(n == info.name && k == info.key) ==> #[trigger] cache_has(m.push(info), n, k)
                == cache_has(m, n, k) && (cache_has(m, n, k) ==> cache_val(m.push(info), n, k)
                == cache_val(m, n, k)),
{
    let m2 = m.push(info);
    assert forall|a: int, b: int| 0 <= a < b < m2.len() implies !((#[trigger] m2[a]).name == (
    #[trigger] m2[b]).name && m2[a].key == m2[b].key) by {
        if b == m2.len() - 1 {
            assert(m2[a] == m[a]);
            assert(m2[b] == info);
            if m[a].name == info.name && m[a].key == info.key {
                assert(cache_has(m, info.name, info.key));
            }
        } else {
            assert(m2[a] == m[a]);
            assert(m2[b] == m[b]);
        }
    }
    assert(m2[m.len() as int] == info);
    lemma_cache_pos_unique(m2, info.name, info.key, m.len() as int);
    assert forall|n: Seq<u8>, k: Seq<u8>| !(n == info.name && k == info.key) implies
        #[trigger] cache_has(m2, n, k) == cache_has(m, n, k) && (cache_has(m, n, k)
        ==> cache_val(m2, n, k) == cache_val(m, n, k)) by {
        if cache_has(m, n, k) {
            let q = cache_pos(m, n, k);
            assert(m2[q] == m[q]);
            assert(cache_has(m2, n, k));
            lemma_cache_pos_unique(m2, n, k, q);
        } else {
            if cache_has(m2, n, k) {
                let q = cache_pos(m2, n, k);
                if q < m.len() {
                    assert(m2[q] == m[q]);
                    assert(cache_has(m, n, k));
                } else {
                    assert(m2[q] == info);
                }
            }
        }
    }
}

/// The bundle that one downloaded entry of source `name` becomes: it
/// is stored under the uppercased key with the entry's domain list.
pub open spec fn entry_bundle(name: Seq<u8>, e: (Vec<u8>, Vec<GeoSiteFileConfig>)) -> GeoDomainV {
    GeoDomainV {
        name: name,
        key: upper_seq(e.0@),
        values: Seq::new(e.1@.len(), |j: int| (e.1@[j])@),
    }
}

/// The byte with an ASCII lowercase letter raised to its uppercase.
pub open spec fn upper_byte(b: u8) -> u8 {
    if 97 <= b <= 122 {
        (b - 32) as u8
    } else {
        b
    }
}

/// The bytes with every ASCII lowercase letter raised to uppercase.
pub open spec fn upper_seq(s: Seq<u8>) -> Seq<u8> {
    Seq::new(s.len(), |i: int| upper_byte(s[i]))
}

/// The bytes of `v` with ASCII lowercase letters raised to uppercase.
pub fn upper_bytes(v: &Vec<u8>) -> (r: Vec<u8>)
    ensures
        r@ == upper_seq(v@),
{
    let mut out: Vec<u8> = Vec::new();
    let mut i: usize = 0;
    while i < v.len()
        invariant
            i <= v@.len(),
            out@.len() == i,
            forall|j: int| 0 <= j < i ==> out@[j] == upper_byte(v@[j]),
        decreases v.len() - i,
    {
        let b = v[i];
        if 97 <= b && b <= 122 {
            out.push(b - 32);
        } else {
            out.push(b);
        }
        i = i + 1;
    }
    proof {
        assert(out@ =~= upper_seq(v@));
    }
    out
}

/// The sources that are due for a download: with `force` every source,
/// otherwise those whose next update lies before `now`.
pub fn select_refresh(
    configs: Vec<GeoSiteSourceConfig>,
    now: u64,
    force: bool,
) -> (r: Vec<GeoSiteSourceConfig>)
    ensures
        r@ == configs@.filter(
            |c: GeoSiteSourceConfig| force || c.next_update_at < now,
        ),
{
    let ghost pred = |c: GeoSiteSourceConfig| force || c.next_update_at < now;
    let ghost all: Seq<GeoSiteSourceConfig> = configs@;
    let mut configs = configs;
    let mut out: Vec<GeoSiteSourceConfig> = Vec::new();
    let total: usize = configs.len();
    let mut done: usize = 0;
    proof {
        assert(all.take(0int).filter(pred) =~= Seq::<GeoSiteSourceConfig>::empty());
    }
    while configs.len() > 0
        invariant
            done + configs@.len() == all.len(),
            total == all.len(),
            done <= total,
            configs@ == all.skip(done as int),
            pred == (|c: GeoSiteSourceConfig| force || c.next_update_at < now),
            out@ == all.take(done as int).filter(pred),
        decreases configs.len(),
    {
        let ghost pre_list = configs@;
        let c = configs.remove(0);
        proof {
            assert(c == all[done as int]);
            assert(all.skip(done as int).remove(0) =~= all.skip(done as int + 1));
            crate::dns_records::lemma_filter_push(all.take(done as int), c, pred);
            assert(all.take(done as int).push(c) =~= all.take(done as int + 1));
        }
        if force || c.next_update_at < now {
            out.push(c);
        }
        done = done + 1;
    }
    proof {
        assert(all.take(all.len() as int) =~= all);
    }
    out
}

/// Pushes a source's next update a day past `now`, saturating at the
/// largest representable moment.
pub fn bump_next_update(config: &mut GeoSiteSourceConfig, now: u64)
    ensures
        final(config).next_update_at == if now + crate::time_util::MILL_A_DAY <= u64::MAX {
            (now + crate::time_util::MILL_A_DAY) as u64
        } else {
            u64::MAX
        },
        final(config).id == old(config).id,
        final(config).update_at == old(config).update_at,
        final(config).url == old(config).url,
        final(config).name == old(config).name,
        final(config).enable == old(config).enable,
        final(config).geo_keys == old(config).geo_keys,
{
    let day: u64 = crate::time_util::MILL_A_DAY as u64;
    if now <= u64::MAX - day {
        config.next_update_at = now + day;
    } else {
        config.next_update_at = u64::MAX;
    }
}

impl GeoSiteService {
    /// Stores the downloaded bundles of source `name`: each entry is
    /// stored under its uppercased key, and every bundle of that source
    /// whose key is not among the entries is removed. Other sources'
    /// bundles stand untouched.
    pub fn apply_geo_update(
        &mut self,
        name: &Vec<u8>,
        entries: Vec<(Vec<u8>, Vec<GeoSiteFileConfig>)>,
    )
        requires
            old(self).file_cache.wf(),
            forall|a: int, b: int|
                0 <= a < b < entries@.len() ==> upper_seq((#[trigger] entries@[a]).0@)
                    != upper_seq((#[trigger] entries@[b]).0@),
        ensures
            final(self).file_cache.wf(),
            forall|i: int|
                0 <= i < entries@.len() ==> #[trigger] cache_has(
                    final(self).file_cache.model(),
                    name@,
                    upper_seq(entries@[i].0@),
                ) && cache_val(final(self).file_cache.model(), name@, upper_seq(entries@[i].0@))
                    == entry_bundle(name@, entries@[i]),
            forall|k: Seq<u8>|
                #[trigger] cache_has(final(self).file_cache.model(), name@, k) ==> exists|i: int|
                    0 <= i < entries@.len() && upper_seq((#[trigger] entries@[i]).0@) == k,
            forall|n: Seq<u8>, k: Seq<u8>|
                n != name@ ==> #[trigger] cache_has(final(self).file_cache.model(), n, k)
                    == cache_has(old(self).file_cache.model(), n, k) && (cache_has(
                    old(self).file_cache.model(),
                    n,
                    k,
                ) ==> cache_val(final(self).file_cache.model(), n, k) == cache_val(
                    old(self).file_cache.model(),
                    n,
                    k,
                )),
    {
        let ghost ev = entries@;
        self.update_geo_config(name, entries);
        let ghost mid = *self;
        self.prune_missing(name);
        proof {
            assert forall|i: int| 0 <= i < ev.len() implies #[trigger] cache_has(
                self.file_cache.model(),
                name@,
                upper_seq(ev[i].0@),
            ) && cache_val(self.file_cache.model(), name@, upper_seq(ev[i].0@))
                == entry_bundle(name@, ev[i]) by {
                assert(cache_has(mid.file_cache.model(), name@, upper_seq(ev[i].0@)));
                assert((mid.wanted@[i])@ == upper_seq(ev[i].0@));
                assert(exists|w: int|
                    0 <= w < mid.wanted@.len() && (#[trigger] mid.wanted@[w])@ == upper_seq(
                        ev[i].0@,
                    ));
            }
            assert forall|k: Seq<u8>| #[trigger] cache_has(
                self.file_cache.model(),
                name@,
                k,
            ) implies exists|i: int|
                0 <= i < ev.len() && upper_seq((#[trigger] ev[i]).0@) == k by {
                let w = choose|w: int|
                    0 <= w < mid.wanted@.len() && (#[trigger] mid.wanted@[w])@ == k;
                assert(upper_seq(ev[w].0@) == k);
            }
            assert forall|n: Seq<u8>, k: Seq<u8>| n != name@ implies #[trigger] cache_has(
                self.file_cache.model(),
                n,
                k,
            ) == cache_has(old(self).file_cache.model(), n, k) && (cache_has(
                old(self).file_cache.model(),
                n,
                k,
            ) ==> cache_val(self.file_cache.model(), n, k) == cache_val(
                old(self).file_cache.model(),
                n,
                k,
            )) by {
                assert(cache_has(mid.file_cache.model(), n, k) == cache_has(
                    old(self).file_cache.model(),
                    n,
                    k,
                ));
                assert(cache_has(self.file_cache.model(), n, k) == cache_has(
                    mid.file_cache.model(),
                    n,
                    k,
                ));
            }
        }
    }

    /// Stores every decoded bundle of source `name` under its
    /// uppercased key, and remembers those keys as the source's wanted
    /// keys; nothing else is touched.
    pub fn update_geo_config(
        &mut self,
        name: &Vec<u8>,
        entries: Vec<(Vec<u8>, Vec<GeoSiteFileConfig>)>,
    )
        requires
            old(self).file_cache.wf(),
            forall|a: int, b: int|
                0 <= a < b < entries@.len() ==> upper_seq((#[trigger] entries@[a]).0@)
                    != upper_seq((#[trigger] entries@[b]).0@),
        ensures
            final(self).file_cache.wf(),
            final(self).wanted@.len() == entries@.len(),
            forall|i: int|
                0 <= i < entries@.len() ==> (#[trigger] final(self).wanted@[i])@ == upper_seq(
                    entries@[i].0@,
                ),
            forall|i: int|
                0 <= i < entries@.len() ==> #[trigger] cache_has(
                    final(self).file_cache.model(),
                    name@,
                    upper_seq(entries@[i].0@),
                ) && cache_val(final(self).file_cache.model(), name@, upper_seq(entries@[i].0@))
                    == entry_bundle(name@, entries@[i]),
            forall|n: Seq<u8>, k: Seq<u8>|
                (n != name@ || !(exists|i: int|
                    0 <= i < entries@.len() && upper_seq((#[trigger] entries@[i]).0@) == k))
                    ==> #[trigger] cache_has(final(self).file_cache.model(), n, k) == cache_has(
                    old(self).file_cache.model(),
                    n,
                    k,
                ) && (cache_has(old(self).file_cache.model(), n, k) ==> cache_val(
                    final(self).file_cache.model(),
                    n,
                    k,
                ) == cache_val(old(self).file_cache.model(), n, k)),
    {
        let ghost all: Seq<(Vec<u8>, Vec<GeoSiteFileConfig>)> = entries@;
        let ghost m0: Seq<GeoDomainV> = self.file_cache.model();
        let mut entries = entries;
        self.wanted = Vec::new();
        let total: usize = entries.len();
        let mut done: usize = 0;
        while entries.len() > 0
            invariant
                done + entries@.len() == all.len(),
                total == all.len(),
                done <= total,
                entries@ == all.skip(done as int),
                forall|a: int, b: int|
                    0 <= a < b < all.len() ==> upper_seq((#[trigger] all[a]).0@) != upper_seq(
                        (#[trigger] all[b]).0@,
                    ),
                self.file_cache.wf(),
                self.wanted@.len() == done,
                forall|i: int|
                    0 <= i < done ==> (#[trigger] self.wanted@[i])@ == upper_seq(all[i].0@),
                forall|i: int|
                    0 <= i < done ==> #[trigger] cache_has(
                        self.file_cache.model(),
                        name@,
                        upper_seq(all[i].0@),
                    ) && cache_val(self.file_cache.model(), name@, upper_seq(all[i].0@))
                        == entry_bundle(name@, all[i]),
                forall|n: Seq<u8>, k: Seq<u8>|
                    (n != name@ || !(exists|i: int|
                        0 <= i < done && upper_seq((#[trigger] all[i]).0@) == k))
                        ==> #[trigger] cache_has(self.file_cache.model(), n, k) == cache_has(
                        m0,
                        n,
                        k,
                    ) && (cache_has(m0, n, k) ==> cache_val(self.file_cache.model(), n, k)
                        == cache_val(m0, n, k)),
                m0 == old(self).file_cache.model(),
            decreases entries.len(),
        {
            let (key, values) = entries.remove(0);
            proof {
                assert((key, values) == all[done as int]);
                assert(all.skip(done as int).remove(0) =~= all.skip(done as int + 1));
            }
            let up = upper_bytes(&key);
            let info = GeoDomainConfig { name: copy_vec(name), key: up, values };
            let ghost infov = info@;
            let ghost pre = self.file_cache.model();
            proof {
                assert(infov.name == name@);
                assert(infov.key == upper_seq(all[done as int].0@));
                assert(infov.values =~= entry_bundle(name@, all[done as int]).values);
                assert(infov == entry_bundle(name@, all[done as int]));
            }
            self.wanted.push(upper_bytes(&key));
            self.file_cache.set(info);
            proof {
                if cache_has(pre, infov.name, infov.key) {
                    lemma_update_preserves(pre, cache_pos(pre, infov.name, infov.key), infov);
                } else {
                    lemma_push_preserves(pre, infov);
                }
                assert forall|i: int| 0 <= i < done + 1 implies #[trigger] cache_has(
                    self.file_cache.model(),
                    name@,
                    upper_seq(all[i].0@),
                ) && cache_val(self.file_cache.model(), name@, upper_seq(all[i].0@))
                    == entry_bundle(name@, all[i]) by {
                    if i < done {
                        assert(upper_seq(all[i].0@) != upper_seq(all[done as int].0@));
                        assert(cache_has(pre, name@, upper_seq(all[i].0@)));
                    }
                }
            }
            done = done + 1;
        }
    }

    /// Removes every bundle of source `name` whose key is not among the
    /// wanted keys remembered by the last store.
    fn prune_missing(&mut self, name: &Vec<u8>)
        requires
            old(self).file_cache.wf(),
        ensures
            final(self).file_cache.wf(),
            final(self).wanted == old(self).wanted,
            forall|k: Seq<u8>|
                #[trigger] cache_has(final(self).file_cache.model(), name@, k) ==> exists|i: int|
                    0 <= i < old(self).wanted@.len() && (#[trigger] old(self).wanted@[i])@ == k,
            forall|k: Seq<u8>|
                (exists|i: int|
                    0 <= i < old(self).wanted@.len() && (#[trigger] old(self).wanted@[i])@ == k)
                    ==> #[trigger] cache_has(final(self).file_cache.model(), name@, k)
                    == cache_has(old(self).file_cache.model(), name@, k) && (cache_has(
                    old(self).file_cache.model(),
                    name@,
                    k,
                ) ==> cache_val(final(self).file_cache.model(), name@, k) == cache_val(
                    old(self).file_cache.model(),
                    name@,
                    k,
                )),
            forall|n: Seq<u8>, k: Seq<u8>|
                n != name@ ==> #[trigger] cache_has(final(self).file_cache.model(), n, k)
                    == cache_has(old(self).file_cache.model(), n, k) && (cache_has(
                    old(self).file_cache.model(),
                    n,
                    k,
                ) ==> cache_val(final(self).file_cache.model(), n, k) == cache_val(
                    old(self).file_cache.model(),
                    n,
                    k,
                )),
    {
        let keys = self.file_cache.keys();
        let ghost m0: Seq<GeoDomainV> = self.file_cache.model();
        let mut t: usize = 0;
        while t < keys.len()
            invariant
                t <= keys@.len(),
                keys@.len() == m0.len(),
                forall|i: int|
                    0 <= i < keys@.len() ==> (#[trigger] keys@[i]).name@ == m0[i].name
                        && keys@[i].key@ == m0[i].key,
                self.file_cache.wf(),
                self.wanted == old(self).wanted,
                forall|n: Seq<u8>, k: Seq<u8>|
                    #[trigger] cache_has(self.file_cache.model(), n, k) ==> cache_has(m0, n, k)
                        && cache_val(self.file_cache.model(), n, k) == cache_val(m0, n, k),
                forall|n: Seq<u8>, k: Seq<u8>|
                    #[trigger] cache_has(m0, n, k) && (n != name@ || (exists|i: int|
                        0 <= i < self.wanted@.len() && (#[trigger] self.wanted@[i])@ == k))
                        ==> cache_has(self.file_cache.model(), n, k),
                forall|k: Seq<u8>|
                    #[trigger] cache_has(self.file_cache.model(), name@, k) ==> (exists|i: int|
                        0 <= i < self.wanted@.len() && (#[trigger] self.wanted@[i])@ == k) || (
                    exists|j: int|
                        t <= j < m0.len() && (#[trigger] m0[j]).name == name@ && m0[j].key == k),
                m0 == old(self).file_cache.model(),
            decreases keys.len() - t,
        {
            let ghost iter_pre = self.file_cache.model();
            let ghost knv = keys@[t as int].name@;
            let ghost kkv = keys@[t as int].key@;
            let hit = bytes_eq(&keys[t].name, name);
            let mut wanted_hit: bool = false;
            if hit {
                let mut w: usize = 0;
                while w < self.wanted.len()
                    invariant
                        w <= self.wanted@.len(),
                        t < keys@.len(),
                        kkv == keys@[t as int].key@,
                        wanted_hit == exists|i: int|
                            0 <= i < w && (#[trigger] self.wanted@[i])@ == kkv,
                    decreases self.wanted.len() - w,
                {
                    if bytes_eq(&self.wanted[w], &keys[t].key) {
                        wanted_hit = true;
                    }
                    w = w + 1;
                }
            }
            if hit && !wanted_hit {
                self.file_cache.del(&keys[t]);
                proof {
                    if cache_has(iter_pre, knv, kkv) {
                        lemma_remove_preserves(iter_pre, cache_pos(iter_pre, knv, kkv));
                    }
                }
            }
            proof {
                assert forall|n: Seq<u8>, k: Seq<u8>| #[trigger] cache_has(
                    self.file_cache.model(),
                    n,
                    k,
                ) implies cache_has(m0, n, k) && cache_val(self.file_cache.model(), n, k)
                    == cache_val(m0, n, k) by {
                    if hit && !wanted_hit && cache_has(iter_pre, knv, kkv) {
                        if !(n == knv && k == kkv) {
                            assert(cache_has(iter_pre, n, k));
                        }
                    } else {
                        assert(cache_has(iter_pre, n, k));
                    }
                }
                assert forall|n: Seq<u8>, k: Seq<u8>| #[trigger] cache_has(m0, n, k) && (n
                    != name@ || (exists|i: int|
                    0 <= i < self.wanted@.len() && (#[trigger] self.wanted@[i])@ == k))
                    implies cache_has(self.file_cache.model(), n, k) by {
                    assert(cache_has(iter_pre, n, k));
                    if hit && !wanted_hit && cache_has(iter_pre, knv, kkv) {
                        if n == knv && k == kkv {
                            assert(knv == name@);
                            assert(!(exists|i: int|
                                0 <= i < self.wanted@.len() && (#[trigger] self.wanted@[i])@
                                    == kkv));
                        } else {
                            assert(cache_has(self.file_cache.model(), n, k));
                        }
                    }
                }
                assert forall|k: Seq<u8>| #[trigger] cache_has(
                    self.file_cache.model(),
                    name@,
                    k,
                ) implies (exists|i: int|
                    0 <= i < self.wanted@.len() && (#[trigger] self.wanted@[i])@ == k) || (
                exists|j: int|
                    t + 1 <= j < m0.len() && (#[trigger] m0[j]).name == name@ && m0[j].key
                        == k) by {
                    assert(keys@[t as int].name@ == m0[t as int].name);
                    assert(keys@[t as int].key@ == m0[t as int].key);
                    if hit && !wanted_hit {
                        assert(!cache_has(self.file_cache.model(), knv, kkv));
                        if cache_has(iter_pre, knv, kkv) {
                            if name@ == knv && k == kkv {
                                assert(false);
                            } else {
                                assert(cache_has(iter_pre, name@, k));
                            }
                        } else {
                            assert(cache_has(iter_pre, name@, k));
                        }
                    } else {
                        assert(cache_has(iter_pre, name@, k));
                    }
                    assert(self.wanted == old(self).wanted);
                    assert((exists|i: int|
                        0 <= i < old(self).wanted@.len() && (#[trigger] old(self).wanted@[i])@
                            == k) || (exists|j: int|
                        t <= j < m0.len() && (#[trigger] m0[j]).name == name@ && m0[j].key
                            == k));
                    if !(exists|i: int|
                        0 <= i < self.wanted@.len() && (#[trigger] self.wanted@[i])@ == k) {
                        assert forall|i: int|
                            0 <= i < old(self).wanted@.len() implies (#[trigger] old(
                            self,
                        ).wanted@[i])@ != k by {
                            assert(self.wanted@[i] == old(self).wanted@[i]);
                        }
                        assert(exists|j: int|
                            t <= j < m0.len() && (#[trigger] m0[j]).name == name@ && m0[j].key
                                == k);
                        let j0 = choose|j: int|
                            t <= j < m0.len() && (#[trigger] m0[j]).name == name@ && m0[j].key
                                == k;
                        if j0 == t {
                            assert(m0[t as int].name == knv);
                            assert(m0[t as int].key == kkv);
                            if !hit {
                                assert(knv != name@);
                                assert(false);
                            } else if wanted_hit {
                                assert(exists|i: int|
                                    0 <= i < self.wanted@.len() && (
                                    #[trigger] self.wanted@[i])@ == kkv);
                                assert(false);
                            } else {
                                assert(k == kkv && name@ == knv);
                                assert(!cache_has(self.file_cache.model(), name@, k));
                                assert(false);
                            }
                        } else {
                            assert(t + 1 <= j0 < m0.len() && m0[j0].name == name@ && m0[j0].key
                                == k);
                        }
                    }
                }
            }
            t = t + 1;
        }
        proof {
            assert forall|k: Seq<u8>| #[trigger] cache_has(
                self.file_cache.model(),
                name@,
                k,
            ) implies exists|i: int|
                0 <= i < old(self).wanted@.len() && (#[trigger] old(self).wanted@[i])@ == k by {
                if !(exists|i: int|
                    0 <= i < self.wanted@.len() && (#[trigger] self.wanted@[i])@ == k) {
                    let j0 = choose|j: int|
                        t <= j < m0.len() && (#[trigger] m0[j]).name == name@ && m0[j].key == k;
                    assert(false);
                }
            }
        }
    }

    /// Every stored bundle key.
    pub fn list_all_keys(&self) -> (r: Vec<GeoFileCacheKey>)
        ensures
            r@.len() == self.file_cache.model().len(),
            forall|i: int|
                0 <= i < r@.len() ==> (#[trigger] r@[i]).name@ == self.file_cache.model()[i].name
                    && r@[i].key@ == self.file_cache.model()[i].key,
    {
        self.file_cache.keys()
    }

    /// The bundle stored under `key`, if any.
    pub fn get_cache_value_by_key(&self, key: &GeoFileCacheKey) -> (r: Option<GeoDomainConfig>)
        requires
            self.file_cache.wf(),
        ensures
            r is Some <==> cache_has(self.file_cache.model(), key.name@, key.key@),
            r matches Some(v) ==> v@ == cache_val(self.file_cache.model(), key.name@, key.key@),
    {
        self.file_cache.get(key)
    }
}

} // verus!



