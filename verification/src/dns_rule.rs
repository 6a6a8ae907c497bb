//! DNS resolution rules: how a rule matches a domain, and the ordered
//! rule set that returns the lowest-index match.

use vstd::prelude::*;

use crate::dns_records::{DnsRecord, FilterResult, FlowMark, LdIp};
use crate::util::copy_vec;

verus! {

/// How one domain pattern is compared against a queried domain.
#[derive(Clone, Copy, Debug, PartialEq, Eq, Hash, Structural)]
pub enum DomainMatchType {
    /// The pattern occurs somewhere in the domain.
    Plain,
    /// The domain equals the pattern exactly.
    Full,
    /// The domain ends with the pattern.
    Domain,
}

/// One domain pattern of a rule's match specification.
#[derive(Debug)]
pub struct DomainConfig {
    pub match_type: DomainMatchType,
    pub value: Vec<u8>,
}

/// Mathematical image of a `DomainConfig`.
pub ghost struct DomainConfigV {
    pub match_type: DomainMatchType,
    pub value: Seq<u8>,
}

impl View for DomainConfig {
    type V = DomainConfigV;

    open spec fn view(&self) -> DomainConfigV {
        DomainConfigV { match_type: self.match_type, value: self.value@ }
    }
}

/// `sfx` stands at the end of `s`.
pub open spec fn is_suffix_of(sfx: Seq<u8>, s: Seq<u8>) -> bool {
    sfx.len() <= s.len() && s.subrange(s.len() - sfx.len(), s.len() as int) == sfx
}

/// `sub` stands in `s` at position `i`.
pub open spec fn matches_at(s: Seq<u8>, sub: Seq<u8>, i: int) -> bool {
    0 <= i && i + sub.len() <= s.len() && s.subrange(i, i + sub.len()) == sub
}

/// `sub` stands somewhere in `s`.
pub open spec fn contains_sub(s: Seq<u8>, sub: Seq<u8>) -> bool {
    exists|i: int| matches_at(s, sub, i)
}

/// Whether the pattern `e` matches `domain`.
pub open spec fn entry_matches(e: DomainConfigV, domain: Seq<u8>) -> bool {
    match e.match_type {
        DomainMatchType::Full => domain == e.value,
        DomainMatchType::Domain => is_suffix_of(e.value, domain),
        DomainMatchType::Plain => contains_sub(domain, e.value),
    }
}

/// Whether `sub` stands in `s` at position `start`.
fn bytes_match_at(s: &Vec<u8>, sub: &Vec<u8>, start: usize) -> (r: bool)
    requires
        start + sub@.len() <= s@.len(),
    ensures
        r == matches_at(s@, sub@, start as int),
{
    let s_len: usize = s.len();
    let mut k: usize = 0;
    while k < sub.len()
        invariant
            k <= sub@.len(),
            start + sub@.len() <= s@.len(),
            s_len == s@.len(),
            forall|m: int| 0 <= m < k ==> s@[start + m] == sub@[m],
        decreases sub.len() - k,
    {
        proof {
            assert(start + k < s_len);
        }
        if s[start + k] != sub[k] {
            proof {
                assert(s@.subrange(start as int, start + sub@.len())[k as int] == s@[start + k]);
            }
            return false;
        }
        k = k + 1;
    }
    proof {
        assert(s@.subrange(start as int, start + sub@.len()) =~= sub@);
    }
    true
}

/// Whether `sub` stands somewhere in `s`.
pub fn bytes_contains(s: &Vec<u8>, sub: &Vec<u8>) -> (r: bool)
    ensures
        r == contains_sub(s@, sub@),
{
    if sub.len() > s.len() {
        proof {
            assert forall|i: int| !matches_at(s@, sub@, i) by {}
        }
        return false;
    }
    if sub.len() == 0 {
        proof {
            assert(s@.subrange(0int, 0int) =~= sub@);
            assert(matches_at(s@, sub@, 0int));
        }
        return true;
    }
    let s_len: usize = s.len();
    let last: usize = s_len - sub.len();
    let mut i: usize = 0;
    while i <= last
        invariant
            i <= last + 1,
            last + sub@.len() == s@.len(),
            last + 1 <= s_len,
            sub@.len() >= 1,
            forall|j: int| 0 <= j < i ==> !matches_at(s@, sub@, j),
        decreases last - i + 1,
    {
        if bytes_match_at(s, sub, i) {
            return true;
        }
        i = i + 1;
    }
    proof {
        assert forall|j: int| !matches_at(s@, sub@, j) by {
            if i <= j {
                assert(j + sub@.len() > s@.len());
            }
        }
    }
    false
}

/// Whether `sfx` stands at the end of `s`.
pub fn bytes_ends_with(s: &Vec<u8>, sfx: &Vec<u8>) -> (r: bool)
    ensures
        r == is_suffix_of(sfx@, s@),
{
    if sfx.len() > s.len() {
        return false;
    }
    let start: usize = s.len() - sfx.len();
    bytes_match_at(s, sfx, start)
}

impl DomainConfig {
    /// A fresh copy of this pattern.
    pub fn duplicate(&self) -> (r: DomainConfig)
        ensures
            r@ == self@,
    {
        DomainConfig { match_type: self.match_type, value: copy_vec(&self.value) }
    }

    /// Whether this pattern matches `domain`.
    pub fn is_match(&self, domain: &Vec<u8>) -> (r: bool)
        ensures
            r == entry_matches(self@, domain@),
    {
        match self.match_type {
            DomainMatchType::Full => {
                let eq = crate::util::bytes_eq(domain, &self.value);
                eq
            },
            DomainMatchType::Domain => bytes_ends_with(domain, &self.value),
            DomainMatchType::Plain => bytes_contains(domain, &self.value),
        }
    }
}

/// How a matched rule resolves a query: through the system resolver,
/// through one explicit upstream, with a fixed answer, or not at all.
#[derive(Debug)]
pub enum ResolveMode {
    System,
    Upstream { ip: LdIp, port: u16 },
    FixedAnswer { records: Vec<DnsRecord> },
    Reject { code: u16 },
}

/// Mathematical image of a `ResolveMode`.
pub ghost enum ResolveModeV {
    System,
    Upstream { ip: LdIp, port: u16 },
    FixedAnswer { records: Seq<DnsRecord> },
    Reject { code: u16 },
}

impl View for ResolveMode {
    type V = ResolveModeV;

    open spec fn view(&self) -> ResolveModeV {
        match self {
            ResolveMode::System => ResolveModeV::System,
            ResolveMode::Upstream { ip, port } => ResolveModeV::Upstream {
                ip: *ip,
                port: *port,
            },
            ResolveMode::FixedAnswer { records } => ResolveModeV::FixedAnswer {
                records: records@,
            },
            ResolveMode::Reject { code } => ResolveModeV::Reject { code: *code },
        }
    }
}

impl ResolveMode {
    /// A fresh copy of this resolve mode.
    pub fn duplicate(&self) -> (r: ResolveMode)
        ensures
            r@ == self@,
    {
        match self {
            ResolveMode::System => ResolveMode::System,
            ResolveMode::Upstream { ip, port } => ResolveMode::Upstream {
                ip: *ip,
                port: *port,
            },
            ResolveMode::FixedAnswer { records } => ResolveMode::FixedAnswer {
                records: copy_vec(records),
            },
            ResolveMode::Reject { code } => ResolveMode::Reject { code: *code },
        }
    }
}

/// One compiled DNS rule: priority index, match patterns, answer filter,
/// flow mark, and upstream strategy.
#[derive(Debug)]
pub struct DnsRule {
    pub id: u128,
    pub name: Vec<u8>,
    pub index: u32,
    pub enable: bool,
    pub filter: FilterResult,
    pub resolve_mode: ResolveMode,
    pub mark: FlowMark,
    pub flow_id: u32,
    pub source: Vec<DomainConfig>,
}

/// Mathematical image of a `DnsRule`.
pub ghost struct DnsRuleV {
    pub id: u128,
    pub name: Seq<u8>,
    pub index: u32,
    pub enable: bool,
    pub filter: FilterResult,
    pub resolve_mode: ResolveModeV,
    pub mark: FlowMark,
    pub flow_id: u32,
    pub source: Seq<DomainConfigV>,
}

impl View for DnsRule {
    type V = DnsRuleV;

    open spec fn view(&self) -> DnsRuleV {
        DnsRuleV {
            id: self.id,
            name: self.name@,
            index: self.index,
            enable: self.enable,
            filter: self.filter,
            resolve_mode: self.resolve_mode@,
            mark: self.mark,
            flow_id: self.flow_id,
            source: Seq::new(self.source@.len(), |i: int| self.source@[i]@),
        }
    }
}

/// Whether the rule `r` matches `domain`: some pattern of its match
/// specification does.
pub open spec fn rule_matches(r: DnsRuleV, domain: Seq<u8>) -> bool {
    exists|i: int| 0 <= i < r.source.len() && entry_matches(#[trigger] r.source[i], domain)
}

impl DnsRule {
    /// A fresh copy of this rule.
    pub fn duplicate(&self) -> (r: DnsRule)
        ensures
            r@ == self@,
    {
        let mut source: Vec<DomainConfig> = Vec::new();
        let mut idx: usize = 0;
        while idx < self.source.len()
            invariant
                idx <= self.source@.len(),
                source@.len() == idx,
                forall|j: int| 0 <= j < idx ==> source@[j]@ == self.source@[j]@,
            decreases self.source.len() - idx,
        {
            source.push(self.source[idx].duplicate());
            idx = idx + 1;
        }
        let r = DnsRule {
            id: self.id,
            name: copy_vec(&self.name),
            index: self.index,
            enable: self.enable,
            filter: self.filter,
            resolve_mode: self.resolve_mode.duplicate(),
            mark: self.mark,
            flow_id: self.flow_id,
            source,
        };
        proof {
            assert(r@.source =~= self@.source);
        }
        r
    }

    /// Whether this rule matches `domain`.
    pub fn is_match(&self, domain: &Vec<u8>) -> (r: bool)
        ensures
            r == rule_matches(self@, domain@),
    {
        let mut idx: usize = 0;
        while idx < self.source.len()
            invariant
                idx <= self.source@.len(),
                forall|j: int| 0 <= j < idx ==> !entry_matches(#[trigger] self@.source[j], domain@),
            decreases self.source.len() - idx,
        {
            if self.source[idx].is_match(domain) {
                proof {
                    assert(entry_matches(self@.source[idx as int], domain@));
                }
                return true;
            }
            idx = idx + 1;
        }
        false
    }

    /// The mark this rule attaches to answers.
    pub fn mark(&self) -> (r: FlowMark)
        ensures
            r == self.mark,
    {
        self.mark
    }

    /// The answer filter of this rule.
    pub fn filter_mode(&self) -> (r: FilterResult)
        ensures
            r == self.filter,
    {
        self.filter
    }

    /// The rule as handed back to diagnostics callers.
    pub fn get_runtime_config(&self) -> (r: DnsRule)
        ensures
            r@ == self@,
    {
        self.duplicate()
    }
}

/// Some rule in `s` carries the index `k`.
pub open spec fn has_index(s: Seq<DnsRule>, k: u32) -> bool {
    exists|i: int| 0 <= i < s.len() && (#[trigger] s[i]).index == k
}

/// `r` is the image of the last rule in `input` that carries `r`'s index.
pub open spec fn is_last_with_index(input: Seq<DnsRule>, r: DnsRuleV) -> bool {
    exists|j: int|
        0 <= j < input.len() && (#[trigger] input[j])@ == r && (forall|l: int|
            j < l < input.len() ==> (#[trigger] input[l]).index != r.index)
}

/// The rule set the resolver walks: rules held in strictly ascending
/// index order, one rule per index.
pub struct DnsRuleSet {
    pub rules: Vec<DnsRule>,
}

impl DnsRuleSet {
    /// Indexes strictly ascend through the vector.
    pub open spec fn wf(&self) -> bool {
        forall|i: int, j: int|
            0 <= i < j < self.rules@.len() ==> (#[trigger] self.rules@[i]).index < (
            #[trigger] self.rules@[j]).index
    }

    /// Builds the set from a list of rules: rules are keyed by index, a
    /// later rule with the same index replaces an earlier one, and the
    /// result is ordered by ascending index.
    pub fn from_rules(dns_rules: Vec<DnsRule>) -> (r: DnsRuleSet)
        ensures
            r.wf(),
            forall|k: u32| has_index(r.rules@, k) <==> has_index(dns_rules@, k),
            forall|p: int|
                0 <= p < r.rules@.len() ==> is_last_with_index(
                    dns_rules@,
                    (#[trigger] r.rules@[p])@,
                ),
    {
        let ghost orig: Seq<DnsRule> = dns_rules@;
        let ghost n0: int = dns_rules@.len() as int;
        let mut dns_rules = dns_rules;
        let mut out: Vec<DnsRule> = Vec::new();
        while dns_rules.len() > 0
            invariant
                dns_rules@ == orig.take(dns_rules@.len() as int),
                dns_rules@.len() <= n0,
                orig.len() == n0,
                forall|i: int, j: int|
                    0 <= i < j < out@.len() ==> (#[trigger] out@[i]).index < (
                    #[trigger] out@[j]).index,
                forall|k: u32|
                    has_index(out@, k) <==> exists|i: int|
                        dns_rules@.len() <= i < n0 && (#[trigger] orig[i]).index == k,
                forall|p: int|
                    0 <= p < out@.len() ==> exists|j: int|
                        dns_rules@.len() <= j < n0 && (#[trigger] orig[j])@ == (
                        #[trigger] out@[p])@ && (forall|l: int|
                            j < l < n0 ==> (#[trigger] orig[l]).index != out@[p].index),
            decreases dns_rules.len(),
        {
            let ghost cur: int = dns_rules@.len() as int;
            let rule = match dns_rules.pop() {
                Some(rl) => rl,
                None => {
                    proof {
                        assert(false);
                    }
                    return DnsRuleSet { rules: out };
                },
            };
            proof {
                assert(orig.take(cur).last() == orig[cur - 1]);
                assert(orig.take(cur).drop_last() =~= orig.take(cur - 1));
            }
            let mut present: bool = false;
            let mut q: usize = 0;
            while q < out.len()
                invariant
                    q <= out@.len(),
                    present == exists|t: int| 0 <= t < q && (#[trigger] out@[t]).index
                        == rule.index,
                decreases out.len() - q,
            {
                if out[q].index == rule.index {
                    present = true;
                }
                q = q + 1;
            }
            proof {
                assert(present == has_index(out@, rule.index));
                assert(rule == orig[cur - 1]);
            }
            if !present {
                let ghost old_out = out@;
                Self::insert_sorted(&mut out, rule);
                proof {
                    let p = choose|p: int|
                        0 <= p <= old_out.len() && out@ == old_out.insert(p, rule);
                    old_out.insert_ensures(p, rule);
                    assert forall|k: u32| has_index(out@, k) implies (exists|i: int|
                        cur - 1 <= i < n0 && (#[trigger] orig[i]).index == k) by {
                        let t = choose|t: int|
                            0 <= t < out@.len() && (#[trigger] out@[t]).index == k;
                        if t == p {
                            assert(orig[cur - 1].index == k);
                        } else {
                            let t0 = if t < p {
                                t
                            } else {
                                t - 1
                            };
                            assert(out@[t] == old_out[t0]);
                            assert(has_index(old_out, k));
                        }
                    }
                    assert forall|k: u32| (exists|i: int|
                        cur - 1 <= i < n0 && (#[trigger] orig[i]).index == k) implies has_index(
                        out@,
                        k,
                    ) by {
                        let i = choose|i: int|
                            cur - 1 <= i < n0 && (#[trigger] orig[i]).index == k;
                        if i == cur - 1 {
                            assert(out@[p].index == k);
                        } else {
                            assert(has_index(old_out, k));
                            let t = choose|t: int|
                                0 <= t < old_out.len() && (#[trigger] old_out[t]).index == k;
                            let t2 = if t < p {
                                t
                            } else {
                                t + 1
                            };
                            assert(out@[t2].index == k);
                        }
                    }
                    assert forall|pp: int| #![trigger out@[pp]] 0 <= pp < out@.len() implies exists|j: int|
                        cur - 1 <= j < n0 && (#[trigger] orig[j])@ == out@[pp]@ && (forall|l: int|
                            j < l < n0 ==> (#[trigger] orig[l]).index != out@[pp].index) by {
                        if pp == p {
                            assert forall|l: int| cur - 1 < l < n0 implies (
                            #[trigger] orig[l]).index != rule.index by {
                                if orig[l].index == rule.index {
                                    assert(exists|i: int|
                                        cur <= i < n0 && (#[trigger] orig[i]).index
                                            == rule.index);
                                    assert(has_index(old_out, rule.index));
                                }
                            }
                            assert(cur - 1 <= cur - 1 < n0 && orig[cur - 1]@ == out@[pp]@ && (
                            forall|l: int|
                                cur - 1 < l < n0 ==> (#[trigger] orig[l]).index
                                    != out@[pp].index));
                        } else {
                            let pp0 = if pp < p {
                                pp
                            } else {
                                pp - 1
                            };
                            assert(out@[pp] == old_out[pp0]);
                            let j = choose|j: int|
                                cur <= j < n0 && (#[trigger] orig[j])@ == old_out[pp0]@ && (
                                forall|l: int|
                                    j < l < n0 ==> (#[trigger] orig[l]).index
                                        != old_out[pp0].index);
                            assert(cur - 1 <= j < n0 && orig[j]@ == out@[pp]@ && (forall|l: int|
                                j < l < n0 ==> (#[trigger] orig[l]).index != out@[pp].index));
                        }
                    }
                }
            } else {
                proof {
                    assert forall|k: u32| (exists|i: int|
                        cur - 1 <= i < n0 && (#[trigger] orig[i]).index == k) implies has_index(
                        out@,
                        k,
                    ) by {
                        let i = choose|i: int|
                            cur - 1 <= i < n0 && (#[trigger] orig[i]).index == k;
                        if i == cur - 1 {
                            assert(has_index(out@, rule.index));
                        }
                    }
                    assert forall|k: u32| has_index(out@, k) implies (exists|i: int|
                        cur - 1 <= i < n0 && (#[trigger] orig[i]).index == k) by {
                        let i = choose|i: int|
                            cur <= i < n0 && (#[trigger] orig[i]).index == k;
                        assert(cur - 1 <= i < n0);
                    }
                    assert forall|pp: int| #![trigger out@[pp]] 0 <= pp < out@.len() implies exists|j: int|
                        cur - 1 <= j < n0 && (#[trigger] orig[j])@ == out@[pp]@ && (forall|l: int|
                            j < l < n0 ==> (#[trigger] orig[l]).index != out@[pp].index) by {
                        let j = choose|j: int|
                            cur <= j < n0 && (#[trigger] orig[j])@ == out@[pp]@ && (forall|l: int|
                                j < l < n0 ==> (#[trigger] orig[l]).index != out@[pp].index);
                        assert(cur - 1 <= j < n0);
                    }
                }
            }
        }
        proof {
            assert(orig.take(0int) =~= Seq::<DnsRule>::empty());
        }
        DnsRuleSet { rules: out }
    }

    /// Inserts a rule whose index is not yet present, keeping the vector
    /// ordered by ascending index.
    fn insert_sorted(out: &mut Vec<DnsRule>, rule: DnsRule)
        requires
            forall|i: int, j: int|
                0 <= i < j < old(out)@.len() ==> (#[trigger] old(out)@[i]).index < (
                #[trigger] old(out)@[j]).index,
            !has_index(old(out)@, rule.index),
        ensures
            exists|p: int|
                0 <= p <= old(out)@.len() && final(out)@ == old(out)@.insert(p, rule),
            forall|i: int, j: int|
                0 <= i < j < final(out)@.len() ==> (#[trigger] final(out)@[i]).index < (
                #[trigger] final(out)@[j]).index,
    {
        let mut pos: usize = 0;
        while pos < out.len() && out[pos].index < rule.index
            invariant
                pos <= out@.len(),
                forall|j: int| 0 <= j < pos ==> (#[trigger] out@[j]).index < rule.index,
            decreases out.len() - pos,
        {
            pos = pos + 1;
        }
        proof {
            assert forall|j: int| pos <= j < out@.len() implies (#[trigger] out@[j]).index
                > rule.index by {
                if out@[j].index == rule.index {
                    assert(has_index(out@, rule.index));
                }
                if j > pos {
                    assert(out@[pos as int].index < out@[j].index);
                    if out@[pos as int].index == rule.index {
                        assert(has_index(out@, rule.index));
                    }
                }
            }
        }
        out.insert(pos, rule);
        proof {
            let old_seq = old(out)@;
            let new_seq = out@;
            assert(new_seq == old_seq.insert(pos as int, rule));
            assert forall|i: int, j: int| 0 <= i < j < new_seq.len() implies (
            #[trigger] new_seq[i]).index < (#[trigger] new_seq[j]).index by {
                assert(new_seq[i] == if i < pos {
                    old_seq[i]
                } else if i == pos {
                    rule
                } else {
                    old_seq[i - 1]
                });
                assert(new_seq[j] == if j < pos {
                    old_seq[j]
                } else if j == pos {
                    rule
                } else {
                    old_seq[j - 1]
                });
            }
        }
    }

    /// The position of the first rule that matches `domain`, walking the
    /// rules in ascending index order.
    pub fn match_rule(&self, domain: &Vec<u8>) -> (r: Option<usize>)
        ensures
            match r {
                Some(i) => i < self.rules@.len() && rule_matches(self.rules@[i as int]@, domain@)
                    && forall|j: int|
                    0 <= j < i ==> !rule_matches((#[trigger] self.rules@[j])@, domain@),
                None => forall|j: int|
                    0 <= j < self.rules@.len() ==> !rule_matches(
                        (#[trigger] self.rules@[j])@,
                        domain@,
                    ),
            },
    {
        let mut i: usize = 0;
        while i < self.rules.len()
            invariant
                i <= self.rules@.len(),
                forall|j: int|
                    0 <= j < i ==> !rule_matches((#[trigger] self.rules@[j])@, domain@),
            decreases self.rules.len() - i,
        {
            if self.rules[i].is_match(domain) {
                return Some(i);
            }
            i = i + 1;
        }
        None
    }

    /// How many rules the set holds.
    pub fn len(&self) -> (r: usize)
        ensures
            r == self.rules@.len(),
    {
        self.rules.len()
    }
}

/// Law: among all rules of a well-formed rule set that match a domain,
/// the first match carries the smallest index.
pub proof fn lemma_first_match_has_smallest_index(
    s: DnsRuleSet,
    domain: Seq<u8>,
    i: int,
    j: int,
)
    requires
        s.wf(),
        0 <= i < s.rules@.len(),
        0 <= j < s.rules@.len(),
        rule_matches(s.rules@[i]@, domain),
        forall|l: int| 0 <= l < i ==> !rule_matches((#[trigger] s.rules@[l])@, domain),
        rule_matches(s.rules@[j]@, domain),
    ensures
        s.rules@[i].index <= s.rules@[j].index,
{
    if j < i {
        assert(!rule_matches(s.rules@[j]@, domain));
    } else if i < j {
        assert(s.rules@[i].index < s.rules@[j].index);
    }
}

} // verus!
