//! The blocking engine: which domains are blocked, for whom, and why.
use vstd::hash_map::StringHashMap;
use vstd::hash_set::StringHashSet;
use vstd::prelude::*;
use vstd::slice::*;
use vstd::string::*;

use crate::blocklist::cache::{decision_entry, is_block, looked_up, BlocklistCache};
use crate::blocklist::fst_map;
use crate::blocklist::fst_map::FstMap;
use crate::blocklist::matching;
use crate::blocklist::matching::{any_match, match_at, patterns, wild_hit, DomainSet};
use crate::blocklist::parser::AdblockStats;
use crate::blocklist::refresh;
use crate::blocklist::refresh::{sanitized, ListSetRefresh};
use crate::blocklist::store::{stored_keys, ListStore, StoredList};
use crate::blocklist::suffix;
use crate::blocklist::suffix::{label_suffix, matched_in, matched_in_bytes, normalised};
use crate::blocklist::wildcard::{
    matches_everything, pattern_refusal, regex_language, wildcard_expression, wildcard_matches, Wildcard,
};
use crate::clients::{client_key, normalize_client_key};
use crate::config::{
    client_keys, normalize_client_keys, AllowlistConfig, BlocklistConfig, BlocklistProfileConfig, ListConfig,
};
use crate::error::{config_error, FeriteError, Result};
use crate::lru_cache;
use crate::lru_cache::{after_put, has_key, key_index, without_key, Entry};
use crate::text;
use crate::text::{flat_map, texts};

verus! {

/// What a device profile holds.
pub ghost struct ProfileView {
    /// The clients to which it applies.
    pub clients: Set<Seq<char>>,
    /// The encoded names of its block lists.
    pub fst: Set<Seq<u8>>,
    pub allow_exact: Set<Seq<char>>,
    pub allow_wild: Seq<Seq<char>>,
    pub block_exact: Set<Seq<char>>,
    pub block_wild: Seq<Seq<char>>,
    /// The encoded names of its allow lists; none where the global ones apply.
    pub allow_fst: Option<Set<Seq<u8>>>,
    pub default_deny: bool,
}

/// What the engine holds, apart from its caches.
pub ghost struct BlocklistView {
    pub enabled: bool,
    /// The encoded names of all block lists.
    pub fst: Set<Seq<u8>>,
    pub wildcard_block: Seq<Seq<char>>,
    pub profiles: Seq<ProfileView>,
    pub profiles_config: Seq<BlocklistProfileConfig>,
    pub client_bypass: Set<Seq<char>>,
    pub whitelist: Set<Seq<char>>,
    pub whitelist_wild: Seq<Seq<char>>,
    pub blacklist: Set<Seq<char>>,
    pub blacklist_wild: Seq<Seq<char>>,
    pub lists: Seq<ListConfig>,
    pub domain_counts: Map<Seq<char>, usize>,
    pub adblock_stats: Map<Seq<char>, AdblockStats>,
    /// The encoded names of all allow lists.
    pub allow_fst: Set<Seq<u8>>,
    pub allow_lists: Seq<ListConfig>,
    pub allow_domain_counts: Map<Seq<char>, usize>,
    pub allow_adblock_stats: Map<Seq<char>, AdblockStats>,
    pub local_zones: Seq<Seq<char>>,
}

impl BlocklistView {
    /// The profile with an index; none where there is no such profile.
    pub open spec fn profile(self, p: Option<usize>) -> Option<ProfileView> {
        match p {
            Some(i) if i < self.profiles.len() => Some(self.profiles[i as int]),
            _ => None,
        }
    }
}

/// Whether the block rules cover a domain, with the given list names: the manual
/// block list or a list covers it, or a wildcard matches.
pub open spec fn blocked_in(v: BlocklistView, d: Seq<char>, fst: Set<Seq<u8>>) -> bool {
    ||| matched_in(d, v.blacklist) is Some
    ||| wild_hit(v.blacklist_wild, d)
    ||| matched_in_bytes(d, fst) is Some
    ||| wild_hit(v.wildcard_block, d)
}

/// The list names that apply with a profile.
pub open spec fn list_names(v: BlocklistView, p: Option<ProfileView>) -> Set<Seq<u8>> {
    match p {
        Some(q) => q.fst,
        None => v.fst,
    }
}

/// The profile itself allows the domain.
pub open spec fn profile_allows(p: ProfileView, d: Seq<char>) -> bool {
    matched_in(d, p.allow_exact) is Some || wild_hit(p.allow_wild, d)
}

/// The profile itself blocks the domain.
pub open spec fn profile_blocks(p: ProfileView, d: Seq<char>) -> bool {
    matched_in(d, p.block_exact) is Some || wild_hit(p.block_wild, d)
}

/// The names of the allow lists that apply with a profile.
pub open spec fn allow_names(v: BlocklistView, p: Option<ProfileView>) -> Set<Seq<u8>> {
    match p {
        Some(q) => match q.allow_fst {
            Some(a) => a,
            None => v.allow_fst,
        },
        None => v.allow_fst,
    }
}

/// The domain is exempt: by a manual entry, or by an allow list that applies.
pub open spec fn whitelisted_for(v: BlocklistView, d: Seq<char>, p: Option<ProfileView>) -> bool {
    ||| matched_in(d, v.whitelist) is Some
    ||| wild_hit(v.whitelist_wild, d)
    ||| matched_in_bytes(d, allow_names(v, p)) is Some
}

/// The suffixes of local networks.
pub open spec fn local_suffix(d: Seq<char>) -> bool {
    ||| label_suffix(d, "arpa"@)
    ||| label_suffix(d, "local"@)
    ||| label_suffix(d, "localhost"@)
    ||| label_suffix(d, "localdomain"@)
    ||| label_suffix(d, "internal"@)
    ||| label_suffix(d, "lan"@)
    ||| label_suffix(d, "home"@)
}

/// Names of the local network: without a dot, with a local suffix, or in a
/// configured zone.
pub open spec fn local_infra(v: BlocklistView, d: Seq<char>) -> bool {
    ||| !d.contains('.')
    ||| local_suffix(d)
    ||| exists|i: int| 0 <= i < v.local_zones.len() && label_suffix(d, #[trigger] v.local_zones[i])
}

/// Whether a domain is blocked for a client with the given profile. From the most
/// to the least specific: the profile's own allowances, its own blocks, the
/// exemptions, its default denial of all but local names, and the block rules.
pub open spec fn should_block(v: BlocklistView, d: Seq<char>, p: Option<ProfileView>) -> bool {
    if p is Some && profile_allows(p->0, d) {
        false
    } else if p is Some && profile_blocks(p->0, d) {
        true
    } else if whitelisted_for(v, d, p) {
        false
    } else if p is Some && p->0.default_deny && !local_infra(v, d) {
        true
    } else {
        blocked_in(v, d, list_names(v, p))
    }
}

/// Every remembered decision is the one that the rules make now.
pub open spec fn coherent(s: Seq<Entry>, v: BlocklistView, fst: Set<Seq<u8>>) -> bool {
    forall|i: int| 0 <= i < s.len() ==> is_block(#[trigger] s[i]) == blocked_in(v, s[i].key, fst)
}

proof fn lemma_coherent_empty(s: Seq<Entry>, v: BlocklistView, fst: Set<Seq<u8>>)
    requires
        s.len() == 0,
    ensures
        coherent(s, v, fst),
{
}

proof fn lemma_coherent_without(s: Seq<Entry>, key: Seq<char>, v: BlocklistView, fst: Set<Seq<u8>>)
    requires
        coherent(s, v, fst),
    ensures
        coherent(without_key(s, key), v, fst),
{
    lru_cache::lemma_without_key(s, key);
    let w = without_key(s, key);
    assert forall|i: int| 0 <= i < w.len() implies is_block(#[trigger] w[i]) == blocked_in(v, w[i].key, fst) by {
        assert(s.contains(w[i]));
        let j = choose|j: int| 0 <= j < s.len() && s[j] == w[i];
        assert(is_block(s[j]) == blocked_in(v, s[j].key, fst));
    }
}

proof fn lemma_coherent_lookup(
    s: Seq<Entry>,
    key: Seq<char>,
    now: u64,
    r: Option<bool>,
    after: Seq<Entry>,
    v: BlocklistView,
    fst: Set<Seq<u8>>,
)
    requires
        coherent(s, v, fst),
        looked_up(s, key, now, r, after),
    ensures
        coherent(after, v, fst),
        r is Some ==> r->0 == blocked_in(v, key, fst),
{
    lemma_coherent_without(s, key, v, fst);
    if has_key(s, key) {
        let k = key_index(s, key);
        assert(0 <= k < s.len() && s[k].key == key);
        let e = s[k];
        let w = without_key(s, key);
        assert(is_block(e) == blocked_in(v, key, fst));
        let t = seq![e] + w;
        assert forall|i: int| 0 <= i < t.len() implies is_block(#[trigger] t[i]) == blocked_in(v, t[i].key, fst) by {
            if i > 0 {
                assert(t[i] == w[i - 1]);
            }
        }
    }
}

proof fn lemma_coherent_put(
    s: Seq<Entry>,
    capacity: nat,
    e: Entry,
    v: BlocklistView,
    fst: Set<Seq<u8>>,
)
    requires
        coherent(s, v, fst),
        capacity > 0,
        is_block(e) == blocked_in(v, e.key, fst),
    ensures
        coherent(after_put(s, capacity, e), v, fst),
{
    lemma_coherent_without(s, e.key, v, fst);
    let w = without_key(s, e.key);
    let t = after_put(s, capacity, e);
    assert forall|i: int| 0 <= i < t.len() implies is_block(#[trigger] t[i]) == blocked_in(v, t[i].key, fst) by {
        if i > 0 {
            if has_key(s, e.key) || s.len() < capacity {
                assert(t[i] == w[i - 1]);
            } else {
                assert(t[i] == s[i - 1]);
            }
        }
    }
}

/// A device profile in the form in which it is consulted.
pub struct CompiledProfile {
    clients: StringHashSet,
    fst: FstMap,
    cache: BlocklistCache,
    allow_exact: StringHashSet,
    allow_wild: Vec<Wildcard>,
    block_exact: StringHashSet,
    block_wild: Vec<Wildcard>,
    allow_fst: Option<FstMap>,
    default_deny: bool,
}

impl View for CompiledProfile {
    type V = ProfileView;

    closed spec fn view(&self) -> ProfileView {
        ProfileView {
            clients: self.clients@,
            fst: self.fst.keys(),
            allow_exact: self.allow_exact@,
            allow_wild: patterns(self.allow_wild@),
            block_exact: self.block_exact@,
            block_wild: patterns(self.block_wild@),
            allow_fst: match self.allow_fst {
                Some(m) => Some(m.keys()),
                None => None,
            },
            default_deny: self.default_deny,
        }
    }
}

impl CompiledProfile {
    closed spec fn coherent_with(&self, v: BlocklistView) -> bool {
        self.cache.wf() && coherent(self.cache.entries(), v, self.fst.keys())
    }

    /// Whether the profile applies to a client, by canonical keys.
    fn matches_client(&self, client_ip: &str, mac: Option<&str>) -> (r: bool)
        ensures
            r == serves(self@, client_ip@, opt_view(mac)),
    {
        self.clients.contains(client_ip) || match mac {
            Some(m) => self.clients.contains(m),
            None => false,
        }
    }

    fn allows(&self, domain: &str) -> (r: bool)
        ensures
            r == profile_allows(self@, domain@),
    {
        matching::find_in_set(domain, &self.allow_exact).is_some() || any_match(&self.allow_wild, domain)
    }

    fn blocks(&self, domain: &str) -> (r: bool)
        ensures
            r == profile_blocks(self@, domain@),
    {
        matching::find_in_set(domain, &self.block_exact).is_some() || any_match(&self.block_wild, domain)
    }
}

/// The view of an optional text.
pub open spec fn opt_view(s: Option<&str>) -> Option<Seq<char>> {
    match s {
        Some(t) => Some(t@),
        None => None,
    }
}

/// The profile applies to the client with this address or hardware address.
pub open spec fn serves(p: ProfileView, client_ip: Seq<char>, mac: Option<Seq<char>>) -> bool {
    p.clients.contains(client_ip) || (mac is Some && p.clients.contains(mac->0))
}

/// The blocking engine.
pub struct Blocklist {
    enabled: bool,
    fst: FstMap,
    wildcards: Vec<Wildcard>,
    profiles: Vec<CompiledProfile>,
    profiles_config: Vec<BlocklistProfileConfig>,
    client_bypass: StringHashSet,
    whitelist: DomainSet,
    whitelist_wildcards: Vec<Wildcard>,
    blacklist: DomainSet,
    blacklist_wildcards: Vec<Wildcard>,
    cache: BlocklistCache,
    lists: Vec<ListConfig>,
    domain_counts: StringHashMap<usize>,
    adblock_stats: StringHashMap<AdblockStats>,
    allow_fst: FstMap,
    allow_lists: Vec<ListConfig>,
    allow_domain_counts: StringHashMap<usize>,
    allow_adblock_stats: StringHashMap<AdblockStats>,
    local_zones: Vec<String>,
}

/// The views of compiled profiles.
pub open spec fn profile_views(ps: Seq<CompiledProfile>) -> Seq<ProfileView> {
    ps.map_values(|p: CompiledProfile| p@)
}

impl View for Blocklist {
    type V = BlocklistView;

    closed spec fn view(&self) -> BlocklistView {
        BlocklistView {
            enabled: self.enabled,
            fst: self.fst.keys(),
            wildcard_block: patterns(self.wildcards@),
            profiles: profile_views(self.profiles@),
            profiles_config: self.profiles_config@,
            client_bypass: self.client_bypass@,
            whitelist: self.whitelist@,
            whitelist_wild: patterns(self.whitelist_wildcards@),
            blacklist: self.blacklist@,
            blacklist_wild: patterns(self.blacklist_wildcards@),
            lists: self.lists@,
            domain_counts: self.domain_counts@,
            adblock_stats: self.adblock_stats@,
            allow_fst: self.allow_fst.keys(),
            allow_lists: self.allow_lists@,
            allow_domain_counts: self.allow_domain_counts@,
            allow_adblock_stats: self.allow_adblock_stats@,
            local_zones: texts(self.local_zones@),
        }
    }
}

impl Blocklist {
    /// The caches agree with the rules: no remembered decision differs from the
    /// one that would be made now.
    pub closed spec fn wf(&self) -> bool {
        &&& self.whitelist.wf()
        &&& self.blacklist.wf()
        &&& self.cache.wf()
        &&& coherent(self.cache.entries(), self@, self.fst.keys())
        &&& forall|i: int| 0 <= i < self.profiles@.len() ==> (#[trigger] self.profiles@[i]).coherent_with(self@)
    }

    /// Whether blocking is on.
    pub fn blocking_enabled(&self) -> (r: bool)
        ensures
            r == self@.enabled,
    {
        self.enabled
    }

    /// The block decision for a set of list names: manual block list, lists and
    /// wildcards, each with the domain's parents.
    fn check_blocked_in(&self, domain: &str, fst: &FstMap) -> (r: bool)
        ensures
            r == blocked_in(self@, domain@, fst.keys()),
    {
        self.blacklist.find_match(domain).is_some() || any_match(&self.blacklist_wildcards, domain)
            || matching::find_in_map(domain, fst).is_some() || any_match(&self.wildcards, domain)
    }

    /// Whether the block rules cover a normalised domain, for clients without a profile.
    pub fn is_blocked_normalized(&mut self, domain: &str) -> (r: bool)
        requires
            old(self).wf(),
        ensures
            final(self).wf(),
            final(self)@ == old(self)@,
            r == blocked_in(old(self)@, domain@, old(self)@.fst),
    {
        let ghost v = self@;
        let ghost before = self.cache.entries();
        let ghost fst = self.fst.keys();
        let cached = self.cache.get(domain);
        assert(self@ == v);
        proof {
            let now = choose|now: u64| #[trigger] looked_up(before, domain@, now, cached, self.cache.entries());
            lemma_coherent_lookup(before, domain@, now, cached, self.cache.entries(), v, fst);
        }
        match cached {
            Some(b) => b,
            None => {
                let result = self.check_blocked_in(domain, &self.fst);
                let ghost entries = self.cache.entries();
                let ghost capacity = self.cache.capacity();
                self.cache.insert(domain, result);
                assert(self@ == v);
                proof {
                    let now = choose|now: u64|
                        self.cache.entries() == after_put(
                            entries,
                            capacity,
                            #[trigger] decision_entry(domain@, result, now),
                        );
                    lemma_coherent_put(entries, capacity, decision_entry(domain@, result, now), v, fst);
                }
                result
            },
        }
    }
    proof fn lemma_profile_swap(before: Seq<CompiledProfile>, after: Seq<CompiledProfile>, i: int)
        requires
            0 <= i < before.len(),
            after.len() == before.len(),
            after[i]@ == before[i]@,
            forall|j: int| 0 <= j < before.len() && j != i ==> after[j] == before[j],
        ensures
            profile_views(after) == profile_views(before),
    {
        assert(profile_views(after) =~= profile_views(before));
    }

    /// Whether the block rules cover a normalised domain, for clients with the
    /// profile of the given index, if there is one.
    pub fn is_blocked_for_normalized(&mut self, domain: &str, profile: Option<usize>) -> (r: bool)
        requires
            old(self).wf(),
        ensures
            final(self).wf(),
            final(self)@ == old(self)@,
            r == blocked_in(old(self)@, domain@, list_names(old(self)@, old(self)@.profile(profile))),
    {
        let i: usize = match profile {
            Some(i) if i < self.profiles.len() => i,
            _ => {
                return self.is_blocked_normalized(domain);
            },
        };
        let ghost v = self@;
        let ghost ps = self.profiles@;
        let ghost fst = ps[i as int].fst.keys();
        let ghost entries = ps[i as int].cache.entries();
        assert(ps[i as int].coherent_with(v));
        assert(v.profiles[i as int] == ps[i as int]@);
        let cached = self.profiles[i].cache.get(domain);
        let ghost ps1 = self.profiles@;
        proof {
            Self::lemma_profile_swap(ps, ps1, i as int);
            assert(self@ == v);
            let now = choose|now: u64| #[trigger]
                looked_up(entries, domain@, now, cached, ps1[i as int].cache.entries());
            lemma_coherent_lookup(entries, domain@, now, cached, ps1[i as int].cache.entries(), v, fst);
            assert forall|j: int| 0 <= j < ps1.len() implies (#[trigger] ps1[j]).coherent_with(v) by {
                if j != i {
                    assert(ps[j].coherent_with(v));
                }
            }
        }
        match cached {
            Some(b) => b,
            None => {
                let result = self.check_blocked_in(domain, &self.profiles[i].fst);
                let ghost e1 = ps1[i as int].cache.entries();
                let ghost capacity = ps1[i as int].cache.capacity();
                self.profiles[i].cache.insert(domain, result);
                proof {
                    let ps2 = self.profiles@;
                    Self::lemma_profile_swap(ps1, ps2, i as int);
                    assert(self@ == v);
                    let e2 = ps2[i as int].cache.entries();
                    let now = choose|now: u64|
                        e2 == after_put(e1, capacity, #[trigger] decision_entry(domain@, result, now));
                    lemma_coherent_put(e1, capacity, decision_entry(domain@, result, now), v, fst);
                    assert forall|j: int| 0 <= j < ps2.len() implies (#[trigger] ps2[j]).coherent_with(v) by {
                        if j != i {
                            assert(ps1[j].coherent_with(v));
                        }
                    }
                }
                result
            },
        }
    }

    /// Whether a normalised domain is exempt, for clients with the given profile.
    pub fn is_whitelisted_for_normalized(&self, domain: &str, profile: Option<usize>) -> (r: bool)
        ensures
            r == whitelisted_for(self@, domain@, self@.profile(profile)),
    {
        if self.whitelist.find_match(domain).is_some() || any_match(&self.whitelist_wildcards, domain) {
            return true;
        }
        match profile {
            Some(i) if i < self.profiles.len() => {
                assert(self@.profiles[i as int] == self.profiles@[i as int]@);
                match &self.profiles[i].allow_fst {
                    Some(m) => matching::find_in_map(domain, m).is_some(),
                    None => matching::find_in_map(domain, &self.allow_fst).is_some(),
                }
            },
            _ => matching::find_in_map(domain, &self.allow_fst).is_some(),
        }
    }

    /// Whether a normalised domain is exempt for clients without a profile.
    pub fn is_whitelisted_normalized(&self, domain: &str) -> (r: bool)
        ensures
            r == whitelisted_for(self@, domain@, None),
    {
        self.is_whitelisted_for_normalized(domain, None)
    }

    /// Whether a domain is exempt for clients without a profile.
    pub fn is_whitelisted(&self, domain: &str) -> (r: bool)
        ensures
            r == whitelisted_for(self@, normalised(domain@), None),
    {
        let d = suffix::normalise_domain(domain);
        self.is_whitelisted_normalized(d.as_str())
    }

    /// Whether the block rules cover a domain, for clients without a profile.
    pub fn is_blocked(&mut self, domain: &str) -> (r: bool)
        requires
            old(self).wf(),
        ensures
            final(self).wf(),
            final(self)@ == old(self)@,
            r == blocked_in(old(self)@, normalised(domain@), old(self)@.fst),
    {
        let d = suffix::normalise_domain(domain);
        self.is_blocked_normalized(d.as_str())
    }

    /// Whether a domain is explicitly allowed for a client: exempt, or allowed by
    /// the client's profile.
    pub fn is_allowed_for(&self, domain: &str, profile: Option<usize>) -> (r: bool)
        ensures
            r == explicitly_allowed(self@, domain@, self@.profile(profile)),
    {
        if let Some(i) = profile {
            if i < self.profiles.len() {
                assert(self@.profiles[i as int] == self.profiles@[i as int]@);
                if self.profiles[i].allows(domain) {
                    return true;
                }
            }
        }
        self.is_whitelisted_for_normalized(domain, profile)
    }

    /// The whole decision for a query.
    pub fn should_block_for(&mut self, domain: &str, profile: Option<usize>) -> (r: bool)
        requires
            old(self).wf(),
        ensures
            final(self).wf(),
            final(self)@ == old(self)@,
            r == should_block(old(self)@, domain@, old(self)@.profile(profile)),
    {
        let mut deny = false;
        if let Some(i) = profile {
            if i < self.profiles.len() {
                assert(self@.profiles[i as int] == self.profiles@[i as int]@);
                if self.profiles[i].allows(domain) {
                    return false;
                }
                if self.profiles[i].blocks(domain) {
                    return true;
                }
                deny = self.profiles[i].default_deny;
            }
        }
        if self.is_whitelisted_for_normalized(domain, profile) {
            return false;
        }
        // A local name falls through to the block rules: it is not denied by
        // default, yet a rule that names it still holds.
        if deny && !self.is_local_infra(domain) {
            return true;
        }
        self.is_blocked_for_normalized(domain, profile)
    }

    /// Whether a name belongs to the local network.
    fn is_local_infra(&self, domain: &str) -> (r: bool)
        ensures
            r == local_infra(self@, domain@),
    {
        let cs = text::chars_of(domain);
        if text::find_char(cs.as_slice(), '.') == cs.len() {
            return true;
        }
        if suffix::has_suffix(domain, "arpa") || suffix::has_suffix(domain, "local") || suffix::has_suffix(
            domain,
            "localhost",
        ) || suffix::has_suffix(domain, "localdomain") || suffix::has_suffix(domain, "internal") || suffix::has_suffix(
            domain,
            "lan",
        ) || suffix::has_suffix(domain, "home") {
            return true;
        }
        let mut i: usize = 0;
        while i < self.local_zones.len()
            invariant
                i <= self.local_zones@.len(),
                domain@.contains('.'),
                !local_suffix(domain@),
                forall|j: int| 0 <= j < i ==> !label_suffix(domain@, #[trigger] self@.local_zones[j]),
            decreases self.local_zones@.len() - i,
        {
            assert(self@.local_zones[i as int] == self.local_zones@[i as int]@);
            if suffix::has_suffix(domain, self.local_zones[i].as_str()) {
                return true;
            }
            i = i + 1;
        }
        false
    }

    /// Registers the zones of the local network.
    pub fn set_local_zones(&mut self, zones: &Vec<String>)
        requires
            old(self).wf(),
        ensures
            final(self).wf(),
            final(self)@ == (BlocklistView {
                local_zones: texts(zones@).map_values(|z: Seq<char>| normalised(z)),
                ..old(self)@
            }),
    {
        let ghost f = |z: Seq<char>| normalised(z);
        let mut out: Vec<String> = Vec::new();
        let mut i: usize = 0;
        while i < zones.len()
            invariant
                i <= zones@.len(),
                f == (|z: Seq<char>| normalised(z)),
                texts(out@) == texts(zones@).take(i as int).map_values(f),
            decreases zones@.len() - i,
        {
            let z = suffix::normalise_domain(zones[i].as_str());
            let ghost before = out@;
            out.push(z);
            proof {
                text::lemma_texts_push(before, z);
                assert(texts(zones@).take(i + 1).map_values(f) =~= texts(zones@).take(i as int).map_values(f).push(z@));
            }
            i = i + 1;
        }
        assert(texts(zones@).take(zones@.len() as int) == texts(zones@));
        let ghost v = self@;
        self.local_zones = out;
        proof {
            self.lemma_same_rules(v);
        }
    }

    /// Decisions depend on the block rules alone.
    proof fn lemma_same_rules(&self, v: BlocklistView)
        requires
            self@.blacklist == v.blacklist,
            self@.blacklist_wild == v.blacklist_wild,
            self@.wildcard_block == v.wildcard_block,
            coherent(self.cache.entries(), v, self.fst.keys()),
            forall|i: int| 0 <= i < self.profiles@.len() ==> (#[trigger] self.profiles@[i]).coherent_with(v),
        ensures
            coherent(self.cache.entries(), self@, self.fst.keys()),
            forall|i: int| 0 <= i < self.profiles@.len() ==> (#[trigger] self.profiles@[i]).coherent_with(self@),
    {
        assert forall|d: Seq<char>, fst: Set<Seq<u8>>| #[trigger]
            blocked_in(self@, d, fst) == blocked_in(v, d, fst) by {}
        assert forall|i: int| 0 <= i < self.profiles@.len() implies (#[trigger] self.profiles@[i]).coherent_with(
            self@,
        ) by {
            assert(self.profiles@[i].coherent_with(v));
        }
    }
}

/// The domain is exempt, or the profile allows it.
pub open spec fn explicitly_allowed(v: BlocklistView, d: Seq<char>, p: Option<ProfileView>) -> bool {
    (p is Some && profile_allows(p->0, d)) || whitelisted_for(v, d, p)
}

fn clear_profile_caches(ps: &mut Vec<CompiledProfile>)
    requires
        forall|i: int| 0 <= i < old(ps)@.len() ==> (#[trigger] old(ps)@[i]).cache.wf(),
    ensures
        profile_views(final(ps)@) == profile_views(old(ps)@),
        forall|i: int|
            0 <= i < final(ps)@.len() ==> (#[trigger] final(ps)@[i]).cache.wf() && final(ps)@[i].cache.entries().len() == 0,
{
    let ghost before = ps@;
    let mut i: usize = 0;
    while i < ps.len()
        invariant
            i <= ps@.len(),
            ps@.len() == before.len(),
            forall|j: int| 0 <= j < ps@.len() ==> (#[trigger] ps@[j]).cache.wf(),
            forall|j: int| 0 <= j < ps@.len() ==> (#[trigger] ps@[j])@ == before[j]@,
            forall|j: int| 0 <= j < i ==> (#[trigger] ps@[j]).cache.entries().len() == 0,
        decreases ps@.len() - i,
    {
        ps[i].cache.clear();
        i = i + 1;
    }
    assert(profile_views(ps@) =~= profile_views(before));
}

impl Blocklist {
    /// Forgets every remembered decision, the global ones and those of each
    /// profile: manual entries apply inside every profile.
    fn clear_decision_caches(&mut self)
        requires
            old(self).whitelist.wf(),
            old(self).blacklist.wf(),
            old(self).cache.wf(),
            forall|i: int| 0 <= i < old(self).profiles@.len() ==> (#[trigger] old(self).profiles@[i]).cache.wf(),
        ensures
            final(self).wf(),
            final(self)@ == old(self)@,
    {
        self.cache.clear();
        clear_profile_caches(&mut self.profiles);
        proof {
            lemma_coherent_empty(self.cache.entries(), self@, self.fst.keys());
            assert forall|i: int| 0 <= i < self.profiles@.len() implies (#[trigger] self.profiles@[i]).coherent_with(
                self@,
            ) by {
                lemma_coherent_empty(self.profiles@[i].cache.entries(), self@, self.profiles@[i].fst.keys());
            }
        }
    }

    /// Exempts a domain, or the domains that match a wildcard.
    pub fn add_whitelist(&mut self, domain: &str) -> (r: Result<()>)
        requires
            old(self).wf(),
        ensures
            final(self).wf(),
            r is Ok <==> acceptable_entry(normalised(domain@)),
            r matches Err(e) ==> final(self)@ == old(self)@ && pattern_refusal(normalised(domain@), e),
            r is Ok && normalised(domain@).contains('*') ==> final(self)@ == (BlocklistView {
                whitelist_wild: old(self)@.whitelist_wild.push(normalised(domain@)),
                ..old(self)@
            }),
            r is Ok && !normalised(domain@).contains('*') ==> final(self)@ == (BlocklistView {
                whitelist: old(self)@.whitelist.insert(normalised(domain@)),
                ..old(self)@
            }),
    {
        let d = suffix::normalise_domain(domain);
        proof {
            self.lemma_caches_wf();
        }
        if has_star(d.as_str()) {
            let w = match Wildcard::new(d.as_str()) {
                Ok(w) => w,
                Err(e) => {
                    return Err(e);
                },
            };
            let ghost before = self.whitelist_wildcards@;
            self.whitelist_wildcards.push(w);
            assert(patterns(self.whitelist_wildcards@) =~= patterns(before).push(d@));
        } else {
            self.whitelist.insert(d);
        }
        self.clear_decision_caches();
        Ok(())
    }

    /// Takes an exemption back.
    pub fn remove_whitelist(&mut self, domain: &str)
        requires
            old(self).wf(),
        ensures
            final(self).wf(),
            normalised(domain@).contains('*') ==> final(self)@ == (BlocklistView {
                whitelist_wild: without_pattern(old(self)@.whitelist_wild, normalised(domain@)),
                ..old(self)@
            }),
            !normalised(domain@).contains('*') ==> final(self)@ == (BlocklistView {
                whitelist: old(self)@.whitelist.remove(normalised(domain@)),
                ..old(self)@
            }),
    {
        let d = suffix::normalise_domain(domain);
        proof {
            self.lemma_caches_wf();
        }
        if has_star(d.as_str()) {
            matching::remove_pattern(&mut self.whitelist_wildcards, d.as_str());
            assert((|p: Seq<char>| p != d@) =~= (|p: Seq<char>| p != normalised(domain@)));
        } else {
            self.whitelist.remove(d.as_str());
        }
        self.clear_decision_caches();
    }

    /// Blocks a domain, or the domains that match a wildcard.
    pub fn add_blacklist(&mut self, domain: &str) -> (r: Result<()>)
        requires
            old(self).wf(),
        ensures
            final(self).wf(),
            r is Ok <==> acceptable_entry(normalised(domain@)),
            r matches Err(e) ==> final(self)@ == old(self)@ && pattern_refusal(normalised(domain@), e),
            r is Ok && normalised(domain@).contains('*') ==> final(self)@ == (BlocklistView {
                blacklist_wild: old(self)@.blacklist_wild.push(normalised(domain@)),
                ..old(self)@
            }),
            r is Ok && !normalised(domain@).contains('*') ==> final(self)@ == (BlocklistView {
                blacklist: old(self)@.blacklist.insert(normalised(domain@)),
                ..old(self)@
            }),
    {
        let d = suffix::normalise_domain(domain);
        proof {
            self.lemma_caches_wf();
        }
        if has_star(d.as_str()) {
            let w = match Wildcard::new(d.as_str()) {
                Ok(w) => w,
                Err(e) => {
                    return Err(e);
                },
            };
            let ghost before = self.blacklist_wildcards@;
            self.blacklist_wildcards.push(w);
            assert(patterns(self.blacklist_wildcards@) =~= patterns(before).push(d@));
        } else {
            self.blacklist.insert(d);
        }
        self.clear_decision_caches();
        Ok(())
    }

    /// Takes a manual block back.
    pub fn remove_blacklist(&mut self, domain: &str)
        requires
            old(self).wf(),
        ensures
            final(self).wf(),
            normalised(domain@).contains('*') ==> final(self)@ == (BlocklistView {
                blacklist_wild: without_pattern(old(self)@.blacklist_wild, normalised(domain@)),
                ..old(self)@
            }),
            !normalised(domain@).contains('*') ==> final(self)@ == (BlocklistView {
                blacklist: old(self)@.blacklist.remove(normalised(domain@)),
                ..old(self)@
            }),
    {
        let d = suffix::normalise_domain(domain);
        proof {
            self.lemma_caches_wf();
        }
        if has_star(d.as_str()) {
            matching::remove_pattern(&mut self.blacklist_wildcards, d.as_str());
            assert((|p: Seq<char>| p != d@) =~= (|p: Seq<char>| p != normalised(domain@)));
        } else {
            self.blacklist.remove(d.as_str());
        }
        self.clear_decision_caches();
    }

    proof fn lemma_caches_wf(&self)
        requires
            self.wf(),
        ensures
            forall|i: int| 0 <= i < self.profiles@.len() ==> (#[trigger] self.profiles@[i]).cache.wf(),
    {
        assert forall|i: int| 0 <= i < self.profiles@.len() implies (#[trigger] self.profiles@[i]).cache.wf() by {
            assert(self.profiles@[i].coherent_with(self@));
        }
    }

    /// The exempt domains and wildcards: the domains first, in no particular order.
    pub fn list_whitelist(&self) -> (r: Vec<String>)
        requires
            self.wf(),
        ensures
            listed(texts(r@), self@.whitelist, self@.whitelist_wild),
    {
        list_entries(&self.whitelist, &self.whitelist_wildcards)
    }

    /// The manually blocked domains and wildcards: the domains first, in no
    /// particular order.
    pub fn list_blacklist(&self) -> (r: Vec<String>)
        requires
            self.wf(),
        ensures
            listed(texts(r@), self@.blacklist, self@.blacklist_wild),
    {
        list_entries(&self.blacklist, &self.blacklist_wildcards)
    }
}

/// The texts are the members of the set, each once, and then the patterns.
pub open spec fn listed(t: Seq<Seq<char>>, exact: Set<Seq<char>>, wild: Seq<Seq<char>>) -> bool {
    exists|n: int|
        0 <= n <= t.len() && (#[trigger] t.take(n)).no_duplicates() && t.take(n).to_set() == exact && t.skip(n) == wild
}

fn list_entries(exact: &DomainSet, wild: &Vec<Wildcard>) -> (r: Vec<String>)
    requires
        exact.wf(),
    ensures
        listed(texts(r@), exact@, patterns(wild@)),
{
    let mut out = exact.to_vec();
    let ghost first = texts(out@);
    let mut i: usize = 0;
    assert(first + patterns(wild@).take(0) =~= first);
    while i < wild.len()
        invariant
            i <= wild@.len(),
            texts(out@) == first + patterns(wild@).take(i as int),
        decreases wild@.len() - i,
    {
        let ghost before = out@;
        let p = wild[i].pattern_text();
        out.push(p);
        proof {
            text::lemma_texts_push(before, p);
            assert(patterns(wild@).take(i + 1) =~= patterns(wild@).take(i as int).push(p@));
            assert(texts(out@) =~= first + patterns(wild@).take(i + 1));
        }
        i = i + 1;
    }
    proof {
        assert(patterns(wild@).take(wild@.len() as int) =~= patterns(wild@));
        let t = texts(out@);
        assert(t.take(first.len() as int) =~= first);
        assert(t.skip(first.len() as int) =~= patterns(wild@));
        assert(t.take(first.len() as int).no_duplicates());
    }
    out
}

/// An entry that can be added: a domain, or a wildcard that is not all stars and
/// whose expression compiles.
pub open spec fn acceptable_entry(d: Seq<char>) -> bool {
    d.contains('*') ==> !matches_everything(d) && regex_language(wildcard_expression(d)) is Some
}

fn has_star(d: &str) -> (r: bool)
    ensures
        r == d@.contains('*'),
{
    let cs = text::chars_of(d);
    text::find_char(cs.as_slice(), '*') < cs.len()
}

/// Patterns without those that are this one.
pub open spec fn without_pattern(patterns: Seq<Seq<char>>, d: Seq<char>) -> Seq<Seq<char>> {
    patterns.filter(|p: Seq<char>| p != d)
}

/// Some list has this name.
pub open spec fn has_list(lists: Seq<ListConfig>, name: Seq<char>) -> bool {
    exists|i: int| 0 <= i < lists.len() && (#[trigger] lists[i]).name@ == name
}

/// The lists with the first one of this name switched on or off.
pub open spec fn with_enabled(lists: Seq<ListConfig>, name: Seq<char>, enabled: bool) -> Seq<ListConfig>
    decreases lists.len(),
{
    if lists.len() == 0 {
        lists
    } else if lists[0].name@ == name {
        lists.update(0, ListConfig { enabled, ..lists[0] })
    } else {
        seq![lists[0]] + with_enabled(lists.skip(1), name, enabled)
    }
}

fn find_list(lists: &Vec<ListConfig>, name: &str) -> (r: Option<usize>)
    ensures
        match r {
            Some(i) => i < lists@.len() && lists@[i as int].name@ == name@ && forall|j: int|
                0 <= j < i ==> (#[trigger] lists@[j]).name@ != name@,
            None => !has_list(lists@, name@),
        },
{
    let mut i: usize = 0;
    while i < lists.len()
        invariant
            i <= lists@.len(),
            forall|j: int| 0 <= j < i ==> (#[trigger] lists@[j]).name@ != name@,
        decreases lists@.len() - i,
    {
        if text::str_same(lists[i].name.as_str(), name) {
            return Some(i);
        }
        i = i + 1;
    }
    None
}

fn remove_named(lists: &mut Vec<ListConfig>, name: &str) -> (r: bool)
    ensures
        final(lists)@ == old(lists)@.filter(|l: ListConfig| l.name@ != name@),
        r == has_list(old(lists)@, name@),
{
    let ghost keep = |l: ListConfig| l.name@ != name@;
    let ghost all = lists@;
    let ghost mut done: int = 0;
    let mut removed = false;
    let mut i: usize = 0;
    assert(all.take(0).filter(keep) == Seq::<ListConfig>::empty()) by {
        reveal(Seq::filter);
    }
    assert(all.skip(0) == all);
    while i < lists.len()
        invariant
            i <= lists@.len(),
            0 <= done <= all.len(),
            keep == (|l: ListConfig| l.name@ != name@),
            lists@.take(i as int) == all.take(done).filter(keep),
            lists@.skip(i as int) == all.skip(done),
            removed == has_list(all.take(done), name@),
        decreases lists@.len() - i,
    {
        let ghost cur = lists@;
        proof {
            assert(cur.skip(i as int).len() > 0);
            assert(all.skip(done).len() > 0);
            assert(cur.skip(i as int)[0] == all.skip(done)[0]);
            assert(all.take(done + 1) == all.take(done).push(all[done]));
            text::lemma_filter_push(all.take(done), all[done], keep);
            let next = all.take(done + 1);
            if has_list(all.take(done), name@) {
                let k = choose|k: int| 0 <= k < all.take(done).len() && (#[trigger] all.take(done)[k]).name@ == name@;
                assert(next[k].name@ == name@);
            }
            if all[done].name@ == name@ {
                assert(next[done].name@ == name@);
            }
            if has_list(next, name@) && all[done].name@ != name@ {
                let k = choose|k: int| 0 <= k < next.len() && (#[trigger] next[k]).name@ == name@;
                assert(all.take(done)[k].name@ == name@);
            }
        }
        if text::str_same(lists[i].name.as_str(), name) {
            lists.remove(i);
            removed = true;
            proof {
                let now = lists@;
                assert(now =~= cur.remove(i as int));
                assert(now.take(i as int) =~= cur.take(i as int));
                assert(now.skip(i as int) =~= cur.skip(i as int).skip(1));
                assert(all.skip(done).skip(1) =~= all.skip(done + 1));
            }
        } else {
            proof {
                assert(cur.take(i + 1) =~= cur.take(i as int).push(cur[i as int]));
                assert(cur.skip(i + 1) =~= cur.skip(i as int).skip(1));
                assert(all.skip(done).skip(1) =~= all.skip(done + 1));
            }
            i = i + 1;
        }
        proof {
            done = done + 1;
        }
    }
    proof {
        assert(lists@.skip(lists@.len() as int).len() == 0);
        assert(all.skip(done).len() == 0);
        assert(all.take(done) == all);
        assert(lists@.take(lists@.len() as int) == lists@);
    }
    removed
}

proof fn lemma_with_enabled(lists: Seq<ListConfig>, name: Seq<char>, enabled: bool, i: int)
    requires
        0 <= i < lists.len(),
        lists[i].name@ == name,
        forall|j: int| 0 <= j < i ==> (#[trigger] lists[j]).name@ != name,
    ensures
        with_enabled(lists, name, enabled) == lists.update(i, ListConfig { enabled, ..lists[i] }),
    decreases lists.len(),
{
    if i > 0 {
        assert(lists[0].name@ != name);
        assert forall|j: int| 0 <= j < i - 1 implies (#[trigger] lists.skip(1)[j]).name@ != name by {
            assert(lists[j + 1].name@ != name);
        }
        lemma_with_enabled(lists.skip(1), name, enabled, i - 1);
        assert(seq![lists[0]] + lists.skip(1).update(i - 1, ListConfig { enabled, ..lists[i] }) =~= lists.update(
            i,
            ListConfig { enabled, ..lists[i] },
        ));
    }
}

proof fn lemma_without_enabled(lists: Seq<ListConfig>, name: Seq<char>, enabled: bool)
    requires
        !has_list(lists, name),
    ensures
        with_enabled(lists, name, enabled) == lists,
    decreases lists.len(),
{
    if lists.len() > 0 {
        assert(lists[0].name@ != name);
        assert(!has_list(lists.skip(1), name)) by {
            if has_list(lists.skip(1), name) {
                let k = choose|k: int| 0 <= k < lists.skip(1).len() && (#[trigger] lists.skip(1)[k]).name@ == name;
                assert(lists[k + 1].name@ == name);
            }
        }
        lemma_without_enabled(lists.skip(1), name, enabled);
        assert(seq![lists[0]] + lists.skip(1) =~= lists);
    }
}

fn enable_named(lists: &mut Vec<ListConfig>, name: &str, enabled: bool) -> (r: bool)
    ensures
        final(lists)@ == with_enabled(old(lists)@, name@, enabled),
        r == has_list(old(lists)@, name@),
{
    let ghost before = lists@;
    match find_list(lists, name) {
        Some(i) => {
            proof {
                lemma_with_enabled(before, name@, enabled, i as int);
                assert(has_list(before, name@));
            }
            let old_list = lists[i].clone();
            lists.set(i, ListConfig { enabled, ..old_list });
            true
        },
        None => {
            proof {
                lemma_without_enabled(before, name@, enabled);
            }
            false
        },
    }
}

fn duplicate_list(kind: &str, name: &str) -> (r: FeriteError)
    ensures
        config_error(r, kind@ + " '"@ + name@ + "' already exists"@),
{
    let mut m = kind.to_string();
    m.append(" '");
    m.append(name);
    m.append("' already exists");
    FeriteError::Config(m)
}

impl Blocklist {
    /// The subscribed block lists.
    pub fn get_lists(&self) -> (r: Vec<ListConfig>)
        ensures
            r@ == self@.lists,
    {
        let r = self.lists.clone();
        assert(r@ =~= self.lists@);
        r
    }

    /// How many domains a block list had when it was last refreshed.
    pub fn domain_count(&self, name: &str) -> (r: Option<usize>)
        ensures
            r == looked_up_in(self@.domain_counts, name@),
    {
        match self.domain_counts.get(name) {
            Some(n) => Some(*n),
            None => None,
        }
    }

    /// How a block list in Adblock format was interpreted when it was last refreshed.
    pub fn parse_stats(&self, name: &str) -> (r: Option<AdblockStats>)
        ensures
            r == looked_up_in(self@.adblock_stats, name@),
    {
        match self.adblock_stats.get(name) {
            Some(s) => Some(*s),
            None => None,
        }
    }

    /// Subscribes to a block list. Names are unique.
    pub fn add_list(&mut self, cfg: ListConfig) -> (r: Result<()>)
        requires
            old(self).wf(),
        ensures
            final(self).wf(),
            r is Ok <==> !has_list(old(self)@.lists, cfg.name@),
            r is Ok ==> final(self)@ == (BlocklistView { lists: old(self)@.lists.push(cfg), ..old(self)@ }),
            r is Err ==> final(self)@ == old(self)@ && config_error(
                r->Err_0,
                "list"@ + " '"@ + cfg.name@ + "' already exists"@,
            ),
    {
        if find_list(&self.lists, cfg.name.as_str()).is_some() {
            return Err(duplicate_list("list", cfg.name.as_str()));
        }
        let ghost v = self@;
        self.lists.push(cfg);
        proof {
            self.lemma_same_rules(v);
        }
        Ok(())
    }

    /// Unsubscribes from a block list.
    pub fn remove_list(&mut self, name: &str) -> (r: bool)
        requires
            old(self).wf(),
        ensures
            final(self).wf(),
            r == has_list(old(self)@.lists, name@),
            final(self)@ == (BlocklistView {
                lists: old(self)@.lists.filter(|l: ListConfig| l.name@ != name@),
                ..old(self)@
            }),
    {
        let ghost v = self@;
        let r = remove_named(&mut self.lists, name);
        proof {
            self.lemma_same_rules(v);
        }
        r
    }

    /// Switches a block list on or off.
    pub fn set_list_enabled(&mut self, name: &str, enabled: bool) -> (r: bool)
        requires
            old(self).wf(),
        ensures
            final(self).wf(),
            r == has_list(old(self)@.lists, name@),
            final(self)@ == (BlocklistView { lists: with_enabled(old(self)@.lists, name@, enabled), ..old(self)@ }),
    {
        let ghost v = self@;
        let r = enable_named(&mut self.lists, name, enabled);
        proof {
            self.lemma_same_rules(v);
        }
        r
    }

    /// The subscribed allow lists.
    pub fn get_allow_lists(&self) -> (r: Vec<ListConfig>)
        ensures
            r@ == self@.allow_lists,
    {
        let r = self.allow_lists.clone();
        assert(r@ =~= self.allow_lists@);
        r
    }

    /// How many domains an allow list had when it was last refreshed.
    pub fn allow_domain_count(&self, name: &str) -> (r: Option<usize>)
        ensures
            r == looked_up_in(self@.allow_domain_counts, name@),
    {
        match self.allow_domain_counts.get(name) {
            Some(n) => Some(*n),
            None => None,
        }
    }

    /// How an allow list in Adblock format was interpreted when it was last refreshed.
    pub fn allow_parse_stats(&self, name: &str) -> (r: Option<AdblockStats>)
        ensures
            r == looked_up_in(self@.allow_adblock_stats, name@),
    {
        match self.allow_adblock_stats.get(name) {
            Some(s) => Some(*s),
            None => None,
        }
    }

    /// Subscribes to an allow list. Names are unique.
    pub fn add_allow_list(&mut self, cfg: ListConfig) -> (r: Result<()>)
        requires
            old(self).wf(),
        ensures
            final(self).wf(),
            r is Ok <==> !has_list(old(self)@.allow_lists, cfg.name@),
            r is Ok ==> final(self)@ == (BlocklistView { allow_lists: old(self)@.allow_lists.push(cfg), ..old(self)@ }),
            r is Err ==> final(self)@ == old(self)@ && config_error(
                r->Err_0,
                "allowlist"@ + " '"@ + cfg.name@ + "' already exists"@,
            ),
    {
        if find_list(&self.allow_lists, cfg.name.as_str()).is_some() {
            return Err(duplicate_list("allowlist", cfg.name.as_str()));
        }
        let ghost v = self@;
        self.allow_lists.push(cfg);
        proof {
            self.lemma_same_rules(v);
        }
        Ok(())
    }

    /// Unsubscribes from an allow list.
    pub fn remove_allow_list(&mut self, name: &str) -> (r: bool)
        requires
            old(self).wf(),
        ensures
            final(self).wf(),
            r == has_list(old(self)@.allow_lists, name@),
            final(self)@ == (BlocklistView {
                allow_lists: old(self)@.allow_lists.filter(|l: ListConfig| l.name@ != name@),
                ..old(self)@
            }),
    {
        let ghost v = self@;
        let r = remove_named(&mut self.allow_lists, name);
        proof {
            self.lemma_same_rules(v);
        }
        r
    }

    /// Switches an allow list on or off.
    pub fn set_allow_list_enabled(&mut self, name: &str, enabled: bool) -> (r: bool)
        requires
            old(self).wf(),
        ensures
            final(self).wf(),
            r == has_list(old(self)@.allow_lists, name@),
            final(self)@ == (BlocklistView {
                allow_lists: with_enabled(old(self)@.allow_lists, name@, enabled),
                ..old(self)@
            }),
    {
        let ghost v = self@;
        let r = enable_named(&mut self.allow_lists, name, enabled);
        proof {
            self.lemma_same_rules(v);
        }
        r
    }

    /// How many domains the block lists have together.
    pub fn blocked_count(&self) -> (r: u64)
        ensures
            r == self@.fst.len(),
    {
        self.fst.len() as u64
    }

    /// Switches blocking on or off.
    pub fn set_blocking_enabled(&mut self, enabled: bool)
        requires
            old(self).wf(),
        ensures
            final(self).wf(),
            final(self)@ == (BlocklistView { enabled, ..old(self)@ }),
    {
        let ghost v = self@;
        self.enabled = enabled;
        proof {
            self.lemma_same_rules(v);
        }
    }

    /// Whether some clients are never blocked.
    pub fn has_client_bypass(&self) -> (r: bool)
        ensures
            r == !self@.client_bypass.is_empty(),
    {
        !self.client_bypass.is_empty()
    }

    /// Sets the clients that are never blocked. Entries that name no client are ignored.
    pub fn set_client_bypass(&mut self, entries: &Vec<String>)
        requires
            old(self).wf(),
        ensures
            final(self).wf(),
            final(self)@ == (BlocklistView {
                client_bypass: client_keys(texts(entries@)).to_set(),
                ..old(self)@
            }),
    {
        let ghost v = self@;
        self.client_bypass = client_key_set(entries);
        proof {
            self.lemma_same_rules(v);
        }
    }

    /// Whether a client with this address or hardware address is never blocked.
    pub fn client_bypasses_blocking(&self, client_ip: &str, mac: Option<&str>) -> (r: bool)
        ensures
            r == (names_member(client_key(client_ip@), self@.client_bypass) || (mac is Some && names_member(
                client_key(mac->0@),
                self@.client_bypass,
            ))),
    {
        let by_ip = match normalize_client_key(client_ip) {
            Some(k) => self.client_bypass.contains(k.as_str()),
            None => false,
        };
        if by_ip {
            return true;
        }
        match mac {
            Some(m) => match normalize_client_key(m) {
                Some(k) => self.client_bypass.contains(k.as_str()),
                None => false,
            },
            None => false,
        }
    }

    /// The same for keys that are already canonical.
    pub fn client_bypasses_blocking_normalized(&self, client_ip: &str, mac: Option<&str>) -> (r: bool)
        ensures
            r == (self@.client_bypass.contains(client_ip@) || (mac is Some && self@.client_bypass.contains(mac->0@))),
    {
        self.client_bypass.contains(client_ip) || match mac {
            Some(m) => self.client_bypass.contains(m),
            None => false,
        }
    }

    /// Whether any profile is configured.
    pub fn has_profiles(&self) -> (r: bool)
        ensures
            r == (self@.profiles_config.len() > 0),
    {
        self.profiles_config.len() > 0
    }

    /// The index of the first profile that applies to a client, by canonical keys.
    pub fn profile_for(&self, client_ip: &str, mac: Option<&str>) -> (r: Option<usize>)
        ensures
            match r {
                Some(i) => self@.profiles_config.len() > 0 && i < self@.profiles.len() && serves(
                    self@.profiles[i as int],
                    client_ip@,
                    opt_view(mac),
                ) && forall|j: int| 0 <= j < i ==> !serves(#[trigger] self@.profiles[j], client_ip@, opt_view(mac)),
                None => self@.profiles_config.len() == 0 || forall|j: int|
                    0 <= j < self@.profiles.len() ==> !serves(
                        #[trigger] self@.profiles[j],
                        client_ip@,
                        opt_view(mac),
                    ),
            },
    {
        if !self.has_profiles() {
            return None;
        }
        let mut i: usize = 0;
        while i < self.profiles.len()
            invariant
                i <= self.profiles@.len(),
                self@.profiles_config.len() > 0,
                forall|j: int| 0 <= j < i ==> !serves(#[trigger] self@.profiles[j], client_ip@, opt_view(mac)),
            decreases self.profiles@.len() - i,
        {
            assert(self@.profiles[i as int] == self.profiles@[i as int]@);
            if self.profiles[i].matches_client(client_ip, mac) {
                return Some(i);
            }
            i = i + 1;
        }
        None
    }

    /// How many decisions are remembered.
    pub fn decision_cache_entries(&self) -> (r: usize)
        ensures
            r == self.remembered(),
    {
        self.cache.len()
    }

    /// How many decisions are remembered.
    pub open spec fn remembered(&self) -> nat {
        self.decisions().len()
    }

    /// The remembered decisions for clients without a profile, from the most to the
    /// least recently used.
    pub closed spec fn decisions(&self) -> Seq<Entry> {
        self.cache.entries()
    }

    /// How many of these decisions are remembered at most.
    pub closed spec fn decision_capacity(&self) -> nat {
        self.cache.capacity()
    }

    /// The remembered decisions of each profile.
    pub closed spec fn profile_decisions(&self) -> Seq<Seq<Entry>> {
        self.profiles@.map_values(|p: CompiledProfile| p.cache.entries())
    }

    /// Forgets the decision for one domain. Those for other domains stay, in their
    /// order, and so do the decisions of the profiles.
    pub fn invalidate(&mut self, domain: &str)
        requires
            old(self).wf(),
        ensures
            final(self).wf(),
            final(self)@ == old(self)@,
            final(self).decisions() == without_key(old(self).decisions(), domain@),
            final(self).decision_capacity() == old(self).decision_capacity(),
            final(self).profile_decisions() == old(self).profile_decisions(),
    {
        let ghost before = self.cache.entries();
        let ghost v = self@;
        self.cache.invalidate(domain);
        proof {
            lemma_coherent_without(before, domain@, v, self.fst.keys());
            assert(self@ == v);
        }
    }
}

/// The value for a key, if there is one.
pub open spec fn looked_up_in<V>(m: Map<Seq<char>, V>, key: Seq<char>) -> Option<V> {
    if m.dom().contains(key) {
        Some(m[key])
    } else {
        None
    }
}

/// The key is there and a member of the set.
pub open spec fn names_member(key: Option<Seq<char>>, set: Set<Seq<char>>) -> bool {
    key is Some && set.contains(key->0)
}

fn client_key_set(entries: &Vec<String>) -> (r: StringHashSet)
    ensures
        r@ == client_keys(texts(entries@)).to_set(),
{
    let keys = normalize_client_keys(entries);
    let mut set = StringHashSet::new();
    let mut i: usize = 0;
    assert(texts(keys@).take(0).to_set() == Set::<Seq<char>>::empty());
    while i < keys.len()
        invariant
            i <= keys@.len(),
            set@ == texts(keys@).take(i as int).to_set(),
        decreases keys@.len() - i,
    {
        proof {
            assert(texts(keys@).take(i + 1) == texts(keys@).take(i as int).push(keys@[i as int]@));
            crate::order::lemma_push_set(texts(keys@).take(i as int), keys@[i as int]@);
        }
        set.insert(keys[i].clone());
        i = i + 1;
    }
    assert(texts(keys@).take(keys@.len() as int) == texts(keys@));
    set
}

/// Why a domain is blocked or not.
#[derive(Debug)]
pub struct BlockExplanation {
    pub domain: String,
    pub blocked: bool,
    pub whitelisted: bool,
    /// The exemption that applies.
    pub whitelist_match: Option<MatchInfo>,
    /// Everything that would block the domain.
    pub sources: Vec<BlockSource>,
}

/// An exemption that applies to a domain.
#[derive(Debug)]
pub struct MatchInfo {
    /// The entry: a domain or a wildcard.
    pub entry: String,
    /// What it matched: the domain or a parent of it.
    pub matched: String,
    /// The allow list that it comes from; none for a manual entry.
    pub list: Option<String>,
}

/// Something that blocks a domain.
#[derive(Debug)]
pub struct BlockSource {
    /// `blacklist`, `wildcard` or `list`.
    pub kind: String,
    /// The list, the pattern, or `manual blacklist`.
    pub name: String,
    /// What matched: the domain or a parent of it.
    pub matched: String,
}

/// A source of a block as a plain value.
pub ghost struct SourceView {
    pub kind: Seq<char>,
    pub name: Seq<char>,
    pub matched: Seq<char>,
}

/// An exemption as a plain value.
pub ghost struct MatchView {
    pub entry: Seq<char>,
    pub matched: Seq<char>,
    pub list: Option<Seq<char>>,
}

/// The sources as plain values.
pub open spec fn source_views(v: Seq<BlockSource>) -> Seq<SourceView> {
    v.map_values(|s: BlockSource| SourceView { kind: s.kind@, name: s.name@, matched: s.matched@ })
}

/// The view of an optional string.
pub open spec fn opt_string(s: Option<String>) -> Option<Seq<char>> {
    match s {
        Some(t) => Some(t@),
        None => None,
    }
}

/// The exemption as a plain value.
pub open spec fn match_view(m: Option<MatchInfo>) -> Option<MatchView> {
    match m {
        Some(i) => Some(MatchView { entry: i.entry@, matched: i.matched@, list: opt_string(i.list) }),
        None => None,
    }
}

/// The key of a list's own file that covers a domain, if the list is on.
pub open spec fn list_match(l: ListConfig, d: Seq<char>, files: Seq<StoredList>) -> Option<Seq<char>> {
    match stored_keys(files, sanitized(l.name@)) {
        Some(keys) if l.enabled => matched_in_bytes(d, keys),
        _ => None,
    }
}

/// The source that a list is, if it covers the domain.
pub open spec fn list_source(l: ListConfig, d: Seq<char>, files: Seq<StoredList>) -> Seq<SourceView> {
    match list_match(l, d, files) {
        Some(k) => seq![SourceView { kind: "list"@, name: l.name@, matched: k }],
        None => seq![],
    }
}

/// The source that a wildcard is, if it matches the domain.
pub open spec fn wildcard_source(pattern: Seq<char>, name: Seq<char>, d: Seq<char>) -> Seq<SourceView> {
    if wildcard_matches(pattern, d) {
        seq![SourceView { kind: "wildcard"@, name, matched: d }]
    } else {
        seq![]
    }
}

/// The sources among wildcards, each under its pattern or its expression.
pub open spec fn wild_sources(pats: Seq<Seq<char>>, as_expression: bool, d: Seq<char>) -> Seq<SourceView> {
    flat_map(
        pats,
        |p: Seq<char>|
            wildcard_source(
                p,
                if as_expression {
                    wildcard_expression(p)
                } else {
                    p
                },
                d,
            ),
    )
}

/// The source that a set of keys is, if it covers the domain.
pub open spec fn key_source(matched: Option<Seq<char>>, kind: Seq<char>, name: Seq<char>) -> Seq<SourceView> {
    match matched {
        Some(k) => seq![SourceView { kind, name, matched: k }],
        None => seq![],
    }
}

/// The sources among the lists: the lists whose own files cover the domain, or
/// else the merged names, where none of the files does.
pub open spec fn list_sources(v: BlocklistView, d: Seq<char>, files: Seq<StoredList>) -> Seq<SourceView> {
    let by_list = flat_map(v.lists, |l: ListConfig| list_source(l, d, files));
    if by_list.len() > 0 {
        by_list
    } else {
        key_source(matched_in_bytes(d, v.fst), "list"@, "subscription (source file unavailable)"@)
    }
}

/// Everything that would block a domain.
pub open spec fn block_sources(v: BlocklistView, d: Seq<char>, files: Seq<StoredList>) -> Seq<SourceView> {
    key_source(matched_in(d, v.blacklist), "blacklist"@, "manual blacklist"@) + wild_sources(v.blacklist_wild, false, d)
        + wild_sources(v.wildcard_block, true, d) + list_sources(v, d, files)
}

/// The first pattern that matches.
pub open spec fn first_wild(pats: Seq<Seq<char>>, d: Seq<char>) -> Option<Seq<char>>
    decreases pats.len(),
{
    if pats.len() == 0 {
        None
    } else if wildcard_matches(pats[0], d) {
        Some(pats[0])
    } else {
        first_wild(pats.skip(1), d)
    }
}

/// The first list whose own file covers the domain, with the key.
pub open spec fn first_list(lists: Seq<ListConfig>, d: Seq<char>, files: Seq<StoredList>) -> Option<
    (Seq<char>, Seq<char>),
>
    decreases lists.len(),
{
    if lists.len() == 0 {
        None
    } else {
        match list_match(lists[0], d, files) {
            Some(k) => Some((lists[0].name@, k)),
            None => first_list(lists.skip(1), d, files),
        }
    }
}

/// The exemption that applies to a domain: a manual entry, a manual wildcard, an
/// allow list, or the merged allow lists where no single file accounts for it.
pub open spec fn exemption(v: BlocklistView, d: Seq<char>, files: Seq<StoredList>) -> Option<MatchView> {
    match matched_in(d, v.whitelist) {
        Some(k) => Some(MatchView { entry: k, matched: k, list: None }),
        None => match first_wild(v.whitelist_wild, d) {
            Some(p) => Some(MatchView { entry: p, matched: d, list: None }),
            None => match first_list(v.allow_lists, d, files) {
                Some((name, k)) => Some(MatchView { entry: k, matched: k, list: Some(name) }),
                None => match matched_in_bytes(d, v.allow_fst) {
                    Some(k) => Some(
                        MatchView {
                            entry: k,
                            matched: k,
                            list: Some("allowlist subscription (source file unavailable)"@),
                        },
                    ),
                    None => None,
                },
            },
        },
    }
}

fn find_list_match(list: &ListConfig, domain: &str, files: &ListStore) -> (r: Option<usize>)
    ensures
        match_at(domain@, list_match(*list, domain@, files@), r),
{
    if !list.enabled {
        return None;
    }
    let stem = refresh::sanitize_name(list.name.as_str());
    match files.find(stem.as_str()) {
        Some(m) => matching::find_in_map(domain, m),
        None => None,
    }
}

fn push_source(sources: &mut Vec<BlockSource>, kind: &str, name: String, matched: String)
    ensures
        source_views(final(sources)@) == source_views(old(sources)@).push(
            (SourceView { kind: kind@, name: name@, matched: matched@ }),
        ),
{
    let ghost before = source_views(sources@);
    let ghost item = SourceView { kind: kind@, name: name@, matched: matched@ };
    sources.push(BlockSource { kind: kind.to_string(), name, matched });
    assert(source_views(sources@) =~= before.push(item));
}

fn push_wild_sources(sources: &mut Vec<BlockSource>, ws: &Vec<Wildcard>, domain: &str, as_expression: bool)
    ensures
        source_views(final(sources)@) == source_views(old(sources)@) + wild_sources(
            patterns(ws@),
            as_expression,
            domain@,
        ),
{
    let ghost f = |p: Seq<char>|
        wildcard_source(
            p,
            if as_expression {
                wildcard_expression(p)
            } else {
                p
            },
            domain@,
        );
    let ghost start = source_views(sources@);
    let ghost pats = patterns(ws@);
    let mut i: usize = 0;
    assert(pats.take(0) =~= Seq::<Seq<char>>::empty());
    assert(start + flat_map(pats.take(0), f) =~= start);
    while i < ws.len()
        invariant
            i <= ws@.len(),
            pats == patterns(ws@),
            f == (|p: Seq<char>|
                wildcard_source(
                    p,
                    if as_expression {
                        wildcard_expression(p)
                    } else {
                        p
                    },
                    domain@,
                )),
            source_views(sources@) == start + flat_map(pats.take(i as int), f),
        decreases ws@.len() - i,
    {
        let ghost before = source_views(sources@);
        proof {
            assert(pats.take(i + 1) =~= pats.take(i as int).push(ws@[i as int].pattern()));
            text::lemma_flat_map_push(pats.take(i as int), ws@[i as int].pattern(), f);
        }
        if ws[i].is_match(domain) {
            let name = if as_expression {
                ws[i].expression_text()
            } else {
                ws[i].pattern_text()
            };
            push_source(sources, "wildcard", name, domain.to_string());
            assert(source_views(sources@) =~= start + (flat_map(pats.take(i as int), f) + f(ws@[i as int].pattern())));
        } else {
            assert(source_views(sources@) =~= start + (flat_map(pats.take(i as int), f) + f(ws@[i as int].pattern())));
        }
        i = i + 1;
    }
    assert(pats.take(pats.len() as int) =~= pats);
}

fn push_list_sources(sources: &mut Vec<BlockSource>, lists: &Vec<ListConfig>, domain: &str, files: &ListStore)
    ensures
        source_views(final(sources)@) == source_views(old(sources)@) + flat_map(
            lists@,
            |l: ListConfig| list_source(l, domain@, files@),
        ),
{
    let ghost f = |l: ListConfig| list_source(l, domain@, files@);
    let ghost start = source_views(sources@);
    let mut i: usize = 0;
    assert(lists@.take(0) =~= Seq::<ListConfig>::empty());
    assert(start + flat_map(lists@.take(0), f) =~= start);
    while i < lists.len()
        invariant
            i <= lists@.len(),
            f == (|l: ListConfig| list_source(l, domain@, files@)),
            source_views(sources@) == start + flat_map(lists@.take(i as int), f),
        decreases lists@.len() - i,
    {
        proof {
            assert(lists@.take(i + 1) =~= lists@.take(i as int).push(lists@[i as int]));
            text::lemma_flat_map_push(lists@.take(i as int), lists@[i as int], f);
        }
        match find_list_match(&lists[i], domain, files) {
            Some(at) => {
                push_source(sources, "list", lists[i].name.clone(), matching::tail_of(domain, at));
                assert(source_views(sources@) =~= start + (flat_map(lists@.take(i as int), f) + f(lists@[i as int])));
            },
            None => {
                assert(source_views(sources@) =~= start + (flat_map(lists@.take(i as int), f) + f(lists@[i as int])));
            },
        }
        i = i + 1;
    }
    assert(lists@.take(lists@.len() as int) =~= lists@);
}

impl Blocklist {
    /// Explains why a domain is blocked or not for clients without a profile, with
    /// the source of each match. `block_files` and `allow_files` are the lists' own
    /// maps, as far as they can be read.
    pub fn explain(&self, domain: &str, block_files: &ListStore, allow_files: &ListStore) -> (r: BlockExplanation)
        ensures
            r.domain@ == normalised(domain@),
            match_view(r.whitelist_match) == exemption(self@, normalised(domain@), allow_files@),
            r.whitelisted == (r.whitelist_match is Some),
            source_views(r.sources@) == block_sources(self@, normalised(domain@), block_files@),
            r.blocked == (!r.whitelisted && r.sources@.len() > 0),
    {
        let domain = suffix::normalise_domain(domain);
        let ghost d = domain@;
        let ghost v = self@;
        let whitelist_match = self.whitelist_match(domain.as_str(), allow_files);
        let whitelisted = whitelist_match.is_some();
        let mut sources: Vec<BlockSource> = Vec::new();
        assert(source_views(sources@) =~= Seq::<SourceView>::empty());
        if let Some(at) = self.blacklist.find_match(domain.as_str()) {
            push_source(
                &mut sources,
                "blacklist",
                "manual blacklist".to_string(),
                matching::tail_of(domain.as_str(), at),
            );
        }
        let ghost part1 = key_source(matched_in(d, v.blacklist), "blacklist"@, "manual blacklist"@);
        assert(source_views(sources@) =~= part1);
        push_wild_sources(&mut sources, &self.blacklist_wildcards, domain.as_str(), false);
        let ghost part2 = wild_sources(v.blacklist_wild, false, d);
        assert(source_views(sources@) == part1 + part2);
        push_wild_sources(&mut sources, &self.wildcards, domain.as_str(), true);
        let ghost part3 = wild_sources(v.wildcard_block, true, d);
        assert(source_views(sources@) == part1 + part2 + part3);
        let before: usize = sources.len();
        push_list_sources(&mut sources, &self.lists, domain.as_str(), block_files);
        let ghost by_list = flat_map(v.lists, |l: ListConfig| list_source(l, d, block_files@));
        assert(source_views(sources@) == part1 + part2 + part3 + by_list);
        assert(sources@.len() == source_views(sources@).len());
        if sources.len() == before {
            assert(by_list.len() == 0);
            assert(part1 + part2 + part3 + by_list =~= part1 + part2 + part3);
            if let Some(at) = matching::find_in_map(domain.as_str(), &self.fst) {
                push_source(
                    &mut sources,
                    "list",
                    "subscription (source file unavailable)".to_string(),
                    matching::tail_of(domain.as_str(), at),
                );
            }
        }
        assert(source_views(sources@) =~= block_sources(v, d, block_files@));
        let blocked = !whitelisted && sources.len() > 0;
        BlockExplanation { domain, blocked, whitelisted, whitelist_match, sources }
    }

    /// The exemption that applies to a normalised domain.
    fn whitelist_match(&self, domain: &str, files: &ListStore) -> (r: Option<MatchInfo>)
        ensures
            match_view(r) == exemption(self@, domain@, files@),
    {
        if let Some(at) = self.whitelist.find_match(domain) {
            let key = matching::tail_of(domain, at);
            return Some(MatchInfo { entry: key.clone(), matched: key, list: None });
        }
        let ghost pats = patterns(self.whitelist_wildcards@);
        let mut i: usize = 0;
        assert(pats.skip(0) =~= pats);
        while i < self.whitelist_wildcards.len()
            invariant
                i <= self.whitelist_wildcards@.len(),
                pats == self@.whitelist_wild,
                pats == patterns(self.whitelist_wildcards@),
                matched_in(domain@, self@.whitelist) is None,
                first_wild(pats, domain@) == first_wild(pats.skip(i as int), domain@),
            decreases self.whitelist_wildcards@.len() - i,
        {
            proof {
                assert(pats.skip(i as int)[0] == self.whitelist_wildcards@[i as int].pattern());
                assert(pats.skip(i as int).skip(1) =~= pats.skip(i + 1));
            }
            if self.whitelist_wildcards[i].is_match(domain) {
                let entry = self.whitelist_wildcards[i].pattern_text();
                return Some(MatchInfo { entry, matched: domain.to_string(), list: None });
            }
            i = i + 1;
        }
        let mut k: usize = 0;
        assert(self.allow_lists@.skip(0) =~= self.allow_lists@);
        while k < self.allow_lists.len()
            invariant
                k <= self.allow_lists@.len(),
                self.allow_lists@ == self@.allow_lists,
                matched_in(domain@, self@.whitelist) is None,
                first_wild(self@.whitelist_wild, domain@) is None,
                first_list(self@.allow_lists, domain@, files@) == first_list(
                    self.allow_lists@.skip(k as int),
                    domain@,
                    files@,
                ),
            decreases self.allow_lists@.len() - k,
        {
            proof {
                assert(self.allow_lists@.skip(k as int)[0] == self.allow_lists@[k as int]);
                assert(self.allow_lists@.skip(k as int).skip(1) =~= self.allow_lists@.skip(k + 1));
            }
            if let Some(at) = find_list_match(&self.allow_lists[k], domain, files) {
                let key = matching::tail_of(domain, at);
                return Some(
                    MatchInfo { entry: key.clone(), matched: key, list: Some(self.allow_lists[k].name.clone()) },
                );
            }
            k = k + 1;
        }
        if let Some(at) = matching::find_in_map(domain, &self.allow_fst) {
            let key = matching::tail_of(domain, at);
            return Some(
                MatchInfo {
                    entry: key.clone(),
                    matched: key,
                    list: Some("allowlist subscription (source file unavailable)".to_string()),
                },
            );
        }
        None
    }
}

/// The canonical domains among configured patterns: those that are not empty and
/// hold no star.
pub open spec fn exact_patterns(ps: Seq<Seq<char>>) -> Seq<Seq<char>> {
    flat_map(
        ps,
        |p: Seq<char>|
            if normalised(p).len() > 0 && !normalised(p).contains('*') {
                seq![normalised(p)]
            } else {
                seq![]
            },
    )
}

/// The canonical wildcards among configured patterns, without those that are refused.
pub open spec fn wild_patterns(ps: Seq<Seq<char>>) -> Seq<Seq<char>> {
    flat_map(
        ps,
        |p: Seq<char>|
            if normalised(p).contains('*') && acceptable_entry(normalised(p)) {
                seq![normalised(p)]
            } else {
                seq![]
            },
    )
}

/// The canonical domains among manual entries: all that hold no star.
pub open spec fn exact_entries(ps: Seq<Seq<char>>) -> Seq<Seq<char>> {
    flat_map(
        ps,
        |p: Seq<char>|
            if !normalised(p).contains('*') {
                seq![normalised(p)]
            } else {
                seq![]
            },
    )
}

/// The canonical patterns that compile.
pub open spec fn compiled_patterns(ps: Seq<Seq<char>>) -> Seq<Seq<char>> {
    flat_map(
        ps,
        |p: Seq<char>|
            if !matches_everything(normalised(p)) && regex_language(wildcard_expression(normalised(p))) is Some {
                seq![normalised(p)]
            } else {
                seq![]
            },
    )
}

/// Splits configured patterns into domains and wildcards.
fn split_patterns(ps: &Vec<String>) -> (r: (StringHashSet, Vec<Wildcard>))
    ensures
        r.0@ == exact_patterns(texts(ps@)).to_set(),
        patterns(r.1@) == wild_patterns(texts(ps@)),
{
    let ghost fe = |p: Seq<char>|
        if normalised(p).len() > 0 && !normalised(p).contains('*') {
            seq![normalised(p)]
        } else {
            seq![]
        };
    let ghost fw = |p: Seq<char>|
        if normalised(p).contains('*') && acceptable_entry(normalised(p)) {
            seq![normalised(p)]
        } else {
            seq![]
        };
    let ghost tv = texts(ps@);
    let mut exact = StringHashSet::new();
    let mut wild: Vec<Wildcard> = Vec::new();
    let mut i: usize = 0;
    assert(tv.take(0) =~= Seq::<Seq<char>>::empty());
    assert(flat_map(tv.take(0), fe).to_set() =~= Set::<Seq<char>>::empty());
    assert(patterns(wild@) =~= flat_map(tv.take(0), fw));
    while i < ps.len()
        invariant
            i <= ps@.len(),
            tv == texts(ps@),
            fe == (|p: Seq<char>|
                if normalised(p).len() > 0 && !normalised(p).contains('*') {
                    seq![normalised(p)]
                } else {
                    seq![]
                }),
            fw == (|p: Seq<char>|
                if normalised(p).contains('*') && acceptable_entry(normalised(p)) {
                    seq![normalised(p)]
                } else {
                    seq![]
                }),
            exact@ == flat_map(tv.take(i as int), fe).to_set(),
            patterns(wild@) == flat_map(tv.take(i as int), fw),
        decreases ps@.len() - i,
    {
        let ghost e0 = flat_map(tv.take(i as int), fe);
        let ghost w0 = flat_map(tv.take(i as int), fw);
        let n = suffix::normalise_domain(ps[i].as_str());
        let ghost nv = n@;
        proof {
            assert(tv.take(i + 1) =~= tv.take(i as int).push(ps@[i as int]@));
            text::lemma_flat_map_push(tv.take(i as int), ps@[i as int]@, fe);
            text::lemma_flat_map_push(tv.take(i as int), ps@[i as int]@, fw);
            assert(e0 + Seq::<Seq<char>>::empty() =~= e0);
            assert(w0 + Seq::<Seq<char>>::empty() =~= w0);
            assert(e0 + seq![nv] =~= e0.push(nv));
            assert(w0 + seq![nv] =~= w0.push(nv));
            crate::order::lemma_push_set(e0, nv);
            assert(nv.contains('*') ==> nv.len() > 0);
        }
        if !n.as_str().is_empty() {
            if has_star(n.as_str()) {
                let ghost before = wild@;
                if let Ok(w) = Wildcard::new(n.as_str()) {
                    wild.push(w);
                    assert(patterns(wild@) =~= patterns(before).push(nv));
                }
            } else {
                exact.insert(n);
            }
        }
        i = i + 1;
    }
    assert(tv.take(tv.len() as int) =~= tv);
    (exact, wild)
}

/// Compiles configured wildcards; those that are refused are left out.
fn compile_wildcards(ps: &Vec<String>) -> (r: Vec<Wildcard>)
    ensures
        patterns(r@) == compiled_patterns(texts(ps@)),
{
    let ghost f = |p: Seq<char>|
        if !matches_everything(normalised(p)) && regex_language(wildcard_expression(normalised(p))) is Some {
            seq![normalised(p)]
        } else {
            seq![]
        };
    let ghost tv = texts(ps@);
    let mut wild: Vec<Wildcard> = Vec::new();
    let mut i: usize = 0;
    assert(tv.take(0) =~= Seq::<Seq<char>>::empty());
    assert(patterns(wild@) =~= flat_map(tv.take(0), f));
    while i < ps.len()
        invariant
            i <= ps@.len(),
            tv == texts(ps@),
            f == (|p: Seq<char>|
                if !matches_everything(normalised(p)) && regex_language(wildcard_expression(normalised(p))) is Some {
                    seq![normalised(p)]
                } else {
                    seq![]
                }),
            patterns(wild@) == flat_map(tv.take(i as int), f),
        decreases ps@.len() - i,
    {
        let ghost w0 = flat_map(tv.take(i as int), f);
        let n = suffix::normalise_domain(ps[i].as_str());
        let ghost before = wild@;
        proof {
            assert(tv.take(i + 1) =~= tv.take(i as int).push(ps@[i as int]@));
            text::lemma_flat_map_push(tv.take(i as int), ps@[i as int]@, f);
            assert(w0 + Seq::<Seq<char>>::empty() =~= w0);
            assert(w0 + seq![n@] =~= w0.push(n@));
        }
        if let Ok(w) = Wildcard::new(n.as_str()) {
            wild.push(w);
            assert(patterns(wild@) =~= patterns(before).push(n@));
        }
        i = i + 1;
    }
    assert(tv.take(tv.len() as int) =~= tv);
    wild
}

/// Adds manual entries to the exempt domains and wildcards.
fn add_entries(ps: &Vec<String>, exact: &mut DomainSet, wild: &mut Vec<Wildcard>)
    requires
        old(exact).wf(),
    ensures
        final(exact).wf(),
        final(exact)@ == old(exact)@.union(exact_entries(texts(ps@)).to_set()),
        patterns(final(wild)@) == patterns(old(wild)@) + wild_patterns(texts(ps@)),
{
    let ghost fe = |p: Seq<char>|
        if !normalised(p).contains('*') {
            seq![normalised(p)]
        } else {
            seq![]
        };
    let ghost fw = |p: Seq<char>|
        if normalised(p).contains('*') && acceptable_entry(normalised(p)) {
            seq![normalised(p)]
        } else {
            seq![]
        };
    let ghost tv = texts(ps@);
    let ghost x0 = exact@;
    let ghost y0 = patterns(wild@);
    let mut i: usize = 0;
    assert(tv.take(0) =~= Seq::<Seq<char>>::empty());
    assert(x0.union(flat_map(tv.take(0), fe).to_set()) =~= x0);
    assert(y0 + flat_map(tv.take(0), fw) =~= y0);
    while i < ps.len()
        invariant
            i <= ps@.len(),
            tv == texts(ps@),
            exact.wf(),
            fe == (|p: Seq<char>|
                if !normalised(p).contains('*') {
                    seq![normalised(p)]
                } else {
                    seq![]
                }),
            fw == (|p: Seq<char>|
                if normalised(p).contains('*') && acceptable_entry(normalised(p)) {
                    seq![normalised(p)]
                } else {
                    seq![]
                }),
            exact@ == x0.union(flat_map(tv.take(i as int), fe).to_set()),
            patterns(wild@) == y0 + flat_map(tv.take(i as int), fw),
        decreases ps@.len() - i,
    {
        let ghost e0 = flat_map(tv.take(i as int), fe);
        let ghost w0 = flat_map(tv.take(i as int), fw);
        let n = suffix::normalise_domain(ps[i].as_str());
        let ghost nv = n@;
        proof {
            assert(tv.take(i + 1) =~= tv.take(i as int).push(ps@[i as int]@));
            text::lemma_flat_map_push(tv.take(i as int), ps@[i as int]@, fe);
            text::lemma_flat_map_push(tv.take(i as int), ps@[i as int]@, fw);
            assert(e0 + Seq::<Seq<char>>::empty() =~= e0);
            assert(w0 + Seq::<Seq<char>>::empty() =~= w0);
            assert(e0 + seq![nv] =~= e0.push(nv));
            assert(y0 + (w0 + seq![nv]) =~= (y0 + w0).push(nv));
            crate::order::lemma_push_set(e0, nv);
            assert(x0.union(e0.to_set().insert(nv)) =~= x0.union(e0.to_set()).insert(nv));
        }
        if has_star(n.as_str()) {
            let ghost before = wild@;
            if let Ok(w) = Wildcard::new(n.as_str()) {
                wild.push(w);
                assert(patterns(wild@) =~= patterns(before).push(nv));
            }
        } else {
            exact.insert(n);
        }
        i = i + 1;
    }
    assert(tv.take(tv.len() as int) =~= tv);
}

/// The encoded names in the files of the lists with these names.
pub open spec fn named_keys(names: Seq<Seq<char>>, files: Seq<StoredList>) -> Set<Seq<u8>> {
    Set::new(
        |k: Seq<u8>|
            exists|i: int|
                0 <= i < names.len() && stored_keys(files, sanitized(#[trigger] names[i])) is Some && stored_keys(
                    files,
                    sanitized(names[i]),
                )->0.contains(k),
    )
}

/// What a profile's configuration stands for, given the files of the lists.
pub open spec fn profile_of(
    cfg: BlocklistProfileConfig,
    block_files: Seq<StoredList>,
    allow_files: Seq<StoredList>,
) -> ProfileView {
    ProfileView {
        clients: client_keys(texts(cfg.clients@)).to_set(),
        fst: named_keys(texts(cfg.lists@), block_files),
        allow_exact: exact_patterns(texts(cfg.allow@)).to_set(),
        allow_wild: wild_patterns(texts(cfg.allow@)),
        block_exact: exact_patterns(texts(cfg.block@)).to_set(),
        block_wild: wild_patterns(texts(cfg.block@)),
        allow_fst: if cfg.allowlists@.len() == 0 {
            None
        } else {
            Some(named_keys(texts(cfg.allowlists@), allow_files))
        },
        default_deny: cfg.default_deny,
    }
}

/// The merged map of the lists with these names, as far as their files are there.
fn merge_named(names: &Vec<String>, files: &ListStore) -> (r: FstMap)
    ensures
        r.keys() == named_keys(texts(names@), files@),
{
    let mut maps: Vec<FstMap> = Vec::new();
    let ghost tv = texts(names@);
    let mut i: usize = 0;
    while i < names.len()
        invariant
            i <= names@.len(),
            tv == texts(names@),
            fst_map::union_keys(maps@) == named_keys(tv.take(i as int), files@),
        decreases names@.len() - i,
    {
        let stem = refresh::sanitize_name(names[i].as_str());
        let ghost before = maps@;
        let ghost prev = tv.take(i as int);
        let ghost next = tv.take(i + 1);
        assert(next =~= prev.push(names@[i as int]@));
        match files.find(stem.as_str()) {
            Some(m) => {
                let copy = m.clone();
                maps.push(copy);
                proof {
                    fst_map::lemma_union_push(before, copy);
                    lemma_named_push(prev, names@[i as int]@, files@);
                    assert(fst_map::union_keys(maps@) =~= named_keys(next, files@));
                }
            },
            None => {
                proof {
                    lemma_named_push(prev, names@[i as int]@, files@);
                }
            },
        }
        i = i + 1;
    }
    assert(tv.take(tv.len() as int) =~= tv);
    if maps.len() == 0 {
        assert(fst_map::union_keys(maps@) =~= Set::<Seq<u8>>::empty());
        return fst_map::empty_fst();
    }
    if maps.len() == 1 {
        let m = maps[0].clone();
        proof {
            assert(fst_map::union_keys(maps@) =~= maps@[0].keys());
        }
        return m;
    }
    let bytes = fst_map::merge_maps(&maps).unwrap();
    proof {
        fst_map::set_files_are_files(bytes@, fst_map::union_keys(maps@));
    }
    fst_map::ram_fst(bytes).unwrap()
}

proof fn lemma_named_push(names: Seq<Seq<char>>, name: Seq<char>, files: Seq<StoredList>)
    ensures
        match stored_keys(files, sanitized(name)) {
            Some(keys) => named_keys(names.push(name), files) == named_keys(names, files).union(keys),
            None => named_keys(names.push(name), files) == named_keys(names, files),
        },
{
    let w = names.push(name);
    let keys = match stored_keys(files, sanitized(name)) {
        Some(k) => k,
        None => Set::empty(),
    };
    assert forall|k: Seq<u8>| named_keys(w, files).contains(k) == named_keys(names, files).union(keys).contains(k) by {
        if named_keys(names, files).contains(k) {
            let i = choose|i: int|
                0 <= i < names.len() && stored_keys(files, sanitized(#[trigger] names[i])) is Some && stored_keys(
                    files,
                    sanitized(names[i]),
                )->0.contains(k);
            assert(w[i] == names[i]);
        }
        if keys.contains(k) {
            assert(w[names.len() as int] == name);
        }
        if named_keys(w, files).contains(k) {
            let i = choose|i: int|
                0 <= i < w.len() && stored_keys(files, sanitized(#[trigger] w[i])) is Some && stored_keys(
                    files,
                    sanitized(w[i]),
                )->0.contains(k);
            if i < names.len() {
                assert(w[i] == names[i]);
            }
        }
    }
    assert(named_keys(w, files) =~= named_keys(names, files).union(keys));
    if stored_keys(files, sanitized(name)) is None {
        assert(named_keys(names, files).union(keys) =~= named_keys(names, files));
    }
}

/// The size of a profile's decision cache.
pub const PROFILE_DECISION_CACHE: usize = 8_192;

fn compile_profile(cfg: &BlocklistProfileConfig, block_files: &ListStore, allow_files: &ListStore) -> (r:
    CompiledProfile)
    ensures
        r@ == profile_of(*cfg, block_files@, allow_files@),
        r.cache.wf(),
        r.cache.entries().len() == 0,
{
    let fst = merge_named(&cfg.lists, block_files);
    let allow_fst = if cfg.allowlists.len() == 0 {
        None
    } else {
        Some(merge_named(&cfg.allowlists, allow_files))
    };
    let clients = client_key_set(&cfg.clients);
    let (allow_exact, allow_wild) = split_patterns(&cfg.allow);
    let (block_exact, block_wild) = split_patterns(&cfg.block);
    CompiledProfile {
        clients,
        fst,
        cache: BlocklistCache::new(PROFILE_DECISION_CACHE),
        allow_exact,
        allow_wild,
        block_exact,
        block_wild,
        allow_fst,
        default_deny: cfg.default_deny,
    }
}

fn compile_profiles(configs: &Vec<BlocklistProfileConfig>, block_files: &ListStore, allow_files: &ListStore) -> (r: Vec<
    CompiledProfile,
>)
    ensures
        profile_views(r@) == configs@.map_values(
            |c: BlocklistProfileConfig| profile_of(c, block_files@, allow_files@),
        ),
        forall|i: int| 0 <= i < r@.len() ==> (#[trigger] r@[i]).cache.wf() && r@[i].cache.entries().len() == 0,
{
    let mut out: Vec<CompiledProfile> = Vec::new();
    let mut i: usize = 0;
    while i < configs.len()
        invariant
            i <= configs@.len(),
            out@.len() == i,
            forall|j: int| 0 <= j < i ==> (#[trigger] out@[j])@ == profile_of(configs@[j], block_files@, allow_files@),
            forall|j: int| 0 <= j < i ==> (#[trigger] out@[j]).cache.wf() && out@[j].cache.entries().len() == 0,
        decreases configs@.len() - i,
    {
        out.push(compile_profile(&configs[i], block_files, allow_files));
        i = i + 1;
    }
    assert(profile_views(out@) =~= configs@.map_values(
        |c: BlocklistProfileConfig| profile_of(c, block_files@, allow_files@),
    ));
    out
}

/// The view of the engine with its profiles compiled from these files.
pub open spec fn with_profiles(v: BlocklistView, block_files: Seq<StoredList>, allow_files: Seq<StoredList>) -> BlocklistView {
    BlocklistView {
        profiles: v.profiles_config.map_values(|c: BlocklistProfileConfig| profile_of(c, block_files, allow_files)),
        ..v
    }
}

/// The engine as it is configured, before any list was loaded.
pub open spec fn initial_view(config: BlocklistConfig, allowlist: AllowlistConfig) -> BlocklistView {
    let manual = texts(config.whitelist@);
    let allowed = texts(allowlist.domains@);
    BlocklistView {
        enabled: config.enabled,
        fst: Set::empty(),
        wildcard_block: compiled_patterns(texts(config.wildcard_block@)),
        profiles: Seq::empty(),
        profiles_config: config.profiles@,
        client_bypass: client_keys(texts(config.client_bypass@)).to_set(),
        whitelist: exact_entries(manual).to_set().union(exact_entries(allowed).to_set()),
        whitelist_wild: wild_patterns(manual) + wild_patterns(allowed),
        blacklist: Set::empty(),
        blacklist_wild: Seq::empty(),
        lists: config.lists@,
        domain_counts: Map::empty(),
        adblock_stats: Map::empty(),
        allow_fst: Set::empty(),
        allow_lists: allowlist.lists@,
        allow_domain_counts: Map::empty(),
        allow_adblock_stats: Map::empty(),
        local_zones: Seq::empty(),
    }
}

impl Blocklist {
    /// An engine with the given configuration and no list loaded yet.
    pub fn new(config: BlocklistConfig, allowlist: AllowlistConfig) -> (r: Blocklist)
        ensures
            r.wf(),
            r@ == initial_view(config, allowlist),
    {
        let client_bypass = client_key_set(&config.client_bypass);
        let mut whitelist = DomainSet::new();
        let mut whitelist_wildcards: Vec<Wildcard> = Vec::new();
        let ghost manual = texts(config.whitelist@);
        let ghost allowed = texts(allowlist.domains@);
        assert(patterns(whitelist_wildcards@) =~= Seq::<Seq<char>>::empty());
        add_entries(&config.whitelist, &mut whitelist, &mut whitelist_wildcards);
        assert(whitelist@ =~= exact_entries(manual).to_set());
        assert(patterns(whitelist_wildcards@) =~= wild_patterns(manual));
        add_entries(&allowlist.domains, &mut whitelist, &mut whitelist_wildcards);
        let wildcards = compile_wildcards(&config.wildcard_block);
        let r = Blocklist {
            enabled: config.enabled,
            fst: fst_map::empty_fst(),
            wildcards,
            profiles: Vec::new(),
            profiles_config: config.profiles,
            client_bypass,
            whitelist,
            whitelist_wildcards,
            blacklist: DomainSet::new(),
            blacklist_wildcards: Vec::new(),
            cache: BlocklistCache::new(config.decision_cache_size),
            lists: config.lists,
            domain_counts: StringHashMap::new(),
            adblock_stats: StringHashMap::new(),
            allow_fst: fst_map::empty_fst(),
            allow_lists: allowlist.lists,
            allow_domain_counts: StringHashMap::new(),
            allow_adblock_stats: StringHashMap::new(),
            local_zones: Vec::new(),
        };
        proof {
            assert(r@.profiles =~= Seq::<ProfileView>::empty());
            assert(r@.blacklist_wild =~= Seq::<Seq<char>>::empty());
            assert(r@.local_zones =~= Seq::<Seq<char>>::empty());
            lemma_coherent_empty(r.cache.entries(), r@, r.fst.keys());
        }
        r
    }

    /// Compiles every profile anew from the files of the lists.
    pub fn rebuild_profiles(&mut self, block_files: &ListStore, allow_files: &ListStore)
        requires
            old(self).wf(),
        ensures
            final(self).wf(),
            final(self)@ == with_profiles(old(self)@, block_files@, allow_files@),
    {
        let ghost v = self@;
        self.profiles = compile_profiles(&self.profiles_config, block_files, allow_files);
        proof {
            assert(self@ == with_profiles(v, block_files@, allow_files@));
            assert forall|d: Seq<char>, fst: Set<Seq<u8>>| #[trigger]
                blocked_in(self@, d, fst) == blocked_in(v, d, fst) by {}
            assert forall|i: int| 0 <= i < self.profiles@.len() implies (#[trigger] self.profiles@[i]).coherent_with(
                self@,
            ) by {
                lemma_coherent_empty(self.profiles@[i].cache.entries(), self@, self.profiles@[i].fst.keys());
            }
        }
    }

    /// Replaces the profiles and compiles them.
    pub fn set_profiles(
        &mut self,
        profiles: Vec<BlocklistProfileConfig>,
        block_files: &ListStore,
        allow_files: &ListStore,
    )
        requires
            old(self).wf(),
        ensures
            final(self).wf(),
            final(self)@ == with_profiles(
                (BlocklistView { profiles_config: profiles@, ..old(self)@ }),
                block_files@,
                allow_files@,
            ),
    {
        let ghost v = self@;
        self.profiles_config = profiles;
        proof {
            self.lemma_same_rules(v);
        }
        self.rebuild_profiles(block_files, allow_files);
    }

    /// The configured profiles.
    pub fn get_profiles(&self) -> (r: &Vec<BlocklistProfileConfig>)
        ensures
            r@ == self@.profiles_config,
    {
        &self.profiles_config
    }
}

/// The sizes of the lists whose own files are there.
pub open spec fn file_counts(lists: Seq<ListConfig>, files: Seq<StoredList>) -> Map<Seq<char>, usize>
    decreases lists.len(),
{
    if lists.len() == 0 {
        Map::empty()
    } else {
        let m = file_counts(lists.drop_last(), files);
        match stored_keys(files, sanitized(lists.last().name@)) {
            Some(keys) => m.insert(lists.last().name@, keys.len() as usize),
            None => m,
        }
    }
}

/// The breakdown kept under a file name.
pub open spec fn kept_stats(stats: Seq<(String, AdblockStats)>, stem: Seq<char>) -> Option<AdblockStats>
    decreases stats.len(),
{
    if stats.len() == 0 {
        None
    } else if stats[0].0@ == stem {
        Some(stats[0].1)
    } else {
        kept_stats(stats.skip(1), stem)
    }
}

/// The breakdowns of the lists for which one is kept.
pub open spec fn file_stats(lists: Seq<ListConfig>, stats: Seq<(String, AdblockStats)>) -> Map<Seq<char>, AdblockStats>
    decreases lists.len(),
{
    if lists.len() == 0 {
        Map::empty()
    } else {
        let m = file_stats(lists.drop_last(), stats);
        match kept_stats(stats, sanitized(lists.last().name@)) {
            Some(s) => m.insert(lists.last().name@, s),
            None => m,
        }
    }
}

/// The second map, unless it is empty.
pub open spec fn unless_empty<V>(old_map: Map<Seq<char>, V>, new_map: Map<Seq<char>, V>) -> Map<Seq<char>, V> {
    if new_map.dom() == Set::<Seq<char>>::empty() {
        old_map
    } else {
        new_map
    }
}

fn find_stats(stats: &Vec<(String, AdblockStats)>, stem: &str) -> (r: Option<AdblockStats>)
    ensures
        r == kept_stats(stats@, stem@),
{
    let mut i: usize = 0;
    assert(stats@.skip(0) =~= stats@);
    while i < stats.len()
        invariant
            i <= stats@.len(),
            kept_stats(stats@, stem@) == kept_stats(stats@.skip(i as int), stem@),
        decreases stats@.len() - i,
    {
        proof {
            assert(stats@.skip(i as int)[0] == stats@[i as int]);
            assert(stats@.skip(i as int).skip(1) =~= stats@.skip(i + 1));
        }
        if text::str_same(stats[i].0.as_str(), stem) {
            return Some(stats[i].1);
        }
        i = i + 1;
    }
    None
}

/// The sizes and breakdowns of lists, from what is kept of them.
fn restore_counts(lists: &Vec<ListConfig>, files: &ListStore, kept: &Vec<(String, AdblockStats)>) -> (r: (
    StringHashMap<usize>,
    StringHashMap<AdblockStats>,
))
    ensures
        r.0@ == file_counts(lists@, files@),
        r.1@ == file_stats(lists@, kept@),
{
    let mut counts: StringHashMap<usize> = StringHashMap::new();
    let mut stats: StringHashMap<AdblockStats> = StringHashMap::new();
    let mut i: usize = 0;
    while i < lists.len()
        invariant
            i <= lists@.len(),
            counts@ == file_counts(lists@.take(i as int), files@),
            stats@ == file_stats(lists@.take(i as int), kept@),
        decreases lists@.len() - i,
    {
        proof {
            assert(lists@.take(i + 1).drop_last() =~= lists@.take(i as int));
            assert(lists@.take(i + 1).last() == lists@[i as int]);
        }
        let stem = refresh::sanitize_name(lists[i].name.as_str());
        if let Some(m) = files.find(stem.as_str()) {
            counts.insert(lists[i].name.clone(), m.len());
        }
        if let Some(s) = find_stats(kept, stem.as_str()) {
            stats.insert(lists[i].name.clone(), s);
        }
        i = i + 1;
    }
    assert(lists@.take(lists@.len() as int) =~= lists@);
    (counts, stats)
}

/// What is kept on disk of the lists of one polarity.
pub struct KeptLists {
    /// The merged map; none where it is missing or invalid.
    pub merged: Option<FstMap>,
    /// The lists' own maps.
    pub files: ListStore,
    /// The breakdowns, by file name.
    pub stats: Vec<(String, AdblockStats)>,
}

/// The engine after its block lists were loaded from disk.
pub open spec fn block_loaded(v: BlocklistView, block: KeptLists, allow_files: Seq<StoredList>) -> BlocklistView {
    with_profiles(
        BlocklistView {
            fst: block.merged->0.keys(),
            domain_counts: unless_empty(v.domain_counts, file_counts(v.lists, block.files@)),
            adblock_stats: unless_empty(v.adblock_stats, file_stats(v.lists, block.stats@)),
            ..v
        },
        block.files@,
        allow_files,
    )
}

/// The engine after its allow lists were loaded from disk, if they are there.
pub open spec fn allow_loaded(v: BlocklistView, allow: KeptLists) -> BlocklistView {
    match allow.merged {
        Some(m) => BlocklistView {
            allow_fst: m.keys(),
            allow_domain_counts: unless_empty(v.allow_domain_counts, file_counts(v.allow_lists, allow.files@)),
            allow_adblock_stats: unless_empty(v.allow_adblock_stats, file_stats(v.allow_lists, allow.stats@)),
            ..v
        },
        None => v,
    }
}

/// The engine with what a refresh of the block lists brought.
pub open spec fn block_refreshed(v: BlocklistView, s: ListSetRefresh) -> BlocklistView {
    BlocklistView { fst: s.fst.keys(), domain_counts: s.counts@, adblock_stats: s.stats@, ..v }
}

/// The engine with what a refresh of the allow lists brought. A failed one leaves
/// the allow lists as they are.
pub open spec fn allow_refreshed(v: BlocklistView, s: Option<Result<ListSetRefresh>>) -> BlocklistView {
    match s {
        Some(Ok(a)) => BlocklistView {
            allow_fst: a.fst.keys(),
            allow_domain_counts: a.counts@,
            allow_adblock_stats: a.stats@,
            ..v
        },
        _ => v,
    }
}

impl Blocklist {
    /// Takes up what is kept on disk. Returns whether everything that should be
    /// there was there; if not, a refresh is due. Without the merged block lists
    /// nothing is taken up.
    pub fn load_from_disk(&mut self, block: KeptLists, allow: KeptLists) -> (r: bool)
        requires
            old(self).wf(),
        ensures
            final(self).wf(),
            block.merged is None ==> !r && final(self)@ == old(self)@,
            block.merged is Some ==> final(self)@ == allow_loaded(
                block_loaded(old(self)@, block, allow.files@),
                allow,
            ) && r == (allow.merged is Some || old(self)@.allow_lists.len() == 0),
    {
        let ghost v = self@;
        let ghost kept = block;
        proof {
            self.lemma_caches_wf();
        }
        match block.merged {
            None => {
                return false;
            },
            Some(m) => {
                self.fst = m;
            },
        }
        let (counts, stats) = restore_counts(&self.lists, &block.files, &block.stats);
        proof {
            assert(counts@.dom() == Set::<Seq<char>>::empty() <==> counts@.is_empty());
        }
        if !counts.is_empty() {
            self.domain_counts = counts;
        }
        if !stats.is_empty() {
            self.adblock_stats = stats;
        }
        self.clear_decision_caches();
        self.rebuild_profiles(&block.files, &allow.files);
        assert(self@ == block_loaded(v, kept, allow.files@));
        self.load_allow_from_disk(allow)
    }

    /// Takes up what is kept of the allow lists. Returns whether nothing is missing.
    fn load_allow_from_disk(&mut self, allow: KeptLists) -> (r: bool)
        requires
            old(self).wf(),
        ensures
            final(self).wf(),
            final(self)@ == allow_loaded(old(self)@, allow),
            r == (allow.merged is Some || old(self)@.allow_lists.len() == 0),
    {
        let ghost v = self@;
        let configured = self.allow_lists.len() > 0;
        match allow.merged {
            None => !configured,
            Some(m) => {
                self.allow_fst = m;
                let (counts, stats) = restore_counts(&self.allow_lists, &allow.files, &allow.stats);
                if !counts.is_empty() {
                    self.allow_domain_counts = counts;
                }
                if !stats.is_empty() {
                    self.allow_adblock_stats = stats;
                }
                proof {
                    self.lemma_same_rules(v);
                }
                true
            },
        }
    }

    /// Takes up what a refresh brought: the merged block lists, and the merged allow
    /// lists where there are any. If the block lists failed nothing changes; if the
    /// allow lists failed the previous ones stay. Returns the number of blocked domains.
    pub fn refresh(
        &mut self,
        block: Result<ListSetRefresh>,
        allow: Option<Result<ListSetRefresh>>,
        block_files: &ListStore,
        allow_files: &ListStore,
    ) -> (r: Result<usize>)
        requires
            old(self).wf(),
        ensures
            final(self).wf(),
            r is Ok <==> block is Ok,
            block is Err ==> final(self)@ == old(self)@ && r->Err_0 == block->Err_0,
            block is Ok ==> r->Ok_0 == block->Ok_0.unique_count && final(self)@ == with_profiles(
                allow_refreshed(block_refreshed(old(self)@, block->Ok_0), allow),
                block_files@,
                allow_files@,
            ),
    {
        proof {
            self.lemma_caches_wf();
        }
        let s = match block {
            Ok(s) => s,
            Err(e) => {
                return Err(e);
            },
        };
        let count = s.unique_count;
        self.fst = s.fst;
        self.domain_counts = s.counts;
        self.adblock_stats = s.stats;
        if let Some(Ok(a)) = allow {
            self.allow_fst = a.fst;
            self.allow_domain_counts = a.counts;
            self.allow_adblock_stats = a.stats;
        }
        self.clear_decision_caches();
        self.rebuild_profiles(block_files, allow_files);
        Ok(count)
    }
}

}
