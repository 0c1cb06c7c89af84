//! Firewall rules on the panel host.
//!
//! Panels of the newer kind expose a unified rule API: a rule names a scope (the backend,
//! address family and chain or zone it lives in), a protocol, source, destination port
//! and action, and is checked by the panel before it is created. Older panels take the
//! flat port / IP / forward forms. This module holds the vocabulary of both and every
//! decision: which rules a command asks for, which checked plans may be created, which
//! existing rules a deletion removes, and how listings are filtered. The application
//! carries the requests and replies.
use vstd::prelude::*;
use crate::config::opt_view;
use crate::text::{
    ascii_lower, chars_of, contains, contains_seq, copy_chars, eq_ignore_case, has_char, last_index,
    last_index_of, same, slice_of, split_char, split_on, string_of, to_ascii_lower, views,
    string_views, split_list, list_items, parse_u64, u64_of, ws_trim, trim_ws, drop_lead, drop_trail,
    char_pred, trim_start_char, trim_end_char, dec, dec_u64, push_all,
};

verus! {

broadcast use vstd::string::group_string_axioms;

#[derive(Debug)]
pub enum FirewallError {
    /// A strategy other than accept/allow or drop/deny/block.
    UnsupportedStrategy(String),
    /// A protocol other than tcp, udp or tcp/udp.
    UnsupportedProtocol(String),
    /// A rule type other than port, address or forward.
    UnsupportedType(String),
    /// The panel names a firewall backend this tool does not know.
    UnknownProvider(String),
    /// A forward target without `:` between address and port.
    BadTarget,
    /// The panel's check blocked a rule: its reason (when it gave one) and classification.
    Blocked(Option<String>, String),
    /// The panel's check does not allow creating a rule of this classification.
    CreateNotAllowed(String),
    /// No managed rule matched the deletion.
    NothingToDelete,
    /// An operation name this command does not offer.
    UnsupportedOperation(String),
    /// A batch without a single port.
    NoPorts,
    /// A published port that is neither a number nor `address:number` (the trimmed text).
    BadDockerPort(String),
    /// `address:port` whose port is not a number (the trimmed text).
    BadDockerPortNumber(String),
    /// No published container port matches.
    NoPublishedPort,
    /// `allow_sources` without sources.
    AllowNeedsSources,
    /// `deny_sources` without sources.
    DenyNeedsSources,
    /// A policy deletion without a UUID.
    MissingUuid,
    /// The panel answered a rule batch with a code other than 200 (the code, -1 when
    /// missing, and the message).
    Panel(i64, String),
    /// Some items of a rule batch failed (how many).
    ItemsFailed(u64),
}

/// Where a rule lives: the backend, the address family, and its table and chain (iptables,
/// nftables), zone (firewalld) or chain (ufw); always on the input side.
pub struct Scope {
    pub provider: String,
    pub family: String,
    pub table: Option<String>,
    pub chain: Option<String>,
    pub zone: Option<String>,
    pub direction: String,
}

pub struct ScopeView {
    pub provider: Seq<char>,
    pub family: Seq<char>,
    pub table: Option<Seq<char>>,
    pub chain: Option<Seq<char>>,
    pub zone: Option<Seq<char>>,
    pub direction: Seq<char>,
}

impl View for Scope {
    type V = ScopeView;

    open spec fn view(&self) -> ScopeView {
        ScopeView {
            provider: self.provider@,
            family: self.family@,
            table: opt_view(self.table),
            chain: opt_view(self.chain),
            zone: opt_view(self.zone),
            direction: self.direction@,
        }
    }
}

/// A rule of the unified API.
pub struct Rule {
    /// `None` for a backend without a known scope layout.
    pub scope: Option<Scope>,
    pub protocol: String,
    pub source_address: String,
    /// Set for port rules, absent for address rules.
    pub destination_port: Option<String>,
    pub action: String,
    pub description: String,
}

pub struct RuleView {
    pub scope: Option<ScopeView>,
    pub protocol: Seq<char>,
    pub source_address: Seq<char>,
    pub destination_port: Option<Seq<char>>,
    pub action: Seq<char>,
    pub description: Seq<char>,
}

impl View for Rule {
    type V = RuleView;

    open spec fn view(&self) -> RuleView {
        RuleView {
            scope: match self.scope {
                Some(s) => Some(s@),
                None => None,
            },
            protocol: self.protocol@,
            source_address: self.source_address@,
            destination_port: opt_view(self.destination_port),
            action: self.action@,
            description: self.description@,
        }
    }
}

pub open spec fn scope_views(v: Seq<Scope>) -> Seq<ScopeView> {
    v.map_values(|s: Scope| s@)
}

pub open spec fn rule_views(v: Seq<Rule>) -> Seq<RuleView> {
    v.map_values(|r: Rule| r@)
}

/// Options of `firewall port add|del`.
pub struct PortOptions {
    pub protocol: String,
    pub strategy: String,
    pub source: String,
    pub desc: String,
}

/// Options of `firewall ip add|del`.
pub struct IpOptions {
    pub strategy: String,
    pub desc: String,
}

/// Options of `firewall forward add|del`.
pub struct ForwardOptions {
    pub protocol: String,
    pub target: String,
    pub interface: String,
    pub num: String,
}

/// Options of `firewall list`.
pub struct ListOptions {
    /// The rule type: `port`, `address` or `forward`.
    pub kind: String,
    pub info: String,
    pub strategy: String,
}

/// The action a strategy stands for: accept/allow is `accept`, drop/deny/block is `drop`,
/// in any case.
pub open spec fn strategy_spec(s: Seq<char>) -> Option<Seq<char>> {
    let l = ascii_lower(s);
    if l == "accept"@ || l == "allow"@ {
        Some("accept"@)
    } else if l == "drop"@ || l == "deny"@ || l == "block"@ {
        Some("drop"@)
    } else {
        None
    }
}

/// The protocols a protocol option expands to.
pub open spec fn protocols_spec(p: Seq<char>) -> Option<Seq<Seq<char>>> {
    let l = ascii_lower(p);
    if l == "tcp"@ {
        Some(seq!["tcp"@])
    } else if l == "udp"@ {
        Some(seq!["udp"@])
    } else if l == "tcp/udp"@ || l == "udp/tcp"@ {
        Some(seq!["tcp"@, "udp"@])
    } else {
        None
    }
}

/// An address with a `:` is IPv6, any other IPv4.
pub open spec fn family_of(address: Seq<char>) -> Seq<char> {
    if address.contains(':') {
        "ipv6"@
    } else {
        "ipv4"@
    }
}

pub open spec fn is_chain_provider(p: Seq<char>) -> bool {
    p == "iptables"@ || p == "nftables"@
}

pub open spec fn scope_of(
    provider: Seq<char>,
    family: Seq<char>,
    table: Option<Seq<char>>,
    chain: Option<Seq<char>>,
    zone: Option<Seq<char>>,
) -> ScopeView {
    ScopeView { provider, family, table, chain, zone, direction: "input"@ }
}

/// The scope that new rules go into.
pub open spec fn rule_scope_spec(provider: Seq<char>, family: Seq<char>) -> Option<ScopeView> {
    if is_chain_provider(provider) {
        Some(scope_of(provider, family, Some("filter"@), Some("1PANEL_BASIC"@), None))
    } else if provider == "firewalld"@ {
        Some(scope_of(provider, family, None, None, Some("public"@)))
    } else if provider == "ufw"@ {
        Some(scope_of(provider, family, None, Some("incoming"@), None))
    } else {
        None
    }
}

pub open spec fn chain_scopes(provider: Seq<char>, family: Seq<char>) -> Seq<ScopeView> {
    seq![
        scope_of(provider, family, Some("filter"@), Some("1PANEL_BASIC_BEFORE"@), None),
        scope_of(provider, family, Some("filter"@), Some("1PANEL_BASIC"@), None),
        scope_of(provider, family, Some("filter"@), Some("1PANEL_BASIC_AFTER"@), None),
    ]
}

/// Every scope that a listing searches: for iptables and nftables the three basic chains
/// of each family, for firewalld the public zone, for ufw the incoming chain of each
/// family; none for an unknown backend.
pub open spec fn scopes_spec(provider: Seq<char>) -> Seq<ScopeView> {
    if is_chain_provider(provider) {
        chain_scopes(provider, "ipv4"@) + chain_scopes(provider, "ipv6"@)
    } else if provider == "firewalld"@ {
        seq![scope_of(provider, "inet"@, None, None, Some("public"@))]
    } else if provider == "ufw"@ {
        seq![
            scope_of(provider, "ipv4"@, None, Some("incoming"@), None),
            scope_of(provider, "ipv6"@, None, Some("incoming"@), None),
        ]
    } else {
        seq![]
    }
}

fn owned(s: &str) -> (r: String)
    ensures
        r@ == s@,
{
    s.to_owned()
}

fn owned_opt(s: Option<&str>) -> (r: Option<String>)
    ensures
        opt_view(r) == match s {
            Some(x) => Some(x@),
            None => None::<Seq<char>>,
        },
{
    match s {
        Some(x) => Some(x.to_owned()),
        None => None,
    }
}

fn make_scope(
    provider: &str,
    family: &str,
    table: Option<&str>,
    chain: Option<&str>,
    zone: Option<&str>,
) -> (r: Scope)
    ensures
        r@ == scope_of(
            provider@,
            family@,
            match table {
                Some(x) => Some(x@),
                None => None::<Seq<char>>,
            },
            match chain {
                Some(x) => Some(x@),
                None => None::<Seq<char>>,
            },
            match zone {
                Some(x) => Some(x@),
                None => None::<Seq<char>>,
            },
        ),
{
    Scope {
        provider: owned(provider),
        family: owned(family),
        table: owned_opt(table),
        chain: owned_opt(chain),
        zone: owned_opt(zone),
        direction: owned("input"),
    }
}

/// Whether `s` spells the word `w`.
fn is_word(s: &Vec<char>, w: &str) -> (r: bool)
    ensures
        r == (s@ == w@),
{
    same(s, &chars_of(w))
}

/// Normalises a strategy to `accept` or `drop`.
pub fn validate_strategy(strategy: &str) -> (r: Result<String, FirewallError>)
    ensures
        match strategy_spec(strategy@) {
            Some(a) => r matches Ok(s) && s@ == a,
            None => r matches Err(FirewallError::UnsupportedStrategy(s)) && s@ == strategy@,
        },
{
    let l = to_ascii_lower(&chars_of(strategy));
    if is_word(&l, "accept") || is_word(&l, "allow") {
        Ok(owned("accept"))
    } else if is_word(&l, "drop") || is_word(&l, "deny") || is_word(&l, "block") {
        Ok(owned("drop"))
    } else {
        Err(FirewallError::UnsupportedStrategy(owned(strategy)))
    }
}

/// The protocols of a protocol option: `tcp`, `udp`, or both for `tcp/udp` and `udp/tcp`.
pub fn protocols(protocol: &str) -> (r: Result<Vec<String>, FirewallError>)
    ensures
        match protocols_spec(protocol@) {
            Some(ps) => r matches Ok(v) && string_views(v@) == ps,
            None => r matches Err(FirewallError::UnsupportedProtocol(s)) && s@ == protocol@,
        },
{
    let l = to_ascii_lower(&chars_of(protocol));
    let mut v: Vec<String> = Vec::new();
    if is_word(&l, "tcp") {
        v.push(owned("tcp"));
    } else if is_word(&l, "udp") {
        v.push(owned("udp"));
    } else if is_word(&l, "tcp/udp") || is_word(&l, "udp/tcp") {
        v.push(owned("tcp"));
        v.push(owned("udp"));
    } else {
        return Err(FirewallError::UnsupportedProtocol(owned(protocol)));
    }
    assert(string_views(v@) =~= protocols_spec(protocol@)->0);
    Ok(v)
}

/// `ipv6` for an address holding `:`, else `ipv4`.
pub fn address_family(address: &str) -> (r: String)
    ensures
        r@ == family_of(address@),
{
    if has_char(&chars_of(address), ':') {
        owned("ipv6")
    } else {
        owned("ipv4")
    }
}

/// The scope that a new rule of `family` goes into on `provider`.
pub fn rule_scope(provider: &str, family: &str) -> (r: Option<Scope>)
    ensures
        match r {
            Some(s) => rule_scope_spec(provider@, family@) == Some(s@),
            None => rule_scope_spec(provider@, family@) is None,
        },
{
    let p = chars_of(provider);
    if is_word(&p, "iptables") || is_word(&p, "nftables") {
        Some(make_scope(provider, family, Some("filter"), Some("1PANEL_BASIC"), None))
    } else if is_word(&p, "firewalld") {
        Some(make_scope(provider, family, None, None, Some("public")))
    } else if is_word(&p, "ufw") {
        Some(make_scope(provider, family, None, Some("incoming"), None))
    } else {
        None
    }
}

/// The scopes that a listing of `provider`'s rules searches.
pub fn scopes(provider: &str) -> (r: Vec<Scope>)
    ensures
        scope_views(r@) == scopes_spec(provider@),
{
    let p = chars_of(provider);
    let mut v: Vec<Scope> = Vec::new();
    if is_word(&p, "iptables") || is_word(&p, "nftables") {
        v.push(make_scope(provider, "ipv4", Some("filter"), Some("1PANEL_BASIC_BEFORE"), None));
        v.push(make_scope(provider, "ipv4", Some("filter"), Some("1PANEL_BASIC"), None));
        v.push(make_scope(provider, "ipv4", Some("filter"), Some("1PANEL_BASIC_AFTER"), None));
        v.push(make_scope(provider, "ipv6", Some("filter"), Some("1PANEL_BASIC_BEFORE"), None));
        v.push(make_scope(provider, "ipv6", Some("filter"), Some("1PANEL_BASIC"), None));
        v.push(make_scope(provider, "ipv6", Some("filter"), Some("1PANEL_BASIC_AFTER"), None));
    } else if is_word(&p, "firewalld") {
        v.push(make_scope(provider, "inet", None, None, Some("public")));
    } else if is_word(&p, "ufw") {
        v.push(make_scope(provider, "ipv4", None, Some("incoming"), None));
        v.push(make_scope(provider, "ipv6", None, Some("incoming"), None));
    }
    assert(scope_views(v@) =~= scopes_spec(provider@));
    v
}

/// The family of a port rule: `inet` for a rule without source on firewalld, else the
/// source address's family.
pub open spec fn port_family(provider: Seq<char>, source: Seq<char>) -> Seq<char> {
    if source.len() == 0 && provider == "firewalld"@ {
        "inet"@
    } else {
        family_of(source)
    }
}

pub open spec fn port_rule_spec(
    provider: Seq<char>,
    port: Seq<char>,
    opts: PortOptions,
    action: Seq<char>,
    protocol: Seq<char>,
) -> RuleView {
    RuleView {
        scope: rule_scope_spec(provider, port_family(provider, opts.source@)),
        protocol,
        source_address: opts.source@,
        destination_port: Some(port),
        action,
        description: opts.desc@,
    }
}

/// The rules that open (or close) a port carry the request: one per protocol of the
/// option, in order, each with the asked source address (empty meaning every source),
/// the port, the strategy's action and the description.
pub proof fn law_port_rules_carry_request(
    provider: Seq<char>,
    port: Seq<char>,
    opts: PortOptions,
    action: Seq<char>,
    protocols: Seq<Seq<char>>,
)
    ensures
        ({
            let rules = protocols.map_values(
                |p: Seq<char>| port_rule_spec(provider, port, opts, action, p),
            );
            &&& rules.len() == protocols.len()
            &&& forall|i: int|
                0 <= i < rules.len() ==> (#[trigger] rules[i]).source_address == opts.source@
                    && rules[i].destination_port == Some(port) && rules[i].protocol == protocols[i]
                    && rules[i].action == action && rules[i].description == opts.desc@
        }),
{
}

/// The unified rules that open (or close) `port`: one per protocol of the option, all
/// with the same scope, source, action and description.
pub fn port_rules(provider: &str, port: &str, opts: &PortOptions) -> (r: Result<Vec<Rule>, FirewallError>)
    ensures
        strategy_spec(opts.strategy@) is None ==> (r matches Err(
            FirewallError::UnsupportedStrategy(s),
        ) && s@ == opts.strategy@),
        strategy_spec(opts.strategy@) is Some && protocols_spec(opts.protocol@) is None ==> (r matches Err(
            FirewallError::UnsupportedProtocol(s),
        ) && s@ == opts.protocol@),
        strategy_spec(opts.strategy@) matches Some(a) ==> protocols_spec(opts.protocol@) matches Some(
            ps,
        ) ==> (r matches Ok(v) && rule_views(v@) == ps.map_values(
            |p: Seq<char>| port_rule_spec(provider@, port@, *opts, a, p),
        )),
        r matches Ok(v) ==> forall|i: int|
            0 <= i < v.len() ==> (#[trigger] v@[i])@.source_address == opts.source@
                && v@[i]@.destination_port == Some(port@) && v@[i]@.description == opts.desc@,
{
    let action = validate_strategy(opts.strategy.as_str())?;
    let source = chars_of(opts.source.as_str());
    let family = if source.len() == 0 && is_word(&chars_of(provider), "firewalld") {
        owned("inet")
    } else {
        address_family(opts.source.as_str())
    };
    let ps = protocols(opts.protocol.as_str())?;
    let ghost want = ps@.map_values(|p: String| p@).map_values(
        |p: Seq<char>| port_rule_spec(provider@, port@, *opts, action@, p),
    );
    let mut v: Vec<Rule> = Vec::new();
    let mut i: usize = 0;
    while i < ps.len()
        invariant
            0 <= i <= ps.len(),
            family@ == port_family(provider@, opts.source@),
            want.len() == ps.len(),
            want == ps@.map_values(|p: String| p@).map_values(
                |p: Seq<char>| port_rule_spec(provider@, port@, *opts, action@, p),
            ),
            rule_views(v@) == want.take(i as int),
        decreases ps.len() - i,
    {
        let rule = Rule {
            scope: rule_scope(provider, family.as_str()),
            protocol: ps[i].clone(),
            source_address: opts.source.clone(),
            destination_port: Some(owned(port)),
            action: action.clone(),
            description: opts.desc.clone(),
        };
        assert(rule@ == want[i as int]);
        let ghost before = v@;
        v.push(rule);
        assert(v@ == before.push(rule));
        assert(rule_views(v@) =~= rule_views(before).push(rule@));
        i += 1;
        assert(rule_views(v@) =~= want.take(i as int));
    }
    assert(want.take(ps.len() as int) =~= want);
    assert forall|i: int| 0 <= i < v.len() implies (#[trigger] v@[i])@.source_address == opts.source@
        && v@[i]@.destination_port == Some(port@) && v@[i]@.description == opts.desc@ by {
        assert(rule_views(v@)[i] == v@[i]@);
        assert(want[i] == port_rule_spec(provider@, port@, *opts, action@, ps@[i]@));
    }
    Ok(v)
}

/// The unified rule that admits (or blocks) all traffic from `address`.
pub fn ip_rules(provider: &str, address: &str, opts: &IpOptions) -> (r: Result<Vec<Rule>, FirewallError>)
    ensures
        match strategy_spec(opts.strategy@) {
            None => r matches Err(FirewallError::UnsupportedStrategy(s)) && s@ == opts.strategy@,
            Some(a) => r matches Ok(v) && rule_views(v@) == seq![
                RuleView {
                    scope: rule_scope_spec(provider@, family_of(address@)),
                    protocol: "all"@,
                    source_address: address@,
                    destination_port: None,
                    action: a,
                    description: opts.desc@,
                },
            ],
        },
{
    let family = address_family(address);
    let scope = rule_scope(provider, family.as_str());
    let action = validate_strategy(opts.strategy.as_str())?;
    let mut v: Vec<Rule> = Vec::new();
    v.push(
        Rule {
            scope,
            protocol: owned("all"),
            source_address: owned(address),
            destination_port: None,
            action,
            description: opts.desc.clone(),
        },
    );
    assert(rule_views(v@) =~= seq![v@[0]@]);
    Ok(v)
}

/// The part of `s` before the first `/` (all of it when there is none).
pub open spec fn before_slash(s: Seq<char>) -> Seq<char> {
    split_on(s, '/')[0]
}

/// Two addresses are the same host when they agree, ignoring case, up to any `/` prefix
/// length.
pub open spec fn address_eq_spec(actual: Seq<char>, expected: Seq<char>) -> bool {
    ascii_lower(before_slash(actual)) == ascii_lower(before_slash(expected))
}

/// A protocol matches an option when it equals, ignoring case, one of the option's
/// `/`-separated parts.
pub open spec fn protocol_eq_spec(actual: Seq<char>, expected: Seq<char>) -> bool {
    exists|i: int|
        0 <= i < split_on(expected, '/').len() && ascii_lower(#[trigger] split_on(expected, '/')[i])
            == ascii_lower(actual)
}

proof fn lemma_split_nonempty(s: Seq<char>, c: char)
    ensures
        split_on(s, c).len() >= 1,
{
}

fn first_piece(s: &str) -> (r: Vec<char>)
    ensures
        r@ == before_slash(s@),
{
    let parts = split_char(&chars_of(s), '/');
    proof {
        lemma_split_nonempty(s@, '/');
        assert(views(parts@)[0] == parts@[0]@);
    }
    copy_chars(&parts[0])
}

/// Whether two addresses name the same host (see `address_eq_spec`).
pub fn address_eq(actual: &str, expected: &str) -> (r: bool)
    ensures
        r == address_eq_spec(actual@, expected@),
{
    eq_ignore_case(&first_piece(actual), &first_piece(expected))
}

/// Whether `actual` is one of the protocols that `expected` lists.
pub fn protocol_eq(actual: &str, expected: &str) -> (r: bool)
    ensures
        r == protocol_eq_spec(actual@, expected@),
{
    let a = chars_of(actual);
    let parts = split_char(&chars_of(expected), '/');
    let mut i: usize = 0;
    while i < parts.len()
        invariant
            0 <= i <= parts.len(),
            views(parts@) == split_on(expected@, '/'),
            a@ == actual@,
            forall|k: int|
                0 <= k < i ==> ascii_lower(#[trigger] split_on(expected@, '/')[k]) != ascii_lower(
                    actual@,
                ),
        decreases parts.len() - i,
    {
        assert(views(parts@)[i as int] == parts@[i as int]@);
        if eq_ignore_case(&parts[i], &a) {
            return true;
        }
        i += 1;
    }
    false
}

/// A forward target `ip:port`, split at its last `:`.
pub open spec fn target_spec(t: Seq<char>) -> Option<(Seq<char>, Seq<char>)> {
    let k = last_index_of(t, ':');
    if k < 0 {
        None
    } else {
        Some((t.take(k), t.skip(k + 1)))
    }
}

pub proof fn lemma_last_index_bound(s: Seq<char>, c: char)
    ensures
        -1 <= last_index_of(s, c) < s.len(),
        last_index_of(s, c) >= 0 ==> s[last_index_of(s, c)] == c,
    decreases s.len(),
{
    if s.len() > 0 && s.last() != c {
        lemma_last_index_bound(s.drop_last(), c);
    }
}

/// Splits a forward target into address and port at its last `:`.
pub fn parse_target(target: &str) -> (r: Result<(String, String), FirewallError>)
    ensures
        match target_spec(target@) {
            Some((ip, port)) => r matches Ok((a, b)) && a@ == ip && b@ == port,
            None => r matches Err(FirewallError::BadTarget),
        },
{
    let t = chars_of(target);
    match last_index(&t, ':') {
        Some(k) => {
            proof {
                lemma_last_index_bound(t@, ':');
            }
            let ip = slice_of(&t, 0, k);
            let port = slice_of(&t, k + 1, t.len());
            assert(ip@ =~= t@.take(k as int));
            assert(port@ =~= t@.skip(k + 1));
            Ok((string_of(&ip), string_of(&port)))
        },
        None => Err(FirewallError::BadTarget),
    }
}

/// The backend the panel reports: `backend` when it is not empty, else `name`, in lower
/// case; it must be one of iptables, nftables, firewalld and ufw.
pub open spec fn provider_spec(backend: Option<Seq<char>>, name: Option<Seq<char>>) -> Seq<char> {
    ascii_lower(
        match backend {
            Some(b) if b.len() > 0 => b,
            _ => match name {
                Some(n) => n,
                None => Seq::<char>::empty(),
            },
        },
    )
}

pub open spec fn known_provider(p: Seq<char>) -> bool {
    p == "iptables"@ || p == "nftables"@ || p == "firewalld"@ || p == "ufw"@
}

fn opt_str_view(s: Option<&str>) -> (r: Option<Vec<char>>)
    ensures
        match s {
            Some(x) => r matches Some(v) && v@ == x@,
            None => r is None,
        },
{
    match s {
        Some(x) => Some(chars_of(x)),
        None => None,
    }
}

/// The firewall backend named by the panel's `backend` and `name` fields.
pub fn firewall_provider(backend: Option<&str>, name: Option<&str>) -> (r: Result<String, FirewallError>)
    ensures
        ({
            let p = provider_spec(
                match backend {
                    Some(b) => Some(b@),
                    None => None,
                },
                match name {
                    Some(n) => Some(n@),
                    None => None,
                },
            );
            if known_provider(p) {
                r matches Ok(s) && s@ == p
            } else {
                r matches Err(FirewallError::UnknownProvider(s)) && s@ == p
            }
        }),
{
    let chosen = match opt_str_view(backend) {
        Some(b) if b.len() > 0 => b,
        _ => match opt_str_view(name) {
            Some(n) => n,
            None => Vec::new(),
        },
    };
    let l = to_ascii_lower(&chosen);
    let known = is_word(&l, "iptables") || is_word(&l, "nftables") || is_word(&l, "firewalld")
        || is_word(&l, "ufw");
    if known {
        Ok(string_of(&l))
    } else {
        Err(FirewallError::UnknownProvider(string_of(&l)))
    }
}

/// The panel's verdict on one rule sent for checking (missing text fields read as empty).
pub struct CheckPlan {
    pub decision: String,
    pub classification: String,
    pub reason: Option<String>,
    /// The string entries of `allowedActions`.
    pub allowed_actions: Vec<String>,
}

/// The rule exists already: nothing to do for it.
pub open spec fn plan_exists(p: CheckPlan) -> bool {
    p.decision@ == "no_change"@ || p.classification@ == "exact_managed"@ || p.classification@
        == "exact_external"@
}

pub open spec fn plan_creatable(p: CheckPlan) -> bool {
    string_views(p.allowed_actions@).contains("create"@)
}

/// Walks the checked plans in order: a blocked plan, or one that neither exists nor may
/// be created, stops the walk (its index is the error); otherwise the indices of the
/// plans to create, and how many rules exist already.
pub open spec fn scan_plans(ps: Seq<CheckPlan>) -> Result<(Seq<int>, nat), int>
    decreases ps.len(),
{
    if ps.len() == 0 {
        Ok((Seq::empty(), 0))
    } else {
        match scan_plans(ps.drop_last()) {
            Err(i) => Err(i),
            Ok((creates, existing)) => {
                let p = ps.last();
                let i = ps.len() - 1;
                if p.decision@ == "blocked"@ {
                    Err(i)
                } else if plan_exists(p) {
                    Ok((creates, existing + 1))
                } else if plan_creatable(p) {
                    Ok((creates.push(i), existing))
                } else {
                    Err(i)
                }
            },
        }
    }
}

/// What to create after a check: the indices of the plans whose requested rules are
/// created, and the number of rules that exist already.
pub struct CreatePlan {
    pub creates: Vec<usize>,
    pub existing: usize,
}

pub open spec fn usize_views(v: Seq<usize>) -> Seq<int> {
    v.map_values(|x: usize| x as int)
}

fn allows_create(p: &CheckPlan) -> (r: bool)
    ensures
        r == plan_creatable(*p),
{
    let mut i: usize = 0;
    while i < p.allowed_actions.len()
        invariant
            0 <= i <= p.allowed_actions.len(),
            forall|k: int| 0 <= k < i ==> p.allowed_actions@[k]@ != "create"@,
        decreases p.allowed_actions.len() - i,
    {
        if is_word(&chars_of(p.allowed_actions[i].as_str()), "create") {
            assert(string_views(p.allowed_actions@)[i as int] == "create"@);
            return true;
        }
        i += 1;
    }
    assert forall|k: int| 0 <= k < string_views(p.allowed_actions@).len() implies string_views(
        p.allowed_actions@,
    )[k] != "create"@ by {
        assert(string_views(p.allowed_actions@)[k] == p.allowed_actions@[k]@);
    }
    false
}

/// Decides, from the panel's check of the requested rules, which of them to create: a
/// blocked rule fails with the panel's reason, a rule that already exists is counted and
/// skipped, and a new rule must allow `create`.
pub fn unified_create(plans: &Vec<CheckPlan>) -> (r: Result<CreatePlan, FirewallError>)
    ensures
        match scan_plans(plans@) {
            Ok((creates, existing)) => r matches Ok(c) && usize_views(c.creates@) == creates
                && c.existing == existing,
            Err(i) => 0 <= i < plans.len() && if plans@[i].decision@ == "blocked"@ {
                r matches Err(FirewallError::Blocked(reason, class)) && opt_view(reason) == opt_view(
                    plans@[i].reason,
                ) && class@ == plans@[i].classification@
            } else {
                r matches Err(FirewallError::CreateNotAllowed(class)) && class@
                    == plans@[i].classification@
            },
        },
{
    let mut creates: Vec<usize> = Vec::new();
    let mut existing: usize = 0;
    let mut i: usize = 0;
    assert(usize_views(creates@) =~= Seq::<int>::empty());
    assert(plans@.take(0) =~= Seq::<CheckPlan>::empty());
    while i < plans.len()
        invariant
            0 <= i <= plans.len(),
            existing <= i,
            scan_plans(plans@.take(i as int)) == Ok::<(Seq<int>, nat), int>(
                (usize_views(creates@), existing as nat),
            ),
        decreases plans.len() - i,
    {
        let p = &plans[i];
        proof {
            assert(plans@.take(i + 1).drop_last() =~= plans@.take(i as int));
            assert(plans@.take(i + 1).last() == plans@[i as int]);
        }
        let decision = chars_of(p.decision.as_str());
        let class = chars_of(p.classification.as_str());
        if is_word(&decision, "blocked") {
            proof {
                lemma_scan_err_stays(plans@, i as int + 1);
            }
            let reason = match &p.reason {
                Some(x) => Some(x.clone()),
                None => None,
            };
            return Err(FirewallError::Blocked(reason, p.classification.clone()));
        }
        if is_word(&decision, "no_change") || is_word(&class, "exact_managed") || is_word(
            &class,
            "exact_external",
        ) {
            existing += 1;
        } else if allows_create(p) {
            let ghost before = creates@;
            creates.push(i);
            assert(usize_views(creates@) =~= usize_views(before).push(i as int));
        } else {
            proof {
                lemma_scan_err_stays(plans@, i as int + 1);
            }
            return Err(FirewallError::CreateNotAllowed(p.classification.clone()));
        }
        i += 1;
    }
    assert(plans@.take(plans.len() as int) =~= plans@);
    Ok(CreatePlan { creates, existing })
}

/// Once the walk over a prefix fails, the walk over the whole list fails at the same plan.
pub proof fn lemma_scan_err_stays(ps: Seq<CheckPlan>, n: int)
    requires
        0 <= n <= ps.len(),
        scan_plans(ps.take(n)) is Err,
    ensures
        scan_plans(ps) == scan_plans(ps.take(n)),
        0 <= scan_plans(ps)->Err_0 < n,
    decreases ps.len() - n,
{
    lemma_scan_err_index(ps.take(n));
    if n < ps.len() {
        assert(ps.take(n + 1).drop_last() =~= ps.take(n));
        lemma_scan_err_stays(ps, n + 1);
    } else {
        assert(ps.take(n) =~= ps);
    }
}

proof fn lemma_scan_err_index(ps: Seq<CheckPlan>)
    requires
        scan_plans(ps) is Err,
    ensures
        0 <= scan_plans(ps)->Err_0 < ps.len(),
    decreases ps.len(),
{
    if ps.len() > 0 {
        if scan_plans(ps.drop_last()) is Err {
            lemma_scan_err_index(ps.drop_last());
        }
    }
}

/// One rule of the unified inventory, its text fields read as empty when missing.
pub struct InventoryItem {
    pub source_address: String,
    pub destination_address: String,
    pub source_port: String,
    pub destination_port: String,
    pub protocol: String,
    pub action: String,
    pub description: String,
    /// The rule's state, when the panel reports one.
    pub state: Option<String>,
    /// The managed rule's UUID (`desired.uuid`), when it has one.
    pub uuid: Option<String>,
}

pub open spec fn or_text(o: Option<String>, d: Seq<char>) -> Seq<char> {
    match o {
        Some(s) => s@,
        None => d,
    }
}

/// The text that `--info` searches in: the rule's addresses, ports, description and
/// state, space-separated, in lower case.
pub open spec fn haystack(it: InventoryItem) -> Seq<char> {
    ascii_lower(
        it.source_address@ + " "@ + it.destination_address@ + " "@ + it.source_port@ + " "@
            + it.destination_port@ + " "@ + it.description@ + " "@ + or_text(it.state, ""@),
    )
}

/// Port rules have a destination port; address rules have a source and no port.
pub open spec fn kind_match(kind: Seq<char>, it: InventoryItem) -> bool {
    if kind == "port"@ {
        it.destination_port@.len() > 0
    } else if kind == "address"@ {
        it.source_address@.len() > 0 && it.destination_port@.len() == 0
    } else {
        false
    }
}

/// A rule is listed when it is of the asked type, has the asked strategy (any case; any
/// when none is asked) and, when `info` is given, holds it in its searchable text.
pub open spec fn matches_filter_spec(it: InventoryItem, opts: ListOptions) -> bool {
    &&& kind_match(opts.kind@, it)
    &&& (opts.strategy@.len() == 0 || ascii_lower(it.action@) == ascii_lower(opts.strategy@))
    &&& (opts.info@.len() == 0 || contains_seq(haystack(it), ascii_lower(opts.info@)))
}

fn push_str(out: &mut Vec<char>, s: &str)
    ensures
        final(out)@ == old(out)@ + s@,
{
    crate::text::push_all(out, &chars_of(s));
}

/// Whether the unified rule `item` is shown by a listing with `opts`.
pub fn matches_filter(item: &InventoryItem, opts: &ListOptions) -> (r: bool)
    ensures
        r == matches_filter_spec(*item, *opts),
{
    let kind = chars_of(opts.kind.as_str());
    let dport = chars_of(item.destination_port.as_str());
    let src = chars_of(item.source_address.as_str());
    let kind_ok = if is_word(&kind, "port") {
        dport.len() > 0
    } else if is_word(&kind, "address") {
        src.len() > 0 && dport.len() == 0
    } else {
        false
    };
    let strategy = chars_of(opts.strategy.as_str());
    let strategy_ok = strategy.len() == 0 || eq_ignore_case(&chars_of(item.action.as_str()), &strategy);
    let info = chars_of(opts.info.as_str());
    let info_ok = if info.len() == 0 {
        true
    } else {
        let mut h: Vec<char> = Vec::new();
        push_str(&mut h, item.source_address.as_str());
        push_str(&mut h, " ");
        push_str(&mut h, item.destination_address.as_str());
        push_str(&mut h, " ");
        push_str(&mut h, item.source_port.as_str());
        push_str(&mut h, " ");
        push_str(&mut h, item.destination_port.as_str());
        push_str(&mut h, " ");
        push_str(&mut h, item.description.as_str());
        push_str(&mut h, " ");
        match &item.state {
            Some(st) => push_str(&mut h, st.as_str()),
            None => {
                proof {
                    reveal_strlit("");
                }
            },
        }
        assert(h@ =~= item.source_address@ + " "@ + item.destination_address@ + " "@
            + item.source_port@ + " "@ + item.destination_port@ + " "@ + item.description@ + " "@
            + or_text(item.state, ""@));
        contains(&to_ascii_lower(&h), &to_ascii_lower(&info))
    };
    kind_ok && strategy_ok && info_ok
}

pub open spec fn rows_view(v: Seq<Vec<String>>) -> Seq<Seq<Seq<char>>> {
    v.map_values(|r: Vec<String>| string_views(r@))
}

/// The cells of a listed unified rule: for ports the port, protocol, action, source
/// (`Anywhere` when none), state (`-` when none) and description; for addresses the
/// source, action, state and description.
pub open spec fn unified_row(kind: Seq<char>, it: InventoryItem) -> Seq<Seq<char>> {
    if kind == "port"@ {
        seq![
            it.destination_port@,
            it.protocol@,
            it.action@,
            if it.source_address@.len() == 0 {
                "Anywhere"@
            } else {
                it.source_address@
            },
            or_text(it.state, "-"@),
            it.description@,
        ]
    } else {
        seq![it.source_address@, it.action@, or_text(it.state, "-"@), it.description@]
    }
}

/// The rows of a unified listing: the matching rules in inventory order.
pub open spec fn unified_rows(items: Seq<InventoryItem>, opts: ListOptions) -> Seq<Seq<Seq<char>>>
    decreases items.len(),
{
    if items.len() == 0 {
        Seq::empty()
    } else {
        let prev = unified_rows(items.drop_last(), opts);
        if matches_filter_spec(items.last(), opts) {
            prev.push(unified_row(opts.kind@, items.last()))
        } else {
            prev
        }
    }
}

fn text_or(o: &Option<String>, d: &str) -> (r: String)
    ensures
        r@ == or_text(*o, d@),
{
    match o {
        Some(s) => s.clone(),
        None => owned(d),
    }
}

fn unified_row_exec(kind: &Vec<char>, it: &InventoryItem) -> (r: Vec<String>)
    ensures
        string_views(r@) == unified_row(kind@, *it),
{
    let mut row: Vec<String> = Vec::new();
    if is_word(kind, "port") {
        row.push(it.destination_port.clone());
        row.push(it.protocol.clone());
        row.push(it.action.clone());
        if chars_of(it.source_address.as_str()).len() == 0 {
            row.push(owned("Anywhere"));
        } else {
            row.push(it.source_address.clone());
        }
        row.push(text_or(&it.state, "-"));
        row.push(it.description.clone());
    } else {
        row.push(it.source_address.clone());
        row.push(it.action.clone());
        row.push(text_or(&it.state, "-"));
        row.push(it.description.clone());
    }
    assert(string_views(row@) =~= unified_row(kind@, *it));
    row
}

/// The table of a unified listing of port or address rules: one row per inventory item
/// that passes the filter (see `unified_row`).
pub fn unified_list(items: &Vec<InventoryItem>, opts: &ListOptions) -> (r: Vec<Vec<String>>)
    ensures
        rows_view(r@) == unified_rows(items@, *opts),
{
    let kind = chars_of(opts.kind.as_str());
    let mut rows: Vec<Vec<String>> = Vec::new();
    let mut i: usize = 0;
    assert(rows_view(rows@) =~= unified_rows(items@.take(0), *opts));
    while i < items.len()
        invariant
            0 <= i <= items.len(),
            kind@ == opts.kind@,
            rows_view(rows@) == unified_rows(items@.take(i as int), *opts),
        decreases items.len() - i,
    {
        proof {
            assert(items@.take(i + 1).drop_last() =~= items@.take(i as int));
            assert(items@.take(i + 1).last() == items@[i as int]);
        }
        if matches_filter(&items[i], opts) {
            let row = unified_row_exec(&kind, &items[i]);
            let ghost before = rows@;
            rows.push(row);
            assert(rows_view(rows@) =~= rows_view(before).push(string_views(row@)));
        }
        i += 1;
    }
    assert(items@.take(items.len() as int) =~= items@);
    rows
}

/// A managed port rule to delete: same port, a protocol of the option, the same source
/// host and the same action.
pub open spec fn port_rule_selected(it: InventoryItem, port: Seq<char>, opts: PortOptions, action: Seq<char>) -> bool {
    &&& it.destination_port@ == port
    &&& protocol_eq_spec(it.protocol@, opts.protocol@)
    &&& address_eq_spec(it.source_address@, opts.source@)
    &&& it.action@ == action
}

/// A managed address rule to delete: no port, the same host, the same action.
pub open spec fn ip_rule_selected(it: InventoryItem, address: Seq<char>, action: Seq<char>) -> bool {
    &&& it.destination_port@.len() == 0
    &&& address_eq_spec(it.source_address@, address)
    &&& it.action@ == action
}

/// The UUIDs of the selected items that have one, in inventory order.
pub open spec fn selected_uuids(items: Seq<InventoryItem>, sel: spec_fn(InventoryItem) -> bool) -> Seq<Seq<char>>
    decreases items.len(),
{
    if items.len() == 0 {
        Seq::empty()
    } else {
        let prev = selected_uuids(items.drop_last(), sel);
        match items.last().uuid {
            Some(u) if sel(items.last()) => prev.push(u@),
            _ => prev,
        }
    }
}

/// The UUIDs of the managed port rules that `port del` removes. Fails on an unknown
/// strategy, or when no managed rule matches.
pub fn port_del_uuids(items: &Vec<InventoryItem>, port: &str, opts: &PortOptions) -> (r: Result<Vec<String>, FirewallError>)
    ensures
        match strategy_spec(opts.strategy@) {
            None => r matches Err(FirewallError::UnsupportedStrategy(s)) && s@ == opts.strategy@,
            Some(a) => {
                let u = selected_uuids(items@, |it: InventoryItem| port_rule_selected(it, port@, *opts, a));
                if u.len() == 0 {
                    r matches Err(FirewallError::NothingToDelete)
                } else {
                    r matches Ok(v) && string_views(v@) == u
                }
            },
        },
{
    let action = validate_strategy(opts.strategy.as_str())?;
    let ghost sel = |it: InventoryItem| port_rule_selected(it, port@, *opts, action@);
    let mut out: Vec<String> = Vec::new();
    let mut i: usize = 0;
    assert(string_views(out@) =~= selected_uuids(items@.take(0), sel));
    while i < items.len()
        invariant
            0 <= i <= items.len(),
            sel == (|it: InventoryItem| port_rule_selected(it, port@, *opts, action@)),
            string_views(out@) == selected_uuids(items@.take(i as int), sel),
        decreases items.len() - i,
    {
        proof {
            assert(items@.take(i + 1).drop_last() =~= items@.take(i as int));
            assert(items@.take(i + 1).last() == items@[i as int]);
        }
        let it = &items[i];
        let chosen = same(&chars_of(it.destination_port.as_str()), &chars_of(port)) && protocol_eq(
            it.protocol.as_str(),
            opts.protocol.as_str(),
        ) && address_eq(it.source_address.as_str(), opts.source.as_str()) && same(
            &chars_of(it.action.as_str()),
            &chars_of(action.as_str()),
        );
        assert(chosen == sel(*it));
        match &it.uuid {
            Some(u) => {
                if chosen {
                    let ghost before = out@;
                    out.push(u.clone());
                    assert(string_views(out@) =~= string_views(before).push(u@));
                }
            },
            None => {},
        }
        i += 1;
    }
    assert(items@.take(items.len() as int) =~= items@);
    if out.len() == 0 {
        return Err(FirewallError::NothingToDelete);
    }
    Ok(out)
}

/// The UUIDs of the managed address rules that `ip del` removes. Fails on an unknown
/// strategy, or when no managed rule matches.
pub fn ip_del_uuids(items: &Vec<InventoryItem>, address: &str, opts: &IpOptions) -> (r: Result<Vec<String>, FirewallError>)
    ensures
        match strategy_spec(opts.strategy@) {
            None => r matches Err(FirewallError::UnsupportedStrategy(s)) && s@ == opts.strategy@,
            Some(a) => {
                let u = selected_uuids(items@, |it: InventoryItem| ip_rule_selected(it, address@, a));
                if u.len() == 0 {
                    r matches Err(FirewallError::NothingToDelete)
                } else {
                    r matches Ok(v) && string_views(v@) == u
                }
            },
        },
{
    let action = validate_strategy(opts.strategy.as_str())?;
    let ghost sel = |it: InventoryItem| ip_rule_selected(it, address@, action@);
    let mut out: Vec<String> = Vec::new();
    let mut i: usize = 0;
    assert(string_views(out@) =~= selected_uuids(items@.take(0), sel));
    while i < items.len()
        invariant
            0 <= i <= items.len(),
            sel == (|it: InventoryItem| ip_rule_selected(it, address@, action@)),
            string_views(out@) == selected_uuids(items@.take(i as int), sel),
        decreases items.len() - i,
    {
        proof {
            assert(items@.take(i + 1).drop_last() =~= items@.take(i as int));
            assert(items@.take(i + 1).last() == items@[i as int]);
        }
        let it = &items[i];
        let chosen = chars_of(it.destination_port.as_str()).len() == 0 && address_eq(
            it.source_address.as_str(),
            address,
        ) && same(&chars_of(it.action.as_str()), &chars_of(action.as_str()));
        assert(chosen == sel(*it));
        match &it.uuid {
            Some(u) => {
                if chosen {
                    let ghost before = out@;
                    out.push(u.clone());
                    assert(string_views(out@) =~= string_views(before).push(u@));
                }
            },
            None => {},
        }
        i += 1;
    }
    assert(items@.take(items.len() as int) =~= items@);
    if out.len() == 0 {
        return Err(FirewallError::NothingToDelete);
    }
    Ok(out)
}

/// The listing options as used: the type defaults to `port` and is lower-cased.
pub open spec fn normalized_kind(kind: Seq<char>) -> Seq<char> {
    ascii_lower(
        if kind.len() == 0 {
            "port"@
        } else {
            kind
        },
    )
}

/// How a listing is fetched.
pub enum ListPlan {
    /// Older panels: `POST hosts/firewall/search` with type, info and strategy; the items
    /// are shown by `stable_rows`.
    Stable(ListOptions),
    /// Unified panels, forwards: `POST hosts/firewall/forward/search`, shown by
    /// `stable_rows` as forwards.
    UnifiedForward(ListOptions),
    /// Unified panels, port or address rules: the backend, then the inventory of its
    /// scopes, shown by `unified_list`.
    UnifiedRules(ListOptions),
}

pub open spec fn same_list_options(a: ListOptions, kind: Seq<char>, b: ListOptions) -> bool {
    a.kind@ == kind && a.info@ == b.info@ && a.strategy@ == b.strategy@
}

/// Decides how `firewall list` fetches its rules, given whether the panel offers the
/// unified API. Unified panels list port, address and forward rules; any other type is
/// refused there (older panels refuse it when showing the items).
pub fn list(opts: &ListOptions, unified: bool) -> (r: Result<ListPlan, FirewallError>)
    ensures
        ({
            let k = normalized_kind(opts.kind@);
            if !unified {
                r matches Ok(ListPlan::Stable(o)) && same_list_options(o, k, *opts)
            } else if k == "forward"@ {
                r matches Ok(ListPlan::UnifiedForward(o)) && same_list_options(o, k, *opts)
            } else if k == "port"@ || k == "address"@ {
                r matches Ok(ListPlan::UnifiedRules(o)) && same_list_options(o, k, *opts)
            } else {
                r matches Err(FirewallError::UnsupportedType(t)) && t@ == k
            }
        }),
{
    let raw = chars_of(opts.kind.as_str());
    let kind = if raw.len() == 0 {
        to_ascii_lower(&chars_of("port"))
    } else {
        to_ascii_lower(&raw)
    };
    let normalized = ListOptions {
        kind: string_of(&kind),
        info: opts.info.clone(),
        strategy: opts.strategy.clone(),
    };
    if !unified {
        return Ok(ListPlan::Stable(normalized));
    }
    if is_word(&kind, "forward") {
        Ok(ListPlan::UnifiedForward(normalized))
    } else if is_word(&kind, "port") || is_word(&kind, "address") {
        Ok(ListPlan::UnifiedRules(normalized))
    } else {
        Err(FirewallError::UnsupportedType(string_of(&kind)))
    }
}

/// One rule as the older API (and the forward search) reports it; missing fields are
/// empty.
pub struct FireInfo {
    pub num: String,
    pub address: String,
    pub port: String,
    pub protocol: String,
    pub strategy: String,
    pub used_status: String,
    pub description: String,
    pub target_ip: String,
    pub target_port: String,
    pub interface: String,
}

/// The cells of one listed rule: ports show port, protocol, strategy, source, whether the
/// port is in use (是/否) and description; forwards show number, port, `ip:port` target,
/// protocol and interface (`*` for any); addresses show address, strategy, description.
pub open spec fn stable_row(kind: Seq<char>, it: FireInfo) -> Seq<Seq<char>> {
    if kind == "port"@ {
        seq![
            it.port@,
            it.protocol@,
            it.strategy@,
            it.address@,
            if it.used_status@ == "in_used"@ || it.used_status@ == "used"@ {
                "是"@
            } else {
                "否"@
            },
            it.description@,
        ]
    } else if kind == "forward"@ {
        seq![
            it.num@,
            it.port@,
            it.target_ip@ + ":"@ + it.target_port@,
            it.protocol@,
            if it.interface@.len() == 0 {
                "*"@
            } else {
                it.interface@
            },
        ]
    } else {
        seq![it.address@, it.strategy@, it.description@]
    }
}

pub open spec fn stable_kind(kind: Seq<char>) -> bool {
    kind == "port"@ || kind == "forward"@ || kind == "address"@
}

fn stable_row_exec(kind: &Vec<char>, it: &FireInfo) -> (r: Vec<String>)
    requires
        stable_kind(kind@),
    ensures
        string_views(r@) == stable_row(kind@, *it),
{
    let mut row: Vec<String> = Vec::new();
    if is_word(kind, "port") {
        row.push(it.port.clone());
        row.push(it.protocol.clone());
        row.push(it.strategy.clone());
        row.push(it.address.clone());
        let used = chars_of(it.used_status.as_str());
        if is_word(&used, "in_used") || is_word(&used, "used") {
            row.push(owned("是"));
        } else {
            row.push(owned("否"));
        }
        row.push(it.description.clone());
    } else if is_word(kind, "forward") {
        row.push(it.num.clone());
        row.push(it.port.clone());
        let mut t = chars_of(it.target_ip.as_str());
        push_str(&mut t, ":");
        push_str(&mut t, it.target_port.as_str());
        row.push(string_of(&t));
        row.push(it.protocol.clone());
        if chars_of(it.interface.as_str()).len() == 0 {
            row.push(owned("*"));
        } else {
            row.push(it.interface.clone());
        }
    } else {
        row.push(it.address.clone());
        row.push(it.strategy.clone());
        row.push(it.description.clone());
    }
    assert(string_views(row@) =~= stable_row(kind@, *it));
    row
}

/// The table of an older-API listing of `kind` (port, forward or address); any other
/// type is refused.
pub fn stable_rows(kind: &str, items: &Vec<FireInfo>) -> (r: Result<Vec<Vec<String>>, FirewallError>)
    ensures
        stable_kind(kind@) ==> (r matches Ok(rows) && rows_view(rows@) == items@.map_values(
            |it: FireInfo| stable_row(kind@, it),
        )),
        !stable_kind(kind@) ==> (r matches Err(FirewallError::UnsupportedType(t)) && t@ == kind@),
{
    let k = chars_of(kind);
    if !(is_word(&k, "port") || is_word(&k, "forward") || is_word(&k, "address")) {
        return Err(FirewallError::UnsupportedType(owned(kind)));
    }
    let mut rows: Vec<Vec<String>> = Vec::new();
    let mut i: usize = 0;
    while i < items.len()
        invariant
            0 <= i <= items.len(),
            k@ == kind@,
            stable_kind(kind@),
            rows_view(rows@) == items@.take(i as int).map_values(|it: FireInfo| stable_row(kind@, it)),
        decreases items.len() - i,
    {
        let row = stable_row_exec(&k, &items[i]);
        let ghost before = rows@;
        rows.push(row);
        assert(rows_view(rows@) =~= rows_view(before).push(string_views(row@)));
        assert(items@.take(i + 1).map_values(|it: FireInfo| stable_row(kind@, it))
            =~= items@.take(i as int).map_values(|it: FireInfo| stable_row(kind@, it)).push(
            stable_row(kind@, items@[i as int]),
        ));
        i += 1;
    }
    assert(items@.take(items.len() as int) =~= items@);
    Ok(rows)
}

/// The body of the older API's port operation.
pub struct StablePortBody {
    pub operation: String,
    pub address: String,
    pub port: String,
    pub protocol: String,
    pub strategy: String,
    pub description: String,
}

/// The body of the older API's address operation.
pub struct StableIpBody {
    pub operation: String,
    pub address: String,
    pub strategy: String,
    pub description: String,
}

/// Which firewall API the panel offers.
pub enum Backend {
    /// The older flat API.
    Stable,
    /// The unified rule API, on this backend (see `firewall_provider`).
    Unified(String),
}

/// The first request of a rule command.
pub enum RuleRequest {
    /// `POST hosts/firewall/port`.
    StablePort(StablePortBody),
    /// `POST hosts/firewall/ip`.
    StableIp(StableIpBody),
    /// `POST hosts/firewall/batch` of port rules.
    StableBatch(Vec<StablePortBody>),
    /// `POST hosts/firewall/rules/check` of these rules; then `unified_create`.
    Check(Vec<Rule>),
    /// `POST hosts/firewall/rules/search` in these scopes for this text; then the UUIDs to
    /// delete are chosen from the inventory.
    Search(Vec<Scope>, String),
}

pub open spec fn port_body_spec(b: StablePortBody, operation: Seq<char>, port: Seq<char>, opts: PortOptions) -> bool {
    b.operation@ == operation && b.address@ == opts.source@ && b.port@ == port && b.protocol@
        == opts.protocol@ && b.strategy@ == opts.strategy@ && b.description@ == opts.desc@
}

fn port_body(operation: &str, port: &str, opts: &PortOptions) -> (r: StablePortBody)
    ensures
        port_body_spec(r, operation@, port@, *opts),
{
    StablePortBody {
        operation: owned(operation),
        address: opts.source.clone(),
        port: owned(port),
        protocol: opts.protocol.clone(),
        strategy: opts.strategy.clone(),
        description: opts.desc.clone(),
    }
}

pub open spec fn ip_body_spec(b: StableIpBody, operation: Seq<char>, address: Seq<char>, opts: IpOptions) -> bool {
    b.operation@ == operation && b.address@ == address && b.strategy@ == opts.strategy@
        && b.description@ == opts.desc@
}

fn ip_body(operation: &str, address: &str, opts: &IpOptions) -> (r: StableIpBody)
    ensures
        ip_body_spec(r, operation@, address@, *opts),
{
    StableIpBody {
        operation: owned(operation),
        address: owned(address),
        strategy: opts.strategy.clone(),
        description: opts.desc.clone(),
    }
}

/// Opens `port`: on older panels the flat `add` request as given; on unified panels the
/// check of `port_rules` (which fails on an unknown strategy or protocol).
pub fn port_add(port: &str, opts: &PortOptions, backend: &Backend) -> (r: Result<RuleRequest, FirewallError>)
    ensures
        match backend {
            Backend::Stable => r matches Ok(RuleRequest::StablePort(b)) && port_body_spec(
                b,
                "add"@,
                port@,
                *opts,
            ),
            Backend::Unified(p) => match strategy_spec(opts.strategy@) {
                None => r matches Err(FirewallError::UnsupportedStrategy(s)) && s@ == opts.strategy@,
                Some(a) => match protocols_spec(opts.protocol@) {
                    None => r matches Err(FirewallError::UnsupportedProtocol(s)) && s@
                        == opts.protocol@,
                    Some(ps) => r matches Ok(RuleRequest::Check(v)) && rule_views(v@)
                        == ps.map_values(|pr: Seq<char>| port_rule_spec(p@, port@, *opts, a, pr)),
                },
            },
        },
{
    match backend {
        Backend::Stable => Ok(RuleRequest::StablePort(port_body("add", port, opts))),
        Backend::Unified(p) => Ok(RuleRequest::Check(port_rules(p.as_str(), port, opts)?)),
    }
}

/// Closes `port`: on older panels the flat `remove` request; on unified panels the
/// inventory search for the port, from which `port_del_uuids` picks the rules.
pub fn port_del(port: &str, opts: &PortOptions, backend: &Backend) -> (r: RuleRequest)
    ensures
        match backend {
            Backend::Stable => r matches RuleRequest::StablePort(b) && port_body_spec(
                b,
                "remove"@,
                port@,
                *opts,
            ),
            Backend::Unified(p) => r matches RuleRequest::Search(sc, info) && scope_views(sc@)
                == scopes_spec(p@) && info@ == port@,
        },
{
    match backend {
        Backend::Stable => RuleRequest::StablePort(port_body("remove", port, opts)),
        Backend::Unified(p) => RuleRequest::Search(scopes(p.as_str()), owned(port)),
    }
}

/// Admits (or blocks) `address`: the flat `add` request, or the check of `ip_rules`.
pub fn ip_add(address: &str, opts: &IpOptions, backend: &Backend) -> (r: Result<RuleRequest, FirewallError>)
    ensures
        match backend {
            Backend::Stable => r matches Ok(RuleRequest::StableIp(b)) && ip_body_spec(
                b,
                "add"@,
                address@,
                *opts,
            ),
            Backend::Unified(p) => match strategy_spec(opts.strategy@) {
                None => r matches Err(FirewallError::UnsupportedStrategy(s)) && s@ == opts.strategy@,
                Some(a) => r matches Ok(RuleRequest::Check(v)) && rule_views(v@) == seq![
                    RuleView {
                        scope: rule_scope_spec(p@, family_of(address@)),
                        protocol: "all"@,
                        source_address: address@,
                        destination_port: None,
                        action: a,
                        description: opts.desc@,
                    },
                ],
            },
        },
{
    match backend {
        Backend::Stable => Ok(RuleRequest::StableIp(ip_body("add", address, opts))),
        Backend::Unified(p) => Ok(RuleRequest::Check(ip_rules(p.as_str(), address, opts)?)),
    }
}

/// Removes the rule for `address`: the flat `remove` request, or the inventory search for
/// the address, from which `ip_del_uuids` picks the rules.
pub fn ip_del(address: &str, opts: &IpOptions, backend: &Backend) -> (r: RuleRequest)
    ensures
        match backend {
            Backend::Stable => r matches RuleRequest::StableIp(b) && ip_body_spec(
                b,
                "remove"@,
                address@,
                *opts,
            ),
            Backend::Unified(p) => r matches RuleRequest::Search(sc, info) && scope_views(sc@)
                == scopes_spec(p@) && info@ == address@,
        },
{
    match backend {
        Backend::Stable => RuleRequest::StableIp(ip_body("remove", address, opts)),
        Backend::Unified(p) => RuleRequest::Search(scopes(p.as_str()), owned(address)),
    }
}

/// The port rules of every listed port: `port_rules` of each, in order.
pub open spec fn batch_rules_spec(provider: Seq<char>, ports: Seq<Seq<char>>, opts: PortOptions, action: Seq<char>, ps: Seq<Seq<char>>) -> Seq<RuleView>
    decreases ports.len(),
{
    if ports.len() == 0 {
        Seq::empty()
    } else {
        batch_rules_spec(provider, ports.drop_last(), opts, action, ps) + ps.map_values(
            |pr: Seq<char>| port_rule_spec(provider, ports.last(), opts, action, pr),
        )
    }
}

/// Opens every port of a comma-separated list. Older panels take the flat batch (one
/// `add` per listed port); unified panels check the port rules of them all, and refuse an
/// empty list.
pub fn batch_add(ports: &str, opts: &PortOptions, backend: &Backend) -> (r: Result<RuleRequest, FirewallError>)
    ensures
        ({
            let items = list_items(ports@, ',');
            match backend {
                Backend::Stable => r matches Ok(RuleRequest::StableBatch(v)) && v@.len() == items.len()
                    && forall|i: int|
                    0 <= i < items.len() ==> port_body_spec(#[trigger] v@[i], "add"@, items[i], *opts),
                Backend::Unified(p) => match strategy_spec(opts.strategy@) {
                    None => r matches Err(FirewallError::UnsupportedStrategy(s)) && s@
                        == opts.strategy@,
                    Some(a) => match protocols_spec(opts.protocol@) {
                        None => if items.len() == 0 {
                            r matches Err(FirewallError::NoPorts)
                        } else {
                            r matches Err(FirewallError::UnsupportedProtocol(s)) && s@
                                == opts.protocol@
                        },
                        Some(ps) => if items.len() == 0 {
                            r matches Err(FirewallError::NoPorts)
                        } else {
                            r matches Ok(RuleRequest::Check(v)) && rule_views(v@) == batch_rules_spec(
                                p@,
                                items,
                                *opts,
                                a,
                                ps,
                            )
                        },
                    },
                },
            }
        }),
{
    let items = split_list(ports, ',');
    match backend {
        Backend::Stable => {
            let mut v: Vec<StablePortBody> = Vec::new();
            let mut i: usize = 0;
            while i < items.len()
                invariant
                    0 <= i <= items.len(),
                    string_views(items@) == list_items(ports@, ','),
                    v@.len() == i,
                    forall|k: int|
                        0 <= k < i ==> port_body_spec(#[trigger] v@[k], "add"@, items@[k]@, *opts),
                decreases items.len() - i,
            {
                v.push(port_body("add", items[i].as_str(), opts));
                i += 1;
            }
            Ok(RuleRequest::StableBatch(v))
        },
        Backend::Unified(p) => {
            if items.len() == 0 {
                let _ = validate_strategy(opts.strategy.as_str())?;
                return Err(FirewallError::NoPorts);
            }
            let mut rules: Vec<Rule> = Vec::new();
            let mut i: usize = 0;
            let action = validate_strategy(opts.strategy.as_str())?;
            let ghost ps = protocols_spec(opts.protocol@);
            while i < items.len()
                invariant
                    0 <= i <= items.len(),
                    items.len() > 0,
                    *backend == Backend::Unified(*p),
                    string_views(items@) == list_items(ports@, ','),
                    strategy_spec(opts.strategy@) == Some(action@),
                    i > 0 ==> ps is Some,
                    ps == protocols_spec(opts.protocol@),
                    ps matches Some(pv) ==> rule_views(rules@) == batch_rules_spec(
                        p@,
                        string_views(items@).take(i as int),
                        *opts,
                        action@,
                        pv,
                    ),
                decreases items.len() - i,
            {
                let mut more = port_rules(p.as_str(), items[i].as_str(), opts)?;
                let ghost before = rules@;
                let ghost added = more@;
                rules.append(&mut more);
                proof {
                    let pv = ps->0;
                    let t = string_views(items@).take(i + 1);
                    assert(t.drop_last() =~= string_views(items@).take(i as int));
                    assert(t.last() == items@[i as int]@);
                    assert(rule_views(rules@) =~= rule_views(before) + rule_views(added));
                }
                i += 1;
            }
            assert(string_views(items@).take(items.len() as int) =~= string_views(items@));
            Ok(RuleRequest::Check(rules))
        },
    }
}

/// One forward rule of the forward operation.
pub struct ForwardRule {
    pub operation: String,
    pub num: String,
    pub protocol: String,
    pub port: String,
    pub target_ip: String,
    pub target_port: String,
    pub interface: String,
}

/// A forward operation: `POST hosts/firewall/forward/operate` on unified panels,
/// `POST hosts/firewall/forward` on older ones; never a forced deletion.
pub struct ForwardRequest {
    pub unified: bool,
    pub rule: ForwardRule,
}

pub open spec fn forward_spec(r: ForwardRequest, unified: bool, operation: Seq<char>, port: Seq<char>, opts: ForwardOptions) -> bool {
    match target_spec(opts.target@) {
        None => false,
        Some((ip, tport)) => r.unified == unified && r.rule.operation@ == operation && r.rule.num@
            == opts.num@ && r.rule.protocol@ == opts.protocol@ && r.rule.port@ == port
            && r.rule.target_ip@ == ip && r.rule.target_port@ == tport && r.rule.interface@
            == opts.interface@,
    }
}

fn operate_forward(unified: bool, operation: &str, port: &str, opts: &ForwardOptions) -> (r: Result<ForwardRequest, FirewallError>)
    ensures
        match target_spec(opts.target@) {
            None => r matches Err(FirewallError::BadTarget),
            Some(_) => r matches Ok(f) && forward_spec(f, unified, operation@, port@, *opts),
        },
{
    let (target_ip, target_port) = parse_target(opts.target.as_str())?;
    Ok(
        ForwardRequest {
            unified,
            rule: ForwardRule {
                operation: owned(operation),
                num: opts.num.clone(),
                protocol: opts.protocol.clone(),
                port: owned(port),
                target_ip,
                target_port,
                interface: opts.interface.clone(),
            },
        },
    )
}

/// Adds a forward from `port` to the `ip:port` target.
pub fn forward_add(port: &str, opts: &ForwardOptions, unified: bool) -> (r: Result<ForwardRequest, FirewallError>)
    ensures
        match target_spec(opts.target@) {
            None => r matches Err(FirewallError::BadTarget),
            Some(_) => r matches Ok(f) && forward_spec(f, unified, "add"@, port@, *opts),
        },
{
    operate_forward(unified, "add", port, opts)
}

/// Removes the forward from `port` to the `ip:port` target.
pub fn forward_del(port: &str, opts: &ForwardOptions, unified: bool) -> (r: Result<ForwardRequest, FirewallError>)
    ensures
        match target_spec(opts.target@) {
            None => r matches Err(FirewallError::BadTarget),
            Some(_) => r matches Ok(f) && forward_spec(f, unified, "remove"@, port@, *opts),
        },
{
    operate_forward(unified, "remove", port, opts)
}

/// The panel's name of a firewall operation.
pub open spec fn operation_spec(op: Seq<char>) -> Option<Seq<char>> {
    if op == "start"@ || op == "stop"@ || op == "restart"@ {
        Some(op)
    } else if op == "allow-ping"@ {
        Some("disableBanPing"@)
    } else if op == "ban-ping"@ {
        Some("enableBanPing"@)
    } else {
        None
    }
}

/// The operation sent for `firewall start|stop|restart|allow-ping|ban-ping`.
pub fn operate(operation: &str) -> (r: Result<String, FirewallError>)
    ensures
        match operation_spec(operation@) {
            Some(o) => r matches Ok(s) && s@ == o,
            None => r matches Err(FirewallError::UnsupportedOperation(s)) && s@ == operation@,
        },
{
    let o = chars_of(operation);
    if is_word(&o, "start") || is_word(&o, "stop") || is_word(&o, "restart") {
        Ok(owned(operation))
    } else if is_word(&o, "allow-ping") {
        Ok(owned("disableBanPing"))
    } else if is_word(&o, "ban-ping") {
        Ok(owned("enableBanPing"))
    } else {
        Err(FirewallError::UnsupportedOperation(owned(operation)))
    }
}

/// The panel's name of a Docker guard operation.
pub open spec fn docker_operation_spec(op: Seq<char>) -> Option<Seq<char>> {
    if op == "init"@ || op == "initialize"@ {
        Some("initialize"@)
    } else if op == "bind"@ || op == "unbind"@ {
        Some(op)
    } else {
        None
    }
}

/// The operation sent for `firewall docker init|bind|unbind`.
pub fn docker_operate(operation: &str) -> (r: Result<String, FirewallError>)
    ensures
        match docker_operation_spec(operation@) {
            Some(o) => r matches Ok(s) && s@ == o,
            None => r matches Err(FirewallError::UnsupportedOperation(s)) && s@ == operation@,
        },
{
    let o = chars_of(operation);
    if is_word(&o, "init") || is_word(&o, "initialize") {
        Ok(owned("initialize"))
    } else if is_word(&o, "bind") || is_word(&o, "unbind") {
        Ok(owned(operation))
    } else {
        Err(FirewallError::UnsupportedOperation(owned(operation)))
    }
}

/// The UUID of the policy to delete; a blank one is refused.
pub fn docker_policy_del(uuid: &str) -> (r: Result<String, FirewallError>)
    ensures
        ws_trim(uuid@).len() == 0 ==> r matches Err(FirewallError::MissingUuid),
        ws_trim(uuid@).len() > 0 ==> (r matches Ok(s) && s@ == uuid@),
{
    if trim_ws(&chars_of(uuid)).len() == 0 {
        Err(FirewallError::MissingUuid)
    } else {
        Ok(owned(uuid))
    }
}

/// How a Docker guard mode reads.
pub open spec fn docker_mode_text(mode: Seq<char>) -> Seq<char> {
    if mode == "allow_sources"@ {
        "仅允许来源"@
    } else if mode == "deny_sources"@ {
        "拒绝来源"@
    } else if mode == "deny_all"@ {
        "拒绝所有"@
    } else {
        mode
    }
}

pub fn docker_mode_zh(mode: &str) -> (r: String)
    ensures
        r@ == docker_mode_text(mode@),
{
    let m = chars_of(mode);
    if is_word(&m, "allow_sources") {
        owned("仅允许来源")
    } else if is_word(&m, "deny_sources") {
        owned("拒绝来源")
    } else if is_word(&m, "deny_all") {
        owned("拒绝所有")
    } else {
        owned(mode)
    }
}

/// 是 for a reported `true`, 否 otherwise.
pub fn bool_zh(v: Option<bool>) -> (r: String)
    ensures
        r@ == (if v == Some(true) {
            "是"@
        } else {
            "否"@
        }),
{
    match v {
        Some(true) => owned("是"),
        _ => owned("否"),
    }
}

/// A published port, `address:port` or a bare port: the address without brackets (empty
/// for a bare port) and the number; `Err(true)` when the address's port is not a number,
/// `Err(false)` for any other malformed text.
pub open spec fn docker_port_spec(port: Seq<char>) -> Result<(Seq<char>, u64), bool> {
    let p = ws_trim(port);
    match u64_of(p) {
        Some(n) => Ok((Seq::empty(), n)),
        None => {
            let k = last_index_of(p, ':');
            if k < 0 {
                Err(false)
            } else {
                let ip = drop_trail(drop_lead(ws_trim(p.take(k)), char_pred('[')), char_pred(']'));
                if ip.len() == 0 {
                    Err(false)
                } else {
                    match u64_of(p.skip(k + 1)) {
                        Some(n) => Ok((ip, n)),
                        None => Err(true),
                    }
                }
            }
        },
    }
}

/// Splits a published port into host address and port number.
pub fn parse_docker_port(port: &str) -> (r: Result<(String, u64), FirewallError>)
    ensures
        match docker_port_spec(port@) {
            Ok((ip, n)) => r matches Ok((a, m)) && a@ == ip && m == n,
            Err(true) => r matches Err(FirewallError::BadDockerPortNumber(s)) && s@ == ws_trim(port@),
            Err(false) => r matches Err(FirewallError::BadDockerPort(s)) && s@ == ws_trim(port@),
        },
{
    let p = trim_ws(&chars_of(port));
    match parse_u64(&p) {
        Some(n) => return Ok((string_of(&Vec::new()), n)),
        None => {},
    }
    match last_index(&p, ':') {
        Some(k) => {
            proof {
                lemma_last_index_bound(p@, ':');
            }
            let head = slice_of(&p, 0, k);
            assert(head@ =~= p@.take(k as int));
            let ip = trim_end_char(&trim_start_char(&trim_ws(&head), '['), ']');
            if ip.len() == 0 {
                return Err(FirewallError::BadDockerPort(string_of(&p)));
            }
            let tail = slice_of(&p, k + 1, p.len());
            assert(tail@ =~= p@.skip(k + 1));
            match parse_u64(&tail) {
                Some(n) => Ok((string_of(&ip), n)),
                None => Err(FirewallError::BadDockerPortNumber(string_of(&p))),
            }
        },
        None => Err(FirewallError::BadDockerPort(string_of(&p))),
    }
}

/// A published container port as the panel lists it (missing fields are `None`).
pub struct DockerEndpoint {
    pub family: Option<String>,
    pub host_ip: Option<String>,
    pub host_port: Option<u64>,
    pub protocol: Option<String>,
    pub mode: Option<String>,
    /// The string entries of `sources`.
    pub sources: Vec<String>,
    pub effective: Option<bool>,
    pub description: Option<String>,
    pub policy_uuid: Option<String>,
}

/// A published port named in a policy request.
pub struct PublishedEndpoint {
    pub family: String,
    pub host_ip: String,
    pub host_port: u64,
    pub protocol: String,
}

/// An endpoint is selected when its address matches (any when none was given, ignoring
/// case), its port is the port, and its protocol is one of the protocols.
pub open spec fn endpoint_selected(e: DockerEndpoint, ip: Seq<char>, port: u64, protos: Seq<Seq<char>>) -> bool {
    &&& (ip.len() == 0 || ascii_lower(or_text(e.host_ip, Seq::empty())) == ascii_lower(ip))
    &&& e.host_port == Some(port)
    &&& exists|i: int| 0 <= i < protos.len() && opt_view(e.protocol) == Some(#[trigger] protos[i])
}

pub open spec fn published_of(e: DockerEndpoint) -> (Seq<char>, Seq<char>, u64, Seq<char>) {
    (
        or_text(e.family, "ipv4"@),
        or_text(e.host_ip, Seq::empty()),
        match e.host_port {
            Some(n) => n,
            None => 0,
        },
        or_text(e.protocol, "tcp"@),
    )
}

pub open spec fn published_view(p: PublishedEndpoint) -> (Seq<char>, Seq<char>, u64, Seq<char>) {
    (p.family@, p.host_ip@, p.host_port, p.protocol@)
}

/// The selected endpoints, in order.
pub open spec fn selected_endpoints(es: Seq<DockerEndpoint>, ip: Seq<char>, port: u64, protos: Seq<Seq<char>>) -> Seq<(Seq<char>, Seq<char>, u64, Seq<char>)>
    decreases es.len(),
{
    if es.len() == 0 {
        Seq::empty()
    } else {
        let prev = selected_endpoints(es.drop_last(), ip, port, protos);
        if endpoint_selected(es.last(), ip, port, protos) {
            prev.push(published_of(es.last()))
        } else {
            prev
        }
    }
}

fn endpoint_matches(e: &DockerEndpoint, ip: &Vec<char>, port: u64, protos: &Vec<String>) -> (r: bool)
    ensures
        r == endpoint_selected(*e, ip@, port, string_views(protos@)),
{
    let ip_ok = ip.len() == 0 || match &e.host_ip {
        Some(h) => eq_ignore_case(&chars_of(h.as_str()), ip),
        None => eq_ignore_case(&Vec::new(), ip),
    };
    let port_ok = match e.host_port {
        Some(n) => n == port,
        None => false,
    };
    let mut proto_ok = false;
    match &e.protocol {
        Some(pr) => {
            let pc = chars_of(pr.as_str());
            let mut i: usize = 0;
            while i < protos.len()
                invariant
                    0 <= i <= protos.len(),
                    pc@ == pr@,
                    proto_ok ==> exists|k: int|
                        0 <= k < string_views(protos@).len() && pr@ == #[trigger] string_views(
                            protos@,
                        )[k],
                    !proto_ok ==> forall|k: int| 0 <= k < i ==> pr@ != #[trigger] string_views(protos@)[k],
                decreases protos.len() - i,
            {
                assert(string_views(protos@)[i as int] == protos@[i as int]@);
                if same(&pc, &chars_of(protos[i].as_str())) {
                    proto_ok = true;
                }
                i += 1;
            }
        },
        None => {},
    }
    proof {
        reveal_strlit("");
    }
    ip_ok && port_ok && proto_ok
}

fn published(e: &DockerEndpoint) -> (r: PublishedEndpoint)
    ensures
        published_view(r) == published_of(*e),
{
    proof {
        reveal_strlit("");
    }
    PublishedEndpoint {
        family: text_or(&e.family, "ipv4"),
        host_ip: text_or(&e.host_ip, ""),
        host_port: match e.host_port {
            Some(n) => n,
            None => 0,
        },
        protocol: text_or(&e.protocol, "tcp"),
    }
}

/// The published ports that a policy for `port`/`protocol` covers. Fails on a malformed
/// port or protocol, and when no published port matches.
pub fn docker_published_endpoints(endpoints: &Vec<DockerEndpoint>, port: &str, protocol: &str) -> (r: Result<Vec<PublishedEndpoint>, FirewallError>)
    ensures
        match docker_port_spec(port@) {
            Err(true) => r matches Err(FirewallError::BadDockerPortNumber(s)) && s@ == ws_trim(port@),
            Err(false) => r matches Err(FirewallError::BadDockerPort(s)) && s@ == ws_trim(port@),
            Ok((ip, n)) => match protocols_spec(protocol@) {
                None => r matches Err(FirewallError::UnsupportedProtocol(s)) && s@ == protocol@,
                Some(ps) => {
                    let sel = selected_endpoints(endpoints@, ip, n, ps);
                    if sel.len() == 0 {
                        r matches Err(FirewallError::NoPublishedPort)
                    } else {
                        r matches Ok(v) && v@.map_values(|p: PublishedEndpoint| published_view(p))
                            == sel
                    }
                },
            },
        },
{
    let (host_ip, host_port) = parse_docker_port(port)?;
    let protos = protocols(protocol)?;
    let ip = chars_of(host_ip.as_str());
    let mut out: Vec<PublishedEndpoint> = Vec::new();
    let mut i: usize = 0;
    let ghost ps = string_views(protos@);
    assert(out@.map_values(|p: PublishedEndpoint| published_view(p)) =~= selected_endpoints(
        endpoints@.take(0),
        ip@,
        host_port,
        ps,
    ));
    while i < endpoints.len()
        invariant
            0 <= i <= endpoints.len(),
            ps == string_views(protos@),
            out@.map_values(|p: PublishedEndpoint| published_view(p)) == selected_endpoints(
                endpoints@.take(i as int),
                ip@,
                host_port,
                ps,
            ),
        decreases endpoints.len() - i,
    {
        proof {
            assert(endpoints@.take(i + 1).drop_last() =~= endpoints@.take(i as int));
            assert(endpoints@.take(i + 1).last() == endpoints@[i as int]);
        }
        if endpoint_matches(&endpoints[i], &ip, host_port, &protos) {
            let ghost before = out@;
            let pe = published(&endpoints[i]);
            out.push(pe);
            assert(out@.map_values(|p: PublishedEndpoint| published_view(p)) =~= before.map_values(
                |p: PublishedEndpoint| published_view(p),
            ).push(published_view(pe)));
        }
        i += 1;
    }
    assert(endpoints@.take(endpoints.len() as int) =~= endpoints@);
    if out.len() == 0 {
        return Err(FirewallError::NoPublishedPort);
    }
    Ok(out)
}

/// A batch of Docker port policies.
pub struct DockerPolicyBatch {
    pub endpoints: Vec<PublishedEndpoint>,
    pub mode: String,
    pub sources: Vec<String>,
    pub description: String,
}

/// The mode actually applied: allowing or denying named sources needs sources; any other
/// mode denies all.
pub open spec fn docker_mode_spec(mode: Seq<char>, sources: Seq<Seq<char>>) -> Result<Seq<char>, bool> {
    if mode == "allow_sources"@ {
        if sources.len() == 0 {
            Err(true)
        } else {
            Ok(mode)
        }
    } else if mode == "deny_sources"@ {
        if sources.len() == 0 {
            Err(false)
        } else {
            Ok(mode)
        }
    } else {
        Ok("deny_all"@)
    }
}

/// The policy batch of `firewall docker apply`: the matching published ports (see
/// `docker_published_endpoints`), the mode, and the comma-separated sources, except that
/// denying all sources sends no sources.
pub fn docker_apply(
    endpoints: &Vec<DockerEndpoint>,
    port: &str,
    protocol: &str,
    sources: &str,
    desc: &str,
    mode: &str,
) -> (r: Result<DockerPolicyBatch, FirewallError>)
    ensures
        match docker_port_spec(port@) {
            Err(true) => r matches Err(FirewallError::BadDockerPortNumber(s)) && s@ == ws_trim(port@),
            Err(false) => r matches Err(FirewallError::BadDockerPort(s)) && s@ == ws_trim(port@),
            Ok((ip, n)) => match protocols_spec(protocol@) {
                None => r matches Err(FirewallError::UnsupportedProtocol(s)) && s@ == protocol@,
                Some(ps) => {
                    let sel = selected_endpoints(endpoints@, ip, n, ps);
                    let srcs = list_items(sources@, ',');
                    if sel.len() == 0 {
                        r matches Err(FirewallError::NoPublishedPort)
                    } else {
                        match docker_mode_spec(mode@, srcs) {
                            Err(true) => r matches Err(FirewallError::AllowNeedsSources),
                            Err(false) => r matches Err(FirewallError::DenyNeedsSources),
                            Ok(m) => r matches Ok(b) && b.endpoints@.map_values(
                                |p: PublishedEndpoint| published_view(p),
                            ) == sel && b.mode@ == m && string_views(b.sources@) == (if m
                                == "deny_all"@ {
                                Seq::<Seq<char>>::empty()
                            } else {
                                srcs
                            }) && b.description@ == desc@,
                        }
                    }
                },
            },
        },
{
    let eps = docker_published_endpoints(endpoints, port, protocol)?;
    let source_list = split_list(sources, ',');
    let m = chars_of(mode);
    proof {
        reveal_strlit("deny_all");
        reveal_strlit("allow_sources");
        reveal_strlit("deny_sources");
    }
    if is_word(&m, "allow_sources") {
        if source_list.len() == 0 {
            return Err(FirewallError::AllowNeedsSources);
        }
    } else if is_word(&m, "deny_sources") {
        if source_list.len() == 0 {
            return Err(FirewallError::DenyNeedsSources);
        }
    } else {
        let none: Vec<String> = Vec::new();
        assert(string_views(none@) =~= Seq::<Seq<char>>::empty());
        return Ok(DockerPolicyBatch {
            endpoints: eps,
            mode: owned("deny_all"),
            sources: none,
            description: owned(desc),
        });
    }
    let real_mode = owned(mode);
    assert(real_mode@ == "allow_sources"@ || real_mode@ == "deny_sources"@);
    assert("deny_all"@.len() == 8 && "allow_sources"@.len() == 13 && "deny_sources"@.len() == 12);
    assert(real_mode@ != "deny_all"@);
    Ok(DockerPolicyBatch { endpoints: eps, mode: real_mode, sources: source_list, description: owned(desc) })
}

/// How a published port reads: `port/proto`, `ip:port/proto`, or `[ip]:port/proto` for
/// IPv6 (family `ipv4`, empty address, port 0 and empty protocol when not reported).
pub open spec fn endpoint_text(e: DockerEndpoint) -> Seq<char> {
    let family = or_text(e.family, "ipv4"@);
    let ip = or_text(e.host_ip, Seq::empty());
    let port = dec(
        match e.host_port {
            Some(n) => n as nat,
            None => 0,
        },
    );
    let proto = or_text(e.protocol, Seq::empty());
    if ip.len() == 0 {
        port + "/"@ + proto
    } else if family == "ipv6"@ {
        "["@ + ip + "]:"@ + port + "/"@ + proto
    } else {
        ip + ":"@ + port + "/"@ + proto
    }
}

pub fn endpoint_line(e: &DockerEndpoint) -> (r: String)
    ensures
        r@ == endpoint_text(*e),
{
    proof {
        reveal_strlit("");
    }
    let family = chars_of(text_or(&e.family, "ipv4").as_str());
    let ip = chars_of(text_or(&e.host_ip, "").as_str());
    let port = dec_u64(
        match e.host_port {
            Some(n) => n,
            None => 0,
        },
    );
    let proto = text_or(&e.protocol, "");
    let mut out: Vec<char> = Vec::new();
    if ip.len() == 0 {
        push_all(&mut out, &port);
    } else if is_word(&family, "ipv6") {
        push_str(&mut out, "[");
        push_all(&mut out, &ip);
        push_str(&mut out, "]:");
        push_all(&mut out, &port);
    } else {
        push_all(&mut out, &ip);
        push_str(&mut out, ":");
        push_all(&mut out, &port);
    }
    push_str(&mut out, "/");
    push_str(&mut out, proto.as_str());
    string_of(&out)
}

/// The firewall's state as `hosts/firewall/base` reports it (missing fields `None`).
pub struct FirewallBase {
    pub name: Option<String>,
    pub backend: Option<String>,
    pub is_active: Option<bool>,
    pub version: Option<String>,
    pub ping_status: Option<String>,
    pub is_init: Option<bool>,
    pub message: Option<String>,
}

/// One backend choice of the unified settings.
pub struct BackendChoice {
    pub selected: Option<String>,
    pub current: Option<String>,
}

/// The unified backend settings; forwarding and Docker are shown only when the panel
/// reports them as non-empty objects.
pub struct FirewallSettings {
    pub system: BackendChoice,
    pub forwarding: Option<BackendChoice>,
    pub docker: Option<BackendChoice>,
}

pub open spec fn text_or_dash(o: Option<String>) -> Seq<char> {
    or_text(o, "-"@)
}

/// A backend choice: the selected backend (`-` when none), with the one in use in
/// parentheses when it differs.
pub open spec fn choice_text(c: BackendChoice) -> Seq<char> {
    let sel = or_text(c.selected, "-"@);
    let cur = or_text(c.current, Seq::empty());
    if cur.len() > 0 && cur != sel {
        sel + "(当前 "@ + cur + ")"@
    } else {
        sel
    }
}

pub open spec fn ping_text(p: Option<String>) -> Seq<char> {
    match p {
        Some(s) => if s@ == "Enable"@ {
            "已禁止"@
        } else if s@ == "Disable"@ {
            "允许"@
        } else {
            "未知"@
        },
        None => "未知"@,
    }
}

pub open spec fn nonempty_line(prefix: Seq<char>, o: Option<String>) -> Seq<Seq<char>> {
    match o {
        Some(s) if s@.len() > 0 => seq![prefix + s@],
        _ => Seq::empty(),
    }
}

/// The lines of `firewall status`.
pub open spec fn status_spec(b: FirewallBase, settings: Option<FirewallSettings>) -> Seq<Seq<char>> {
    seq!["防火墙: "@ + text_or_dash(b.name)] + nonempty_line("后端: "@, b.backend) + seq![
        "状态: "@ + if b.is_active == Some(true) {
            "运行中"@
        } else {
            "未运行"@
        },
        "版本: "@ + text_or_dash(b.version),
        "Ping: "@ + ping_text(b.ping_status),
        "初始化: "@ + if b.is_init == Some(true) {
            "是"@
        } else {
            "否"@
        },
    ] + nonempty_line("消息: "@, b.message) + match settings {
        None => Seq::empty(),
        Some(st) => seq!["后端选择: 系统 "@ + choice_text(st.system)] + (match st.forwarding {
            Some(f) => seq!["          转发 "@ + choice_text(f)],
            None => Seq::empty(),
        }) + (match st.docker {
            Some(d) => seq!["          Docker "@ + choice_text(d)],
            None => Seq::empty(),
        }),
    }
}

fn line_of(prefix: &str, body: &Vec<char>) -> (r: String)
    ensures
        r@ == prefix@ + body@,
{
    let mut l = chars_of(prefix);
    push_all(&mut l, body);
    string_of(&l)
}

fn choice_exec(c: &BackendChoice) -> (r: Vec<char>)
    ensures
        r@ == choice_text(*c),
{
    proof {
        reveal_strlit("");
    }
    let sel = chars_of(text_or(&c.selected, "-").as_str());
    let cur = chars_of(text_or(&c.current, "").as_str());
    if cur.len() > 0 && !same(&cur, &sel) {
        let mut out = copy_chars(&sel);
        push_str(&mut out, "(当前 ");
        push_all(&mut out, &cur);
        push_str(&mut out, ")");
        out
    } else {
        sel
    }
}

fn push_view(v: &mut Vec<String>, s: String)
    ensures
        string_views(final(v)@) == string_views(old(v)@).push(s@),
{
    let ghost before = v@;
    v.push(s);
    assert(string_views(v@) =~= string_views(before).push(s@));
}

/// The lines of `firewall status` (see `status_spec`); `settings` is given on panels with
/// the unified API.
#[verifier::spinoff_prover]
#[verifier::rlimit(40)]
pub fn status(base: &FirewallBase, settings: &Option<FirewallSettings>) -> (r: Vec<String>)
    ensures
        string_views(r@) == status_spec(*base, *settings),
{
    let mut v: Vec<String> = Vec::new();
    push_view(&mut v, line_of("防火墙: ", &chars_of(text_or(&base.name, "-").as_str())));
    match &base.backend {
        Some(b) => {
            if chars_of(b.as_str()).len() > 0 {
                push_view(&mut v, line_of("后端: ", &chars_of(b.as_str())));
            }
        },
        None => {},
    }
    let ghost a = string_views(v@);
    assert(a =~= seq!["防火墙: "@ + text_or_dash(base.name)] + nonempty_line("后端: "@, base.backend));
    push_view(&mut v, line_of("状态: ", &chars_of(if base.is_active == Some(true) {
        "运行中"
    } else {
        "未运行"
    })));
    push_view(&mut v, line_of("版本: ", &chars_of(text_or(&base.version, "-").as_str())));
    let ping = match &base.ping_status {
        Some(p) => {
            let pc = chars_of(p.as_str());
            if is_word(&pc, "Enable") {
                "已禁止"
            } else if is_word(&pc, "Disable") {
                "允许"
            } else {
                "未知"
            }
        },
        None => "未知",
    };
    push_view(&mut v, line_of("Ping: ", &chars_of(ping)));
    push_view(&mut v, line_of("初始化: ", &chars_of(if base.is_init == Some(true) {
        "是"
    } else {
        "否"
    })));
    match &base.message {
        Some(m) => {
            if chars_of(m.as_str()).len() > 0 {
                push_view(&mut v, line_of("消息: ", &chars_of(m.as_str())));
            }
        },
        None => {},
    }
    let ghost b = string_views(v@);
    assert(b =~= a + seq![
        "状态: "@ + if base.is_active == Some(true) {
            "运行中"@
        } else {
            "未运行"@
        },
        "版本: "@ + text_or_dash(base.version),
        "Ping: "@ + ping_text(base.ping_status),
        "初始化: "@ + if base.is_init == Some(true) {
            "是"@
        } else {
            "否"@
        },
    ] + nonempty_line("消息: "@, base.message));
    match settings {
        None => {
            assert(string_views(v@) =~= b + Seq::<Seq<char>>::empty());
        },
        Some(st) => {
            push_view(&mut v, line_of("后端选择: 系统 ", &choice_exec(&st.system)));
            match &st.forwarding {
                Some(f) => push_view(&mut v, line_of("          转发 ", &choice_exec(f))),
                None => {},
            }
            match &st.docker {
                Some(d) => push_view(&mut v, line_of("          Docker ", &choice_exec(d))),
                None => {},
            }
            assert(string_views(v@) =~= b + (seq!["后端选择: 系统 "@ + choice_text(st.system)] + (
            match st.forwarding {
                Some(f) => seq!["          转发 "@ + choice_text(f)],
                None => Seq::empty(),
            }) + (match st.docker {
                Some(d) => seq!["          Docker "@ + choice_text(d)],
                None => Seq::empty(),
            })));
        },
    }
    v
}

/// The Docker guard's state for one address family.
pub struct GuardFamily {
    pub reason: Option<String>,
    pub state: Option<String>,
    pub initialized: Option<bool>,
    pub bound: Option<bool>,
    pub effective: Option<bool>,
}

/// The Docker guard's state as `docker/ports` reports it, with the number of containers
/// and orphaned policies.
pub struct GuardStatus {
    pub name: Option<String>,
    pub backend: Option<String>,
    pub version: Option<String>,
    pub is_exist: Option<bool>,
    pub initialized: Option<bool>,
    pub bound: Option<bool>,
    pub ipv4: GuardFamily,
    pub ipv6: GuardFamily,
    pub message: Option<String>,
    pub containers: usize,
    pub orphans: usize,
}

pub open spec fn zh(b: Option<bool>) -> Seq<char> {
    if b == Some(true) {
        "是"@
    } else {
        "否"@
    }
}

/// A family's line: the reason in parentheses when there is one, else its state and
/// flags.
pub open spec fn family_text(f: GuardFamily) -> Seq<char> {
    match f.reason {
        Some(r) if r@.len() > 0 => "("@ + r@ + ")"@,
        _ => "状态 "@ + text_or_dash(f.state) + " 初始化 "@ + zh(f.initialized) + " 绑定 "@ + zh(f.bound)
            + " 生效 "@ + zh(f.effective),
    }
}

/// The lines of `firewall docker status`.
pub open spec fn docker_status_spec(g: GuardStatus) -> Seq<Seq<char>> {
    seq![
        "Docker 端口守护: "@ + text_or_dash(g.name),
        "后端: "@ + text_or_dash(g.backend),
        "版本: "@ + text_or_dash(g.version),
        "存在: "@ + zh(g.is_exist) + ", 初始化: "@ + zh(g.initialized) + ", 绑定: "@ + zh(g.bound),
        "IPv4: "@ + family_text(g.ipv4),
        "IPv6: "@ + family_text(g.ipv6),
    ] + nonempty_line("消息: "@, g.message) + seq![
        "容器: "@ + dec(g.containers as nat) + " 个, 孤立策略: "@ + dec(g.orphans as nat) + " 条"@,
    ]
}

fn zh_exec(b: Option<bool>) -> (r: Vec<char>)
    ensures
        r@ == zh(b),
{
    chars_of(bool_zh(b).as_str())
}

fn family_exec(f: &GuardFamily) -> (r: Vec<char>)
    ensures
        r@ == family_text(*f),
{
    match &f.reason {
        Some(r) => {
            if chars_of(r.as_str()).len() > 0 {
                let mut out = chars_of("(");
                push_str(&mut out, r.as_str());
                push_str(&mut out, ")");
                return out;
            }
        },
        None => {},
    }
    let mut out = chars_of("状态 ");
    push_str(&mut out, text_or(&f.state, "-").as_str());
    push_str(&mut out, " 初始化 ");
    push_all(&mut out, &zh_exec(f.initialized));
    push_str(&mut out, " 绑定 ");
    push_all(&mut out, &zh_exec(f.bound));
    push_str(&mut out, " 生效 ");
    push_all(&mut out, &zh_exec(f.effective));
    out
}

pub fn docker_status(g: &GuardStatus) -> (r: Vec<String>)
    ensures
        string_views(r@) == docker_status_spec(*g),
{
    let mut v: Vec<String> = Vec::new();
    push_view(&mut v, line_of("Docker 端口守护: ", &chars_of(text_or(&g.name, "-").as_str())));
    push_view(&mut v, line_of("后端: ", &chars_of(text_or(&g.backend, "-").as_str())));
    push_view(&mut v, line_of("版本: ", &chars_of(text_or(&g.version, "-").as_str())));
    let mut l = chars_of("存在: ");
    push_all(&mut l, &zh_exec(g.is_exist));
    push_str(&mut l, ", 初始化: ");
    push_all(&mut l, &zh_exec(g.initialized));
    push_str(&mut l, ", 绑定: ");
    push_all(&mut l, &zh_exec(g.bound));
    push_view(&mut v, string_of(&l));
    push_view(&mut v, line_of("IPv4: ", &family_exec(&g.ipv4)));
    push_view(&mut v, line_of("IPv6: ", &family_exec(&g.ipv6)));
    match &g.message {
        Some(m) => {
            if chars_of(m.as_str()).len() > 0 {
                push_view(&mut v, line_of("消息: ", &chars_of(m.as_str())));
            }
        },
        None => {},
    }
    let mut last = chars_of("容器: ");
    push_all(&mut last, &dec_u64(g.containers as u64));
    push_str(&mut last, " 个, 孤立策略: ");
    push_all(&mut last, &dec_u64(g.orphans as u64));
    push_str(&mut last, " 条");
    push_view(&mut v, string_of(&last));
    assert(string_views(v@) =~= docker_status_spec(*g));
    v
}

/// A container with published ports.
pub struct DockerContainer {
    pub name: Option<String>,
    pub application: Option<String>,
    pub compose: Option<String>,
    pub endpoints: Vec<DockerEndpoint>,
}

/// Who a container belongs to: its app, else its Compose project, else itself.
pub open spec fn owner_text(c: DockerContainer) -> Seq<char> {
    let app = or_text(c.application, Seq::empty());
    let compose = or_text(c.compose, Seq::empty());
    if app.len() > 0 {
        "应用 "@ + app
    } else if compose.len() > 0 {
        "Compose "@ + compose
    } else {
        "容器"@
    }
}

/// The heading of a container in `firewall docker ports`: `name (owner):`.
pub open spec fn container_heading(c: DockerContainer) -> Seq<char> {
    text_or_dash(c.name) + " ("@ + owner_text(c) + "):"@
}

pub fn container_heading_exec(c: &DockerContainer) -> (r: String)
    ensures
        r@ == container_heading(*c),
{
    proof {
        reveal_strlit("");
    }
    let app = chars_of(text_or(&c.application, "").as_str());
    let compose = chars_of(text_or(&c.compose, "").as_str());
    let mut out = chars_of(text_or(&c.name, "-").as_str());
    push_str(&mut out, " (");
    if app.len() > 0 {
        push_str(&mut out, "应用 ");
        push_all(&mut out, &app);
    } else if compose.len() > 0 {
        push_str(&mut out, "Compose ");
        push_all(&mut out, &compose);
    } else {
        push_str(&mut out, "容器");
    }
    push_str(&mut out, "):");
    string_of(&out)
}

/// The sources of a guarded port, comma-joined, `-` when none.
pub open spec fn sources_text(e: DockerEndpoint) -> Seq<char> {
    let j = crate::text::join(string_views(e.sources@), ","@);
    if j.len() == 0 {
        "-"@
    } else {
        j
    }
}

/// The cells of a published port's line: the port, the guard mode, whether it is in
/// effect, and the policy's UUID (`uuid=...`, empty when none); then its sources and its
/// description (each shown on its own line; the description only when not empty).
pub open spec fn endpoint_cells(e: DockerEndpoint) -> Seq<Seq<char>> {
    seq![
        endpoint_text(e),
        docker_mode_text(or_text(e.mode, "-"@)),
        if e.effective == Some(true) {
            "生效"@
        } else {
            "未生效"@
        },
        match e.policy_uuid {
            Some(u) if u@.len() > 0 => "uuid="@ + u@,
            _ => Seq::empty(),
        },
        sources_text(e),
        or_text(e.description, Seq::empty()),
    ]
}

pub fn endpoint_cells_exec(e: &DockerEndpoint) -> (r: Vec<String>)
    ensures
        string_views(r@) == endpoint_cells(*e),
{
    proof {
        reveal_strlit("");
    }
    let mut v: Vec<String> = Vec::new();
    push_view(&mut v, endpoint_line(e));
    push_view(&mut v, docker_mode_zh(text_or(&e.mode, "-").as_str()));
    push_view(&mut v, if e.effective == Some(true) {
        "生效".to_owned()
    } else {
        "未生效".to_owned()
    });
    let uuid = match &e.policy_uuid {
        Some(u) => {
            if chars_of(u.as_str()).len() > 0 {
                line_of("uuid=", &chars_of(u.as_str()))
            } else {
                String::new()
            }
        },
        None => String::new(),
    };
    assert(uuid@ == (match e.policy_uuid {
        Some(u) if u@.len() > 0 => "uuid="@ + u@,
        _ => Seq::<char>::empty(),
    }));
    push_view(&mut v, uuid);
    let mut parts: Vec<Vec<char>> = Vec::new();
    let mut i: usize = 0;
    while i < e.sources.len()
        invariant
            0 <= i <= e.sources.len(),
            views(parts@) == string_views(e.sources@.take(i as int)),
        decreases e.sources.len() - i,
    {
        let ghost before = parts@;
        let c = chars_of(e.sources[i].as_str());
        parts.push(c);
        assert(views(parts@) =~= views(before).push(c@));
        assert(string_views(e.sources@.take(i + 1)) =~= string_views(e.sources@.take(i as int)).push(
            e.sources@[i as int]@,
        ));
        i += 1;
    }
    assert(e.sources@.take(e.sources.len() as int) =~= e.sources@);
    let j = crate::text::join_with(&parts, &chars_of(","));
    let src = if j.len() == 0 {
        "-".to_owned()
    } else {
        string_of(&j)
    };
    assert(src@ == sources_text(*e));
    push_view(&mut v, src);
    let desc = text_or(&e.description, "");
    assert(desc@ == or_text(e.description, Seq::empty()));
    push_view(&mut v, desc);
    assert(string_views(v@) =~= endpoint_cells(*e));
    v
}

// ---------------------------------------------------------------------------
// Laws
// ---------------------------------------------------------------------------

/// A strategy always normalizes to `accept` or `drop`, and a normalized strategy stays as
/// it is.
pub proof fn law_strategy_canonical(s: Seq<char>)
    ensures
        strategy_spec(s) matches Some(a) ==> (a == "accept"@ || a == "drop"@) && strategy_spec(a)
            == Some(a),
{
    reveal_strlit("accept");
    reveal_strlit("drop");
    reveal_strlit("allow");
    reveal_strlit("deny");
    reveal_strlit("block");
    assert("accept"@.len() == 6 && "allow"@.len() == 5 && "drop"@.len() == 4);
    assert("allow"@[0] == 'a' && "drop"@[0] == 'd' && "deny"@[1] == 'e' && "drop"@[1] == 'r');
    let acc = "accept"@;
    let drp = "drop"@;
    assert(ascii_lower(acc) =~= acc);
    assert(ascii_lower(drp) =~= drp);
}

/// Matching addresses is an equivalence: every address matches itself, and matching is
/// symmetric and transitive.
pub proof fn law_address_eq_equivalence(a: Seq<char>, b: Seq<char>, c: Seq<char>)
    ensures
        address_eq_spec(a, a),
        address_eq_spec(a, b) ==> address_eq_spec(b, a),
        address_eq_spec(a, b) && address_eq_spec(b, c) ==> address_eq_spec(a, c),
{
}

/// After a check, every checked rule is accounted for: the rules to create and the rules
/// that exist already add up to all rules checked, and each rule to create is a checked
/// rule that may be created, listed once, in order.
pub proof fn law_create_accounts_for_all(ps: Seq<CheckPlan>)
    ensures
        scan_plans(ps) matches Ok((creates, existing)) ==> {
            &&& creates.len() + existing == ps.len()
            &&& forall|i: int| 0 <= i < creates.len() ==> 0 <= #[trigger] creates[i] < ps.len() && !plan_exists(ps[creates[i]]) && plan_creatable(ps[creates[i]])
            &&& forall|i: int, j: int| 0 <= i < j < creates.len() ==> #[trigger] creates[i] < #[trigger] creates[j]
        },
    decreases ps.len(),
{
    if ps.len() > 0 {
        law_create_accounts_for_all(ps.drop_last());
        match scan_plans(ps.drop_last()) {
            Ok((c, x)) => {
                let n = ps.len() - 1;
                assert forall|i: int| 0 <= i < c.len() implies ps[c[i]] == ps.drop_last()[c[i]] by {}
                if !(ps.last().decision@ == "blocked"@) && !plan_exists(ps.last()) && plan_creatable(ps.last()) {
                    let c2 = c.push(n);
                    assert forall|i: int| 0 <= i < c2.len() implies 0 <= #[trigger] c2[i] < ps.len() && !plan_exists(ps[c2[i]]) && plan_creatable(ps[c2[i]]) by {
                        if i < c.len() {
                            assert(c2[i] == c[i]);
                        } else {
                            assert(ps[n] == ps.last());
                        }
                    }
                    assert forall|i: int, j: int| 0 <= i < j < c2.len() implies #[trigger] c2[i] < #[trigger] c2[j] by {
                        if j == c.len() {
                            assert(c2[i] == c[i]);
                        } else {
                            assert(c2[i] == c[i] && c2[j] == c[j]);
                        }
                    }
                }
            },
            Err(_) => {},
        }
    }
}

/// Every scope of a listing belongs to the backend and is on the input side; iptables
/// and nftables have six, firewalld one, ufw two.
pub proof fn law_scopes_of_backend(provider: Seq<char>)
    ensures
        forall|i: int| 0 <= i < scopes_spec(provider).len() ==> (#[trigger] scopes_spec(provider)[i]).provider
            == provider && scopes_spec(provider)[i].direction == "input"@,
        is_chain_provider(provider) ==> scopes_spec(provider).len() == 6,
        provider == "firewalld"@ ==> scopes_spec(provider).len() == 1,
        provider == "ufw"@ ==> scopes_spec(provider).len() == 2,
{
    reveal_strlit("iptables");
    reveal_strlit("nftables");
    reveal_strlit("firewalld");
    reveal_strlit("ufw");
    assert("iptables"@.len() == 8 && "nftables"@.len() == 8 && "firewalld"@.len() == 9 && "ufw"@.len() == 3);
    if is_chain_provider(provider) {
        let a = chain_scopes(provider, "ipv4"@);
        let b = chain_scopes(provider, "ipv6"@);
        assert forall|i: int| 0 <= i < (a + b).len() implies (#[trigger] (a + b)[i]).provider == provider && (a
            + b)[i].direction == "input"@ by {
            if i < 3 {
                assert((a + b)[i] == a[i]);
            } else {
                assert((a + b)[i] == b[i - 3]);
            }
        }
    }
}


/// The outcome of a reply to a rule batch (`rules`, `rules/delete`): the batch succeeded
/// exactly when the code is 200 and no item failed (a missing count is none); it then
/// gives how many items succeeded (0 when missing).
pub fn rules_outcome(code: Option<i64>, message: Option<&str>, failed: Option<u64>, succeeded: Option<u64>) -> (r: Result<u64, FirewallError>)
    ensures
        code != Some(200i64) ==> (r matches Err(FirewallError::Panel(c, m)) && c == (match code {
            Some(c) => c,
            None => -1i64,
        }) && m@ == (match message {
            Some(m) => m@,
            None => Seq::<char>::empty(),
        })),
        code == Some(200i64) && (failed matches Some(f) && f > 0) ==> r == Err::<u64, FirewallError>(
            FirewallError::ItemsFailed(failed->0),
        ),
        code == Some(200i64) && !(failed matches Some(f) && f > 0) ==> r == Ok::<u64, FirewallError>(
            match succeeded {
                Some(n) => n,
                None => 0u64,
            },
        ),
{
    proof {
        reveal_strlit("");
    }
    match code {
        Some(c) => {
            if c != 200 {
                return Err(FirewallError::Panel(c, owned(match message {
                    Some(m) => m,
                    None => "",
                })));
            }
        },
        None => {
            return Err(FirewallError::Panel(-1, owned(match message {
                Some(m) => m,
                None => "",
            })));
        },
    }
    match failed {
        Some(f) => {
            if f > 0 {
                return Err(FirewallError::ItemsFailed(f));
            }
        },
        None => {},
    }
    Ok(match succeeded {
        Some(n) => n,
        None => 0,
    })
}


proof fn lemma_lower_idempotent(k: Seq<char>)
    ensures
        ascii_lower(ascii_lower(k)) == ascii_lower(k),
        ascii_lower(k).len() == k.len(),
{
    assert forall|i: int| 0 <= i < k.len() implies crate::text::lower_char(
        crate::text::lower_char(#[trigger] k[i]),
    ) == crate::text::lower_char(k[i]) by {
        let c = k[i];
        let u = c as u32;
        if 65 <= u <= 90 {
            let d = ((u + 32) as u8) as char;
            assert(d as u32 == u + 32);
        }
    }
    assert(ascii_lower(ascii_lower(k)) =~= ascii_lower(k));
}

/// `firewall list` reads its rule type without regard to case and takes an empty type
/// as `port`: the listing plan of `list` depends on the type only through
/// `normalized_kind`, and an empty type, `port`, and any type and its lower-case form
/// give the same `normalized_kind`.
pub proof fn law_list_kind_normalized(k: Seq<char>)
    ensures
        normalized_kind(Seq::empty()) == normalized_kind("port"@),
        normalized_kind(ascii_lower(k)) == normalized_kind(k),
        normalized_kind("PORT"@) == "port"@,
{
    reveal_strlit("port");
    reveal_strlit("PORT");
    lemma_lower_idempotent(k);
    lemma_lower_idempotent("port"@);
    assert(ascii_lower("port"@) =~= "port"@);
    assert(ascii_lower("PORT"@) =~= "port"@);
}

} // verus!
