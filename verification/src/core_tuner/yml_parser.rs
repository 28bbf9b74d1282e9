//! The deployment description (a docker-compose file): where the target
//! agents, the benchmark agents and the InfluxDB server listen.

use vstd::prelude::*;
use yaml_rust::{Yaml, YamlLoader};
use crate::text::{decimal, i64_to_string, lemma_decimal_injective, signed_decimal, usize_to_string};

verus! {

/// The address node of a service.
pub enum YamlText {
    /// There is no such node.
    Missing,
    /// The node is this string.
    Text(String),
    /// The node is something else than a string.
    Other,
}

pub enum YamlTextView {
    Missing,
    Text(Seq<char>),
    Other,
}

impl View for YamlText {
    type V = YamlTextView;

    open spec fn view(&self) -> YamlTextView {
        match self {
            YamlText::Missing => YamlTextView::Missing,
            YamlText::Text(s) => YamlTextView::Text(s@),
            YamlText::Other => YamlTextView::Other,
        }
    }
}

/// What the tuner reads of a service of the deployment: its name (when the
/// key is a string), the node `networks.app_net.ipv4_address` and the
/// integer `expose[0]`, if it is one.
pub struct ServiceEntry {
    pub name: Option<String>,
    pub ipv4: YamlText,
    pub port: Option<i64>,
}

pub struct ServiceEntryView {
    pub name: Option<Seq<char>>,
    pub ipv4: YamlTextView,
    pub port: Option<i64>,
}

impl View for ServiceEntry {
    type V = ServiceEntryView;

    open spec fn view(&self) -> ServiceEntryView {
        ServiceEntryView {
            name: match self.name {
                Some(n) => Some(n@),
                None => None,
            },
            ipv4: self.ipv4@,
            port: self.port,
        }
    }
}

pub open spec fn entries_view(v: Seq<ServiceEntry>) -> Seq<ServiceEntryView> {
    v.map_values(|e: ServiceEntry| e@)
}

/// A node of the YAML documents, laid out in a table: a collection names
/// its children by a range of positions in the table.
pub enum YamlNode {
    Str(String),
    Int(i64),
    /// An array whose items are the nodes at positions `start..end`.
    List(usize, usize),
    /// A mapping laid out at positions `start..end`: its keys in the first
    /// half, their values in the same order in the second half.
    Mapping(usize, usize),
    /// A node the loader could not make sense of (`BadValue`).
    Bad,
    /// Any other node: a real, a boolean, null or an alias.
    Other,
}

pub enum YamlNodeView {
    Str(Seq<char>),
    Int(i64),
    List(usize, usize),
    Mapping(usize, usize),
    Bad,
    Other,
}

impl View for YamlNode {
    type V = YamlNodeView;

    open spec fn view(&self) -> YamlNodeView {
        match self {
            YamlNode::Str(s) => YamlNodeView::Str(s@),
            YamlNode::Int(n) => YamlNodeView::Int(*n),
            YamlNode::List(s, e) => YamlNodeView::List(*s, *e),
            YamlNode::Mapping(s, e) => YamlNodeView::Mapping(*s, *e),
            YamlNode::Bad => YamlNodeView::Bad,
            YamlNode::Other => YamlNodeView::Other,
        }
    }
}

pub open spec fn nodes_view(t: Seq<YamlNode>) -> Seq<YamlNodeView> {
    t.map_values(|n: YamlNode| n@)
}

pub open spec fn loaded_nodes(r: Option<Vec<YamlNode>>) -> Option<Seq<YamlNodeView>> {
    match r {
        Some(t) => Some(nodes_view(t@)),
        None => None,
    }
}

/// The node table of the YAML text `doc`: its documents first, then the
/// children of each node after those of the nodes before it; `None` when
/// `doc` is not valid YAML.
pub uninterp spec fn yaml_nodes_of(doc: Seq<char>) -> Option<Seq<YamlNodeView>>;

/// Loads `doc` with `yaml_rust::YamlLoader::load_from_str` and lays its
/// documents out breadth first in a node table, each node converted one for
/// one (a mapping's keys, then its values, in the crate's order). The
/// table is named by `yaml_nodes_of`; what it is for a given text is not
/// stated here.
#[verifier::external_body]
fn load_yaml(doc: &str) -> (r: Option<Vec<YamlNode>>)
    ensures
        loaded_nodes(r) == yaml_nodes_of(doc@),
{
    let docs = YamlLoader::load_from_str(doc).ok()?;
    let mut queue = Vec::from_iter(&docs);
    let mut nodes = vec![];
    while let Some(&y) = queue.get(nodes.len()) {
        let start = queue.len();
        nodes.push(match y {
            Yaml::String(s) => YamlNode::Str(s.clone()),
            Yaml::Integer(n) => YamlNode::Int(*n),
            Yaml::Array(a) => { queue.extend(a); YamlNode::List(start, queue.len()) },
            Yaml::Hash(h) => { queue.extend(h.keys().chain(h.values())); YamlNode::Mapping(start, queue.len()) },
            Yaml::BadValue => YamlNode::Bad,
            _ => YamlNode::Other,
        });
    }
    Some(nodes)
}

/// The node at position `i`; a position outside the table holds nothing.
pub open spec fn node_at(t: Seq<YamlNodeView>, i: Option<int>) -> YamlNodeView {
    match i {
        Some(i) => if 0 <= i < t.len() {
            t[i]
        } else {
            YamlNodeView::Bad
        },
        None => YamlNodeView::Bad,
    }
}

/// The number of entries of a mapping laid out at `start..end`.
pub open spec fn entry_count(start: usize, end: usize) -> int {
    if end > start {
        (end - start) / 2
    } else {
        0
    }
}

/// The entry `j` of the mapping laid out from `start` on is the first one
/// among its `n` entries whose key is `key`.
pub open spec fn first_entry(t: Seq<YamlNodeView>, start: int, n: int, key: YamlNodeView, j: int) -> bool {
    &&& 0 <= j < n
    &&& node_at(t, Some(start + j)) == key
    &&& forall|m: int| 0 <= m < j ==> #[trigger] node_at(t, Some(start + m)) != key
}

/// The position of the value of `key` in the mapping at `i`, as
/// `yaml_rust`'s indexing finds it; nothing when `i` is not a mapping or
/// has no such key.
pub open spec fn value_of(t: Seq<YamlNodeView>, i: Option<int>, key: YamlNodeView) -> Option<int> {
    match node_at(t, i) {
        YamlNodeView::Mapping(s, e) => if exists|j: int| first_entry(t, s as int, entry_count(s, e), key, j) {
            Some(s + entry_count(s, e) + (choose|j: int| first_entry(t, s as int, entry_count(s, e), key, j)))
        } else {
            None
        },
        _ => None,
    }
}

/// The position of item 0 of the node at `i`: the first item of an array,
/// the value of the key `0` of a mapping.
pub open spec fn first_item(t: Seq<YamlNodeView>, i: Option<int>) -> Option<int> {
    match node_at(t, i) {
        YamlNodeView::List(s, e) => if s < e {
            Some(s as int)
        } else {
            None
        },
        YamlNodeView::Mapping(_, _) => value_of(t, i, YamlNodeView::Int(0)),
        _ => None,
    }
}

/// The address node at `i` as the tuner sees it.
pub open spec fn text_class(t: Seq<YamlNodeView>, i: Option<int>) -> YamlTextView {
    match node_at(t, i) {
        YamlNodeView::Bad => YamlTextView::Missing,
        YamlNodeView::Str(s) => YamlTextView::Text(s),
        _ => YamlTextView::Other,
    }
}

/// The service whose key is at `k` and whose description is at `v`: the
/// key's text, the node `networks.app_net.ipv4_address` and the integer
/// `expose[0]`.
pub open spec fn service_at(t: Seq<YamlNodeView>, k: int, v: int) -> ServiceEntryView {
    let networks = value_of(t, Some(v), YamlNodeView::Str("networks"@));
    let app_net = value_of(t, networks, YamlNodeView::Str("app_net"@));
    ServiceEntryView {
        name: match node_at(t, Some(k)) {
            YamlNodeView::Str(s) => Some(s),
            _ => None,
        },
        ipv4: text_class(t, value_of(t, app_net, YamlNodeView::Str("ipv4_address"@))),
        port: match node_at(t, first_item(t, value_of(t, Some(v), YamlNodeView::Str("expose"@)))) {
            YamlNodeView::Int(n) => Some(n),
            _ => None,
        },
    }
}

/// The services of the first document, in the order of its mapping
/// `services`; none when `services` is not a mapping.
pub open spec fn services_spec(t: Seq<YamlNodeView>) -> Seq<ServiceEntryView> {
    match node_at(t, value_of(t, Some(0), YamlNodeView::Str("services"@))) {
        YamlNodeView::Mapping(s, e) => Seq::new(
            entry_count(s, e) as nat,
            |j: int| service_at(t, s + j, s + entry_count(s, e) + j),
        ),
        _ => seq![],
    }
}

/// Whether the node `n` is the key `key` (the integer 0 when `zero`).
fn key_matches(n: &YamlNode, key: &str, zero: bool) -> (r: bool)
    ensures
        r == (n@ == key_view(key@, zero)),
{
    match n {
        YamlNode::Str(s) => !zero && crate::text::str_eq(s.as_str(), key),
        YamlNode::Int(v) => zero && *v == 0,
        _ => false,
    }
}

pub open spec fn key_view(key: Seq<char>, zero: bool) -> YamlNodeView {
    if zero {
        YamlNodeView::Int(0)
    } else {
        YamlNodeView::Str(key)
    }
}

pub open spec fn opt_int(i: Option<usize>) -> Option<int> {
    match i {
        Some(i) => Some(i as int),
        None => None,
    }
}

proof fn lemma_first_entry_unique(t: Seq<YamlNodeView>, start: int, n: int, key: YamlNodeView, j: int)
    requires
        first_entry(t, start, n, key, j),
    ensures
        (choose|x: int| first_entry(t, start, n, key, x)) == j,
{
    let c = choose|x: int| first_entry(t, start, n, key, x);
    assert(first_entry(t, start, n, key, c));
    if c < j {
        assert(node_at(t, Some(start + c)) != key);
    } else if c > j {
        assert(node_at(t, Some(start + j)) != key);
    }
}

/// The node at `i` of the table `t`, if `i` lies in it.
fn node_ref(t: &Vec<YamlNode>, i: Option<usize>) -> (r: Option<&YamlNode>)
    ensures
        match r {
            Some(n) => n@ == node_at(nodes_view(t@), opt_int(i)),
            None => node_at(nodes_view(t@), opt_int(i)) == YamlNodeView::Bad && (i is None || i->0 >= t@.len()),
        },
{
    match i {
        Some(i) => if i < t.len() {
            Some(&t[i])
        } else {
            None
        },
        None => None,
    }
}

/// The position of the value of the key `key` (the integer 0 when `zero`)
/// in the mapping at `i`.
fn value_at(t: &Vec<YamlNode>, i: Option<usize>, key: &str, zero: bool) -> (r: Option<usize>)
    ensures
        opt_int(r) == value_of(nodes_view(t@), opt_int(i), key_view(key@, zero)),
{
    let ghost tv = nodes_view(t@);
    let ghost kv = key_view(key@, zero);
    let (s, e) = match node_ref(t, i) {
        Some(YamlNode::Mapping(s, e)) => (*s, *e),
        _ => return None,
    };
    let n = if e > s {
        (e - s) / 2
    } else {
        0
    };
    let mut j: usize = 0;
    while j < n
        invariant
            tv == nodes_view(t@),
            kv == key_view(key@, zero),
            node_at(tv, opt_int(i)) == YamlNodeView::Mapping(s, e),
            n == entry_count(s, e),
            j <= n,
            forall|m: int| 0 <= m < j ==> #[trigger] node_at(tv, Some(s + m)) != kv,
        decreases n - j,
    {
        if s >= t.len() || j >= t.len() - s {
            proof {
                assert forall|m: int| 0 <= m < n implies #[trigger] node_at(tv, Some(s + m)) != kv by {
                    if m >= j {
                        assert(node_at(tv, Some(s + m)) == YamlNodeView::Bad);
                    }
                }
                assert(!exists|x: int| first_entry(tv, s as int, n as int, kv, x));
            }
            return None;
        }
        let idx = s + j;
        if key_matches(&t[idx], key, zero) {
            proof {
                assert(node_at(tv, Some(s + j)) == t@[idx as int]@);
                assert(first_entry(tv, s as int, n as int, kv, j as int));
                lemma_first_entry_unique(tv, s as int, n as int, kv, j as int);
            }
            return Some(s + n + j);
        }
        assert(node_at(tv, Some(s + j)) == t@[idx as int]@);
        j = j + 1;
    }
    assert(!exists|x: int| first_entry(tv, s as int, n as int, kv, x));
    None
}

/// The position of item 0 of the node at `i`.
fn first_item_at(t: &Vec<YamlNode>, i: Option<usize>) -> (r: Option<usize>)
    ensures
        opt_int(r) == first_item(nodes_view(t@), opt_int(i)),
{
    match node_ref(t, i) {
        Some(YamlNode::List(s, e)) => if *s < *e {
            Some(*s)
        } else {
            None
        },
        Some(YamlNode::Mapping(_, _)) => value_at(t, i, "", true),
        _ => None,
    }
}

/// The service whose key is at `k` and whose description is at `v`.
fn service_entry(t: &Vec<YamlNode>, k: usize, v: usize) -> (r: ServiceEntry)
    ensures
        r@ == service_at(nodes_view(t@), k as int, v as int),
{
    let name = match node_ref(t, Some(k)) {
        Some(YamlNode::Str(s)) => Some(s.clone()),
        _ => None,
    };
    let networks = value_at(t, Some(v), "networks", false);
    let app_net = value_at(t, networks, "app_net", false);
    let ipv4 = match node_ref(t, value_at(t, app_net, "ipv4_address", false)) {
        Some(YamlNode::Bad) | None => YamlText::Missing,
        Some(YamlNode::Str(s)) => YamlText::Text(s.clone()),
        Some(_) => YamlText::Other,
    };
    let port = match node_ref(t, first_item_at(t, value_at(t, Some(v), "expose", false))) {
        Some(YamlNode::Int(n)) => Some(*n),
        _ => None,
    };
    proof {
        reveal_strlit("networks");
        reveal_strlit("app_net");
        reveal_strlit("ipv4_address");
        reveal_strlit("expose");
    }
    ServiceEntry { name, ipv4, port }
}

/// The services of the first document of the table `t`, in the order of
/// its mapping `services`.
pub fn services_of(t: &Vec<YamlNode>) -> (r: Vec<ServiceEntry>)
    ensures
        entries_view(r@) == services_spec(nodes_view(t@)),
{
    let ghost tv = nodes_view(t@);
    let at = value_at(t, Some(0), "services", false);
    proof {
        reveal_strlit("services");
    }
    let (s, e) = match node_ref(t, at) {
        Some(YamlNode::Mapping(s, e)) => (*s, *e),
        _ => return Vec::new(),
    };
    let n = if e > s {
        (e - s) / 2
    } else {
        0
    };
    let mut out: Vec<ServiceEntry> = Vec::new();
    let mut j: usize = 0;
    while j < n
        invariant
            tv == nodes_view(t@),
            n == entry_count(s, e),
            j <= n,
            entries_view(out@) =~= Seq::new(j as nat, |m: int| service_at(tv, s + m, s + n + m)),
        decreases n - j,
    {
        let entry = if s >= t.len() || j >= t.len() - s {
            let empty = ServiceEntry { name: None, ipv4: YamlText::Missing, port: None };
            proof {
                assert(node_at(tv, Some(s + j)) == YamlNodeView::Bad);
                assert(node_at(tv, Some(s + n + j)) == YamlNodeView::Bad);
                let networks = value_of(tv, Some(s + n + j), YamlNodeView::Str("networks"@));
                assert(networks is None);
                let app_net = value_of(tv, networks, YamlNodeView::Str("app_net"@));
                assert(app_net is None);
                assert(value_of(tv, app_net, YamlNodeView::Str("ipv4_address"@)) is None);
                assert(value_of(tv, Some(s + n + j), YamlNodeView::Str("expose"@)) is None);
                assert(empty@ == service_at(tv, s + j, s + n + j));
            }
            empty
        } else {
            service_entry(t, s + j, s + n + j)
        };
        let ghost before = entries_view(out@);
        out.push(entry);
        proof {
            assert(entries_view(out@) =~= before.push(entry@));
        }
        j = j + 1;
    }
    out
}

/// The position of the first service named `name`.
pub open spec fn first_named(es: Seq<ServiceEntryView>, name: Seq<char>) -> Option<int>
    decreases es.len(),
{
    if es.len() == 0 {
        None
    } else {
        match first_named(es.drop_last(), name) {
            Some(p) => Some(p),
            None => if es.last().name == Some(name) {
                Some(es.len() - 1)
            } else {
                None
            },
        }
    }
}

/// The address node of the service `name`: missing when there is no such
/// service.
pub open spec fn ipv4_node(es: Seq<ServiceEntryView>, name: Seq<char>) -> YamlTextView {
    match first_named(es, name) {
        Some(p) => es[p].ipv4,
        None => YamlTextView::Missing,
    }
}

/// The exposed port of the service `name`, if it is an integer.
pub open spec fn port_node(es: Seq<ServiceEntryView>, name: Seq<char>) -> Option<i64> {
    match first_named(es, name) {
        Some(p) => es[p].port,
        None => None,
    }
}

/// The service has an address node.
pub open spec fn listed(es: Seq<ServiceEntryView>, name: Seq<char>) -> bool {
    !(ipv4_node(es, name) is Missing)
}

/// The name of the agent number `i` whose names begin with `prefix`.
pub open spec fn agent_name(prefix: Seq<char>, i: nat) -> Seq<char> {
    prefix + decimal(i)
}

/// The agents `prefix0`, `prefix1`, ... up to the first one that is not
/// listed: their number.
pub open spec fn agent_count(es: Seq<ServiceEntryView>, prefix: Seq<char>) -> nat {
    choose|k: nat|
        !listed(es, agent_name(prefix, k)) && forall|j: nat| j < k ==> #[trigger] listed(es, agent_name(prefix, j))
}

/// Each of those agents has a text address and an integer port.
pub open spec fn agents_complete(es: Seq<ServiceEntryView>, prefix: Seq<char>) -> bool {
    forall|j: nat|
        j < agent_count(es, prefix) ==> (#[trigger] ipv4_node(es, agent_name(prefix, j))) is Text
            && port_node(es, agent_name(prefix, j)) is Some
}

/// `ADDRESS:PORT` of the service `name`.
pub open spec fn agent_address(es: Seq<ServiceEntryView>, name: Seq<char>) -> Seq<char> {
    match ipv4_node(es, name) {
        YamlTextView::Text(t) => t + ":"@ + signed_decimal(port_node(es, name).unwrap() as int),
        _ => seq![],
    }
}

/// The addresses of the agents `prefix0`, `prefix1`, ... in order.
pub open spec fn agent_addresses(es: Seq<ServiceEntryView>, prefix: Seq<char>) -> Seq<Seq<char>> {
    Seq::new(agent_count(es, prefix), |j: int| agent_address(es, agent_name(prefix, j as nat)))
}

proof fn lemma_first_named_bound(es: Seq<ServiceEntryView>, name: Seq<char>)
    ensures
        first_named(es, name) matches Some(p) ==> 0 <= p < es.len() && es[p].name == Some(name),
    decreases es.len(),
{
    if es.len() > 0 {
        lemma_first_named_bound(es.drop_last(), name);
    }
}

proof fn lemma_first_named_take(es: Seq<ServiceEntryView>, name: Seq<char>, k: int)
    requires
        0 <= k < es.len(),
    ensures
        first_named(es.take(k + 1), name) == match first_named(es.take(k), name) {
            Some(p) => Some(p),
            None => if es[k].name == Some(name) {
                Some(k)
            } else {
                None
            },
        },
{
    assert(es.take(k + 1).drop_last() =~= es.take(k));
    assert(es.take(k + 1).last() == es[k]);
}

proof fn lemma_first_named_grows(es: Seq<ServiceEntryView>, name: Seq<char>, k: int, m: int)
    requires
        0 <= k <= m <= es.len(),
        first_named(es.take(k), name) is Some,
    ensures
        first_named(es.take(m), name) == first_named(es.take(k), name),
    decreases m - k,
{
    if m > k {
        lemma_first_named_grows(es, name, k, m - 1);
        lemma_first_named_take(es, name, m - 1);
    }
}

proof fn lemma_prefix_cancel(prefix: Seq<char>, a: Seq<char>, b: Seq<char>)
    requires
        prefix + a == prefix + b,
    ensures
        a == b,
{
    assert((prefix + a).skip(prefix.len() as int) =~= a);
    assert((prefix + b).skip(prefix.len() as int) =~= b);
}

/// Only as many agents as there are services can be listed.
proof fn lemma_agents_bound(es: Seq<ServiceEntryView>, prefix: Seq<char>, k: nat)
    requires
        forall|j: nat| j <= k ==> #[trigger] listed(es, agent_name(prefix, j)),
    ensures
        k < es.len(),
{
    let names = es.map_values(|e: ServiceEntryView| e.name);
    let all = names.to_set();
    names.lemma_cardinality_of_set();
    let x = vstd::set_lib::set_int_range(0, (k + 1) as int);
    vstd::set_lib::lemma_int_range(0, (k + 1) as int);
    let f = |j: int| Some(agent_name(prefix, j as nat));
    assert(vstd::relations::injective_on(f, x)) by {
        assert forall|a: int, b: int| x.contains(a) && x.contains(b) && #[trigger] f(a) == #[trigger] f(b) implies a == b by {
            lemma_prefix_cancel(prefix, decimal(a as nat), decimal(b as nat));
            lemma_decimal_injective(a as nat, b as nat);
        }
    }
    let y = x.map(f);
    vstd::set_lib::lemma_map_size(x, y, f);
    assert(y.subset_of(all)) by {
        assert forall|n: Option<Seq<char>>| y.contains(n) implies all.contains(n) by {
            let j = choose|j: int| x.contains(j) && f(j) == n;
            assert(listed(es, agent_name(prefix, j as nat)));
            lemma_first_named_bound(es, agent_name(prefix, j as nat));
            let p = first_named(es, agent_name(prefix, j as nat)).unwrap();
            assert(names[p] == n);
        }
    }
    vstd::set_lib::lemma_len_subset(y, all);
}

proof fn lemma_count_exists(es: Seq<ServiceEntryView>, prefix: Seq<char>, k: nat)
    requires
        forall|j: nat| j < k ==> #[trigger] listed(es, agent_name(prefix, j)),
    ensures
        exists|c: nat|
            !listed(es, agent_name(prefix, c)) && forall|j: nat| j < c ==> #[trigger] listed(es, agent_name(prefix, j)),
    decreases es.len() + 1 - k,
{
    if !listed(es, agent_name(prefix, k)) {
        assert(forall|j: nat| j < k ==> #[trigger] listed(es, agent_name(prefix, j)));
    } else {
        lemma_agents_bound(es, prefix, k);
        lemma_count_exists(es, prefix, k + 1);
    }
}

proof fn lemma_count_is(es: Seq<ServiceEntryView>, prefix: Seq<char>, k: nat)
    requires
        !listed(es, agent_name(prefix, k)),
        forall|j: nat| j < k ==> #[trigger] listed(es, agent_name(prefix, j)),
    ensures
        agent_count(es, prefix) == k,
{
    let c = agent_count(es, prefix);
    assert(!listed(es, agent_name(prefix, c)) && forall|j: nat| j < c ==> #[trigger] listed(es, agent_name(prefix, j)));
    if c < k {
        assert(listed(es, agent_name(prefix, c)));
    } else if c > k {
        assert(listed(es, agent_name(prefix, k)));
    }
}

/// The deployment description.
pub struct YMLReader {
    pub services: Vec<ServiceEntry>,
}

impl YMLReader {
    /// Reads the deployment described by the YAML text `yml_string`; `None`
    /// when it is not valid YAML or holds no document.
    pub fn new(yml_string: String) -> (r: Option<YMLReader>)
        ensures
            r is Some <==> (yaml_nodes_of(yml_string@) matches Some(t) && t.len() > 0),
            r matches Some(y) ==> entries_view(y.services@) == services_spec(yaml_nodes_of(yml_string@)->0),
    {
        match load_yaml(yml_string.as_str()) {
            Some(t) => if t.len() == 0 {
                None
            } else {
                Some(YMLReader { services: services_of(&t) })
            },
            None => None,
        }
    }

    /// The position of the first service named `name`.
    fn find(&self, name: &str) -> (r: Option<usize>)
        ensures
            match r {
                Some(p) => first_named(entries_view(self.services@), name@) == Some(p as int)
                    && p < self.services@.len() && entries_view(self.services@)[p as int]
                    == self.services@[p as int]@,
                None => first_named(entries_view(self.services@), name@) is None,
            },
    {
        let ghost es = entries_view(self.services@);
        let mut k: usize = 0;
        assert(es.take(0) =~= Seq::<ServiceEntryView>::empty());
        while k < self.services.len()
            invariant
                es == entries_view(self.services@),
                k <= self.services@.len(),
                first_named(es.take(k as int), name@) is None,
            decreases self.services@.len() - k,
        {
            proof {
                lemma_first_named_take(es, name@, k as int);
            }
            let hit = match &self.services[k].name {
                Some(n) => crate::text::str_eq(n.as_str(), name),
                None => false,
            };
            if hit {
                proof {
                    lemma_first_named_grows(es, name@, k + 1, es.len() as int);
                    assert(es.take(es.len() as int) =~= es);
                    assert(es[k as int] == self.services@[k as int]@);
                }
                return Some(k);
            }
            k = k + 1;
        }
        assert(es.take(k as int) =~= es);
        None
    }

    /// The address of the service `name`, when its address node is a
    /// string.
    pub fn ipv4_text(&self, name: &str) -> (r: Option<String>)
        ensures
            match ipv4_node(entries_view(self.services@), name@) {
                YamlTextView::Text(t) => r matches Some(s) && s@ == t,
                _ => r is None,
            },
    {
        match self.find(name) {
            Some(p) => match &self.services[p].ipv4 {
                YamlText::Text(t) => Some(t.clone()),
                _ => None,
            },
            None => None,
        }
    }

    /// Whether the service `name` has an address node.
    fn is_listed(&self, name: &str) -> (r: bool)
        ensures
            r == listed(entries_view(self.services@), name@),
    {
        match self.find(name) {
            Some(p) => match &self.services[p].ipv4 {
                YamlText::Missing => false,
                _ => true,
            },
            None => false,
        }
    }

    /// Whether every agent `prefix0`, `prefix1`, ... up to the first one that
    /// is not listed has a text address and an integer port.
    pub fn agents_complete(&self, prefix: &str) -> (r: bool)
        ensures
            r == agents_complete(entries_view(self.services@), prefix@),
    {
        let ghost es = entries_view(self.services@);
        let n = self.services.len();
        let mut index: usize = 0;
        loop
            invariant
                es == entries_view(self.services@),
                n == es.len(),
                index <= es.len(),
                forall|j: nat| j < index ==> #[trigger] listed(es, agent_name(prefix@, j)),
                forall|j: nat|
                    j < index ==> (#[trigger] ipv4_node(es, agent_name(prefix@, j))) is Text
                        && port_node(es, agent_name(prefix@, j)) is Some,
            decreases es.len() - index,
        {
            let mut name = prefix.to_owned();
            let digits = usize_to_string(index);
            name.append(digits.as_str());
            assert(name@ == agent_name(prefix@, index as nat));
            match self.find(name.as_str()) {
                None => {
                    proof {
                        lemma_count_is(es, prefix@, index as nat);
                    }
                    return true;
                },
                Some(p) => {
                    let complete = match &self.services[p].ipv4 {
                        YamlText::Missing => {
                            proof {
                                lemma_count_is(es, prefix@, index as nat);
                            }
                            return true;
                        },
                        YamlText::Text(_) => self.services[p].port.is_some(),
                        YamlText::Other => false,
                    };
                    if !complete {
                        proof {
                            assert(es[p as int] == self.services@[p as int]@);
                            assert(listed(es, agent_name(prefix@, index as nat)));
                            assert(!(ipv4_node(es, agent_name(prefix@, index as nat)) is Text
                                && port_node(es, agent_name(prefix@, index as nat)) is Some));
                            lemma_count_exists(es, prefix@, index as nat + 1);
                            let c = agent_count(es, prefix@);
                            if c <= index {
                                if c < index {
                                    assert(listed(es, agent_name(prefix@, c)));
                                }
                                assert(!listed(es, agent_name(prefix@, c)));
                            }
                        }
                        return false;
                    }
                    proof {
                        lemma_agents_bound(es, prefix@, index as nat);
                    }
                },
            }
            index = index + 1;
        }
    }

    /// The `ADDRESS:PORT` of the agents `prefix0`, `prefix1`, ... up to the
    /// first one that is not listed.
    fn agent_addresses(&self, prefix: &str) -> (r: Vec<String>)
        requires
            agents_complete(entries_view(self.services@), prefix@),
        ensures
            crate::text::views(r@) == agent_addresses(entries_view(self.services@), prefix@),
    {
        let ghost es = entries_view(self.services@);
        let n = self.services.len();
        let mut ret_val: Vec<String> = Vec::new();
        let mut index: usize = 0;
        loop
            invariant
                es == entries_view(self.services@),
                n == es.len(),
                agents_complete(es, prefix@),
                index <= es.len(),
                forall|j: nat| j < index ==> #[trigger] listed(es, agent_name(prefix@, j)),
                ret_val@.len() == index,
                forall|j: int|
                    0 <= j < index ==> (#[trigger] ret_val@[j])@ == agent_address(es, agent_name(prefix@, j as nat)),
            decreases es.len() - index,
        {
            let mut name = prefix.to_owned();
            let digits = usize_to_string(index);
            name.append(digits.as_str());
            assert(name@ == agent_name(prefix@, index as nat));
            if !self.is_listed(name.as_str()) {
                proof {
                    lemma_count_is(es, prefix@, index as nat);
                    assert(crate::text::views(ret_val@) =~= agent_addresses(es, prefix@));
                }
                return ret_val;
            }
            proof {
                lemma_count_exists(es, prefix@, index as nat + 1);
                let c = agent_count(es, prefix@);
                if c <= index {
                    if c < index {
                        assert(listed(es, agent_name(prefix@, c)));
                    }
                    assert(!listed(es, agent_name(prefix@, c)));
                }
                assert(ipv4_node(es, agent_name(prefix@, index as nat)) is Text);
                lemma_agents_bound(es, prefix@, index as nat);
            }
            let p = match self.find(name.as_str()) {
                Some(p) => p,
                None => unreached(),
            };
            let mut addr = match &self.services[p].ipv4 {
                YamlText::Text(t) => t.clone(),
                _ => unreached(),
            };
            let port = match self.services[p].port {
                Some(v) => v,
                None => unreached(),
            };
            addr.append(":");
            let port_text = i64_to_string(port);
            addr.append(port_text.as_str());
            ret_val.push(addr);
            index = index + 1;
        }
    }

    /// The `ADDRESS:PORT` of the target agents `agent_target_0`,
    /// `agent_target_1`, ... up to the first one that is not listed.
    pub fn get_target_addresses(&self) -> (r: Vec<String>)
        requires
            agents_complete(entries_view(self.services@), "agent_target_"@),
        ensures
            crate::text::views(r@) == agent_addresses(entries_view(self.services@), "agent_target_"@),
    {
        self.agent_addresses("agent_target_")
    }

    /// The `ADDRESS:PORT` of the benchmark agents `agent_bench_0`,
    /// `agent_bench_1`, ... up to the first one that is not listed.
    pub fn get_bench_addresses(&self) -> (r: Vec<String>)
        requires
            agents_complete(entries_view(self.services@), "agent_bench_"@),
        ensures
            crate::text::views(r@) == agent_addresses(entries_view(self.services@), "agent_bench_"@),
    {
        self.agent_addresses("agent_bench_")
    }

    /// The number of target agents listed: `agent_target_0`,
    /// `agent_target_1`, ... up to the first one that is not listed.
    pub fn get_num_targets(&self) -> (r: usize)
        ensures
            r == agent_count(entries_view(self.services@), "agent_target_"@),
    {
        let ghost es = entries_view(self.services@);
        let ghost prefix = "agent_target_"@;
        let n = self.services.len();
        let mut index: usize = 0;
        loop
            invariant
                es == entries_view(self.services@),
                n == es.len(),
                prefix == "agent_target_"@,
                index <= es.len(),
                forall|j: nat| j < index ==> #[trigger] listed(es, agent_name(prefix, j)),
            decreases es.len() - index,
        {
            let mut name = "agent_target_".to_owned();
            let digits = usize_to_string(index);
            name.append(digits.as_str());
            assert(name@ == agent_name(prefix, index as nat));
            if !self.is_listed(name.as_str()) {
                proof {
                    lemma_count_is(es, prefix, index as nat);
                }
                return index;
            }
            proof {
                lemma_agents_bound(es, prefix, index as nat);
            }
            index = index + 1;
        }
    }

    /// The address of the InfluxDB server (the service `influxdb`).
    pub fn get_influx_address(&self) -> (r: String)
        requires
            ipv4_node(entries_view(self.services@), "influxdb"@) is Text,
        ensures
            ipv4_node(entries_view(self.services@), "influxdb"@) == YamlTextView::Text(r@),
    {
        match self.ipv4_text("influxdb") {
            Some(s) => s,
            None => unreached(),
        }
    }
}

/// There is one target address for each target agent counted, and the
/// address of the agent number `j` is that of the service
/// `agent_target_j`: the workers, one per target, each get the address of
/// their own target.
pub proof fn lemma_addresses_match_count(es: Seq<ServiceEntryView>)
    ensures
        agent_addresses(es, "agent_target_"@).len() == agent_count(es, "agent_target_"@),
        forall|j: int|
            0 <= j < agent_count(es, "agent_target_"@) ==> #[trigger] agent_addresses(es, "agent_target_"@)[j]
                == agent_address(es, agent_name("agent_target_"@, j as nat)),
        forall|j: nat|
            j < agent_count(es, "agent_target_"@) ==> #[trigger] listed(es, agent_name("agent_target_"@, j)),
        !listed(es, agent_name("agent_target_"@, agent_count(es, "agent_target_"@))),
{
    lemma_count_exists(es, "agent_target_"@, 0);
}

} // verus!
