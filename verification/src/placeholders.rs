//! Placeholder substitution in deployment documents: the values a machine's
//! node contributes, the registered placeholders (kept in insertion order by
//! a `LinkedHashMap`) and the formatter that fills `${name}` slots.

use crate::cluster::MachineConfig;
use crate::strings::{decimal, replace_all, spec_decimal, spec_replace};
use crate::table::Table;
use linked_hash_map::LinkedHashMap;
use vstd::prelude::*;

verus! {

#[verifier::external_type_specification]
#[verifier::external_body]
#[verifier::reject_recursive_types(K)]
#[verifier::reject_recursive_types(V)]
#[verifier::reject_recursive_types(S)]
pub struct ExLinkedHashMap<K, V, S>(LinkedHashMap<K, V, S>);

/// The entries of a linked map of texts, oldest insertion first.
pub uninterp spec fn linked_entries(m: LinkedHashMap<String, String>) -> Seq<(Seq<char>, Seq<char>)>;

/// The keys of a list of entries.
pub open spec fn entry_keys(s: Seq<(Seq<char>, Seq<char>)>) -> Seq<Seq<char>> {
    s.map_values(|e: (Seq<char>, Seq<char>)| e.0)
}

/// The entries without those whose key is `k`.
pub open spec fn without_key(s: Seq<(Seq<char>, Seq<char>)>, k: Seq<char>) -> Seq<
    (Seq<char>, Seq<char>),
> {
    s.filter(|e: (Seq<char>, Seq<char>)| e.0 != k)
}

/// `LinkedHashMap::new`: a map with no entries.
#[verifier::external_body]
fn linked_new() -> (m: LinkedHashMap<String, String>)
    ensures
        linked_entries(m) == Seq::<(Seq<char>, Seq<char>)>::empty(),
{
    LinkedHashMap::new()
}

/// `LinkedHashMap::insert`: the pair becomes the newest entry, replacing the
/// entry of the same key if there was one (the crate detaches that node and
/// attaches it again at the newest end, with the new value), and the value
/// it held is returned.
#[verifier::external_body]
fn linked_insert(m: &mut LinkedHashMap<String, String>, k: String, v: String) -> (r: Option<String>)
    ensures
        linked_entries(*final(m)) == without_key(linked_entries(*old(m)), k@).push((k@, v@)),
        match r {
            Some(o) => linked_entries(*old(m)).contains((k@, o@)),
            None => !entry_keys(linked_entries(*old(m))).contains(k@),
        },
{
    m.insert(k, v)
}

/// `LinkedHashMap::contains_key`: whether some entry has key `k`.
#[verifier::external_body]
fn linked_contains_key(m: &LinkedHashMap<String, String>, k: &String) -> (r: bool)
    ensures
        r == entry_keys(linked_entries(*m)).contains(k@),
{
    m.contains_key(k)
}

/// `LinkedHashMap::iter`, each pair copied: the entries, oldest first.
#[verifier::external_body]
fn linked_pairs(m: &LinkedHashMap<String, String>) -> (r: Vec<(String, String)>)
    ensures
        r@.map_values(|e: (String, String)| (e.0@, e.1@)) == linked_entries(*m),
{
    m.iter().map(|(k, v)| (k.clone(), v.clone())).collect()
}

/// The values of a text table, taken as texts.
pub open spec fn text_map(m: Map<Seq<char>, String>) -> Map<Seq<char>, Seq<char>> {
    m.map_values(|v: String| v@)
}

/// The entries of a text table in table order, taken as texts.
pub open spec fn text_pairs(t: Table<String, String>) -> Seq<(Seq<char>, Seq<char>)> {
    t.pairs().map_values(|e: (Seq<char>, String)| (e.0, e.1@))
}

/// The values that a node of `config` fills in: its machine's name and
/// address, its id, its kind and its port (the machine's base port plus the
/// id).
pub open spec fn spec_machine_placeholders(
    config: MachineConfig,
    node: nat,
    is_client: bool,
    port: nat,
) -> Map<Seq<char>, Seq<char>> {
    Map::<Seq<char>, Seq<char>>::empty().insert("machine"@, config.name@).insert(
        "machineIp"@,
        config.machine_ip@,
    ).insert("nodeId"@, spec_decimal(node)).insert(
        "nodeType"@,
        if is_client {
            "Client"@
        } else {
            "Replica"@
        },
    ).insert("nodePort"@, spec_decimal(port))
}

/// The placeholder values for node `node` on machine `config`.
pub fn build_placeholders_for_machine(config: &MachineConfig, node: usize, is_client: bool) -> (r:
    Table<String, String>)
    requires
        (config.base_port as usize) + node <= usize::MAX,
    ensures
        r.wf(),
        text_map(r.view()) == spec_machine_placeholders(
            *config,
            node as nat,
            is_client,
            ((config.base_port as usize) + node) as nat,
        ),
{
    let mut placeholders: Table<String, String> = Table::new();
    placeholders.insert(String::from_str("machine"), config.name.clone());
    placeholders.insert(String::from_str("machineIp"), config.machine_ip.clone());
    placeholders.insert(String::from_str("nodeId"), decimal(node));
    let kind = if is_client {
        String::from_str("Client")
    } else {
        String::from_str("Replica")
    };
    placeholders.insert(String::from_str("nodeType"), kind);
    let port: usize = (config.base_port as usize) + node;
    placeholders.insert(String::from_str("nodePort"), decimal(port));
    assert(text_map(placeholders.view()) =~= spec_machine_placeholders(
        *config,
        node as nat,
        is_client,
        port as nat,
    ));
    placeholders
}

/// The name of the compose file of a machine's replicas, or of its clients.
pub open spec fn spec_docker_name(node: Seq<char>, is_client: bool) -> Seq<char> {
    node + "-"@ + if is_client {
        "cli-docker-compose.yml"@
    } else {
        "docker-compose.yml"@
    }
}

/// The compose file name for the nodes of one kind on machine `node`.
pub fn docker_name_for(node: &str, is_client: bool) -> (r: String)
    ensures
        r@ == spec_docker_name(node@, is_client),
{
    let mut name = String::from_str(node);
    name.append("-");
    if is_client {
        name.append("cli-docker-compose.yml");
    } else {
        name.append("docker-compose.yml");
    }
    name
}

/// The registered placeholders and their default values, as configured.
pub struct RegisteredPlaceHoldersConfig {
    pub placeholders: Table<String, String>,
}

/// The registered placeholders, in the order they were registered.
pub struct RegisteredPlaceHolders {
    placeholders: LinkedHashMap<String, String>,
}

impl RegisteredPlaceHolders {
    /// The registered placeholders and their defaults, oldest first.
    pub closed spec fn entries(&self) -> Seq<(Seq<char>, Seq<char>)> {
        linked_entries(self.placeholders)
    }

    pub fn placeholders(&self) -> (r: &LinkedHashMap<String, String>)
        ensures
            linked_entries(*r) == self.entries(),
    {
        &self.placeholders
    }

    /// Registers the configured placeholders, in the configuration's order.
    pub fn from_config(value: RegisteredPlaceHoldersConfig) -> (r: Self)
        requires
            value.placeholders.wf(),
        ensures
            r.entries() == text_pairs(value.placeholders),
    {
        let mut map = linked_new();
        let entries = value.placeholders.entries();
        let ghost src = text_pairs(value.placeholders);
        let mut i: usize = 0;
        while i < entries.len()
            invariant
                i <= entries@.len(),
                entries@.map_values(|e: (String, String)| (e.0@, e.1)) == value.placeholders.pairs(),
                src == text_pairs(value.placeholders),
                value.placeholders.wf(),
                linked_entries(map) == src.subrange(0, i as int),
            decreases entries@.len() - i,
        {
            let k = entries[i].0.clone();
            let v = entries[i].1.clone();
            proof {
                assert(src[i as int] == (k@, v@));
                assert(value.placeholders.pairs()[i as int] == (entries@[i as int].0@, entries@[i as int].1));
                lemma_fresh_key(value.placeholders, i as int);
                assert(without_key(src.subrange(0, i as int), k@) =~= src.subrange(0, i as int)) by {
                    lemma_filter_keeps_all(src.subrange(0, i as int), k@);
                }
            }
            linked_insert(&mut map, k, v);
            assert(src.subrange(0, i + 1) =~= src.subrange(0, i as int).push(src[i as int]));
            i = i + 1;
        }
        assert(src.subrange(0, i as int) =~= src);
        RegisteredPlaceHolders { placeholders: map }
    }
}

/// In a table, no key before position `i` equals the key at `i`.
proof fn lemma_fresh_key(t: Table<String, String>, i: int)
    requires
        t.wf(),
        0 <= i < t.pairs().len(),
    ensures
        forall|j: int| 0 <= j < i ==> (#[trigger] text_pairs(t)[j]).0 != text_pairs(t)[i].0,
{
    t.lemma_keys_distinct();
    assert forall|j: int| 0 <= j < i implies (#[trigger] text_pairs(t)[j]).0 != text_pairs(t)[i].0 by {
        assert(text_pairs(t)[j].0 == t.pairs()[j].0);
        assert(text_pairs(t)[i].0 == t.pairs()[i].0);
    }
}

/// Filtering out a key that no entry has keeps every entry.
proof fn lemma_filter_keeps_all(s: Seq<(Seq<char>, Seq<char>)>, k: Seq<char>)
    requires
        forall|j: int| 0 <= j < s.len() ==> (#[trigger] s[j]).0 != k,
    ensures
        without_key(s, k) == s,
    decreases s.len(),
{
    reveal(Seq::filter);
    if s.len() > 0 {
        let d = s.drop_last();
        assert forall|j: int| 0 <= j < d.len() implies (#[trigger] d[j]).0 != k by {
            assert(d[j] == s[j]);
        }
        lemma_filter_keeps_all(d, k);
        assert(s.last().0 != k);
        assert(without_key(s, k) == without_key(d, k).push(s.last()));
        assert(d.push(s.last()) =~= s);
    }
}

/// The slot text of placeholder `key`: `${key}`.
pub open spec fn slot(key: Seq<char>) -> Seq<char> {
    seq!['$', '{'] + key + seq!['}']
}

/// Fills the slots of each substitution in turn, in list order.
pub open spec fn substitute_all(doc: Seq<char>, subs: Seq<(Seq<char>, Seq<char>)>) -> Seq<char>
    decreases subs.len(),
{
    if subs.len() == 0 {
        doc
    } else {
        spec_replace(substitute_all(doc, subs.drop_last()), slot(subs.last().0), subs.last().1)
    }
}

/// The substitutions of the registered placeholders: each with its
/// override's value when there is one, else with its default.
pub open spec fn registered_subs(
    registered: Seq<(Seq<char>, Seq<char>)>,
    overrides: Map<Seq<char>, Seq<char>>,
) -> Seq<(Seq<char>, Seq<char>)> {
    registered.map_values(
        |e: (Seq<char>, Seq<char>)|
            (e.0, if overrides.contains_key(e.0) {
                overrides[e.0]
            } else {
                e.1
            }),
    )
}

/// The substitutions of the overrides that no registered placeholder names.
pub open spec fn extra_subs(
    registered: Seq<(Seq<char>, Seq<char>)>,
    overrides: Seq<(Seq<char>, Seq<char>)>,
) -> Seq<(Seq<char>, Seq<char>)> {
    overrides.filter(|e: (Seq<char>, Seq<char>)| !entry_keys(registered).contains(e.0))
}

/// The document with the registered placeholders filled in, then the other
/// overrides.
pub open spec fn spec_format(
    doc: Seq<char>,
    registered: Seq<(Seq<char>, Seq<char>)>,
    overrides: Option<Seq<(Seq<char>, Seq<char>)>>,
    override_map: Map<Seq<char>, Seq<char>>,
) -> Seq<char> {
    match overrides {
        Some(o) => substitute_all(
            substitute_all(doc, registered_subs(registered, override_map)),
            extra_subs(registered, o),
        ),
        None => substitute_all(doc, registered),
    }
}

/// The overrides' values by key, none when there are no overrides.
pub open spec fn override_map(o: Option<Table<String, String>>) -> Map<Seq<char>, Seq<char>> {
    match o {
        Some(t) => text_map(t.view()),
        None => Map::empty(),
    }
}

/// The overrides' entries in table order.
pub open spec fn override_pairs(o: Option<Table<String, String>>) -> Option<
    Seq<(Seq<char>, Seq<char>)>,
> {
    match o {
        Some(t) => Some(text_pairs(t)),
        None => None,
    }
}

/// Fills `${name}` slots with the registered placeholders' values.
pub struct ReplaceFormatter {
    replace_placeholders: RegisteredPlaceHolders,
}

/// The slot text of `key`.
fn slot_for(key: &String) -> (r: String)
    ensures
        r@ == slot(key@),
{
    let mut s = String::from_str("${");
    s.append(key.as_str());
    s.append("}");
    proof {
        reveal_strlit("${");
        reveal_strlit("}");
        assert(s@ =~= slot(key@));
    }
    s
}

impl ReplaceFormatter {
    pub fn new(placeholders: RegisteredPlaceHolders) -> (f: Self)
        ensures
            f.registered() == placeholders.entries(),
    {
        ReplaceFormatter { replace_placeholders: placeholders }
    }

    /// The registered placeholders, oldest first.
    pub closed spec fn registered(&self) -> Seq<(Seq<char>, Seq<char>)> {
        self.replace_placeholders.entries()
    }

    /// Fills each registered placeholder's slots, with the override's value
    /// where `override_formats` gives one and the default otherwise, then the
    /// slots of the overrides that are not registered.
    pub fn format_document(&self, document: &String, override_formats: Option<Table<String, String>>) -> (r:
        String)
        requires
            override_formats matches Some(o) ==> o.wf(),
        ensures
            r@ == spec_format(
                document@,
                self.registered(),
                override_pairs(override_formats),
                override_map(override_formats),
            ),
    {
        let mut doc = document.clone();
        let registered = linked_pairs(&self.replace_placeholders.placeholders);
        let ghost reg = self.registered();
        let ghost ov_map = override_map(override_formats);
        let ghost subs = if override_formats is Some {
            registered_subs(reg, ov_map)
        } else {
            reg
        };
        assert(subs.len() == reg.len());
        let mut i: usize = 0;
        while i < registered.len()
            invariant
                i <= registered@.len(),
                registered@.map_values(|e: (String, String)| (e.0@, e.1@)) == reg,
                subs.len() == reg.len(),
                forall|j: int| 0 <= j < reg.len() ==> (#[trigger] subs[j]).0 == reg[j].0,
                ov_map == override_map(override_formats),
                forall|j: int|
                    0 <= j < reg.len() ==> (#[trigger] subs[j]).1 == if override_formats is Some
                        && ov_map.contains_key(reg[j].0) {
                        ov_map[reg[j].0]
                    } else {
                        reg[j].1
                    },
                override_formats matches Some(o) ==> o.wf(),
                doc@ == substitute_all(document@, subs.subrange(0, i as int)),
            decreases registered@.len() - i,
        {
            let key = &registered[i].0;
            assert(reg[i as int] == (key@, registered@[i as int].1@));
            let value: &String = match &override_formats {
                Some(o) => match o.get(key) {
                    Some(v) => v,
                    None => &registered[i].1,
                },
                None => &registered[i].1,
            };
            assert(value@ == subs[i as int].1);
            let pat = slot_for(key);
            doc = replace_all(doc.as_str(), pat.as_str(), value.as_str());
            assert(subs.subrange(0, i + 1).drop_last() =~= subs.subrange(0, i as int));
            i = i + 1;
        }
        assert(subs.subrange(0, i as int) =~= subs);
        match &override_formats {
            Some(o) => {
                let extra = o.entries();
                let ghost ov = text_pairs(*o);
                let ghost extras = extra_subs(reg, ov);
                let ghost mid = doc@;
                let mut j: usize = 0;
                while j < extra.len()
                    invariant
                        j <= extra@.len(),
                        extra@.map_values(|e: (String, String)| (e.0@, e.1)) == o.pairs(),
                        ov == text_pairs(*o),
                        doc@ == substitute_all(mid, extra_subs(reg, ov.subrange(0, j as int))),
                        entry_keys(linked_entries(self.replace_placeholders.placeholders)) == entry_keys(
                            reg,
                        ),
                    decreases extra@.len() - j,
                {
                    let key = &extra[j].0;
                    assert(ov[j as int] == (key@, extra@[j as int].1@)) by {
                        assert(o.pairs()[j as int] == (extra@[j as int].0@, extra@[j as int].1));
                    }
                    assert(ov.subrange(0, j + 1).drop_last() =~= ov.subrange(0, j as int));
                    let ghost prev = extra_subs(reg, ov.subrange(0, j as int));
                    let ghost next = extra_subs(reg, ov.subrange(0, j + 1));
                    proof {
                        reveal(Seq::filter);
                    }
                    assert(ov.subrange(0, j + 1).last() == ov[j as int]);
                    if !linked_contains_key(&self.replace_placeholders.placeholders, key) {
                        assert(next == prev.push(ov[j as int]));
                        assert(next.drop_last() =~= prev);
                        let pat = slot_for(key);
                        doc = replace_all(doc.as_str(), pat.as_str(), extra[j].1.as_str());
                    } else {
                        assert(next == prev);
                    }
                    j = j + 1;
                }
                assert(ov.subrange(0, j as int) =~= ov);
            },
            None => {},
        }
        doc
    }
}

/// Replacing a pattern whose first character a text lacks leaves the text
/// as it is.
proof fn lemma_replace_absent(s: Seq<char>, pat: Seq<char>, to: Seq<char>)
    requires
        pat.len() > 0,
        !s.contains(pat[0]),
    ensures
        spec_replace(s, pat, to) == s,
    decreases s.len(),
{
    if s.len() >= pat.len() {
        assert(s.contains(s[0]));
        assert(s.subrange(0, pat.len() as int)[0] == s[0]);
        let d = s.drop_first();
        assert(!d.contains(pat[0])) by {
            if d.contains(pat[0]) {
                let i = d.index_of(pat[0]);
                assert(s[i + 1] == pat[0]);
            }
        }
        lemma_replace_absent(d, pat, to);
        assert(seq![s[0]] + d =~= s);
    }
}

/// Filling slots leaves a text without any `$` as it is.
proof fn lemma_substitute_all_absent(doc: Seq<char>, subs: Seq<(Seq<char>, Seq<char>)>)
    requires
        !doc.contains('$'),
    ensures
        substitute_all(doc, subs) == doc,
    decreases subs.len(),
{
    if subs.len() > 0 {
        lemma_substitute_all_absent(doc, subs.drop_last());
        assert(slot(subs.last().0)[0] == '$');
        lemma_replace_absent(doc, slot(subs.last().0), subs.last().1);
    }
}

/// Formatting changes nothing in a document without a `$`: only `${name}`
/// slots are ever filled.
pub proof fn lemma_format_touches_only_slots(
    doc: Seq<char>,
    registered: Seq<(Seq<char>, Seq<char>)>,
    overrides: Option<Seq<(Seq<char>, Seq<char>)>>,
    override_map: Map<Seq<char>, Seq<char>>,
)
    requires
        !doc.contains('$'),
    ensures
        spec_format(doc, registered, overrides, override_map) == doc,
{
    lemma_substitute_all_absent(doc, registered);
    lemma_substitute_all_absent(doc, registered_subs(registered, override_map));
    if let Some(o) = overrides {
        lemma_substitute_all_absent(doc, extra_subs(registered, o));
    }
}

} // verus!
