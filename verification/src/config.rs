//! Per-kind style configuration: an ordered mapping from compartment
//! kind to an ordered mapping of option name to optional value, built
//! from a default set and optionally merged with one override set.

use vstd::prelude::*;

use linked_hash_map::LinkedHashMap;
use yaml_rust::Yaml;
use yaml_rust::YamlLoader;

use crate::swc_parser::kind_order;
use crate::swc_parser::SWCCompartmentKindIterator;
use crate::swc_parser::SWCCompartmentKind;

verus! {

/// Declares `yaml_rust::Yaml`, the parsed YAML node type, so that it
/// can be carried through signatures; its values stay opaque here.
#[verifier::external_type_specification]
#[verifier::external_body]
pub struct ExYaml(Yaml);

/// Declares `linked_hash_map::LinkedHashMap`, the insertion-ordered map
/// in which `yaml_rust` stores hash nodes; its values stay opaque here.
#[verifier::external_type_specification]
#[verifier::external_body]
#[verifier::reject_recursive_types(K)]
#[verifier::reject_recursive_types(V)]
#[verifier::reject_recursive_types(S)]
pub struct ExLinkedHashMap<K, V, S>(LinkedHashMap<K, V, S>);

/// One configuration entry as seen by specifications: an option name and
/// its optional value.
pub ghost struct EntryModel {
    pub key: Seq<char>,
    pub value: Option<Seq<char>>,
}

/// The view of an optional value.
pub open spec fn opt_view(v: Option<String>) -> Option<Seq<char>> {
    match v {
        Some(v) => Some(v@),
        None => None,
    }
}

/// The view of one stored entry.
pub open spec fn entry_model(e: (String, Option<String>)) -> EntryModel {
    EntryModel { key: e.0@, value: opt_view(e.1) }
}

/// Whether the entry keys of `g` are pairwise distinct.
pub open spec fn keys_unique(g: Seq<EntryModel>) -> bool {
    forall|i: int, j: int| 0 <= i < j < g.len() ==> g[i].key != g[j].key
}

/// The position of the entry with key `k` in `g` at or after `i`, or -1
/// if there is none.
pub open spec fn find_key_from(g: Seq<EntryModel>, k: Seq<char>, i: int) -> int
    decreases g.len() - i,
{
    if i < 0 || i >= g.len() {
        -1
    } else if g[i].key == k {
        i
    } else {
        find_key_from(g, k, i + 1)
    }
}

proof fn lemma_find_key_from(g: Seq<EntryModel>, k: Seq<char>, i: int)
    requires
        0 <= i <= g.len(),
    ensures
        find_key_from(g, k, i) == -1 || (i <= find_key_from(g, k, i) < g.len() && g[find_key_from(
            g,
            k,
            i,
        )].key == k),
        find_key_from(g, k, i) == -1 ==> forall|j: int|
            i <= j < g.len() ==> (#[trigger] g[j]).key != k,
    decreases g.len() - i,
{
    if i < g.len() && g[i].key != k {
        lemma_find_key_from(g, k, i + 1);
    }
}

/// An insertion-ordered mapping from option name to optional value.
///
/// Inserting an existing key replaces its value in place; inserting a
/// new key appends it at the back.
pub struct ConfigOptionGroup {
    options: Vec<(String, Option<String>)>,
}

impl View for ConfigOptionGroup {
    type V = Seq<EntryModel>;

    closed spec fn view(&self) -> Seq<EntryModel> {
        self.options@.map_values(|e: (String, Option<String>)| entry_model(e))
    }
}

/// Whether the characters of `a` and `b` coincide.
fn str_eq(a: &str, b: &str) -> (r: bool)
    ensures
        r == (a@ == b@),
{
    let n = a.unicode_len();
    if n != b.unicode_len() {
        proof {
            assert(a@ != b@);
        }
        return false;
    }
    let mut i: usize = 0;
    while i < n
        invariant
            0 <= i <= n,
            n == a@.len() == b@.len(),
            forall|j: int| 0 <= j < i ==> a@[j] == b@[j],
        decreases n - i,
    {
        if a.get_char(i) != b.get_char(i) {
            proof {
                assert(a@ != b@);
            }
            return false;
        }
        i = i + 1;
    }
    proof {
        assert(a@ =~= b@);
    }
    true
}

impl ConfigOptionGroup {
    /// Whether the group's key-uniqueness invariant holds.
    pub open spec fn wf(&self) -> bool {
        keys_unique(self@)
    }

    /// Create an empty option group.
    pub fn new() -> (r: ConfigOptionGroup)
        ensures
            r@ == Seq::<EntryModel>::empty(),
            r.wf(),
    {
        ConfigOptionGroup { options: Vec::new() }
    }

    /// The number of options in the group.
    pub fn len(&self) -> (r: usize)
        ensures
            r == self@.len(),
    {
        self.options.len()
    }

    /// The entry at position `i` in insertion order.
    pub fn get_index(&self, i: usize) -> (r: &(String, Option<String>))
        requires
            i < self@.len(),
        ensures
            entry_model(*r) == self@[i as int],
    {
        &self.options[i]
    }

    /// Look up the value stored under `key`.
    pub fn get(&self, key: &str) -> (r: Option<&Option<String>>)
        ensures
            find_key_from(self@, key@, 0) >= 0 ==> (r matches Some(v) && opt_view(*v)
                == self@[find_key_from(self@, key@, 0)].value),
            find_key_from(self@, key@, 0) == -1 ==> r is None,
    {
        proof {
            lemma_find_key_from(self@, key@, 0);
        }
        let mut i: usize = 0;
        while i < self.options.len()
            invariant
                0 <= i <= self@.len(),
                self@.len() == self.options@.len(),
                find_key_from(self@, key@, 0) == find_key_from(self@, key@, i as int),
                forall|t: int| 0 <= t < self@.len() ==> self@[t] == entry_model(self.options@[t]),
            decreases self@.len() - i,
        {
            if str_eq(self.options[i].0.as_str(), key) {
                proof {
                    assert(self@[i as int].key == key@);
                    assert(find_key_from(self@, key@, i as int) == i);
                }
                return Some(&self.options[i].1);
            }
            i = i + 1;
        }
        proof {
            assert(find_key_from(self@, key@, i as int) == -1);
        }
        None
    }

    /// Whether an option named `key` is present.
    pub fn contains_key(&self, key: &str) -> (r: bool)
        ensures
            r == (find_key_from(self@, key@, 0) >= 0),
    {
        proof {
            lemma_find_key_from(self@, key@, 0);
        }
        match self.get(key) {
            Some(_) => true,
            None => false,
        }
    }

    /// Store `value` under `key`: replace the value in place when the key
    /// exists, append the pair at the back otherwise.
    pub fn insert(&mut self, key: String, value: Option<String>)
        requires
            old(self).wf(),
        ensures
            final(self).wf(),
            ({
                let j = find_key_from(old(self)@, key@, 0);
                if j >= 0 {
                    final(self)@ == old(self)@.update(
                        j,
                        EntryModel { key: key@, value: opt_view(value) },
                    )
                } else {
                    final(self)@ == old(self)@.push(
                        EntryModel { key: key@, value: opt_view(value) },
                    )
                }
            }),
    {
        proof {
            lemma_find_key_from(self@, key@, 0);
        }
        let mut i: usize = 0;
        while i < self.options.len()
            invariant
                0 <= i <= self@.len(),
                self@ == old(self)@,
                self@.len() == self.options@.len(),
                keys_unique(self@),
                find_key_from(self@, key@, 0) == find_key_from(self@, key@, i as int),
                forall|t: int| 0 <= t < self@.len() ==> self@[t] == entry_model(self.options@[t]),
            decreases self@.len() - i,
        {
            if str_eq(self.options[i].0.as_str(), key.as_str()) {
                let ghost before = self@;
                proof {
                    assert(before[i as int].key == key@);
                    assert(find_key_from(before, key@, i as int) == i);
                }
                self.options[i] = (key, value);
                proof {
                    assert(self@ =~= before.update(
                        i as int,
                        EntryModel { key: key@, value: opt_view(value) },
                    ));
                    assert forall|p: int, q: int| 0 <= p < q < self@.len() implies self@[p].key
                        != self@[q].key by {
                        assert(before[p].key != before[q].key);
                        assert(before[i as int].key == key@);
                    }
                }
                return ;
            }
            i = i + 1;
        }
        let ghost before = self@;
        proof {
            assert(find_key_from(before, key@, i as int) == -1);
        }
        self.options.push((key, value));
        proof {
            assert(self@ =~= before.push(EntryModel { key: key@, value: opt_view(value) }));
            lemma_find_key_from(before, key@, 0);
            assert forall|p: int, q: int| 0 <= p < q < self@.len() implies self@[p].key
                != self@[q].key by {
                if q < before.len() {
                    assert(before[p].key != before[q].key);
                } else {
                    assert(before[p].key != key@);
                }
            }
        }
    }
}

/// The result of merging one override entry into `g`.
pub open spec fn merge_entry(g: Seq<EntryModel>, e: EntryModel) -> Seq<EntryModel> {
    let j = find_key_from(g, e.key, 0);
    if j >= 0 {
        g.update(j, e)
    } else {
        g.push(e)
    }
}

/// The result of merging the override entries `over` into `g`, first to
/// last: each override replaces an existing option's value in place or
/// appends a new option, and never removes one.
pub open spec fn merge_groups(g: Seq<EntryModel>, over: Seq<EntryModel>) -> Seq<EntryModel>
    decreases over.len(),
{
    if over.len() == 0 {
        g
    } else {
        merge_entry(merge_groups(g, over.drop_last()), over.last())
    }
}

impl ConfigOptionGroup {
    /// Merge `overrides` into this group, entry by entry in insertion
    /// order: override values replace existing ones per option, and no
    /// option of this group is ever removed.
    pub fn override_options(&mut self, overrides: ConfigOptionGroup)
        requires
            old(self).wf(),
        ensures
            final(self).wf(),
            final(self)@ == merge_groups(old(self)@, overrides@),
    {
        let ghost base = self@;
        let ghost over = overrides@;
        let mut entries = overrides.options;
        let mut rev: Vec<(String, Option<String>)> = Vec::new();
        while entries.len() > 0
            invariant
                rev@.len() + entries@.len() == over.len(),
                forall|t: int|
                    0 <= t < entries@.len() ==> entry_model(#[trigger] entries@[t]) == over[t],
                forall|t: int|
                    0 <= t < rev@.len() ==> entry_model(#[trigger] rev@[t]) == over[over.len() - 1
                        - t],
            decreases entries@.len(),
        {
            let e = entries.pop().unwrap();
            rev.push(e);
        }
        let mut i: usize = rev.len();
        while i > 0
            invariant
                0 <= i <= over.len(),
                rev@.len() == i,
                forall|t: int|
                    0 <= t < rev@.len() ==> entry_model(#[trigger] rev@[t]) == over[over.len() - 1
                        - t],
                self.wf(),
                self@ == merge_groups(base, over.take(over.len() - i)),
            decreases i,
        {
            i = i - 1;
            let e = rev.pop().unwrap();
            let ghost k = over.len() - (i as int) - 1;
            proof {
                assert(entry_model(e) == over[k]);
            }
            self.insert(e.0, e.1);
            proof {
                assert(over.take(k + 1).drop_last() =~= over.take(k));
                assert(over.take(k + 1).last() == over[k]);
                assert(self@ == merge_groups(base, over.take(k + 1)));
            }
        }
        proof {
            assert(over.take(over.len() as int) =~= over);
        }
    }
}

/// The state of a [`Config`] as seen by specifications: one option group
/// per compartment kind.
pub ghost struct ConfigModel {
    pub undefined: Seq<EntryModel>,
    pub soma: Seq<EntryModel>,
    pub axon: Seq<EntryModel>,
    pub dendrite: Seq<EntryModel>,
    pub apicaldendrite: Seq<EntryModel>,
    pub custom: Seq<EntryModel>,
}

/// The group of `m` that belongs to `kind`.
pub open spec fn config_group(m: ConfigModel, kind: SWCCompartmentKind) -> Seq<EntryModel> {
    match kind {
        SWCCompartmentKind::Undefined => m.undefined,
        SWCCompartmentKind::Soma => m.soma,
        SWCCompartmentKind::Axon => m.axon,
        SWCCompartmentKind::Dendrite => m.dendrite,
        SWCCompartmentKind::ApicalDendrite => m.apicaldendrite,
        SWCCompartmentKind::Custom => m.custom,
    }
}

/// Replace the group of `m` that belongs to `kind`.
pub open spec fn config_with_group(
    m: ConfigModel,
    kind: SWCCompartmentKind,
    g: Seq<EntryModel>,
) -> ConfigModel {
    match kind {
        SWCCompartmentKind::Undefined => ConfigModel { undefined: g, ..m },
        SWCCompartmentKind::Soma => ConfigModel { soma: g, ..m },
        SWCCompartmentKind::Axon => ConfigModel { axon: g, ..m },
        SWCCompartmentKind::Dendrite => ConfigModel { dendrite: g, ..m },
        SWCCompartmentKind::ApicalDendrite => ConfigModel { apicaldendrite: g, ..m },
        SWCCompartmentKind::Custom => ConfigModel { custom: g, ..m },
    }
}

/// Per-kind style options: one ordered option group for each of the six
/// compartment kinds, keyed by the kind's lowercase name.
pub struct Config {
    undefined: ConfigOptionGroup,
    soma: ConfigOptionGroup,
    axon: ConfigOptionGroup,
    dendrite: ConfigOptionGroup,
    apicaldendrite: ConfigOptionGroup,
    custom: ConfigOptionGroup,
}

impl View for Config {
    type V = ConfigModel;

    closed spec fn view(&self) -> ConfigModel {
        ConfigModel {
            undefined: self.undefined@,
            soma: self.soma@,
            axon: self.axon@,
            dendrite: self.dendrite@,
            apicaldendrite: self.apicaldendrite@,
            custom: self.custom@,
        }
    }
}

impl Config {
    /// Whether every group's key-uniqueness invariant holds.
    pub open spec fn wf(&self) -> bool {
        &&& keys_unique(self@.undefined)
        &&& keys_unique(self@.soma)
        &&& keys_unique(self@.axon)
        &&& keys_unique(self@.dendrite)
        &&& keys_unique(self@.apicaldendrite)
        &&& keys_unique(self@.custom)
    }

    /// Create a configuration with an empty option group for every kind.
    pub fn new() -> (r: Config)
        ensures
            r.wf(),
            forall|kind: SWCCompartmentKind|
                #[trigger] config_group(r@, kind) == Seq::<EntryModel>::empty(),
    {
        Config {
            undefined: ConfigOptionGroup::new(),
            soma: ConfigOptionGroup::new(),
            axon: ConfigOptionGroup::new(),
            dendrite: ConfigOptionGroup::new(),
            apicaldendrite: ConfigOptionGroup::new(),
            custom: ConfigOptionGroup::new(),
        }
    }

    /// The style options of the given kind.
    pub fn get_config(&self, kind: SWCCompartmentKind) -> (r: &ConfigOptionGroup)
        ensures
            r@ == config_group(self@, kind),
    {
        match kind {
            SWCCompartmentKind::Undefined => &self.undefined,
            SWCCompartmentKind::Soma => &self.soma,
            SWCCompartmentKind::Axon => &self.axon,
            SWCCompartmentKind::Dendrite => &self.dendrite,
            SWCCompartmentKind::ApicalDendrite => &self.apicaldendrite,
            SWCCompartmentKind::Custom => &self.custom,
        }
    }

    /// Merge `overrides` into the group of the given kind; the other
    /// groups are untouched.
    pub fn override_group(&mut self, kind: SWCCompartmentKind, overrides: ConfigOptionGroup)
        requires
            old(self).wf(),
        ensures
            final(self).wf(),
            final(self)@ == config_with_group(
                old(self)@,
                kind,
                merge_groups(config_group(old(self)@, kind), overrides@),
            ),
    {
        match kind {
            SWCCompartmentKind::Undefined => self.undefined.override_options(overrides),
            SWCCompartmentKind::Soma => self.soma.override_options(overrides),
            SWCCompartmentKind::Axon => self.axon.override_options(overrides),
            SWCCompartmentKind::Dendrite => self.dendrite.override_options(overrides),
            SWCCompartmentKind::ApicalDendrite => self.apicaldendrite.override_options(overrides),
            SWCCompartmentKind::Custom => self.custom.override_options(overrides),
        }
    }
}

/// An error raised while reading a style-configuration document.
#[derive(Debug)]
pub enum YamlParseError {
    /// A YAML node is not the expected variant: the document or a group
    /// is not a hash, an option name is not a string, or a value is not
    /// scalar.
    WrongType(String),
    /// A YAML node does not exist.
    BadValue,
    /// The text could not be read or parsed as YAML.
    FileRead(String),
}

/// A YAML value reduced to what the configuration reads: an absent
/// value, scalar text, or something of another shape.
pub enum YamlScalar {
    /// An explicit YAML null: the option is present without a value.
    Null,
    /// Scalar text: strings, numbers and booleans keep their source
    /// text.
    Text(String),
    /// An array, hash, alias or invalid node: not usable as an option
    /// value.
    Other,
}

/// Relies on `yaml_rust::YamlLoader::load_from_str`: parses YAML text
/// into its stream of documents, or fails on a scan error.
#[verifier::external_body]
fn load_yaml_docs(source: &str) -> Option<Vec<Yaml>> {
    YamlLoader::load_from_str(source).ok()
}

/// Relies on `yaml_rust::Yaml::as_hash`: returns the hash payload of a
/// `Yaml::Hash` node and nothing for every other variant.
#[verifier::external_body]
fn yaml_as_hash(y: &Yaml) -> Option<LinkedHashMap<Yaml, Yaml>> {
    match y.as_hash() {
        Some(h) => Some(h.clone()),
        None => None,
    }
}

/// Relies on `linked_hash_map::LinkedHashMap::get`, looking the key up
/// as a YAML string node (the form in which the kind keys are parsed).
#[verifier::external_body]
fn hash_get_str_key(h: &LinkedHashMap<Yaml, Yaml>, key: &str) -> Option<Yaml> {
    match h.get(&Yaml::String(key.to_owned())) {
        Some(v) => Some(v.clone()),
        None => None,
    }
}

/// Relies on `linked_hash_map::LinkedHashMap::iter`: hands out the
/// entries of the hash in their insertion order.
#[verifier::external_body]
fn hash_entries(h: &LinkedHashMap<Yaml, Yaml>) -> Vec<(Yaml, Yaml)> {
    h.iter().map(|(k, v)| (k.clone(), v.clone())).collect()
}

/// Relies on `yaml_rust::Yaml::as_str`: returns the text of a
/// `Yaml::String` node and nothing for every other variant.
#[verifier::external_body]
fn yaml_key_string(k: &Yaml) -> Option<String> {
    match k.as_str() {
        Some(s) => Some(s.to_owned()),
        None => None,
    }
}

/// Relies on the variants of `yaml_rust::Yaml`: nulls stay absent;
/// strings, reals (stored by the crate as their source text), integers
/// and booleans become their text; everything else is of another shape.
#[verifier::external_body]
fn yaml_scalar_value(v: &Yaml) -> YamlScalar {
    match v {
        Yaml::Null => YamlScalar::Null,
        Yaml::String(s) => YamlScalar::Text(s.clone()),
        Yaml::Real(s) => YamlScalar::Text(s.clone()),
        Yaml::Integer(i) => YamlScalar::Text(i.to_string()),
        Yaml::Boolean(b) => YamlScalar::Text(b.to_string()),
        Yaml::Array(_) => YamlScalar::Other,
        Yaml::Hash(_) => YamlScalar::Other,
        Yaml::Alias(_) => YamlScalar::Other,
        Yaml::BadValue => YamlScalar::Other,
    }
}

/// Build an option group from ready option pairs, first to last: a
/// repeated name replaces the earlier value in place, a new name is
/// appended.
pub fn group_from_entries(items: Vec<(String, Option<String>)>) -> (r: ConfigOptionGroup)
    ensures
        r.wf(),
        r@ == merge_groups(
            Seq::<EntryModel>::empty(),
            items@.map_values(|e: (String, Option<String>)| entry_model(e)),
        ),
{
    let mut group = ConfigOptionGroup::new();
    group.override_options(ConfigOptionGroup { options: items });
    group
}

/// Parse the entries of a YAML hash into a `ConfigOptionGroup`.
///
/// Every option name must be a string and every value must be null (an
/// option without a value) or scalar (kept as its text); any other
/// shape is a structural error.
pub fn parse_config_entries(entries: &Vec<(Yaml, Yaml)>) -> (r: Result<
    ConfigOptionGroup,
    YamlParseError,
>)
    ensures
        r matches Ok(g) ==> g.wf(),
{
    let mut items: Vec<(String, Option<String>)> = Vec::new();
    let mut i: usize = 0;
    while i < entries.len()
        decreases entries@.len() - i,
    {
        let key: String = match yaml_key_string(&entries[i].0) {
            Some(k) => k,
            None => {
                return Err(
                    YamlParseError::WrongType(
                        String::from_str("expected option name to be a string"),
                    ),
                );
            },
        };
        let value: Option<String> = match yaml_scalar_value(&entries[i].1) {
            YamlScalar::Null => None,
            YamlScalar::Text(text) => Some(text),
            YamlScalar::Other => {
                let mut m = String::from_str("expected value of option ");
                m.append(key.as_str());
                m.append(" to be null or string-like");
                return Err(YamlParseError::WrongType(m));
            },
        };
        items.push((key, value));
        i = i + 1;
    }
    Ok(group_from_entries(items))
}

/// Build an option group from one YAML hash.
pub fn group_from_yaml_hash(h: &LinkedHashMap<Yaml, Yaml>) -> (r: Result<
    ConfigOptionGroup,
    YamlParseError,
>)
    ensures
        r matches Ok(g) ==> g.wf(),
{
    let entries = hash_entries(h);
    parse_config_entries(&entries)
}

impl Config {
    /// Merge one YAML override document into this configuration.
    ///
    /// The document must be a hash; for each kind whose lowercase key is
    /// present, the value must itself be a hash of options, which is
    /// merged into the kind's group (replacing per option, never
    /// removing). A kind absent from the document is left alone. The
    /// merge is fail-fast: a structural error aborts it, leaving the
    /// groups already merged in place.
    pub fn overload_from_str(&mut self, source: &str, source_name: &str) -> (r: Result<
        (),
        YamlParseError,
    >)
        requires
            old(self).wf(),
        ensures
            final(self).wf(),
            r is Ok ==> forall|kind: SWCCompartmentKind| exists|over: Seq<EntryModel>|
                config_group(final(self)@, kind) == merge_groups(
                    #[trigger] config_group(old(self)@, kind),
                    over,
                ),
    {
        let docs = match load_yaml_docs(source) {
            Some(docs) => docs,
            None => {
                let mut m = String::from_str("could not parse contents of configuration ");
                m.append(source_name);
                m.append(" as YAML");
                return Err(YamlParseError::FileRead(m));
            },
        };
        if docs.len() == 0 {
            let mut m = String::from_str("configuration ");
            m.append(source_name);
            m.append(" holds no YAML document");
            return Err(YamlParseError::FileRead(m));
        }
        let top_level_hash = match yaml_as_hash(&docs[0]) {
            Some(h) => h,
            None => {
                let mut m = String::from_str("expected contents of configuration ");
                m.append(source_name);
                m.append(" to be a hash");
                return Err(YamlParseError::WrongType(m));
            },
        };

        let ghost base = self@;
        let ghost mut overs: Seq<Seq<EntryModel>> = seq![
            Seq::<EntryModel>::empty(),
            Seq::<EntryModel>::empty(),
            Seq::<EntryModel>::empty(),
            Seq::<EntryModel>::empty(),
            Seq::<EntryModel>::empty(),
            Seq::<EntryModel>::empty(),
        ];
        let mut kinds = SWCCompartmentKindIterator::new();
        let mut step: usize = 0;
        while step < 6
            invariant
                kinds.kinds@ == kind_order(),
                kinds.ptr == step,
                0 <= step <= 6,
                self.wf(),
                overs.len() == 6,
                forall|t: int| step <= t < 6 ==> overs[t] == Seq::<EntryModel>::empty(),
                forall|t: int|
                    0 <= t < 6 ==> config_group(self@, kind_order()[t]) == (if t < step {
                        merge_groups(config_group(base, kind_order()[t]), overs[t])
                    } else {
                        config_group(base, kind_order()[t])
                    }),
            decreases 6 - step,
        {
            proof {
                assert(forall|t1: int, t2: int|
                    0 <= t1 < t2 < 6 ==> kind_order()[t1] != kind_order()[t2]);
            }
            let kind = kinds.next().unwrap();
            let key = kind.key();
            match hash_get_str_key(&top_level_hash, key.as_str()) {
                Some(group_yaml) => {
                    // The kind's section must itself be a hash of
                    // options.
                    let group_hash = match yaml_as_hash(&group_yaml) {
                        Some(h) => h,
                        None => {
                            let mut m = String::from_str("expected config group ");
                            m.append(key.as_str());
                            m.append(" in ");
                            m.append(source_name);
                            m.append(" to be a hash");
                            return Err(YamlParseError::WrongType(m));
                        },
                    };
                    let overrides = match group_from_yaml_hash(&group_hash) {
                        Ok(g) => g,
                        Err(e) => {
                            return Err(e);
                        },
                    };
                    proof {
                        overs = overs.update(step as int, overrides@);
                    }
                    self.override_group(kind, overrides);
                },
                None => {
                    // A kind left out of an override document is legal
                    // and leaves that kind's options alone.
                    proof {
                        assert(merge_groups(
                            config_group(base, kind_order()[step as int]),
                            Seq::<EntryModel>::empty(),
                        ) == config_group(base, kind_order()[step as int]));
                    }
                },
            }
            step = step + 1;
        }
        proof {
            assert forall|kind: SWCCompartmentKind| exists|over: Seq<EntryModel>|
                config_group(self@, kind) == merge_groups(
                    #[trigger] config_group(base, kind),
                    over,
                ) by {
                let t: int = match kind {
                    SWCCompartmentKind::Undefined => 0,
                    SWCCompartmentKind::Soma => 1,
                    SWCCompartmentKind::Axon => 2,
                    SWCCompartmentKind::Dendrite => 3,
                    SWCCompartmentKind::ApicalDendrite => 4,
                    SWCCompartmentKind::Custom => 5,
                };
                assert(kind_order()[t] == kind);
                assert(config_group(self@, kind) == merge_groups(
                    config_group(base, kind),
                    overs[t],
                ));
            }
        }
        Ok(())
    }
}

/// Merging never removes an option: every option name present before a
/// merge is still present afterwards.
pub proof fn lemma_merge_keeps_options(g: Seq<EntryModel>, over: Seq<EntryModel>, k: Seq<char>)
    requires
        find_key_from(g, k, 0) >= 0,
    ensures
        find_key_from(merge_groups(g, over), k, 0) >= 0,
    decreases over.len(),
{
    if over.len() > 0 {
        lemma_merge_keeps_options(g, over.drop_last(), k);
        let before = merge_groups(g, over.drop_last());
        lemma_find_key_from(before, k, 0);
        let j = find_key_from(before, k, 0);
        let e = over.last();
        let m = merge_entry(before, e);
        lemma_find_key_from(m, k, 0);
        if find_key_from(m, k, 0) == -1 {
            lemma_find_key_from(before, e.key, 0);
            let u = find_key_from(before, e.key, 0);
            if u >= 0 {
                if u == j {
                    assert(m[j].key == e.key);
                } else {
                    assert(m[j].key == k);
                }
            } else {
                assert(m[j].key == k);
            }
        }
    }
}

} // verus!
