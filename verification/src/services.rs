use vstd::prelude::*;
use vstd::string::*;

verus! {

/// The mathematical content of a parsed TOML value, as far as this
/// library reads one: strings, arrays and tables are modeled; every
/// other kind of value is opaque.
pub enum TomlNode {
    Str(Seq<char>),
    Arr(Seq<TomlNode>),
    Tab(Map<Seq<char>, TomlNode>),
    Other,
}

/// What the TOML parser yields for a document: its model, or nothing
/// when the text is not well-formed TOML. The result is a function of
/// the text alone.
pub uninterp spec fn toml_document(s: Seq<char>) -> Option<TomlNode>;

/// The model of one parsed TOML value.
pub uninterp spec fn toml_value_model(v: toml::Value) -> TomlNode;

#[verifier::external_type_specification]
#[verifier::external_body]
pub struct ExTomlValue(toml::Value);

/// Relies on toml::from_str: parses a TOML document into a value, whose
/// top level is always a table; rejects text that is not well-formed
/// TOML (including tables with duplicate keys).
#[verifier::external_body]
fn parse_toml(s: &str) -> (r: Option<toml::Value>)
    ensures
        r is Some <==> toml_document(s@) is Some,
        r matches Some(v) ==> toml_document(s@) == Some(toml_value_model(v)),
        r matches Some(v) ==> toml_value_model(v) is Tab,
{
    toml::from_str::<toml::Value>(s).ok()
}

/// Relies on toml::Value::as_str: hands out the string of a string
/// value, and nothing for any other kind of value.
#[verifier::external_body]
fn toml_as_str<'a>(v: &'a toml::Value) -> (r: Option<&'a str>)
    ensures
        r is Some <==> toml_value_model(*v) is Str,
        r matches Some(s) ==> toml_value_model(*v) == TomlNode::Str(s@),
{
    v.as_str()
}

/// Relies on toml::Value::as_array: hands out the elements of an array
/// value, in order, and nothing for any other kind of value.
#[verifier::external_body]
fn toml_as_array<'a>(v: &'a toml::Value) -> (r: Option<&'a Vec<toml::Value>>)
    ensures
        r is Some <==> toml_value_model(*v) is Arr,
        r matches Some(a) ==> toml_value_model(*v) == TomlNode::Arr(
            Seq::new(a@.len(), |i: int| toml_value_model(a@[i])),
        ),
{
    v.as_array()
}

/// Relies on toml::Value::get: looks a key up in a table value; absent
/// keys, and values that are not tables, yield nothing.
#[verifier::external_body]
fn toml_get<'a>(v: &'a toml::Value, key: &str) -> (r: Option<&'a toml::Value>)
    ensures
        toml_value_model(*v) matches TomlNode::Tab(m) ==> {
            &&& (r is Some <==> m.dom().contains(key@))
            &&& (r matches Some(x) ==> m.dom().contains(key@) && toml_value_model(*x)
                == m[key@])
        },
        !(toml_value_model(*v) is Tab) ==> r is None,
{
    v.get(key)
}

/// Relies on toml::Value::as_table and toml::map::Map::iter: hands out
/// the entries of a table value, each key once, covering the whole
/// table, and nothing for any other kind of value.
#[verifier::external_body]
fn toml_table_entries(v: &toml::Value) -> (r: Option<Vec<(String, toml::Value)>>)
    ensures
        r is Some <==> toml_value_model(*v) is Tab,
        r matches Some(entries) ==> toml_value_model(*v) matches TomlNode::Tab(m) && {
            &&& forall|i: int| 0 <= i < entries@.len() ==> m.dom().contains(
                #[trigger] entries@[i].0@,
            ) && m[entries@[i].0@] == toml_value_model(entries@[i].1)
            &&& forall|i: int, j: int| 0 <= i < j < entries@.len() ==> entries@[i].0@
                != entries@[j].0@
            &&& forall|k: Seq<char>| m.dom().contains(k) ==> exists|i: int| 0 <= i
                < entries@.len() && (#[trigger] entries@[i].0@) == k
        },
{
    v.as_table().map(|t| t.iter().map(|(k, val)| (k.clone(), val.clone())).collect())
}

/// The string a string node carries; meaningful only for string nodes.
pub open spec fn str_of(n: TomlNode) -> Seq<char> {
    match n {
        TomlNode::Str(s) => s,
        _ => Seq::empty(),
    }
}

/// Whether every node of a sequence is a string node.
pub open spec fn all_strings(items: Seq<TomlNode>) -> bool {
    forall|i: int| 0 <= i < items.len() ==> (#[trigger] items[i]) is Str
}

/// The strings of a sequence of string nodes, in order.
pub open spec fn string_views(items: Seq<TomlNode>) -> Seq<Seq<char>> {
    Seq::new(items.len(), |i: int| str_of(items[i]))
}

/// A sequence with later repetitions of its elements removed: each
/// element once, at its first position's rank.
pub open spec fn spec_dedup(s: Seq<Seq<char>>) -> Seq<Seq<char>>
    decreases s.len(),
{
    if s.len() == 0 {
        Seq::empty()
    } else if s.drop_last().contains(s.last()) {
        spec_dedup(s.drop_last())
    } else {
        spec_dedup(s.drop_last()).push(s.last())
    }
}

/// A deduplicated sequence holds exactly the elements it was built from.
pub proof fn lemma_dedup_membership(s: Seq<Seq<char>>)
    ensures
        forall|x: Seq<char>| #[trigger] spec_dedup(s).contains(x) <==> s.contains(x),
    decreases s.len(),
{
    if s.len() > 0 {
        let dl = s.drop_last();
        lemma_dedup_membership(dl);
        assert forall|x: Seq<char>| s.contains(x) implies #[trigger] spec_dedup(s).contains(x) by {
            let i = choose|i: int| 0 <= i < s.len() && s[i] == x;
            if i < s.len() - 1 {
                assert(dl[i] == x);
                assert(dl.contains(x));
                assert(spec_dedup(dl).contains(x));
                let j = choose|j: int| 0 <= j < spec_dedup(dl).len() && spec_dedup(dl)[j] == x;
                if dl.contains(s.last()) {
                    assert(spec_dedup(s)[j] == x);
                } else {
                    assert(spec_dedup(s)[j] == x);
                }
            } else {
                assert(s.last() == x);
                if dl.contains(s.last()) {
                    assert(spec_dedup(dl).contains(x));
                    let j = choose|j: int| 0 <= j < spec_dedup(dl).len() && spec_dedup(dl)[j] == x;
                    assert(spec_dedup(s)[j] == x);
                } else {
                    assert(spec_dedup(s)[spec_dedup(s).len() - 1] == x);
                }
            }
        }
        assert forall|x: Seq<char>| #[trigger] spec_dedup(s).contains(x) implies s.contains(x) by {
            let j = choose|j: int| 0 <= j < spec_dedup(s).len() && spec_dedup(s)[j] == x;
            if dl.contains(s.last()) {
                assert(spec_dedup(s) == spec_dedup(dl));
                assert(spec_dedup(dl).contains(x));
                assert(dl.contains(x));
                let i = choose|i: int| 0 <= i < dl.len() && dl[i] == x;
                assert(s[i] == x);
            } else {
                if j < spec_dedup(s).len() - 1 {
                    assert(spec_dedup(dl)[j] == x);
                    assert(spec_dedup(dl).contains(x));
                    assert(dl.contains(x));
                    let i = choose|i: int| 0 <= i < dl.len() && dl[i] == x;
                    assert(s[i] == x);
                } else {
                    assert(s[s.len() - 1] == x);
                }
            }
        }
    }
}

/// The map a sequence of key-value pairs builds up, later pairs winning.
pub open spec fn pairs_to_map(s: Seq<(Seq<char>, Seq<char>)>) -> Map<Seq<char>, Seq<char>>
    decreases s.len(),
{
    if s.len() == 0 {
        Map::empty()
    } else {
        pairs_to_map(s.drop_last()).insert(s.last().0, s.last().1)
    }
}

/// What the built-up map holds: exactly the pairs' keys; a key that no
/// later pair repeats is mapped to its pair's value.
pub proof fn lemma_pairs_to_map_membership(s: Seq<(Seq<char>, Seq<char>)>)
    ensures
        forall|k: Seq<char>| #[trigger] pairs_to_map(s).dom().contains(k) <==> exists|i: int|
            0 <= i < s.len() && (#[trigger] s[i].0) == k,
        forall|i: int| #![trigger s[i].0] 0 <= i < s.len()
            && (forall|j: int| i < j < s.len() ==> s[j].0 != s[i].0)
            ==> pairs_to_map(s).dom().contains(s[i].0) && pairs_to_map(s)[s[i].0] == s[i].1,
    decreases s.len(),
{
    if s.len() > 0 {
        let dl = s.drop_last();
        lemma_pairs_to_map_membership(dl);
        assert forall|k: Seq<char>| #[trigger] pairs_to_map(s).dom().contains(k) implies
            exists|i: int| 0 <= i < s.len() && (#[trigger] s[i].0) == k by {
            if k == s.last().0 {
                assert(s[s.len() - 1].0 == k);
            } else {
                assert(pairs_to_map(dl).dom().contains(k));
                let i = choose|i: int| 0 <= i < dl.len() && (#[trigger] dl[i].0) == k;
                assert(s[i].0 == k);
            }
        }
        assert forall|k: Seq<char>| (exists|i: int| 0 <= i < s.len() && (#[trigger] s[i].0) == k)
            implies #[trigger] pairs_to_map(s).dom().contains(k) by {
            let i = choose|i: int| 0 <= i < s.len() && s[i].0 == k;
            if i < s.len() - 1 {
                assert(dl[i].0 == k);
                assert(pairs_to_map(dl).dom().contains(k));
            } else {
                assert(k == s.last().0);
            }
        }
        assert forall|i: int| #![trigger s[i].0] 0 <= i < s.len()
            && (forall|j: int| i < j < s.len() ==> s[j].0 != s[i].0)
            implies pairs_to_map(s).dom().contains(s[i].0) && pairs_to_map(s)[s[i].0]
            == s[i].1 by {
            if i == s.len() - 1 {
                assert(pairs_to_map(s)[s.last().0] == s.last().1);
            } else {
                assert(dl[i].0 == s[i].0 && dl[i].1 == s[i].1);
                assert(forall|j: int| i < j < dl.len() ==> (#[trigger] dl[j].0) != dl[i].0) by {
                    assert(forall|j: int| i < j < dl.len() ==> (#[trigger] dl[j].0) == s[j].0);
                }
                assert(pairs_to_map(dl).dom().contains(dl[i].0) && pairs_to_map(dl)[dl[i].0]
                    == dl[i].1);
                assert(s[s.len() - 1].0 != s[i].0);
            }
        }
    }
}


/// The elements of an array node; meaningful only for array nodes.
pub open spec fn arr_items(n: TomlNode) -> Seq<TomlNode> {
    match n {
        TomlNode::Arr(items) => items,
        _ => Seq::empty(),
    }
}

/// The entries of a table node; meaningful only for table nodes.
pub open spec fn tab_entries(n: TomlNode) -> Map<Seq<char>, TomlNode> {
    match n {
        TomlNode::Tab(m) => m,
        _ => Map::empty(),
    }
}

/// Whether every value of a table is a string node.
pub open spec fn all_string_values(u: Map<Seq<char>, TomlNode>) -> bool {
    forall|k: Seq<char>| u.dom().contains(k) ==> (#[trigger] u[k]) is Str
}

/// The strings of a table whose values are all strings.
pub open spec fn table_strings(u: Map<Seq<char>, TomlNode>) -> Map<Seq<char>, Seq<char>> {
    Map::new(|k: Seq<char>| u.dom().contains(k), |k: Seq<char>| str_of(u[k]))
}

/// The mathematical content of a services definition: the set of
/// enabled service names (kept in first-occurrence order, each name
/// once), when an enabled-services list is given at all, and the table
/// of user services, name to artifact location.
pub struct EjbAppServicesView {
    pub enabled_services: Option<Seq<Seq<char>>>,
    pub user_services: Map<Seq<char>, Seq<char>>,
}

/// The services definition a TOML document describes, or nothing when
/// the document does not have the expected shape: an optional
/// `enabled_services` array of strings, and a mandatory `user_services`
/// table of strings. Other keys are ignored.
pub open spec fn spec_services_of_doc(doc: TomlNode) -> Option<EjbAppServicesView> {
    match doc {
        TomlNode::Tab(m) => {
            let enabled_ok = !m.dom().contains("enabled_services"@) || ((
            m["enabled_services"@]) matches TomlNode::Arr(items) && all_strings(items));
            let users_ok = m.dom().contains("user_services"@) && ((
            m["user_services"@]) matches TomlNode::Tab(u) && all_string_values(u));
            if enabled_ok && users_ok {
                Some(EjbAppServicesView {
                    enabled_services: if m.dom().contains("enabled_services"@) {
                        Some(spec_dedup(string_views(arr_items(m["enabled_services"@]))))
                    } else {
                        None
                    },
                    user_services: table_strings(tab_entries(m["user_services"@])),
                })
            } else {
                None
            }
        },
        _ => None,
    }
}

/// Whether a text is a well-formed services definition.
pub open spec fn spec_valid_services_config(s: Seq<char>) -> bool {
    toml_document(s) matches Some(doc) && spec_services_of_doc(doc) is Some
}

/// The services definition a well-formed text describes.
pub open spec fn spec_loaded_services(s: Seq<char>) -> EjbAppServicesView {
    match toml_document(s) {
        Some(doc) => match spec_services_of_doc(doc) {
            Some(v) => v,
            None => EjbAppServicesView { enabled_services: None, user_services: Map::empty() },
        },
        None => EjbAppServicesView { enabled_services: None, user_services: Map::empty() },
    }
}

/// The services the application runs: the names of standard services to
/// enable, when given, and the user services, each with the location of
/// its artifact.
pub struct EjbAppServices {
    pub enabled_services: Option<Vec<String>>,
    pub user_services: Vec<(String, String)>,
}

impl View for EjbAppServices {
    type V = EjbAppServicesView;

    open spec fn view(&self) -> EjbAppServicesView {
        EjbAppServicesView {
            enabled_services: match self.enabled_services {
                Some(v) => Some(v.deep_view()),
                None => None,
            },
            user_services: pairs_to_map(
                Seq::new(
                    self.user_services@.len(),
                    |i: int| (self.user_services@[i].0@, self.user_services@[i].1@),
                ),
            ),
        }
    }
}

impl EjbAppServices {
    /// Whether the given name stands among the enabled services.
    pub fn contains_enabled(&self, service_name: &str) -> (r: bool)
        ensures
            r == (self@.enabled_services matches Some(e) && e.contains(service_name@)),
    {
        match &self.enabled_services {
            Some(names) => contains_str(names, service_name),
            None => false,
        }
    }
}

/// The error of a text that is not a well-formed services definition.
#[derive(Debug, PartialEq, Eq, Structural, Clone, Copy)]
pub struct ServicesDefinitionError;

fn str_equal(a: &str, b: &str) -> (r: bool)
    ensures
        r == (a@ == b@),
{
    let a_len = a.unicode_len();
    let b_len = b.unicode_len();
    if a_len != b_len {
        return false;
    }
    for i in 0..a_len
        invariant
            a_len == a@.len(),
            b_len == b@.len(),
            a_len == b_len,
            forall|j: int| 0 <= j < i ==> a@[j] == b@[j],
    {
        if a.get_char(i) != b.get_char(i) {
            return false;
        }
    }
    proof {
        assert(a@ =~= b@);
    }
    true
}

fn contains_str(v: &Vec<String>, s: &str) -> (r: bool)
    ensures
        r == v.deep_view().contains(s@),
{
    let n = v.len();
    for i in 0..n
        invariant
            n == v@.len(),
            forall|j: int| 0 <= j < i ==> v.deep_view()[j] != s@,
    {
        if str_equal(v[i].as_str(), s) {
            proof {
                assert(v.deep_view()[i as int] == s@);
            }
            return true;
        }
        proof {
            assert(v.deep_view()[i as int] == v@[i as int]@);
        }
    }
    false
}

fn clone_string(s: &String) -> (r: String)
    ensures
        r@ == s@,
{
    s.clone()
}

/// Reads a services definition out of its configuration text: the
/// optional list of enabled services, deduplicated, and the table of
/// user services. A text that is not well-formed TOML, or whose shape is
/// not a services definition, is rejected.
pub fn load_services_definition(config: &str) -> (r: Result<EjbAppServices, ServicesDefinitionError>)
    ensures
        r is Ok <==> spec_valid_services_config(config@),
        r matches Ok(services) ==> services@ == spec_loaded_services(config@),
{
    let parsed = match parse_toml(config) {
        Some(v) => v,
        None => {
            return Err(ServicesDefinitionError);
        },
    };
    let ghost m = tab_entries(toml_value_model(parsed));
    proof {
        assert(toml_value_model(parsed) matches TomlNode::Tab(mm) && mm == m);
    }
    let enabled_services: Option<Vec<String>> = match toml_get(&parsed, "enabled_services") {
        None => None,
        Some(enabled_value) => {
            let arr = match toml_as_array(enabled_value) {
                Some(a) => a,
                None => {
                    return Err(ServicesDefinitionError);
                },
            };
            let ghost items = arr_items(m["enabled_services"@]);
            proof {
                assert(items =~= Seq::new(arr@.len(), |i: int| toml_value_model(arr@[i])));
            }
            let mut names: Vec<String> = Vec::new();
            let n = arr.len();
            for i in 0..n
                invariant
                    toml_document(config@) == Some(toml_value_model(parsed)),
                    toml_value_model(parsed) == TomlNode::Tab(m),
                    m.dom().contains("enabled_services"@),
                    m["enabled_services"@] == TomlNode::Arr(items),
                    n == arr@.len(),
                    items.len() == n,
                    forall|j: int| 0 <= j < n ==> items[j] == toml_value_model(arr@[j]),
                    forall|j: int| 0 <= j < i ==> (#[trigger] items[j]) is Str,
                    names.deep_view() == spec_dedup(string_views(items.take(i as int))),
            {
                let item_str = match toml_as_str(&arr[i]) {
                    Some(s) => s,
                    None => {
                        proof {
                            assert(items[i as int] == toml_value_model(arr@[i as int]));
                            assert(!(items[i as int] is Str));
                            assert(m["enabled_services"@] == TomlNode::Arr(items));
                            assert(!all_strings(items));
                            assert(spec_services_of_doc(toml_value_model(parsed)) is None);
                        }
                        return Err(ServicesDefinitionError);
                    },
                };
                let ghost prefix = string_views(items.take(i as int));
                proof {
                    lemma_dedup_membership(prefix);
                    assert(string_views(items.take(i + 1)).drop_last() =~= prefix);
                    assert(string_views(items.take(i + 1)).last() == item_str@);
                }
                if !contains_str(&names, item_str) {
                    proof {
                        assert(!prefix.contains(item_str@));
                    }
                    names.push(item_str.to_owned());
                    proof {
                        assert(names.deep_view() =~= spec_dedup(string_views(items.take(i + 1))));
                    }
                } else {
                    proof {
                        assert(prefix.contains(item_str@));
                        assert(names.deep_view() =~= spec_dedup(string_views(items.take(i + 1))));
                    }
                }
            }
            proof {
                assert(items.take(n as int) =~= items);
            }
            Some(names)
        },
    };
    let users_value = match toml_get(&parsed, "user_services") {
        Some(u) => u,
        None => {
            return Err(ServicesDefinitionError);
        },
    };
    let entries = match toml_table_entries(users_value) {
        Some(e) => e,
        None => {
            return Err(ServicesDefinitionError);
        },
    };
    let ghost u = tab_entries(m["user_services"@]);
    proof {
        assert(toml_value_model(*users_value) matches TomlNode::Tab(uu) && uu == u);
    }
    let mut user_services: Vec<(String, String)> = Vec::new();
    let n = entries.len();
    let mut i: usize = 0;
    while i < n
        invariant
            i <= n,
            toml_document(config@) == Some(toml_value_model(parsed)),
            toml_value_model(parsed) == TomlNode::Tab(m),
            m.dom().contains("user_services"@),
            m["user_services"@] == TomlNode::Tab(u),
            n == entries@.len(),
            forall|j: int| 0 <= j < n ==> u.dom().contains(#[trigger] entries@[j].0@)
                && u[entries@[j].0@] == toml_value_model(entries@[j].1),
            forall|j: int, k: int| 0 <= j < k < n ==> entries@[j].0@ != entries@[k].0@,
            forall|k: Seq<char>| u.dom().contains(k) ==> exists|j: int| 0 <= j < n
                && (#[trigger] entries@[j].0@) == k,
            forall|j: int| 0 <= j < i ==> (#[trigger] u[entries@[j].0@]) is Str,
            user_services@.len() == i,
            forall|j: int| 0 <= j < i ==> (#[trigger] user_services@[j].0@) == entries@[j].0@
                && user_services@[j].1@ == str_of(u[entries@[j].0@]),
        decreases n - i,
    {
        let value_str = match toml_as_str(&entries[i].1) {
            Some(s) => s,
            None => {
                proof {
                    assert(u[entries@[i as int].0@] == toml_value_model(entries@[i as int].1));
                    assert(!(u[entries@[i as int].0@] is Str));
                    assert(m["user_services"@] == TomlNode::Tab(u));
                    assert(!all_string_values(u));
                    assert(spec_services_of_doc(toml_value_model(parsed)) is None);
                }
                return Err(ServicesDefinitionError);
            },
        };
        let entry_name = clone_string(&entries[i].0);
        let entry_value = value_str.to_owned();
        proof {
            assert(u[entries@[i as int].0@] == TomlNode::Str(value_str@));
            assert(str_of(u[entries@[i as int].0@]) == value_str@);
        }
        let ghost prev = user_services@;
        user_services.push((entry_name, entry_value));
        proof {
            assert forall|j: int| 0 <= j < i + 1 implies (#[trigger] user_services@[j].0@)
                == entries@[j].0@ && user_services@[j].1@ == str_of(u[entries@[j].0@]) by {
                if j < i as int {
                    assert(user_services@[j] == prev[j]);
                } else {
                    assert(user_services@[j] == (entry_name, entry_value));
                }
            }
        }
        i = i + 1;
    }
    let services = EjbAppServices { enabled_services, user_services };
    proof {
        assert forall|k: Seq<char>| u.dom().contains(k) implies (#[trigger] u[k]) is Str by {
            let j = choose|j: int| 0 <= j < n && (#[trigger] entries@[j].0@) == k;
            assert(u[entries@[j].0@] is Str);
        }
        assert(all_string_values(u));
        let pairs = Seq::new(
            services.user_services@.len(),
            |i: int| (services.user_services@[i].0@, services.user_services@[i].1@),
        );
        lemma_pairs_to_map_membership(pairs);
        assert forall|k: Seq<char>| #[trigger] pairs_to_map(pairs).dom().contains(k) implies
            table_strings(u).dom().contains(k) && pairs_to_map(pairs)[k] == table_strings(u)[k] by {
            let j = choose|j: int| 0 <= j < pairs.len() && (#[trigger] pairs[j].0) == k;
            assert(pairs[j].0 == entries@[j].0@);
            assert(u.dom().contains(k));
            assert(forall|l: int| j < l < pairs.len() ==> (#[trigger] pairs[l].0) != pairs[j].0);
            assert(pairs_to_map(pairs)[pairs[j].0] == pairs[j].1);
        }
        assert forall|k: Seq<char>| table_strings(u).dom().contains(k) implies
            pairs_to_map(pairs).dom().contains(k) by {
            let j = choose|j: int| 0 <= j < n && (#[trigger] entries@[j].0@) == k;
            assert(pairs[j].0 == k);
        }
        assert(pairs_to_map(pairs) =~= table_strings(u));
        assert(services@ == spec_loaded_services(config@));
    }
    Ok(services)
}

/// Whether a particular service name is defined among the enabled
/// services of a well-formed services definition text.
pub fn is_service_enabled_in_config_file(service_name: &str, config: &str) -> (r: bool)
    requires
        spec_valid_services_config(config@),
    ensures
        r == (spec_loaded_services(config@).enabled_services matches Some(e)
            && e.contains(service_name@)),
{
    match load_services_definition(config) {
        Ok(services) => services.contains_enabled(service_name),
        Err(_) => {
            proof {
                assert(false);
            }
            false
        },
    }
}

/// Like `is_service_enabled_in_config_file`, for a text that may not be
/// well formed: answers nothing for such a text instead of requiring
/// well-formedness.
pub fn service_enabled_in_config(service_name: &str, config: &str) -> (r: Option<bool>)
    ensures
        r is Some <==> spec_valid_services_config(config@),
        r matches Some(b) ==> b == (spec_loaded_services(config@).enabled_services matches Some(e)
            && e.contains(service_name@)),
{
    match load_services_definition(config) {
        Ok(_) => Some(is_service_enabled_in_config_file(service_name, config)),
        Err(_) => None,
    }
}

} // verus!
