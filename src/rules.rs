//! What every rule shares: its configuration from a list of properties, the
//! errors of that configuration, and the context a rule runs in.
use vstd::prelude::*;
use crate::text::{chars_of, push_chars, same_text, string_of};

verus! {

/// How a rule's libraries are required.
#[derive(Debug, Clone, Copy, PartialEq, Eq, Structural)]
pub enum RequireMode {
    Path,
    Roblox,
}

/// A library that a rule injects: a name, and the path it comes from, if any.
#[derive(Debug, Clone, PartialEq, Eq)]
pub struct Library {
    pub name: String,
    pub path: Option<String>,
    pub index: Option<String>,
}

/// A type that an injected type check recognises, with how to test it.
#[derive(Debug, Clone, PartialEq, Eq)]
pub struct TypecheckerType {
    pub identifier: String,
    pub method: Option<String>,
    pub call: Option<String>,
}

#[derive(Debug, Clone, PartialEq)]
pub enum RulePropertyValue {
    Boolean(bool),
    String(String),
    Usize(usize),
    StringList(Vec<String>),
    RequireMode(RequireMode),
    Libraries(Vec<Library>),
    TypecheckerTypes(Vec<TypecheckerType>),
}

#[derive(Debug, Clone, Copy, PartialEq, Eq, Structural)]
pub enum PropertyKind {
    Boolean,
    String,
    Usize,
    StringList,
    RequireMode,
    Libraries,
    TypecheckerTypes,
}

impl RulePropertyValue {
    pub open spec fn kind_spec(&self) -> PropertyKind {
        match self {
            RulePropertyValue::Boolean(_) => PropertyKind::Boolean,
            RulePropertyValue::String(_) => PropertyKind::String,
            RulePropertyValue::Usize(_) => PropertyKind::Usize,
            RulePropertyValue::StringList(_) => PropertyKind::StringList,
            RulePropertyValue::RequireMode(_) => PropertyKind::RequireMode,
            RulePropertyValue::Libraries(_) => PropertyKind::Libraries,
            RulePropertyValue::TypecheckerTypes(_) => PropertyKind::TypecheckerTypes,
        }
    }

    pub fn kind(&self) -> (r: PropertyKind)
        ensures
            r == self.kind_spec(),
    {
        match self {
            RulePropertyValue::Boolean(_) => PropertyKind::Boolean,
            RulePropertyValue::String(_) => PropertyKind::String,
            RulePropertyValue::Usize(_) => PropertyKind::Usize,
            RulePropertyValue::StringList(_) => PropertyKind::StringList,
            RulePropertyValue::RequireMode(_) => PropertyKind::RequireMode,
            RulePropertyValue::Libraries(_) => PropertyKind::Libraries,
            RulePropertyValue::TypecheckerTypes(_) => PropertyKind::TypecheckerTypes,
        }
    }
}

/// A rule's properties, in the order they were written.
pub type RuleProperties = Vec<(String, RulePropertyValue)>;

#[derive(Debug, Clone, PartialEq, Eq)]
pub enum RuleConfigurationError {
    /// A property that the rule does not know.
    UnexpectedProperty(String),
    /// A property that the rule requires and did not get.
    MissingProperty(String),
    /// A property whose value has another kind than the rule expects.
    UnexpectedValueType(String, PropertyKind),
}

/// A configuration error as a kind and the property it names.
pub enum ConfigErrorView {
    UnexpectedProperty(Seq<char>),
    MissingProperty(Seq<char>),
    UnexpectedValueType(Seq<char>, PropertyKind),
}

impl RuleConfigurationError {
    pub open spec fn view(&self) -> ConfigErrorView {
        match self {
            RuleConfigurationError::UnexpectedProperty(k) => ConfigErrorView::UnexpectedProperty(k@),
            RuleConfigurationError::MissingProperty(k) => ConfigErrorView::MissingProperty(k@),
            RuleConfigurationError::UnexpectedValueType(k, t) => ConfigErrorView::UnexpectedValueType(k@, *t),
        }
    }

    /// The property that the error names.
    pub fn property(&self) -> (r: &String)
        ensures
            r@ == match self.view() {
                ConfigErrorView::UnexpectedProperty(k) => k,
                ConfigErrorView::MissingProperty(k) => k,
                ConfigErrorView::UnexpectedValueType(k, _) => k,
            },
    {
        match self {
            RuleConfigurationError::UnexpectedProperty(k) => k,
            RuleConfigurationError::MissingProperty(k) => k,
            RuleConfigurationError::UnexpectedValueType(k, _) => k,
        }
    }
}

/// The human-readable text of a configuration error.
pub open spec fn error_message(e: ConfigErrorView) -> Seq<char> {
    match e {
        ConfigErrorView::UnexpectedProperty(k) => "unexpected field '"@ + k + "'"@,
        ConfigErrorView::MissingProperty(k) => "missing required field '"@ + k + "'"@,
        ConfigErrorView::UnexpectedValueType(k, _) => "unexpected type for field '"@ + k + "'"@,
    }
}

impl RuleConfigurationError {
    pub fn message(&self) -> (r: String)
        ensures
            r@ == error_message(self.view()),
    {
        let (mut text, key) = match self {
            RuleConfigurationError::UnexpectedProperty(k) => ("unexpected field '".to_owned(), k),
            RuleConfigurationError::MissingProperty(k) => ("missing required field '".to_owned(), k),
            RuleConfigurationError::UnexpectedValueType(k, _) => ("unexpected type for field '".to_owned(), k),
        };
        push_chars(&mut text, &chars_of(key.as_str()));
        push_chars(&mut text, &chars_of("'"));
        text
    }
}

/// The keys and kinds of a property list.
pub open spec fn properties_view(p: Seq<(String, RulePropertyValue)>) -> Seq<(Seq<char>, PropertyKind)> {
    Seq::new(p.len(), |i: int| (p[i].0@, p[i].1.kind_spec()))
}

/// The kind that a schema gives to a key, if it lists the key.
pub open spec fn schema_kind(schema: Seq<(Seq<char>, PropertyKind)>, key: Seq<char>) -> Option<PropertyKind>
    decreases schema.len(),
{
    if schema.len() == 0 {
        None
    } else if schema[0].0 == key {
        Some(schema[0].1)
    } else {
        schema_kind(schema.skip(1), key)
    }
}

pub open spec fn has_key(props: Seq<(Seq<char>, PropertyKind)>, key: Seq<char>) -> bool {
    exists|i: int| 0 <= i < props.len() && (#[trigger] props[i]).0 == key
}

/// The first required key that the properties lack, in the order of `required`.
pub open spec fn missing_key(props: Seq<(Seq<char>, PropertyKind)>, required: Seq<Seq<char>>) -> Option<Seq<char>>
    decreases required.len(),
{
    if required.len() == 0 {
        None
    } else if !has_key(props, required[0]) {
        Some(required[0])
    } else {
        missing_key(props, required.skip(1))
    }
}

/// The first property, in order, that the schema does not list or that has
/// another kind than the schema gives it.
pub open spec fn property_error(
    props: Seq<(Seq<char>, PropertyKind)>,
    schema: Seq<(Seq<char>, PropertyKind)>,
) -> Option<ConfigErrorView>
    decreases props.len(),
{
    if props.len() == 0 {
        None
    } else {
        match schema_kind(schema, props[0].0) {
            None => Some(ConfigErrorView::UnexpectedProperty(props[0].0)),
            Some(k) => if k != props[0].1 {
                Some(ConfigErrorView::UnexpectedValueType(props[0].0, k))
            } else {
                property_error(props.skip(1), schema)
            },
        }
    }
}

/// What a configuration fails with, if it fails: a missing required key first,
/// then the first property that does not fit the schema.
pub open spec fn configuration_error(
    props: Seq<(Seq<char>, PropertyKind)>,
    schema: Seq<(Seq<char>, PropertyKind)>,
    required: Seq<Seq<char>>,
) -> Option<ConfigErrorView> {
    match missing_key(props, required) {
        Some(k) => Some(ConfigErrorView::MissingProperty(k)),
        None => property_error(props, schema),
    }
}

pub open spec fn schema_view(schema: Seq<(&str, PropertyKind)>) -> Seq<(Seq<char>, PropertyKind)> {
    Seq::new(schema.len(), |i: int| (schema[i].0@, schema[i].1))
}

pub open spec fn strs_view(s: Seq<&str>) -> Seq<Seq<char>> {
    Seq::new(s.len(), |i: int| s[i]@)
}

fn schema_lookup(schema: &Vec<(&str, PropertyKind)>, key: &String) -> (r: Option<PropertyKind>)
    ensures
        r == schema_kind(schema_view(schema@), key@),
{
    let ghost sv = schema_view(schema@);
    let mut i: usize = 0;
    assert(sv.skip(0) =~= sv);
    while i < schema.len()
        invariant
            i <= schema@.len(),
            sv == schema_view(schema@),
            schema_kind(sv.skip(i as int), key@) == schema_kind(sv, key@),
        decreases schema@.len() - i,
    {
        assert(sv.skip(i as int).skip(1) =~= sv.skip(i + 1));
        if same_text(schema[i].0, key.as_str()) {
            assert(sv.skip(i as int)[0] == sv[i as int]);
            return Some(schema[i].1);
        }
        i += 1;
    }
    None
}

/// Checks a property list against a schema and a list of required keys,
/// without changing anything.
pub fn validate_properties(
    properties: &RuleProperties,
    schema: &Vec<(&str, PropertyKind)>,
    required: &Vec<&str>,
) -> (r: Result<(), RuleConfigurationError>)
    ensures
        match configuration_error(properties_view(properties@), schema_view(schema@), strs_view(required@)) {
            None => r is Ok,
            Some(e) => r matches Err(x) && x.view() == e,
        },
{
    let ghost pv = properties_view(properties@);
    let ghost sv = schema_view(schema@);
    let ghost rv = strs_view(required@);
    let mut j: usize = 0;
    assert(rv.skip(0) =~= rv);
    while j < required.len()
        invariant
            j <= required@.len(),
            pv == properties_view(properties@),
            rv == strs_view(required@),
            missing_key(pv, rv.skip(j as int)) == missing_key(pv, rv),
        decreases required@.len() - j,
    {
        assert(rv.skip(j as int).skip(1) =~= rv.skip(j + 1));
        let mut found = false;
        let mut i: usize = 0;
        while i < properties.len()
            invariant
                i <= properties@.len(),
                j < required@.len(),
                pv == properties_view(properties@),
                rv == strs_view(required@),
                found ==> has_key(pv, rv[j as int]),
                !found ==> forall|k: int| 0 <= k < i ==> (#[trigger] pv[k]).0 != rv[j as int],
            decreases properties@.len() - i,
        {
            if same_text(properties[i].0.as_str(), required[j]) {
                assert(pv[i as int].0 == rv[j as int]);
                found = true;
            }
            i += 1;
        }
        if !found {
            assert(!has_key(pv, rv[j as int]));
            assert(rv.skip(j as int)[0] == rv[j as int]);
            let key = string_of(&chars_of(required[j]));
            return Err(RuleConfigurationError::MissingProperty(key));
        }
        j += 1;
    }
    assert(rv.skip(j as int) =~= seq![]);
    let mut i: usize = 0;
    assert(pv.skip(0) =~= pv);
    while i < properties.len()
        invariant
            i <= properties@.len(),
            pv == properties_view(properties@),
            sv == schema_view(schema@),
            rv == strs_view(required@),
            missing_key(pv, rv) is None,
            property_error(pv.skip(i as int), sv) == configuration_error(pv, sv, rv),
        decreases properties@.len() - i,
    {
        assert(pv.skip(i as int).skip(1) =~= pv.skip(i + 1));
        assert(pv.skip(i as int)[0] == pv[i as int]);
        assert(pv[i as int] == (properties@[i as int].0@, properties@[i as int].1.kind_spec()));
        match schema_lookup(schema, &properties[i].0) {
            None => {
                assert(property_error(pv.skip(i as int), sv) == Some(
                    ConfigErrorView::UnexpectedProperty(properties@[i as int].0@),
                ));
                let key = properties[i].0.clone();
                assert(key@ == properties@[i as int].0@);
                return Err(RuleConfigurationError::UnexpectedProperty(key));
            },
            Some(kind) => {
                if kind != properties[i].1.kind() {
                    let key = properties[i].0.clone();
                    assert(key@ == properties@[i as int].0@);
                    return Err(RuleConfigurationError::UnexpectedValueType(key, kind));
                }
            },
        }
        i += 1;
    }
    Ok(())
}

/// The value of the last property named `key` when it is a string, else `current`.
pub open spec fn last_string(p: Seq<(String, RulePropertyValue)>, key: Seq<char>, current: Seq<char>) -> Seq<char>
    decreases p.len(),
{
    if p.len() == 0 {
        current
    } else {
        let next = match p[0].1 {
            RulePropertyValue::String(s) => if p[0].0@ == key { s@ } else { current },
            _ => current,
        };
        last_string(p.skip(1), key, next)
    }
}

/// The value of the last property named `key` when it is a boolean, else `current`.
pub open spec fn last_bool(p: Seq<(String, RulePropertyValue)>, key: Seq<char>, current: bool) -> bool
    decreases p.len(),
{
    if p.len() == 0 {
        current
    } else {
        let next = match p[0].1 {
            RulePropertyValue::Boolean(b) => if p[0].0@ == key { b } else { current },
            _ => current,
        };
        last_bool(p.skip(1), key, next)
    }
}

pub fn string_property(properties: &RuleProperties, key: &str, current: String) -> (r: String)
    ensures
        r@ == last_string(properties@, key@, current@),
{
    let mut value = current;
    let mut i: usize = 0;
    assert(properties@.skip(0) =~= properties@);
    while i < properties.len()
        invariant
            i <= properties@.len(),
            last_string(properties@.skip(i as int), key@, value@) == last_string(properties@, key@, current@),
        decreases properties@.len() - i,
    {
        assert(properties@.skip(i as int).skip(1) =~= properties@.skip(i + 1));
        match &properties[i].1 {
            RulePropertyValue::String(s) => {
                if same_text(properties[i].0.as_str(), key) {
                    value = s.clone();
                }
            },
            _ => {},
        }
        i += 1;
    }
    value
}

pub fn bool_property(properties: &RuleProperties, key: &str, current: bool) -> (r: bool)
    ensures
        r == last_bool(properties@, key@, current),
{
    let mut value = current;
    let mut i: usize = 0;
    assert(properties@.skip(0) =~= properties@);
    while i < properties.len()
        invariant
            i <= properties@.len(),
            last_bool(properties@.skip(i as int), key@, value) == last_bool(properties@, key@, current),
        decreases properties@.len() - i,
    {
        assert(properties@.skip(i as int).skip(1) =~= properties@.skip(i + 1));
        match &properties[i].1 {
            RulePropertyValue::Boolean(b) => {
                if same_text(properties[i].0.as_str(), key) {
                    value = *b;
                }
            },
            _ => {},
        }
        i += 1;
    }
    value
}

/// What a rule knows of the file it rewrites.
pub struct Context {
    /// The file's path, relative to the project.
    pub path: String,
    /// The project's root.
    pub project_location: String,
    /// The original source, used only to derive names.
    pub original_code: Vec<u8>,
}

proof fn lemma_property_error_at(
    props: Seq<(Seq<char>, PropertyKind)>,
    schema: Seq<(Seq<char>, PropertyKind)>,
    i: int,
    k: int,
)
    requires
        0 <= k <= i < props.len(),
        schema_kind(schema, props[i].0) is None,
        forall|j: int| 0 <= j < i ==> schema_kind(schema, (#[trigger] props[j]).0) == Some(props[j].1),
    ensures
        property_error(props.skip(k), schema) == Some(ConfigErrorView::UnexpectedProperty(props[i].0)),
    decreases i - k,
{
    assert(props.skip(k)[0] == props[k]);
    if k < i {
        assert(props.skip(k).skip(1) =~= props.skip(k + 1));
        lemma_property_error_at(props, schema, i, k + 1);
    }
}

/// A property that the rule does not know fails the configuration, and the
/// failure names exactly that property, when every property before it fits the
/// rule and no required property is missing. (Each rule's `configure` changes
/// nothing when it fails.)
pub proof fn unrecognized_property_is_named(
    props: Seq<(Seq<char>, PropertyKind)>,
    schema: Seq<(Seq<char>, PropertyKind)>,
    required: Seq<Seq<char>>,
    i: int,
)
    requires
        0 <= i < props.len(),
        schema_kind(schema, props[i].0) is None,
        forall|j: int| 0 <= j < i ==> schema_kind(schema, (#[trigger] props[j]).0) == Some(props[j].1),
        missing_key(props, required) is None,
    ensures
        configuration_error(props, schema, required) == Some(ConfigErrorView::UnexpectedProperty(props[i].0)),
{
    lemma_property_error_at(props, schema, i, 0);
    assert(props.skip(0) =~= props);
}

} // verus!
