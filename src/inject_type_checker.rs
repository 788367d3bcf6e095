//! Type-checker injection: what the rule derives from parameter annotations,
//! and its configuration.
use vstd::prelude::*;
use crate::nodes::{Block, Expression, FunctionCall, SCall, SExpression, SType, Type};
use crate::rules::RulePropertyValue;
use crate::rules::{
    Context, PropertyKind, RuleConfigurationError, RuleProperties, configuration_error, last_bool,
    last_string, properties_view, schema_view, strs_view, bool_property, string_property,
    validate_properties,
};
use crate::runtime_variable::{RuntimeVariableBuilder, has_name_placeholder};
use crate::text::same_text;

verus! {

/// Builds the call that reports a failed check.
pub struct ErrorCallBuilder {
    pub name: String,
    pub message_format: String,
}

impl ErrorCallBuilder {
    /// `<name>("<message_format>")`: the message format is passed as it is.
    pub fn build(&self, index: usize, name: &str, expected_type: &str, actual_type: &str) -> (r: FunctionCall)
        ensures
            r.view() == (SCall {
                prefix: Box::new(SExpression::Identifier(self.name@)),
                method: None,
                arguments: seq![SExpression::String(self.message_format@)],
            }),
    {
        let argument = Expression::String(self.message_format.clone());
        let ghost av = argument.view();
        let r = FunctionCall {
            prefix: Box::new(Expression::Identifier(self.name.clone())),
            method: None,
            arguments: vec![argument],
        };
        assert(r.view().arguments =~= seq![av]);
        r
    }
}

pub open spec fn name_of(name: Seq<char>, optional: bool) -> (Seq<char>, bool) {
    (name, optional)
}

pub open spec fn is_builtin_type_name(n: Seq<char>) -> bool {
    n == "nil"@ || n == "string"@ || n == "number"@ || n == "boolean"@ || n == "thread"@ || n == "buffer"@
}

pub open spec fn as_optional(s: Seq<(Seq<char>, bool)>) -> Seq<(Seq<char>, bool)> {
    Seq::new(s.len(), |i: int| (s[i].0, true))
}

pub open spec fn or_empty(o: Option<Seq<(Seq<char>, bool)>>) -> Seq<(Seq<char>, bool)> {
    match o {
        Some(s) => s,
        None => seq![],
    }
}

/// The runtime type names that a value of an annotated type may have, each
/// with whether nil is allowed too; `None` where they cannot be told.
pub open spec fn possible_type_names(t: SType) -> Option<Seq<(Seq<char>, bool)>>
    decreases t,
{
    match t {
        SType::Array(_) => Some(seq![name_of("table"@, false)]),
        SType::False => Some(seq![name_of("boolean"@, false)]),
        SType::Function => Some(seq![name_of("function"@, false)]),
        SType::Intersection(l, r) => {
            let names = or_empty(possible_type_names(*l)) + or_empty(possible_type_names(*r));
            if names.len() > 0 && forall|i: int| 0 <= i < names.len() ==> #[trigger] names[i] == names[0] {
                Some(seq![names[0]])
            } else {
                None
            }
        },
        SType::Name(n) => if is_builtin_type_name(n) { Some(seq![name_of(n, false)]) } else { None },
        SType::Nil => Some(seq![name_of("nil"@, false)]),
        SType::Optional(inner) => match possible_type_names(*inner) {
            Some(names) => Some(as_optional(names)),
            None => None,
        },
        SType::Parenthese(inner) => possible_type_names(*inner),
        SType::String(_) => Some(seq![name_of("nil"@, false)]),
        SType::Table => Some(seq![name_of("table"@, false)]),
        SType::True => Some(seq![name_of("boolean"@, false)]),
        SType::Union(l, r) => {
            let names = or_empty(possible_type_names(*l)) + or_empty(possible_type_names(*r));
            if names.len() == 0 { None } else { Some(names) }
        },
        SType::Field { .. } => None,
    }
}

pub open spec fn names_view(v: Seq<(String, bool)>) -> Seq<(Seq<char>, bool)> {
    Seq::new(v.len(), |i: int| (v[i].0@, v[i].1))
}

fn single(name: &str, optional: bool) -> (r: Vec<(String, bool)>)
    ensures
        names_view(r@) == seq![name_of(name@, optional)],
{
    let r = vec![(name.to_owned(), optional)];
    assert(names_view(r@) =~= seq![name_of(name@, optional)]);
    r
}

fn append_names(out: &mut Vec<(String, bool)>, names: Option<Vec<(String, bool)>>)
    ensures
        names_view(final(out)@) == names_view(old(out)@) + match names {
            Some(v) => names_view(v@),
            None => seq![],
        },
{
    match names {
        Some(v) => {
            let ghost start = names_view(out@);
            let mut i: usize = 0;
            while i < v.len()
                invariant
                    i <= v@.len(),
                    names_view(out@) == start + names_view(v@).take(i as int),
                decreases v@.len() - i,
            {
                let item = (v[i].0.clone(), v[i].1);
                let ghost before = out@;
                out.push(item);
                assert(names_view(out@) =~= names_view(before).push((v@[i as int].0@, v@[i as int].1)));
                assert(names_view(v@).take(i + 1) =~= names_view(v@).take(i as int).push((v@[i as int].0@, v@[i as int].1)));
                assert(names_view(out@) =~= start + names_view(v@).take(i + 1));
                i += 1;
            }
            assert(names_view(v@).take(v@.len() as int) =~= names_view(v@));
        },
        None => {
            assert(names_view(out@) =~= names_view(out@) + seq![]);
        },
    }
}

/// The runtime type names of an annotation, as `possible_type_names` says.
pub fn get_possible_type_names(t: &Type) -> (r: Option<Vec<(String, bool)>>)
    ensures
        match r {
            Some(v) => Some(names_view(v@)),
            None => None::<Seq<(Seq<char>, bool)>>,
        } == possible_type_names(t.view()),
    decreases t,
{
    match t {
        Type::Array(_) => Some(single("table", false)),
        Type::False => Some(single("boolean", false)),
        Type::Function => Some(single("function", false)),
        Type::Intersection(l, r) => {
            let mut names: Vec<(String, bool)> = Vec::new();
            append_names(&mut names, get_possible_type_names(l));
            append_names(&mut names, get_possible_type_names(r));
            let ghost nv = names_view(names@);
            assert(nv =~= or_empty(possible_type_names(l.view())) + or_empty(possible_type_names(r.view())));
            if names.len() == 0 {
                return None;
            }
            let mut all_same = true;
            let mut i: usize = 0;
            while i < names.len()
                invariant
                    i <= names@.len(),
                    names@.len() > 0,
                    nv == names_view(names@),
                    all_same == forall|j: int| 0 <= j < i ==> #[trigger] nv[j] == nv[0],
                decreases names@.len() - i,
            {
                if !(names[i].1 == names[0].1 && same_text(names[i].0.as_str(), names[0].0.as_str())) {
                    assert(nv[i as int] != nv[0]);
                    all_same = false;
                }
                i += 1;
            }
            if all_same {
                let first = (names[0].0.clone(), names[0].1);
                let r = vec![first];
                assert(names_view(r@) =~= seq![nv[0]]);
                Some(r)
            } else {
                None
            }
        },
        Type::Name(n) => {
            let builtin = same_text(n.as_str(), "nil") || same_text(n.as_str(), "string")
                || same_text(n.as_str(), "number") || same_text(n.as_str(), "boolean")
                || same_text(n.as_str(), "thread") || same_text(n.as_str(), "buffer");
            if builtin {
                Some(single(n.as_str(), false))
            } else {
                None
            }
        },
        Type::Nil => Some(single("nil", false)),
        Type::Optional(inner) => match get_possible_type_names(inner) {
            Some(names) => {
                let mut out: Vec<(String, bool)> = Vec::new();
                let mut i: usize = 0;
                while i < names.len()
                    invariant
                        i <= names@.len(),
                        names_view(out@) == as_optional(names_view(names@)).take(i as int),
                    decreases names@.len() - i,
                {
                    let ghost before = out@;
                    out.push((names[i].0.clone(), true));
                    assert(names_view(out@) =~= names_view(before).push((names@[i as int].0@, true)));
                    assert(names_view(out@) =~= as_optional(names_view(names@)).take(i + 1));
                    i += 1;
                }
                assert(as_optional(names_view(names@)).take(names@.len() as int) =~= as_optional(names_view(names@)));
                Some(out)
            },
            None => None,
        },
        Type::Parenthese(inner) => get_possible_type_names(inner),
        Type::String(_) => Some(single("nil", false)),
        Type::Table => Some(single("table", false)),
        Type::True => Some(single("boolean", false)),
        Type::Union(l, r) => {
            let mut names: Vec<(String, bool)> = Vec::new();
            append_names(&mut names, get_possible_type_names(l));
            append_names(&mut names, get_possible_type_names(r));
            assert(names_view(names@) =~= or_empty(possible_type_names(l.view())) + or_empty(possible_type_names(r.view())));
            if names.len() == 0 { None } else { Some(names) }
        },
        Type::Field { .. } => None,
    }
}

// ----- the rule -----

pub const INJECT_TYPE_CHECKER_RULE_NAME: &'static str = "inject_type_checker";

/// Whether a regular expression compiles.
pub uninterp spec fn regex_accepts(pattern: Seq<char>) -> bool;

/// Relies on regex::Regex::new: whether a pattern compiles depends on the
/// pattern alone; the error's text is passed on.
#[verifier::external_body]
fn compile_pattern(pattern: &str) -> (r: Result<(), String>)
    ensures
        r is Ok <==> regex_accepts(pattern@),
{
    match regex::Regex::new(pattern) {
        Ok(_) => Ok(()),
        Err(e) => Err(e.to_string()),
    }
}

pub open spec fn type_checker_schema() -> Seq<(Seq<char>, PropertyKind)> {
    seq![
        ("error_call"@, PropertyKind::String),
        ("error_message_format"@, PropertyKind::String),
        ("return_errors"@, PropertyKind::Boolean),
        ("ignore_comment_pattern"@, PropertyKind::String),
        ("indexed_functions_only"@, PropertyKind::Boolean),
        ("strict"@, PropertyKind::Boolean),
        ("ignore_local_functions"@, PropertyKind::Boolean),
        ("runtime_identifier"@, PropertyKind::String),
    ]
}

/// The last string given for `key`, if any, else `current`.
pub open spec fn last_optional_string(
    p: Seq<(String, RulePropertyValue)>,
    key: Seq<char>,
    current: Option<Seq<char>>,
) -> Option<Seq<char>>
    decreases p.len(),
{
    if p.len() == 0 {
        current
    } else {
        let next = match p[0].1 {
            RulePropertyValue::String(s) => if p[0].0@ == key { Some(s@) } else { current },
            _ => current,
        };
        last_optional_string(p.skip(1), key, next)
    }
}

pub open spec fn optional_view(o: Option<String>) -> Option<Seq<char>> {
    match o {
        Some(s) => Some(s@),
        None => None,
    }
}

fn optional_string_property(properties: &RuleProperties, key: &str, current: Option<String>) -> (r: Option<String>)
    ensures
        optional_view(r) == last_optional_string(properties@, key@, optional_view(current)),
{
    let mut value = current;
    let mut i: usize = 0;
    assert(properties@.skip(0) =~= properties@);
    while i < properties.len()
        invariant
            i <= properties@.len(),
            last_optional_string(properties@.skip(i as int), key@, optional_view(value))
                == last_optional_string(properties@, key@, optional_view(current)),
        decreases properties@.len() - i,
    {
        assert(properties@.skip(i as int).skip(1) =~= properties@.skip(i + 1));
        match &properties[i].1 {
            RulePropertyValue::String(s) => {
                if same_text(properties[i].0.as_str(), key) {
                    value = Some(s.clone());
                }
            },
            _ => {},
        }
        i += 1;
    }
    value
}

/// A rule that injects type checks in function statements.
#[derive(Debug, PartialEq)]
pub struct InjectTypeChecker {
    pub error_call: String,
    pub error_message_format: String,
    pub return_errors: bool,
    pub ignore_comment_pattern: Option<String>,
    pub indexed_functions_only: bool,
    pub strict: bool,
    pub runtime_identifier_format: String,
    pub ignore_local_functions: bool,
}

impl InjectTypeChecker {
    pub fn new() -> (r: Self)
        ensures
            r.error_call@ == "error"@,
            r.error_message_format@ == "invalid argument #{index} to '{name}' ({expected_type} expected, got {actual_type})"@,
            !r.return_errors && !r.indexed_functions_only && !r.strict && !r.ignore_local_functions,
            r.ignore_comment_pattern is None,
            r.runtime_identifier_format@ == "__DARKLUA_INJECT_TYPE_CHECKER_{name}{hash}"@,
    {
        InjectTypeChecker {
            error_call: "error".to_owned(),
            error_message_format: "invalid argument #{index} to '{name}' ({expected_type} expected, got {actual_type})".to_owned(),
            return_errors: false,
            ignore_comment_pattern: None,
            indexed_functions_only: false,
            strict: false,
            runtime_identifier_format: "__DARKLUA_INJECT_TYPE_CHECKER_{name}{hash}".to_owned(),
            ignore_local_functions: false,
        }
    }

    pub fn get_name(&self) -> (r: &'static str)
        ensures
            r@ == INJECT_TYPE_CHECKER_RULE_NAME@,
    {
        INJECT_TYPE_CHECKER_RULE_NAME
    }

    /// The properties that differ from the defaults: none are reported.
    pub fn serialize_to_properties(&self) -> (r: RuleProperties)
        ensures
            r@.len() == 0,
    {
        Vec::new()
    }

    /// Checks the whole list first; then each property sets its field, the
    /// last one given for a key winning.
    pub fn configure(&mut self, properties: RuleProperties) -> (r: Result<(), RuleConfigurationError>)
        ensures
            match configuration_error(properties_view(properties@), type_checker_schema(), seq![]) {
                None => r is Ok
                    && final(self).error_call@ == last_string(properties@, "error_call"@, old(self).error_call@)
                    && final(self).error_message_format@ == last_string(
                        properties@,
                        "error_message_format"@,
                        old(self).error_message_format@,
                    )
                    && final(self).return_errors == last_bool(properties@, "return_errors"@, old(self).return_errors)
                    && optional_view(final(self).ignore_comment_pattern) == last_optional_string(
                        properties@,
                        "ignore_comment_pattern"@,
                        optional_view(old(self).ignore_comment_pattern),
                    )
                    && final(self).indexed_functions_only == last_bool(
                        properties@,
                        "indexed_functions_only"@,
                        old(self).indexed_functions_only,
                    )
                    && final(self).strict == last_bool(properties@, "strict"@, old(self).strict)
                    && final(self).ignore_local_functions == last_bool(
                        properties@,
                        "ignore_local_functions"@,
                        old(self).ignore_local_functions,
                    )
                    && final(self).runtime_identifier_format@ == last_string(
                        properties@,
                        "runtime_identifier"@,
                        old(self).runtime_identifier_format@,
                    ),
                Some(e) => r matches Err(x) && x.view() == e && *final(self) == *old(self),
            },
    {
        let schema = vec![
            ("error_call", PropertyKind::String),
            ("error_message_format", PropertyKind::String),
            ("return_errors", PropertyKind::Boolean),
            ("ignore_comment_pattern", PropertyKind::String),
            ("indexed_functions_only", PropertyKind::Boolean),
            ("strict", PropertyKind::Boolean),
            ("ignore_local_functions", PropertyKind::Boolean),
            ("runtime_identifier", PropertyKind::String),
        ];
        assert(schema_view(schema@) =~= type_checker_schema());
        let required: Vec<&str> = Vec::new();
        assert(strs_view(required@) =~= seq![]);
        match validate_properties(&properties, &schema, &required) {
            Err(e) => Err(e),
            Ok(()) => {
                self.error_call = string_property(&properties, "error_call", self.error_call.clone());
                self.error_message_format = string_property(
                    &properties,
                    "error_message_format",
                    self.error_message_format.clone(),
                );
                self.return_errors = bool_property(&properties, "return_errors", self.return_errors);
                let pattern = match &self.ignore_comment_pattern {
                    Some(p) => Some(p.clone()),
                    None => None,
                };
                self.ignore_comment_pattern = optional_string_property(&properties, "ignore_comment_pattern", pattern);
                self.indexed_functions_only = bool_property(&properties, "indexed_functions_only", self.indexed_functions_only);
                self.strict = bool_property(&properties, "strict", self.strict);
                self.ignore_local_functions = bool_property(&properties, "ignore_local_functions", self.ignore_local_functions);
                self.runtime_identifier_format = string_property(
                    &properties,
                    "runtime_identifier",
                    self.runtime_identifier_format.clone(),
                );
                Ok(())
            },
        }
    }

    /// Checks the configuration against a file: the ignore pattern, if any,
    /// must be a valid regular expression, and the identifier format must hold
    /// `{name}`. The block is left as it is.
    pub fn process(&self, block: &mut Block, context: &Context) -> (r: Result<(), String>)
        ensures
            r is Ok <==> match self.ignore_comment_pattern {
                Some(p) => regex_accepts(p@),
                None => true,
            } && has_name_placeholder(self.runtime_identifier_format@),
            *final(block) == *old(block),
    {
        match &self.ignore_comment_pattern {
            Some(pattern) => match compile_pattern(pattern.as_str()) {
                Ok(()) => {},
                Err(e) => return Err(e),
            },
            None => {},
        }
        let builder = match RuntimeVariableBuilder::new(
            self.runtime_identifier_format.as_str(),
            context.original_code.as_slice(),
            Vec::new(),
        ) {
            Ok(b) => b,
            Err(e) => return Err(e),
        };
        match builder.build("t") {
            Ok(_) => Ok(()),
            Err(e) => Err(e),
        }
    }
}

impl Default for InjectTypeChecker {
    fn default() -> (r: Self)
        ensures
            r.error_call@ == "error"@,
            r.ignore_comment_pattern is None,
            r.runtime_identifier_format@ == "__DARKLUA_INJECT_TYPE_CHECKER_{name}{hash}"@,
    {
        Self::new()
    }
}

} // verus!
