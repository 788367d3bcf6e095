//! Library injection: the locals that bring injected libraries into a file,
//! the names of the copied library files, and the rule's configuration.
use vstd::prelude::*;
use crate::hashing::{short_hash, source_hash};
use crate::nodes::{
    Block, Expression, FunctionCall, SCall, SExpression, SStatement, STyped, Statement,
    TypedIdentifier,
};
use crate::rules::{
    Library, PropertyKind, RequireMode, RuleConfigurationError, RuleProperties, RulePropertyValue,
    configuration_error, last_bool, last_string, properties_view, schema_view, strs_view,
    bool_property, string_property, validate_properties,
};
use crate::text::{chars_of, push_chars, same_text};

verus! {

pub const INJECT_LIBRARIES_RULE_NAME: &'static str = "inject_libraries";

pub const DEFAULT_LIBRARIES_PATH: &'static str = "_DARKLUA_libs";

/// The name of a library's copy: its stem, then (unless hashing is off) the
/// hash of its original path, then its extension, if any.
pub open spec fn library_file_name_spec(
    stem: Seq<char>,
    extension: Option<Seq<char>>,
    path_bytes: Seq<u8>,
    no_hash: bool,
) -> Seq<char> {
    let hashed = stem + if no_hash { seq![] } else { source_hash(path_bytes) };
    match extension {
        Some(e) => hashed + seq!['.'] + e,
        None => hashed,
    }
}

pub fn library_file_name(stem: &str, extension: Option<&str>, path_bytes: &[u8], no_hash: bool) -> (r: String)
    ensures
        r@ == library_file_name_spec(
            stem@,
            match extension {
                Some(e) => Some(e@),
                None => None,
            },
            path_bytes@,
            no_hash,
        ),
{
    let mut name = stem.to_owned();
    if !no_hash {
        let hash = short_hash(path_bytes);
        push_chars(&mut name, &chars_of(hash.as_str()));
    }
    match extension {
        Some(e) => {
            crate::text::push_char(&mut name, '.');
            push_chars(&mut name, &chars_of(e));
        },
        None => {},
    }
    name
}

/// The path of `target` relative to `base`, as pathdiff computes it.
pub uninterp spec fn relative_path_of(target: Seq<char>, base: Seq<char>) -> Option<Seq<char>>;

/// Relies on pathdiff::diff_paths: the relative path from `base` to `target`,
/// computed from their components alone, or `None` where there is none.
#[verifier::external_body]
pub(crate) fn relative_path(target: &str, base: &str) -> (r: Option<String>)
    ensures
        match r {
            Some(s) => Some(s@),
            None => None::<Seq<char>>,
        } == relative_path_of(target@, base@),
{
    match pathdiff::diff_paths(target, base) {
        Some(p) => Some(p.to_string_lossy().into_owned()),
        None => None,
    }
}

/// The require path of a library copied to `library_path`, as seen from a
/// source file in `source_directory`: `None` where pathdiff finds none.
pub fn require_path_from(library_path: &str, source_directory: &str) -> (r: Option<String>)
    ensures
        match r {
            Some(s) => Some(s@),
            None => None::<Seq<char>>,
        } == relative_path_of(library_path@, source_directory@),
{
    relative_path(library_path, source_directory)
}

/// `local <name> = require("<path>")`, with `.<index>` after the call when an
/// index is given; `local <name> = nil` for a library without a path.
pub open spec fn library_local(name: Seq<char>, require_path: Option<Seq<char>>, index: Option<Seq<char>>) -> SStatement {
    let value = match require_path {
        Some(p) => {
            let call = SExpression::Call(SCall {
                prefix: Box::new(SExpression::Identifier("require"@)),
                method: None,
                arguments: seq![SExpression::String(p)],
            });
            match index {
                Some(i) => SExpression::Field { prefix: Box::new(call), field: i },
                None => call,
            }
        },
        None => SExpression::Nil,
    };
    SStatement::LocalAssign { variables: seq![STyped { name, type_annotation: None }], values: seq![value] }
}

pub fn library_statement(name: &str, require_path: Option<&str>, index: Option<&str>) -> (r: Statement)
    ensures
        r.view() == library_local(
            name@,
            match require_path {
                Some(p) => Some(p@),
                None => None,
            },
            match index {
                Some(i) => Some(i@),
                None => None,
            },
        ),
{
    let value = match require_path {
        Some(p) => {
            let argument = Expression::String(p.to_owned());
            let ghost av = argument.view();
            let require = Expression::Identifier("require".to_owned());
            assert(require.view() == SExpression::Identifier("require"@));
            let call = FunctionCall { prefix: Box::new(require), method: None, arguments: vec![argument] };
            assert(call.view().arguments =~= seq![av]);
            let ghost cv = call.view();
            let call = Expression::Call(call);
            assert(call.view() == SExpression::Call(cv));
            match index {
                Some(i) => {
                    let f = Expression::Field { prefix: Box::new(call), field: i.to_owned() };
                    assert(f.view() == SExpression::Field { prefix: Box::new(SExpression::Call(cv)), field: i@ });
                    f
                },
                None => call,
            }
        },
        None => Expression::Nil,
    };
    let ghost vv = value.view();
    let r = Statement::LocalAssign {
        variables: vec![TypedIdentifier { name: name.to_owned(), type_annotation: None }],
        values: vec![value],
    };
    assert(r.view()->LocalAssign_values =~= seq![vv]);
    assert(r.view()->LocalAssign_variables =~= seq![STyped { name: name@, type_annotation: None }]);
    r
}

/// Puts each local at the start of the block in turn, so the last one given
/// comes first.
pub fn insert_libraries(block: &mut Block, locals: Vec<Statement>)
    ensures
        final(block).statements@ == locals@.reverse() + old(block).statements@,
        final(block).last_statement == old(block).last_statement,
{
    let ghost all = locals@;
    let mut out: Vec<Statement> = Vec::new();
    let mut rest = locals;
    assert(rest@.reverse() =~= all.reverse());
    while rest.len() > 0
        invariant
            out@ + rest@.reverse() == all.reverse(),
        decreases rest@.len(),
    {
        let ghost before = rest@;
        match rest.pop() {
            Some(s) => {
                assert(before.reverse() =~= seq![s] + rest@.reverse());
                out.push(s);
                assert(out@ + rest@.reverse() =~= all.reverse());
            },
            None => {},
        }
    }
    assert(rest@.reverse() =~= seq![]);
    assert(out@ =~= all.reverse());
    let mut previous = Block { statements: Vec::new(), last_statement: None };
    std::mem::swap(&mut previous, block);
    let mut statements = previous.statements;
    out.append(&mut statements);
    *block = Block { statements: out, last_statement: previous.last_statement };
}

/// The properties the rule accepts.
pub open spec fn libraries_schema() -> Seq<(Seq<char>, PropertyKind)> {
    seq![
        ("require_mode"@, PropertyKind::RequireMode),
        ("libraries"@, PropertyKind::Libraries),
        ("path"@, PropertyKind::String),
        ("no_hash"@, PropertyKind::Boolean),
    ]
}

/// The properties the rule requires.
pub open spec fn libraries_required() -> Seq<Seq<char>> {
    seq!["require_mode"@, "libraries"@]
}

/// The value of the last `require_mode` property, if any, else `current`.
pub open spec fn last_require_mode(p: Seq<(String, RulePropertyValue)>, current: RequireMode) -> RequireMode
    decreases p.len(),
{
    if p.len() == 0 {
        current
    } else {
        match p.last().1 {
            RulePropertyValue::RequireMode(m) => if p.last().0@ == "require_mode"@ {
                m
            } else {
                last_require_mode(p.drop_last(), current)
            },
            _ => last_require_mode(p.drop_last(), current),
        }
    }
}

/// The value of the last `libraries` property, if any, else `current`.
pub open spec fn last_libraries(p: Seq<(String, RulePropertyValue)>, current: Vec<Library>) -> Vec<Library>
    decreases p.len(),
{
    if p.len() == 0 {
        current
    } else {
        match p.last().1 {
            RulePropertyValue::Libraries(l) => if p.last().0@ == "libraries"@ {
                l
            } else {
                last_libraries(p.drop_last(), current)
            },
            _ => last_libraries(p.drop_last(), current),
        }
    }
}

/// A rule that injects libraries at the start of each file.
#[derive(Debug, PartialEq, Eq)]
pub struct InjectLibraries {
    pub require_mode: RequireMode,
    pub libraries: Vec<Library>,
    pub path: String,
    pub no_hash: bool,
}

impl InjectLibraries {
    pub fn new() -> (r: Self)
        ensures
            r.require_mode == RequireMode::Path,
            r.libraries@.len() == 0,
            r.path@ == DEFAULT_LIBRARIES_PATH@,
            !r.no_hash,
    {
        InjectLibraries {
            require_mode: RequireMode::Path,
            libraries: Vec::new(),
            path: DEFAULT_LIBRARIES_PATH.to_owned(),
            no_hash: false,
        }
    }

    pub fn get_name(&self) -> (r: &'static str)
        ensures
            r@ == INJECT_LIBRARIES_RULE_NAME@,
    {
        INJECT_LIBRARIES_RULE_NAME
    }

    /// The properties that differ from the defaults: none are reported.
    pub fn serialize_to_properties(&self) -> (r: RuleProperties)
        ensures
            r@.len() == 0,
    {
        Vec::new()
    }

    /// Requires `require_mode` and `libraries`; checks the whole list first;
    /// then each property sets its field, the last one given for a key winning.
    pub fn configure(&mut self, properties: RuleProperties) -> (r: Result<(), RuleConfigurationError>)
        ensures
            match configuration_error(properties_view(properties@), libraries_schema(), libraries_required()) {
                None => r is Ok
                    && final(self).require_mode == last_require_mode(properties@, old(self).require_mode)
                    && final(self).libraries == last_libraries(properties@, old(self).libraries)
                    && final(self).path@ == last_string(properties@, "path"@, old(self).path@)
                    && final(self).no_hash == last_bool(properties@, "no_hash"@, old(self).no_hash),
                Some(e) => r matches Err(x) && x.view() == e && *final(self) == *old(self),
            },
    {
        let schema = vec![
            ("require_mode", PropertyKind::RequireMode),
            ("libraries", PropertyKind::Libraries),
            ("path", PropertyKind::String),
            ("no_hash", PropertyKind::Boolean),
        ];
        assert(schema_view(schema@) =~= libraries_schema());
        let required: Vec<&str> = vec!["require_mode", "libraries"];
        assert(strs_view(required@) =~= libraries_required());
        match validate_properties(&properties, &schema, &required) {
            Err(e) => Err(e),
            Ok(()) => {
                self.path = string_property(&properties, "path", self.path.clone());
                self.no_hash = bool_property(&properties, "no_hash", self.no_hash);
                let ghost all = properties@;
                let ghost start_mode = self.require_mode;
                let ghost start_libraries = self.libraries;
                let mut rest = properties;
                let mut mode_found = false;
                let mut libraries_found: Option<Vec<Library>> = None;
                while rest.len() > 0
                    invariant
                        !mode_found ==> last_require_mode(all, start_mode) == last_require_mode(rest@, start_mode),
                        mode_found ==> self.require_mode == last_require_mode(all, start_mode),
                        libraries_found is None ==> last_libraries(all, start_libraries) == last_libraries(rest@, start_libraries),
                        libraries_found matches Some(l) ==> l == last_libraries(all, start_libraries),
                        self.libraries == start_libraries,
                        !mode_found ==> self.require_mode == start_mode,
                        self.path@ == last_string(all, "path"@, old(self).path@),
                        self.no_hash == last_bool(all, "no_hash"@, old(self).no_hash),
                    decreases rest@.len(),
                {
                    match rest.pop() {
                        Some((key, RulePropertyValue::RequireMode(m))) => {
                            if !mode_found && same_text(key.as_str(), "require_mode") {
                                self.require_mode = m;
                                mode_found = true;
                            }
                        },
                        Some((key, RulePropertyValue::Libraries(l))) => {
                            if libraries_found.is_none() && same_text(key.as_str(), "libraries") {
                                libraries_found = Some(l);
                            }
                        },
                        _ => {},
                    }
                }
                match libraries_found {
                    Some(l) => {
                        self.libraries = l;
                    },
                    None => {},
                }
                Ok(())
            },
        }
    }
}

impl Default for InjectLibraries {
    fn default() -> (r: Self)
        ensures
            r.require_mode == RequireMode::Path,
            r.libraries@.len() == 0,
            r.path@ == DEFAULT_LIBRARIES_PATH@,
            !r.no_hash,
    {
        Self::new()
    }
}

} // verus!
