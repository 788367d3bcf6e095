//! Typechecker injection: its configuration, and the settings that its
//! processor carries.
use vstd::prelude::*;
use crate::rules::{
    PropertyKind, RuleConfigurationError, RuleProperties, RulePropertyValue, TypecheckerType,
    configuration_error, last_bool, last_string, properties_view, schema_view, strs_view,
    bool_property, string_property, validate_properties,
};
use crate::generator_utils::decimal_digits;
use crate::nodes::{
    BinaryOperator, Block, Expression, FunctionCall, FunctionExpression, IfBranch, LastStatement,
    SBlock, SBranch, SCall, SExpression, SLast, SStatement, SType, STyped, Statement, Type,
    TypedIdentifier, typeds_view,
};
use crate::text::{chars_of, push_chars, same_text, string_of};
use crate::visit::{NodeProcessor, visit_block, walk_block};

verus! {

pub const INJECT_TYPECHECKER_RULE_NAME: &'static str = "inject_typechecker";

// ----- text substitution -----

/// The text with each occurrence of `pattern`, from left to right and without
/// overlap, replaced by `replacement`.
pub open spec fn replace_all(s: Seq<char>, pattern: Seq<char>, replacement: Seq<char>) -> Seq<char>
    decreases s.len(),
{
    if s.len() == 0 {
        seq![]
    } else if 0 < pattern.len() <= s.len() && s.take(pattern.len() as int) == pattern {
        replacement + replace_all(s.skip(pattern.len() as int), pattern, replacement)
    } else {
        seq![s[0]] + replace_all(s.skip(1), pattern, replacement)
    }
}

/// How many times `pattern` occurs, counted from left to right without overlap.
pub open spec fn occurrences(s: Seq<char>, pattern: Seq<char>) -> nat
    decreases s.len(),
{
    if s.len() == 0 {
        0
    } else if 0 < pattern.len() <= s.len() && s.take(pattern.len() as int) == pattern {
        1 + occurrences(s.skip(pattern.len() as int), pattern)
    } else {
        occurrences(s.skip(1), pattern)
    }
}

fn starts_at(s: &Vec<char>, i: usize, pattern: &Vec<char>) -> (r: bool)
    requires
        i <= s@.len(),
    ensures
        r == (0 < pattern@.len() <= s@.len() - i && s@.skip(i as int).take(pattern@.len() as int) == pattern@),
{
    let n = s.len();
    if pattern.len() == 0 || pattern.len() > n - i {
        return false;
    }
    let mut k: usize = 0;
    while k < pattern.len()
        invariant
            k <= pattern@.len(),
            n == s@.len(),
            i + pattern@.len() <= n,
            forall|j: int| 0 <= j < k ==> s@[i + j] == pattern@[j],
        decreases pattern@.len() - k,
    {
        if s[i + k] != pattern[k] {
            assert(s@.skip(i as int).take(pattern@.len() as int)[k as int] != pattern@[k as int]);
            return false;
        }
        k += 1;
    }
    assert(s@.skip(i as int).take(pattern@.len() as int) =~= pattern@);
    true
}

pub fn replace_text(s: &Vec<char>, pattern: &Vec<char>, replacement: &Vec<char>) -> (r: Vec<char>)
    ensures
        r@ == replace_all(s@, pattern@, replacement@),
{
    let mut out: Vec<char> = Vec::new();
    let mut i: usize = 0;
    assert(s@.skip(0) =~= s@);
    while i < s.len()
        invariant
            i <= s@.len(),
            out@ + replace_all(s@.skip(i as int), pattern@, replacement@) == replace_all(s@, pattern@, replacement@),
        decreases s@.len() - i,
    {
        let ghost rest = s@.skip(i as int);
        if starts_at(s, i, pattern) {
            assert(rest.skip(pattern@.len() as int) =~= s@.skip(i + pattern@.len()));
            let ghost before = out@;
            let mut k: usize = 0;
            while k < replacement.len()
                invariant
                    k <= replacement@.len(),
                    out@ == before + replacement@.take(k as int),
                decreases replacement@.len() - k,
            {
                out.push(replacement[k]);
                assert(replacement@.take(k + 1) =~= replacement@.take(k as int).push(replacement@[k as int]));
                k += 1;
            }
            assert(replacement@.take(replacement@.len() as int) =~= replacement@);
            i += pattern.len();
        } else {
            assert(rest.skip(1) =~= s@.skip(i + 1));
            assert(rest[0] == s@[i as int]);
            out.push(s[i]);
            i += 1;
        }
    }
    assert(out@ + replace_all(s@.skip(i as int), pattern@, replacement@) == out@ + seq![]);
    assert(out@ + seq![] =~= out@);
    out
}

pub fn count_text(s: &Vec<char>, pattern: &Vec<char>) -> (r: usize)
    ensures
        r == occurrences(s@, pattern@),
{
    let mut count: usize = 0;
    let mut i: usize = 0;
    assert(s@.skip(0) =~= s@);
    proof { lemma_occurrences_bound(s@, pattern@); }
    while i < s.len()
        invariant
            i <= s@.len(),
            count + occurrences(s@.skip(i as int), pattern@) == occurrences(s@, pattern@),
            occurrences(s@, pattern@) <= s@.len(),
        decreases s@.len() - i,
    {
        let ghost rest = s@.skip(i as int);
        if starts_at(s, i, pattern) {
            assert(rest.skip(pattern@.len() as int) =~= s@.skip(i + pattern@.len()));
            count += 1;
            i += pattern.len();
        } else {
            assert(rest.skip(1) =~= s@.skip(i + 1));
            i += 1;
        }
    }
    count
}

proof fn lemma_occurrences_bound(s: Seq<char>, pattern: Seq<char>)
    ensures
        occurrences(s, pattern) <= s.len(),
    decreases s.len(),
{
    if s.len() > 0 {
        if 0 < pattern.len() <= s.len() && s.take(pattern.len() as int) == pattern {
            lemma_occurrences_bound(s.skip(pattern.len() as int), pattern);
        } else {
            lemma_occurrences_bound(s.skip(1), pattern);
        }
    }
}

fn push_decimal(out: &mut Vec<char>, n: usize)
    ensures
        final(out)@ == old(out)@ + decimal_digits(n as nat),
    decreases n,
{
    if n >= 10 {
        push_decimal(out, n / 10);
    }
    let d = (n % 10) as u8;
    out.push((d + 48) as char);
    assert(final(out)@ =~= old(out)@ + decimal_digits(n as nat));
}

/// The settings of one injection pass.
pub struct Processor {
    pub use_typeof: String,
    pub return_errors: bool,
    pub error_message: String,
    pub error_call: String,
    pub types: Option<Vec<TypecheckerType>>,
}

impl Processor {
    pub fn new(
        use_typeof: String,
        return_errors: bool,
        error_message: String,
        error_call: String,
        types: Option<Vec<TypecheckerType>>,
    ) -> (r: Self)
        ensures
            r.use_typeof == use_typeof,
            r.return_errors == return_errors,
            r.error_message == error_message,
            r.error_call == error_call,
            r.types == types,
    {
        Processor { use_typeof, return_errors, error_message, error_call, types }
    }
}

// ----- the checks -----

/// The settings that the checks depend on.
pub struct CheckSettings {
    pub use_typeof: Seq<char>,
    pub return_errors: bool,
    pub error_message: Seq<char>,
    pub error_call: Seq<char>,
    pub types: Option<Seq<(Seq<char>, Option<Seq<char>>, Option<Seq<char>>)>>,
}

pub open spec fn opt_view(o: Option<String>) -> Option<Seq<char>> {
    match o {
        Some(s) => Some(s@),
        None => None,
    }
}

pub open spec fn type_view(t: TypecheckerType) -> (Seq<char>, Option<Seq<char>>, Option<Seq<char>>) {
    (t.identifier@, opt_view(t.method), opt_view(t.call))
}

pub open spec fn types_view(v: Seq<TypecheckerType>) -> Seq<(Seq<char>, Option<Seq<char>>, Option<Seq<char>>)> {
    Seq::new(v.len(), |i: int| type_view(v[i]))
}

/// `<name>(<arguments>)`
pub open spec fn named_call(name: Seq<char>, arguments: Seq<SExpression>) -> SCall {
    SCall { prefix: Box::new(SExpression::Identifier(name)), method: None, arguments }
}

/// The message of a failed check on parameter `index` of `function_name`.
pub open spec fn check_message(message: Seq<char>, index: nat, function_name: Seq<char>, expected: Seq<char>) -> Seq<char> {
    replace_all(
        replace_all(
            replace_all(replace_all(message, "{argument}"@, decimal_digits(index)), "{func_name}"@, function_name),
            "{original_type}"@,
            expected,
        ),
        "{get_type}"@,
        "%s"@,
    )
}

/// `typeof(<parameter>)` (or `type(...)`).
pub open spec fn type_of_parameter(c: CheckSettings, parameter: Seq<char>) -> SExpression {
    SExpression::Call(named_call(c.use_typeof, seq![SExpression::Identifier(parameter)]))
}

/// `error(string.format("<message>", typeof(p), ...))`, with one type read per
/// `{get_type}` of the message.
pub open spec fn error_call_of(c: CheckSettings, index: nat, function_name: Seq<char>, parameter: Seq<char>, expected: Seq<char>) -> SCall {
    let message = SExpression::String(check_message(c.error_message, index, function_name, expected));
    let reads = Seq::new(occurrences(c.error_message, "{get_type}"@), |i: int| type_of_parameter(c, parameter));
    named_call("error"@, seq![SExpression::Call(named_call("string.format"@, seq![message] + reads))])
}

/// What runs when a check fails: the configured error call, if any, then the
/// error, raised or returned.
pub open spec fn failure_block(c: CheckSettings, index: nat, function_name: Seq<char>, parameter: Seq<char>, expected: Seq<char>) -> SBlock {
    let error = error_call_of(c, index, function_name, parameter, expected);
    SBlock {
        statements: (if c.error_call.len() > 0 { seq![SStatement::Call(named_call(c.error_call, seq![]))] } else { seq![] })
            + (if !c.return_errors { seq![SStatement::Call(error)] } else { seq![] }),
        last_statement: if c.return_errors { Some(SLast::Return(seq![SExpression::Call(error)])) } else { None },
    }
}

/// `typeof(<parameter>) ~= "<expected>"`
pub open spec fn type_mismatch(c: CheckSettings, parameter: Seq<char>, expected: Seq<char>) -> SExpression {
    SExpression::Binary {
        operator: BinaryOperator::NotEqual,
        left: Box::new(type_of_parameter(c, parameter)),
        right: Box::new(SExpression::String(expected)),
    }
}

/// The checks that the configured types give, from type `j` on.
pub open spec fn type_branches(
    c: CheckSettings,
    failure: SBlock,
    parameter: Seq<char>,
    expected: Seq<char>,
    types: Seq<(Seq<char>, Option<Seq<char>>, Option<Seq<char>>)>,
    j: int,
) -> Seq<SBranch>
    decreases types.len() - j,
{
    if j >= types.len() || j < 0 {
        seq![]
    } else {
        let t = types[j];
        let here = if t.0 != expected {
            seq![SBranch { condition: type_mismatch(c, parameter, expected), block: failure }]
        } else {
            match (t.2, t.1) {
                (Some(call), None) => seq![SBranch {
                    condition: SExpression::Binary {
                        operator: BinaryOperator::NotEqual,
                        left: Box::new(SExpression::Call(named_call(call, seq![SExpression::Identifier(parameter)]))),
                        right: Box::new(SExpression::String(t.0)),
                    },
                    block: failure,
                }],
                (None, Some(method)) => seq![SBranch {
                    condition: SExpression::Call(named_call(" not "@ + method, seq![SExpression::Identifier(parameter)])),
                    block: failure,
                }],
                _ => seq![],
            }
        };
        here + type_branches(c, failure, parameter, expected, types, j + 1)
    }
}

/// The checks of one parameter: those of a parameter annotated with a type name.
pub open spec fn parameter_checks(c: CheckSettings, function_name: Seq<char>, index: nat, p: STyped) -> Seq<SBranch> {
    match p.type_annotation {
        Some(SType::Name(expected)) => {
            let failure = failure_block(c, index, function_name, p.name, expected);
            match c.types {
                None => seq![SBranch { condition: type_mismatch(c, p.name, expected), block: failure }],
                Some(types) => type_branches(c, failure, p.name, expected, types, 0),
            }
        },
        _ => seq![],
    }
}

/// The checks of the parameters from `k` on; parameters count from 1.
pub open spec fn checks_from(c: CheckSettings, function_name: Seq<char>, params: Seq<STyped>, k: int) -> Seq<SBranch>
    decreases params.len() - k,
{
    if k >= params.len() || k < 0 {
        seq![]
    } else {
        parameter_checks(c, function_name, (k + 1) as nat, params[k]) + checks_from(c, function_name, params, k + 1)
    }
}

/// A function statement whose parameters give at least one check gets one
/// `if` with all its checks at the start of its body; any other statement
/// stays.
pub open spec fn inject_checks(c: CheckSettings, s: SStatement) -> SStatement {
    match s {
        SStatement::Function { name, function } => if checks_from(c, name, function.parameters, 0).len() == 0 {
            s
        } else {
            SStatement::Function {
                name,
                function: crate::nodes::SFunction {
                    parameters: function.parameters,
                    is_variadic: function.is_variadic,
                    block: SBlock {
                        statements: seq![SStatement::If { branches: checks_from(c, name, function.parameters, 0), else_block: None }]
                            + function.block.statements,
                        last_statement: function.block.last_statement,
                    },
                },
            }
        },
        _ => s,
    }
}

pub open spec fn exprs_view(v: Seq<Expression>) -> Seq<SExpression> {
    Seq::new(v.len(), |i: int| v[i].view())
}

pub open spec fn checks_view(v: Seq<IfBranch>) -> Seq<SBranch> {
    Seq::new(v.len(), |i: int| v[i].view())
}

fn named(name: &str, arguments: Vec<Expression>) -> (r: FunctionCall)
    ensures
        r.view() == named_call(name@, exprs_view(arguments@)),
{
    let ghost av = exprs_view(arguments@);
    let prefix = Expression::Identifier(name.to_owned());
    assert(prefix.view() == SExpression::Identifier(name@));
    let r = FunctionCall { prefix: Box::new(prefix), method: None, arguments };
    assert(r.view().arguments =~= av);
    r
}

fn push_branch(out: &mut Vec<IfBranch>, branch: IfBranch)
    ensures
        checks_view(final(out)@) == checks_view(old(out)@) + seq![branch.view()],
{
    let ghost bv = branch.view();
    out.push(branch);
    assert(checks_view(final(out)@) =~= checks_view(old(out)@) + seq![bv]);
}

impl Processor {
    pub open spec fn settings(&self) -> CheckSettings {
        CheckSettings {
            use_typeof: self.use_typeof@,
            return_errors: self.return_errors,
            error_message: self.error_message@,
            error_call: self.error_call@,
            types: match self.types {
                Some(v) => Some(types_view(v@)),
                None => None,
            },
        }
    }

    fn type_read(&self, parameter: &str) -> (r: Expression)
        ensures
            r.view() == type_of_parameter(self.settings(), parameter@),
    {
        let argument = Expression::Identifier(parameter.to_owned());
        let ghost av = argument.view();
        assert(av == SExpression::Identifier(parameter@));
        let arguments = vec![argument];
        assert(exprs_view(arguments@) =~= seq![av]);
        let call = named(self.use_typeof.as_str(), arguments);
        let ghost cv = call.view();
        let r = Expression::Call(call);
        assert(r.view() == SExpression::Call(cv));
        r
    }

    fn error_of(&self, index: usize, function_name: &str, parameter: &str, expected: &str) -> (r: FunctionCall)
        ensures
            r.view() == error_call_of(self.settings(), index as nat, function_name@, parameter@, expected@),
    {
        let ghost c = self.settings();
        let source = chars_of(self.error_message.as_str());
        let mut index_text: Vec<char> = Vec::new();
        push_decimal(&mut index_text, index);
        assert(index_text@ =~= decimal_digits(index as nat));
        let m1 = replace_text(&source, &chars_of("{argument}"), &index_text);
        let m2 = replace_text(&m1, &chars_of("{func_name}"), &chars_of(function_name));
        let m3 = replace_text(&m2, &chars_of("{original_type}"), &chars_of(expected));
        let m4 = replace_text(&m3, &chars_of("{get_type}"), &chars_of("%s"));
        let count = count_text(&source, &chars_of("{get_type}"));
        let message = Expression::String(string_of(&m4));
        let ghost mv = message.view();
        assert(mv == SExpression::String(check_message(c.error_message, index as nat, function_name@, expected@)));
        let mut arguments: Vec<Expression> = vec![message];
        let mut k: usize = 0;
        while k < count
            invariant
                k <= count,
                exprs_view(arguments@) == seq![mv] + Seq::new(k as nat, |i: int| type_of_parameter(c, parameter@)),
                c == self.settings(),
            decreases count - k,
        {
            let ghost before = exprs_view(arguments@);
            let read = self.type_read(parameter);
            arguments.push(read);
            assert(exprs_view(arguments@) =~= before.push(type_of_parameter(c, parameter@)));
            assert(exprs_view(arguments@) =~= seq![mv] + Seq::new((k + 1) as nat, |i: int| type_of_parameter(c, parameter@)));
            k += 1;
        }
        let format = named("string.format", arguments);
        let ghost fv = format.view();
        let format_expression = Expression::Call(format);
        assert(format_expression.view() == SExpression::Call(fv));
        let ghost fev = format_expression.view();
        let outer = vec![format_expression];
        assert(exprs_view(outer@) =~= seq![fev]);
        assert(fv == named_call("string.format"@, seq![mv] + Seq::new(occurrences(c.error_message, "{get_type}"@), |i: int| type_of_parameter(c, parameter@))));
        let r = named("error", outer);
        r
    }

    fn failure(&self, index: usize, function_name: &str, parameter: &str, expected: &str) -> (r: Block)
        ensures
            r.view() == failure_block(self.settings(), index as nat, function_name@, parameter@, expected@),
    {
        let ghost c = self.settings();
        let mut statements: Vec<Statement> = Vec::new();
        let ghost e = error_call_of(c, index as nat, function_name@, parameter@, expected@);
        let has_error_call = !self.error_call.as_str().is_empty();
        if has_error_call {
            let call = named(self.error_call.as_str(), Vec::new());
            assert(exprs_view(Seq::<Expression>::empty()) =~= seq![]);
            statements.push(Statement::Call(call));
        }
        let ghost first = Seq::new(statements@.len(), |i: int| statements@[i].view());
        assert(first =~= if c.error_call.len() > 0 { seq![SStatement::Call(named_call(c.error_call, seq![]))] } else { seq![] });
        let last_statement = if !self.return_errors {
            let call = self.error_of(index, function_name, parameter, expected);
            statements.push(Statement::Call(call));
            None
        } else {
            let call = self.error_of(index, function_name, parameter, expected);
            let ghost cv = call.view();
            let returned = vec![Expression::Call(call)];
            assert(returned@[0].view() == SExpression::Call(cv));
            let ret = LastStatement::Return(returned);
            assert(ret.view()->Return_0 =~= seq![SExpression::Call(e)]);
            Some(ret)
        };
        let ghost sv = Seq::new(statements@.len(), |i: int| statements@[i].view());
        let r = Block { statements, last_statement };
        assert(r.view().statements =~= sv);
        assert(sv =~= first + (if !c.return_errors { seq![SStatement::Call(e)] } else { seq![] }));
        r
    }

    fn mismatch(&self, parameter: &str, expected: &str) -> (r: Expression)
        ensures
            r.view() == type_mismatch(self.settings(), parameter@, expected@),
    {
        let left = self.type_read(parameter);
        let right = Expression::String(expected.to_owned());
        let ghost (lv, rv) = (left.view(), right.view());
        let r = Expression::Binary { operator: BinaryOperator::NotEqual, left: Box::new(left), right: Box::new(right) };
        assert(r.view() == SExpression::Binary { operator: BinaryOperator::NotEqual, left: Box::new(lv), right: Box::new(rv) });
        r
    }

    fn push_type_branches(
        &self,
        out: &mut Vec<IfBranch>,
        failure: &Block,
        parameter: &str,
        expected: &str,
        types: &Vec<TypecheckerType>,
    )
        ensures
            checks_view(final(out)@) == checks_view(old(out)@) + type_branches(
                self.settings(),
                failure.view(),
                parameter@,
                expected@,
                types_view(types@),
                0,
            ),
    {
        let ghost c = self.settings();
        let ghost tv = types_view(types@);
        let ghost fv = failure.view();
        let mut j: usize = 0;
        while j < types.len()
            invariant
                j <= types@.len(),
                c == self.settings(),
                tv == types_view(types@),
                fv == failure.view(),
                checks_view(out@) + type_branches(c, fv, parameter@, expected@, tv, j as int)
                    == checks_view(old(out)@) + type_branches(c, fv, parameter@, expected@, tv, 0),
            decreases types@.len() - j,
        {
            let ghost before = checks_view(out@);
            let t = &types[j];
            assert(tv[j as int] == type_view(*t));
            let ghost rest = type_branches(c, fv, parameter@, expected@, tv, j + 1);
            if !same_text(t.identifier.as_str(), expected) {
                push_branch(out, IfBranch { condition: self.mismatch(parameter, expected), block: failure.duplicate() });
                assert(type_branches(c, fv, parameter@, expected@, tv, j as int) == seq![
                    SBranch { condition: type_mismatch(c, parameter@, expected@), block: fv },
                ] + rest);
            } else {
                match (&t.call, &t.method) {
                    (Some(call), None) => {
                        assert(tv[j as int].2 == Some(call@) && tv[j as int].1 is None && tv[j as int].0 == expected@);
                        let argument = Expression::Identifier(parameter.to_owned());
                        let ghost av = argument.view();
                        assert(av == SExpression::Identifier(parameter@));
                        let arguments = vec![argument];
                        assert(exprs_view(arguments@) =~= seq![av]);
                        let f = named(call.as_str(), arguments);
                        let ghost fcv = f.view();
                        let left = Expression::Call(f);
                        assert(left.view() == SExpression::Call(fcv));
                        let right = Expression::String(t.identifier.clone());
                        let ghost (lv, rv) = (left.view(), right.view());
                        let condition = Expression::Binary {
                            operator: BinaryOperator::NotEqual,
                            left: Box::new(left),
                            right: Box::new(right),
                        };
                        assert(condition.view() == SExpression::Binary {
                            operator: BinaryOperator::NotEqual,
                            left: Box::new(lv),
                            right: Box::new(rv),
                        });
                        let ghost cdv = condition.view();
                        push_branch(out, IfBranch { condition, block: failure.duplicate() });
                        assert(type_branches(c, fv, parameter@, expected@, tv, j as int) == seq![
                            SBranch { condition: cdv, block: fv },
                        ] + rest);
                    },
                    (None, Some(method)) => {
                        assert(tv[j as int].1 == Some(method@) && tv[j as int].2 is None && tv[j as int].0 == expected@);
                        let mut name = " not ".to_owned();
                        push_chars(&mut name, &chars_of(method.as_str()));
                        let argument = Expression::Identifier(parameter.to_owned());
                        let ghost av = argument.view();
                        assert(av == SExpression::Identifier(parameter@));
                        let arguments = vec![argument];
                        assert(exprs_view(arguments@) =~= seq![av]);
                        let f = named(name.as_str(), arguments);
                        let ghost fcv = f.view();
                        let condition = Expression::Call(f);
                        assert(condition.view() == SExpression::Call(fcv));
                        let ghost cdv = condition.view();
                        push_branch(out, IfBranch { condition, block: failure.duplicate() });
                        assert(type_branches(c, fv, parameter@, expected@, tv, j as int) == seq![
                            SBranch { condition: cdv, block: fv },
                        ] + rest);
                    },
                    _ => {
                        assert(type_branches(c, fv, parameter@, expected@, tv, j as int) =~= rest);
                        assert(checks_view(out@) =~= before);
                    },
                }
            }
            assert(checks_view(out@) + type_branches(c, fv, parameter@, expected@, tv, j + 1)
                =~= before + type_branches(c, fv, parameter@, expected@, tv, j as int));
            j += 1;
        }
        assert(type_branches(c, fv, parameter@, expected@, tv, j as int) =~= seq![]);
        assert(checks_view(out@) =~= checks_view(out@) + seq![]);
    }

    fn push_parameter_checks(&self, out: &mut Vec<IfBranch>, function_name: &str, index: usize, p: &TypedIdentifier)
        ensures
            checks_view(final(out)@) == checks_view(old(out)@) + parameter_checks(
                self.settings(),
                function_name@,
                index as nat,
                p.view(),
            ),
    {
        match &p.type_annotation {
            Some(Type::Name(expected)) => {
                let failure = self.failure(index, function_name, p.name.as_str(), expected.as_str());
                match &self.types {
                    None => {
                        push_branch(out, IfBranch { condition: self.mismatch(p.name.as_str(), expected.as_str()), block: failure });
                    },
                    Some(types) => {
                        self.push_type_branches(out, &failure, p.name.as_str(), expected.as_str(), types);
                    },
                }
            },
            _ => {
                assert(checks_view(out@) =~= checks_view(out@) + seq![]);
            },
        }
    }

    /// The checks of a function's parameters.
    pub fn checks(&self, function_name: &str, params: &Vec<TypedIdentifier>) -> (r: Vec<IfBranch>)
        ensures
            checks_view(r@) == checks_from(self.settings(), function_name@, typeds_view(params@), 0),
    {
        let ghost pv = typeds_view(params@);
        let ghost c = self.settings();
        let mut out: Vec<IfBranch> = Vec::new();
        let mut k: usize = 0;
        assert(checks_view(out@) =~= seq![]);
        while k < params.len()
            invariant
                k <= params@.len(),
                pv == typeds_view(params@),
                c == self.settings(),
                checks_view(out@) + checks_from(c, function_name@, pv, k as int) == checks_from(c, function_name@, pv, 0),
            decreases params@.len() - k,
        {
            let ghost before = checks_view(out@);
            self.push_parameter_checks(&mut out, function_name, k + 1, &params[k]);
            assert(pv[k as int] == params@[k as int].view());
            assert(checks_view(out@) + checks_from(c, function_name@, pv, k + 1)
                =~= before + checks_from(c, function_name@, pv, k as int));
            k += 1;
        }
        assert(checks_from(c, function_name@, pv, k as int) =~= seq![]);
        assert(checks_view(out@) =~= checks_view(out@) + seq![]);
        out
    }
}

impl Processor {
    /// Puts the checks of a function statement's parameters at the start of
    /// its body; a statement of another kind, or a function without
    /// parameters, stays.
    pub fn process_function_statement(&self, statement: Statement) -> (r: Statement)
        ensures
            r.view() == inject_checks(self.settings(), statement.view()),
    {
        match statement {
            Statement::Function { name, function } => {
                if function.parameters.len() == 0 {
                    assert(typeds_view(function.parameters@).len() == 0);
                    return Statement::Function { name, function };
                }
                let ghost old_fn = function.view();
                let ghost old_block = function.block.view();
                let branches = self.checks(name.as_str(), &function.parameters);
                let ghost bv = checks_view(branches@);
                if branches.len() == 0 {
                    assert(bv.len() == 0);
                    return Statement::Function { name, function };
                }
                let check = Statement::If { branches, else_block: None };
                assert(check.view()->If_branches =~= bv);
                let ghost chv = check.view();
                let FunctionExpression { parameters, is_variadic, block } = function;
                let Block { statements, last_statement } = block;
                let ghost sv = Seq::new(statements@.len(), |i: int| statements@[i].view());
                assert(old_block.statements =~= sv);
                let mut body: Vec<Statement> = vec![check];
                let mut rest = statements;
                let ghost rest_view = sv;
                let mut tail: Vec<Statement> = Vec::new();
                while rest.len() > 0
                    invariant
                        Seq::new(rest@.len(), |i: int| rest@[i].view()) + Seq::new(tail@.len(), |i: int| tail@[tail@.len() - 1 - i].view()) == sv,
                    decreases rest@.len(),
                {
                    let ghost before_rest = rest@;
                    let ghost before_tail = tail@;
                    match rest.pop() {
                        Some(x) => {
                            tail.push(x);
                        },
                        None => {},
                    }
                    assert(Seq::new(rest@.len(), |i: int| rest@[i].view()) + Seq::new(tail@.len(), |i: int| tail@[tail@.len() - 1 - i].view())
                        =~= Seq::new(before_rest.len(), |i: int| before_rest[i].view()) + Seq::new(before_tail.len(), |i: int| before_tail[before_tail.len() - 1 - i].view()));
                }
                while tail.len() > 0
                    invariant
                        Seq::new(body@.len(), |i: int| body@[i].view()) + Seq::new(tail@.len(), |i: int| tail@[tail@.len() - 1 - i].view()) == seq![chv] + sv,
                    decreases tail@.len(),
                {
                    let ghost before_body = body@;
                    let ghost before_tail = tail@;
                    match tail.pop() {
                        Some(x) => {
                            body.push(x);
                        },
                        None => {},
                    }
                    assert(Seq::new(body@.len(), |i: int| body@[i].view()) + Seq::new(tail@.len(), |i: int| tail@[tail@.len() - 1 - i].view())
                        =~= Seq::new(before_body.len(), |i: int| before_body[i].view()) + Seq::new(before_tail.len(), |i: int| before_tail[before_tail.len() - 1 - i].view()));
                }
                let new_block = Block { statements: body, last_statement };
                assert(new_block.view().statements =~= seq![chv] + sv);
                assert(new_block.view().last_statement == old_block.last_statement);
                let ghost nbv = new_block.view();
                let new_fn = FunctionExpression { parameters, is_variadic, block: new_block };
                assert(new_fn.view() == crate::nodes::SFunction {
                    parameters: old_fn.parameters,
                    is_variadic: old_fn.is_variadic,
                    block: nbv,
                });
                let ghost nfv = new_fn.view();
                let r = Statement::Function { name, function: new_fn };
                assert(r.view() == SStatement::Function { name: name@, function: nfv });
                r
            },
            _ => statement,
        }
    }
}

impl NodeProcessor for Processor {
    type Config = CheckSettings;

    open spec fn config(&self) -> CheckSettings {
        self.settings()
    }

    open spec fn statement_spec(c: CheckSettings, s: SStatement) -> SStatement {
        inject_checks(c, s)
    }

    open spec fn expression_spec(c: CheckSettings, e: SExpression) -> SExpression {
        e
    }

    fn process_statement(&self, s: Statement) -> (r: Statement) {
        self.process_function_statement(s)
    }

    fn process_expression(&self, e: Expression) -> (r: Expression) {
        e
    }
}

pub open spec fn typechecker_schema() -> Seq<(Seq<char>, PropertyKind)> {
    seq![
        ("use_typeof"@, PropertyKind::Boolean),
        ("return_errors"@, PropertyKind::Boolean),
        ("error_message"@, PropertyKind::String),
        ("error_call"@, PropertyKind::String),
        ("types"@, PropertyKind::TypecheckerTypes),
    ]
}

/// The value of the last `types` property, if any, else `current`.
pub open spec fn last_types(
    p: Seq<(String, RulePropertyValue)>,
    current: Option<Vec<TypecheckerType>>,
) -> Option<Vec<TypecheckerType>>
    decreases p.len(),
{
    if p.len() == 0 {
        current
    } else {
        match p.last().1 {
            RulePropertyValue::TypecheckerTypes(t) => if p.last().0@ == "types"@ {
                Some(t)
            } else {
                last_types(p.drop_last(), current)
            },
            _ => last_types(p.drop_last(), current),
        }
    }
}

/// The name of the function that reads a value's type: `typeof` or `type`.
pub open spec fn typeof_name(use_typeof: bool) -> Seq<char> {
    if use_typeof { "typeof"@ } else { "type"@ }
}

/// A rule that injects type checks where parameters are annotated.
#[derive(Debug, PartialEq)]
pub struct InjectTypechecker {
    pub use_typeof: String,
    pub return_errors: bool,
    pub error_message: String,
    pub error_call: String,
    pub types: Option<Vec<TypecheckerType>>,
}

impl InjectTypechecker {
    pub fn new() -> (r: Self)
        ensures
            r.use_typeof@ == "typeof"@,
            !r.return_errors,
            r.error_message@ == "invalid argument #{argument} to '{func_name}' ({original_type} expected, got {get_type})"@,
            r.error_call@ == ""@,
            r.types is None,
    {
        InjectTypechecker {
            use_typeof: "typeof".to_owned(),
            return_errors: false,
            error_message: "invalid argument #{argument} to '{func_name}' ({original_type} expected, got {get_type})".to_owned(),
            error_call: "".to_owned(),
            types: None,
        }
    }

    pub fn get_name(&self) -> (r: &'static str)
        ensures
            r@ == INJECT_TYPECHECKER_RULE_NAME@,
    {
        INJECT_TYPECHECKER_RULE_NAME
    }

    /// The properties that differ from the defaults: none are reported.
    pub fn serialize_to_properties(&self) -> (r: RuleProperties)
        ensures
            r@.len() == 0,
    {
        Vec::new()
    }

    /// Checks the whole list first; then each property sets its field, the
    /// last one given for a key winning. `use_typeof` chooses between
    /// `typeof` and `type`.
    pub fn configure(&mut self, properties: RuleProperties) -> (r: Result<(), RuleConfigurationError>)
        ensures
            match configuration_error(properties_view(properties@), typechecker_schema(), seq![]) {
                None => r is Ok
                    && final(self).use_typeof@ == (if exists|i: int| 0 <= i < properties@.len()
                        && properties@[i].0@ == "use_typeof"@ {
                        typeof_name(last_bool(properties@, "use_typeof"@, true))
                    } else {
                        old(self).use_typeof@
                    })
                    && final(self).return_errors == last_bool(properties@, "return_errors"@, old(self).return_errors)
                    && final(self).error_message@ == last_string(properties@, "error_message"@, old(self).error_message@)
                    && final(self).error_call@ == last_string(properties@, "error_call"@, old(self).error_call@)
                    && final(self).types == last_types(properties@, old(self).types),
                Some(e) => r matches Err(x) && x.view() == e && *final(self) == *old(self),
            },
    {
        let schema = vec![
            ("use_typeof", PropertyKind::Boolean),
            ("return_errors", PropertyKind::Boolean),
            ("error_message", PropertyKind::String),
            ("error_call", PropertyKind::String),
            ("types", PropertyKind::TypecheckerTypes),
        ];
        assert(schema_view(schema@) =~= typechecker_schema());
        let required: Vec<&str> = Vec::new();
        assert(strs_view(required@) =~= seq![]);
        match validate_properties(&properties, &schema, &required) {
            Err(e) => Err(e),
            Ok(()) => {
                let mut has_use_typeof = false;
                let mut i: usize = 0;
                while i < properties.len()
                    invariant
                        i <= properties@.len(),
                        has_use_typeof == exists|j: int| 0 <= j < i && properties@[j].0@ == "use_typeof"@,
                    decreases properties@.len() - i,
                {
                    if same_text(properties[i].0.as_str(), "use_typeof") {
                        has_use_typeof = true;
                    }
                    i += 1;
                }
                if has_use_typeof {
                    self.use_typeof = if bool_property(&properties, "use_typeof", true) {
                        "typeof".to_owned()
                    } else {
                        "type".to_owned()
                    };
                }
                self.return_errors = bool_property(&properties, "return_errors", self.return_errors);
                self.error_message = string_property(&properties, "error_message", self.error_message.clone());
                self.error_call = string_property(&properties, "error_call", self.error_call.clone());
                let ghost all = properties@;
                let mut rest = properties;
                let mut found: Option<Vec<TypecheckerType>> = None;
                while found.is_none() && rest.len() > 0
                    invariant
                        found is None ==> last_types(all, self.types) == last_types(rest@, self.types),
                        found is Some ==> found == last_types(all, self.types),
                    decreases rest@.len(),
                {
                    let ghost before = rest@;
                    match rest.pop() {
                        Some((key, RulePropertyValue::TypecheckerTypes(t))) => {
                            if same_text(key.as_str(), "types") {
                                found = Some(t);
                            }
                        },
                        _ => {},
                    }
                }
                match found {
                    Some(t) => {
                        self.types = Some(t);
                    },
                    None => {},
                }
                Ok(())
            },
        }
    }
}

fn copy_option(o: &Option<String>) -> (r: Option<String>)
    ensures
        opt_view(r) == opt_view(*o),
{
    match o {
        Some(s) => Some(s.clone()),
        None => None,
    }
}

fn copy_types(types: &Option<Vec<TypecheckerType>>) -> (r: Option<Vec<TypecheckerType>>)
    ensures
        match r {
            Some(v) => Some(types_view(v@)),
            None => None::<Seq<(Seq<char>, Option<Seq<char>>, Option<Seq<char>>)>>,
        } == match *types {
            Some(v) => Some(types_view(v@)),
            None => None,
        },
{
    match types {
        Some(v) => {
            let mut out: Vec<TypecheckerType> = Vec::new();
            let mut i: usize = 0;
            while i < v.len()
                invariant
                    i <= v@.len(),
                    types_view(out@) == types_view(v@).take(i as int),
                decreases v@.len() - i,
            {
                let t = TypecheckerType {
                    identifier: v[i].identifier.clone(),
                    method: copy_option(&v[i].method),
                    call: copy_option(&v[i].call),
                };
                let ghost before = out@;
                out.push(t);
                assert(types_view(out@) =~= types_view(before).push(type_view(v@[i as int])));
                assert(types_view(out@) =~= types_view(v@).take(i + 1));
                i += 1;
            }
            assert(types_view(v@).take(v@.len() as int) =~= types_view(v@));
            Some(out)
        },
        None => None,
    }
}

impl InjectTypechecker {
    /// The settings that a pass of this rule uses.
    pub open spec fn settings(&self) -> CheckSettings {
        CheckSettings {
            use_typeof: self.use_typeof@,
            return_errors: self.return_errors,
            error_message: self.error_message@,
            error_call: self.error_call@,
            types: match self.types {
                Some(v) => Some(types_view(v@)),
                None => None,
            },
        }
    }

    /// Puts type checks at the start of every function statement with
    /// parameters.
    pub fn flawless_process(&self, block: &mut Block, context: &crate::rules::Context)
        ensures
            final(block).view() == walk_block::<Processor>(self.settings(), old(block).view()),
    {
        let processor = Processor::new(
            self.use_typeof.clone(),
            self.return_errors,
            self.error_message.clone(),
            self.error_call.clone(),
            copy_types(&self.types),
        );
        assert(processor.settings() == self.settings());
        let rewritten = visit_block(&processor, block);
        *block = rewritten;
    }
}

impl Default for InjectTypechecker {
    fn default() -> (r: Self)
        ensures
            r.use_typeof@ == "typeof"@,
            !r.return_errors,
            r.error_call@ == ""@,
            r.types is None,
    {
        Self::new()
    }
}

} // verus!
