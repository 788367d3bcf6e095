//! Deterministic names for the helper variables that rules inject.
//!
//! A name comes from a format in which `{name}` stands for the helper's role and
//! `{hash}` for a short hash of the original source: the same format, role and
//! source always give the same name.
use vstd::prelude::*;
use crate::hashing::{short_hash, source_hash};
use crate::text::{chars_of, push_chars, same_text};

verus! {

pub open spec fn name_placeholder() -> Seq<char> {
    seq!['{', 'n', 'a', 'm', 'e', '}']
}

pub open spec fn hash_placeholder() -> Seq<char> {
    seq!['{', 'h', 'a', 's', 'h', '}']
}

pub open spec fn placeholder_at(fmt: Seq<char>, i: int, placeholder: Seq<char>) -> bool {
    0 <= i && i + 6 <= fmt.len() && fmt.subrange(i, i + 6) == placeholder
}

/// The format read from left to right, each `{name}` replaced by `name` and
/// each `{hash}` by `hash`.
pub open spec fn render(fmt: Seq<char>, name: Seq<char>, hash: Seq<char>) -> Seq<char>
    decreases fmt.len(),
{
    if fmt.len() == 0 {
        seq![]
    } else if placeholder_at(fmt, 0, name_placeholder()) {
        name + render(fmt.skip(6), name, hash)
    } else if placeholder_at(fmt, 0, hash_placeholder()) {
        hash + render(fmt.skip(6), name, hash)
    } else {
        seq![fmt[0]] + render(fmt.skip(1), name, hash)
    }
}

pub open spec fn has_name_placeholder(fmt: Seq<char>) -> bool {
    exists|i: int| placeholder_at(fmt, i, name_placeholder())
}

fn placeholder_here(fmt: &Vec<char>, i: usize, placeholder: &Vec<char>) -> (r: bool)
    requires
        i <= fmt@.len(),
        placeholder@.len() == 6,
    ensures
        r == placeholder_at(fmt@, i as int, placeholder@),
{
    let n = fmt.len();
    if n - i < 6 {
        return false;
    }
    let mut k: usize = 0;
    while k < 6
        invariant
            k <= 6,
            n == fmt@.len(),
            i + 6 <= fmt@.len(),
            placeholder@.len() == 6,
            forall|j: int| 0 <= j < k ==> fmt@[i + j] == placeholder@[j],
        decreases 6 - k,
    {
        assert(i + k < fmt@.len());
        if fmt[i + k] != placeholder[k] {
            assert(fmt@.subrange(i as int, i + 6)[k as int] != placeholder@[k as int]);
            return false;
        }
        k += 1;
    }
    assert(fmt@.subrange(i as int, i + 6) =~= placeholder@);
    true
}

fn placeholder_chars(hash: bool) -> (r: Vec<char>)
    ensures
        r@ == if hash { hash_placeholder() } else { name_placeholder() },
{
    let r = if hash { vec!['{', 'h', 'a', 's', 'h', '}'] } else { vec!['{', 'n', 'a', 'm', 'e', '}'] };
    assert(r@ =~= if hash { hash_placeholder() } else { name_placeholder() });
    r
}

/// Renders a format for one helper name.
pub fn render_format(format: &Vec<char>, name: &Vec<char>, hash: &Vec<char>) -> (r: String)
    ensures
        r@ == render(format@, name@, hash@),
{
    let name_ph = placeholder_chars(false);
    let hash_ph = placeholder_chars(true);
    let mut out = String::new();
    let mut i: usize = 0;
    assert(format@.skip(0) =~= format@);
    while i < format.len()
        invariant
            i <= format@.len(),
            name_ph@ == name_placeholder(),
            hash_ph@ == hash_placeholder(),
            out@ + render(format@.skip(i as int), name@, hash@) == render(format@, name@, hash@),
        decreases format@.len() - i,
    {
        let ghost rest = format@.skip(i as int);
        if placeholder_here(format, i, &name_ph) {
            assert(rest.subrange(0, 6) =~= format@.subrange(i as int, i + 6));
            assert(rest.skip(6) =~= format@.skip(i + 6));
            push_chars(&mut out, name);
            i += 6;
        } else if placeholder_here(format, i, &hash_ph) {
            assert(rest.subrange(0, 6) =~= format@.subrange(i as int, i + 6));
            assert(rest.skip(6) =~= format@.skip(i + 6));
            push_chars(&mut out, hash);
            i += 6;
        } else {
            proof {
                if rest.len() >= 6 {
                    assert(rest.subrange(0, 6) =~= format@.subrange(i as int, i + 6));
                }
            }
            assert(rest.skip(1) =~= format@.skip(i + 1));
            assert(rest[0] == format@[i as int]);
            crate::text::push_char(&mut out, format[i]);
            i += 1;
        }
    }
    assert(format@.skip(i as int).len() == 0);
    out
}

/// The error of a format without `{name}`.
pub const MISSING_NAME_MESSAGE: &'static str = "the runtime variable format must contain `{name}`";

/// The error of a generated name that is reserved.
pub const RESERVED_NAME_MESSAGE: &'static str = "a runtime variable name collides with a reserved name";

/// Builds the names of a rule's helper variables for one source file.
pub struct RuntimeVariableBuilder {
    format: Vec<char>,
    hash: Vec<char>,
    reserved: Vec<String>,
}

impl RuntimeVariableBuilder {
    pub closed spec fn format(&self) -> Seq<char> {
        self.format@
    }

    pub closed spec fn hash(&self) -> Seq<char> {
        self.hash@
    }

    pub closed spec fn reserved(&self) -> Seq<String> {
        self.reserved@
    }

    /// A builder for `format`, hashing `source`. The format must hold `{name}`,
    /// or every helper would get the same name.
    pub fn new(format: &str, source: &[u8], reserved: Vec<String>) -> (r: Result<Self, String>)
        ensures
            r is Ok <==> has_name_placeholder(format@),
            r matches Err(e) ==> e@ == MISSING_NAME_MESSAGE@,
            r matches Ok(b) ==> b.format() == format@ && b.hash() == source_hash(source@)
                && b.reserved() == reserved@,
    {
        let chars = chars_of(format);
        let name_ph = placeholder_chars(false);
        let mut i: usize = 0;
        let mut found = false;
        while i < chars.len() && !found
            invariant
                i <= chars@.len(),
                chars@ == format@,
                name_ph@ == name_placeholder(),
                found ==> has_name_placeholder(format@),
                !found ==> forall|j: int| 0 <= j < i ==> !placeholder_at(format@, j, name_placeholder()),
            decreases chars@.len() - i + if found { 0int } else { 1int },
        {
            if placeholder_here(&chars, i, &name_ph) {
                found = true;
            } else {
                i += 1;
            }
        }
        if !found {
            assert forall|j: int| !placeholder_at(format@, j, name_placeholder()) by {
                if 0 <= j && j + 6 <= format@.len() {
                    assert(j < i);
                }
            }
            return Err(MISSING_NAME_MESSAGE.to_owned());
        }
        let hash = chars_of(short_hash(source).as_str());
        Ok(RuntimeVariableBuilder { format: chars, hash, reserved })
    }

    /// The name of the helper called `name`; a reserved name is refused.
    pub fn build(&self, name: &str) -> (r: Result<String, String>)
        ensures
            r is Ok <==> !(exists|j: int|
                0 <= j < self.reserved().len() && (#[trigger] self.reserved()[j])@ == render(
                    self.format(),
                    name@,
                    self.hash(),
                )),
            r matches Ok(s) ==> s@ == render(self.format(), name@, self.hash()),
            r matches Err(e) ==> e@ == RESERVED_NAME_MESSAGE@,
    {
        let name_chars = chars_of(name);
        let built = render_format(&self.format, &name_chars, &self.hash);
        let mut j: usize = 0;
        while j < self.reserved.len()
            invariant
                j <= self.reserved@.len(),
                built@ == render(self.format@, name@, self.hash@),
                forall|k: int| 0 <= k < j ==> (#[trigger] self.reserved@[k])@ != built@,
            decreases self.reserved@.len() - j,
        {
            if same_text(self.reserved[j].as_str(), built.as_str()) {
                assert(self.reserved()[j as int]@ == render(self.format(), name@, self.hash()));
                return Err(RESERVED_NAME_MESSAGE.to_owned());
            }
            j += 1;
        }
        assert(self.reserved() == self.reserved@);
        Ok(built)
    }
}

/// Generated names are deterministic: the same format, role and original
/// source give the same name, in every run.
pub proof fn generated_names_are_deterministic(
    format1: Seq<char>,
    format2: Seq<char>,
    role1: Seq<char>,
    role2: Seq<char>,
    source1: Seq<u8>,
    source2: Seq<u8>,
)
    requires
        format1 == format2,
        role1 == role2,
        source1 == source2,
    ensures
        render(format1, role1, source_hash(source1)) == render(format2, role2, source_hash(source2)),
{
}

} // verus!
