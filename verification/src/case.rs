//! Naming conventions applied to field and variant names at render time.
//!
//! The conversions themselves (pascal, camel, snake, ...) are performed by
//! the `inflector` crate and by `str`'s own case mappings; each result is
//! given a name here, and the rest of the library speaks of those names.

use vstd::prelude::*;

verus! {

pub uninterp spec fn camel_of(s: Seq<char>) -> Seq<char>;

pub uninterp spec fn pascal_of(s: Seq<char>) -> Seq<char>;

pub uninterp spec fn snake_of(s: Seq<char>) -> Seq<char>;

pub uninterp spec fn screaming_snake_of(s: Seq<char>) -> Seq<char>;

pub uninterp spec fn kebab_of(s: Seq<char>) -> Seq<char>;

pub uninterp spec fn lower_of(s: Seq<char>) -> Seq<char>;

pub uninterp spec fn upper_of(s: Seq<char>) -> Seq<char>;

/// Relies on inflector's to_camel_case: the result depends on the characters alone.
#[verifier::external_body]
pub(crate) fn to_camel(s: &str) -> (r: String)
    ensures
        r@ == camel_of(s@),
{
    inflector::cases::camelcase::to_camel_case(s)
}

/// Relies on inflector's to_pascal_case: the result depends on the characters alone.
#[verifier::external_body]
pub(crate) fn to_pascal(s: &str) -> (r: String)
    ensures
        r@ == pascal_of(s@),
{
    inflector::cases::pascalcase::to_pascal_case(s)
}

/// Relies on inflector's to_snake_case: the result depends on the characters alone.
#[verifier::external_body]
pub(crate) fn to_snake(s: &str) -> (r: String)
    ensures
        r@ == snake_of(s@),
{
    inflector::cases::snakecase::to_snake_case(s)
}

/// Relies on inflector's to_screaming_snake_case: the result depends on the characters alone.
#[verifier::external_body]
pub(crate) fn to_screaming_snake(s: &str) -> (r: String)
    ensures
        r@ == screaming_snake_of(s@),
{
    inflector::cases::screamingsnakecase::to_screaming_snake_case(s)
}

/// Relies on inflector's to_kebab_case: the result depends on the characters alone.
#[verifier::external_body]
pub(crate) fn to_kebab(s: &str) -> (r: String)
    ensures
        r@ == kebab_of(s@),
{
    inflector::cases::kebabcase::to_kebab_case(s)
}

/// Relies on str::to_lowercase: the result depends on the characters alone.
#[verifier::external_body]
pub(crate) fn to_lower(s: &str) -> (r: String)
    ensures
        r@ == lower_of(s@),
{
    s.to_lowercase()
}

/// Relies on str::to_uppercase: the result depends on the characters alone.
#[verifier::external_body]
pub(crate) fn to_upper(s: &str) -> (r: String)
    ensures
        r@ == upper_of(s@),
{
    s.to_uppercase()
}

/// A naming transform applied to field and variant names when a type is
/// rendered. Serialize and deserialize configurations must agree; a
/// mismatch is a configuration error caught when the annotations are read.
#[derive(Clone, Copy, PartialEq, Eq, Structural, Debug)]
pub enum CaseConvention {
    /// Leave items untouched
    Default,
    /// lowercase
    Lowercase,
    /// UPPERCASE
    Uppercase,
    /// PascalCase
    PascalCase,
    /// camelCase
    CamelCase,
    /// snake_case
    SnakeCase,
    /// SCREAMING_SNAKE_CASE
    ScreamingSnakeCase,
    /// kebab-case
    KebabCase,
    /// SCREAMING-KEBAB-CASE
    ScreamingKebabCase,
}

/// What `CaseConvention::transform` returns, written over the named
/// results of the outside conversions.
pub open spec fn transform_spec(c: CaseConvention, s: Seq<char>) -> Seq<char> {
    match c {
        CaseConvention::Default => s,
        CaseConvention::Lowercase => lower_of(s),
        CaseConvention::Uppercase => upper_of(s),
        CaseConvention::PascalCase => pascal_of(s),
        CaseConvention::CamelCase => camel_of(s),
        CaseConvention::SnakeCase => snake_of(s),
        CaseConvention::ScreamingSnakeCase => screaming_snake_of(s),
        CaseConvention::KebabCase => kebab_of(s),
        CaseConvention::ScreamingKebabCase => upper_of(kebab_of(s)),
    }
}

/// What `CaseConvention::parse` returns for a given configuration string.
pub open spec fn parse_spec(s: Seq<char>) -> CaseConvention {
    if s == "lowercase"@ {
        CaseConvention::Lowercase
    } else if s == "UPPERCASE"@ {
        CaseConvention::Uppercase
    } else if s == "PascalCase"@ {
        CaseConvention::PascalCase
    } else if s == "camelCase"@ {
        CaseConvention::CamelCase
    } else if s == "snake_case"@ {
        CaseConvention::SnakeCase
    } else if s == "SCREAMING_SNAKE_CASE"@ {
        CaseConvention::ScreamingSnakeCase
    } else if s == "kebab-case"@ {
        CaseConvention::KebabCase
    } else if s == "SCREAMING-KEBAB-CASE"@ {
        CaseConvention::ScreamingKebabCase
    } else {
        CaseConvention::Default
    }
}

/// Character-for-character equality of two string slices.
pub fn str_eq(a: &str, b: &str) -> (r: bool)
    ensures
        r == (a@ == b@),
{
    let alen = a.unicode_len();
    let blen = b.unicode_len();
    if alen != blen {
        proof {
            assert(a@.len() != b@.len());
        }
        return false;
    }
    let mut i: usize = 0;
    while i < alen
        invariant
            alen == a@.len(),
            alen == b@.len(),
            0 <= i <= alen,
            forall|j: int| 0 <= j < i ==> a@[j] == b@[j],
        decreases alen - i,
    {
        if a.get_char(i) != b.get_char(i) {
            proof {
                assert(a@[i as int] != b@[i as int]);
            }
            return false;
        }
        i = i + 1;
    }
    proof {
        assert(a@ =~= b@);
    }
    true
}

impl CaseConvention {
    /// Reads a convention from its configuration string; anything
    /// unrecognized leaves names untouched.
    pub fn parse(case: &str) -> (r: Self)
        ensures
            r == parse_spec(case@),
    {
        if str_eq(case, "lowercase") {
            CaseConvention::Lowercase
        } else if str_eq(case, "UPPERCASE") {
            CaseConvention::Uppercase
        } else if str_eq(case, "PascalCase") {
            CaseConvention::PascalCase
        } else if str_eq(case, "camelCase") {
            CaseConvention::CamelCase
        } else if str_eq(case, "snake_case") {
            CaseConvention::SnakeCase
        } else if str_eq(case, "SCREAMING_SNAKE_CASE") {
            CaseConvention::ScreamingSnakeCase
        } else if str_eq(case, "kebab-case") {
            CaseConvention::KebabCase
        } else if str_eq(case, "SCREAMING-KEBAB-CASE") {
            CaseConvention::ScreamingKebabCase
        } else {
            CaseConvention::Default
        }
    }

    /// Applies the convention to one name.
    pub fn transform(&self, input: &str) -> (r: String)
        ensures
            r@ == transform_spec(*self, input@),
    {
        match self {
            CaseConvention::Default => input.to_owned(),
            CaseConvention::Lowercase => to_lower(input),
            CaseConvention::Uppercase => to_upper(input),
            CaseConvention::PascalCase => to_pascal(input),
            CaseConvention::CamelCase => to_camel(input),
            CaseConvention::SnakeCase => to_snake(input),
            CaseConvention::ScreamingSnakeCase => to_screaming_snake(input),
            CaseConvention::KebabCase => to_kebab(input),
            CaseConvention::ScreamingKebabCase => {
                let k = to_kebab(input);
                to_upper(k.as_str())
            },
        }
    }
}

} // verus!
