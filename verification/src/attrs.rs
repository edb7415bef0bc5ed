//! Reading serde-style annotations that the reflection collaborator
//! collects on a type, a variant or a field. The collaborator hands each
//! annotation over as a plain directive; the rules applied to them live
//! here.

use vstd::prelude::*;

use crate::case::{parse_spec, CaseConvention};
use crate::error::ExportError;

verus! {

/// One serde-style annotation entry, as collected on a declaration.
#[derive(Clone, Debug)]
pub enum SerdeDirective {
    /// `skip`: exclude the annotated variant or field entirely.
    Skip,
    /// `rename_all = "case"`.
    RenameAll(String),
    /// `rename_all(serialize = "case")`.
    RenameAllSerialize(String),
    /// `rename_all(deserialize = "case")`.
    RenameAllDeserialize(String),
}

/// Whether a directive list marks its owner as skipped.
pub open spec fn has_skip(attrs: Seq<SerdeDirective>) -> bool {
    exists|i: int| 0 <= i < attrs.len() && attrs[i] is Skip
}

/// The naming convention a directive list settles on: the first plain
/// `rename_all` wins outright; otherwise the last `serialize` and
/// `deserialize` settings must agree; otherwise the names stay untouched.
pub open spec fn rename_all_spec(attrs: Seq<SerdeDirective>) -> Result<
    CaseConvention,
    ExportError,
>
    decreases attrs.len(),
{
    rename_all_rec(attrs, Option::None, Option::None)
}

pub open spec fn rename_all_rec(
    attrs: Seq<SerdeDirective>,
    ser: Option<CaseConvention>,
    des: Option<CaseConvention>,
) -> Result<CaseConvention, ExportError>
    decreases attrs.len(),
{
    if attrs.len() == 0 {
        match (ser, des) {
            (Option::Some(s), Option::Some(d)) => if s == d {
                Result::Ok(s)
            } else {
                Result::Err(ExportError::MismatchedCaseConvention)
            },
            (Option::None, Option::None) => Result::Ok(CaseConvention::Default),
            _ => Result::Err(ExportError::MismatchedCaseConvention),
        }
    } else {
        match attrs[0] {
            SerdeDirective::RenameAll(c) => Result::Ok(parse_spec(c@)),
            SerdeDirective::RenameAllSerialize(c) => rename_all_rec(
                attrs.drop_first(),
                Option::Some(parse_spec(c@)),
                des,
            ),
            SerdeDirective::RenameAllDeserialize(c) => rename_all_rec(
                attrs.drop_first(),
                ser,
                Option::Some(parse_spec(c@)),
            ),
            _ => rename_all_rec(attrs.drop_first(), ser, des),
        }
    }
}

/// True when any directive in the list is `skip`.
pub fn serde_skip(attrs: &Vec<SerdeDirective>) -> (r: bool)
    ensures
        r == has_skip(attrs@),
{
    let n = attrs.len();
    let mut i: usize = 0;
    while i < n
        invariant
            0 <= i <= n,
            n == attrs@.len(),
            forall|j: int| 0 <= j < i ==> !(attrs@[j] is Skip),
        decreases n - i,
    {
        if let SerdeDirective::Skip = &attrs[i] {
            return true;
        }
        i = i + 1;
    }
    false
}

/// Settles the naming convention declared by a directive list. The first
/// plain `rename_all` wins; split serialize/deserialize settings must
/// agree, and a disagreement (or a one-sided setting) is a configuration
/// error.
pub fn serde_rename_all(attrs: &Vec<SerdeDirective>) -> (r: Result<CaseConvention, ExportError>)
    ensures
        r == rename_all_spec(attrs@),
{
    let mut ser: Option<CaseConvention> = None;
    let mut des: Option<CaseConvention> = None;
    let n = attrs.len();
    let mut i: usize = 0;
    proof {
        assert(attrs@.subrange(0, n as int) =~= attrs@);
    }
    while i < n
        invariant
            0 <= i <= n,
            n == attrs@.len(),
            rename_all_rec(attrs@, Option::None, Option::None) == rename_all_rec(
                attrs@.subrange(i as int, n as int),
                ser,
                des,
            ),
        decreases n - i,
    {
        proof {
            assert(attrs@.subrange(i as int, n as int).drop_first() =~= attrs@.subrange(
                i + 1 as int,
                n as int,
            ));
            assert(attrs@.subrange(i as int, n as int)[0] == attrs@[i as int]);
        }
        match &attrs[i] {
            SerdeDirective::RenameAll(c) => {
                return Ok(CaseConvention::parse(c.as_str()));
            },
            SerdeDirective::RenameAllSerialize(c) => {
                ser = Some(CaseConvention::parse(c.as_str()));
            },
            SerdeDirective::RenameAllDeserialize(c) => {
                des = Some(CaseConvention::parse(c.as_str()));
            },
            SerdeDirective::Skip => {},
        }
        i = i + 1;
    }
    proof {
        assert(attrs@.subrange(n as int, n as int) =~= Seq::<SerdeDirective>::empty());
    }
    match (ser, des) {
        (Some(s), Some(d)) => if s == d {
            Ok(s)
        } else {
            Err(ExportError::MismatchedCaseConvention)
        },
        (None, None) => Ok(CaseConvention::Default),
        _ => Err(ExportError::MismatchedCaseConvention),
    }
}

} // verus!
