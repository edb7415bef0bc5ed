//! The TypeScript target: configuration, the import resolver, and the
//! final assembly of each output file's text.

use vstd::prelude::*;

use crate::burrmod::contains_id;
use crate::error::ExportError;
use crate::exporter::Burrxporter;
use crate::ir::{dup_item, item_field_ids, IrItem, TypeId};
use crate::path::TargetPath;
use crate::registry::Registry;
use crate::render::{TsExporter, TsFormatter};
use crate::tsfile::{dup_path, map_files, ModFileMap, TsFile};

verus! {

/// Identities reserved for the host language's builtin types; the
/// reflection collaborator assigns them when it hands items over, and
/// `with_std_remaps` maps them onto TypeScript primitives.
pub const ID_STR: u64 = 1;

pub const ID_CHAR: u64 = 2;

pub const ID_STRING: u64 = 3;

pub const ID_BOOL: u64 = 4;

pub const ID_USIZE: u64 = 5;

pub const ID_U8: u64 = 6;

pub const ID_U16: u64 = 7;

pub const ID_U32: u64 = 8;

pub const ID_U64: u64 = 9;

pub const ID_U128: u64 = 10;

pub const ID_ISIZE: u64 = 11;

pub const ID_I8: u64 = 12;

pub const ID_I16: u64 = 13;

pub const ID_I32: u64 = 14;

pub const ID_I64: u64 = 15;

pub const ID_I128: u64 = 16;

pub const ID_F32: u64 = 17;

pub const ID_F64: u64 = 18;

/// The builtin remap table: the reserved identity at one position, and
/// the TypeScript primitive it renders as.
pub open spec fn builtin_remap(k: int) -> (TypeId, Seq<char>) {
    if k == 0 {
        (TypeId(ID_STR), "string"@)
    } else if k == 1 {
        (TypeId(ID_CHAR), "string"@)
    } else if k == 2 {
        (TypeId(ID_STRING), "string"@)
    } else if k == 3 {
        (TypeId(ID_BOOL), "boolean"@)
    } else if k == 4 {
        (TypeId(ID_USIZE), "number"@)
    } else if k == 5 {
        (TypeId(ID_U8), "number"@)
    } else if k == 6 {
        (TypeId(ID_U16), "number"@)
    } else if k == 7 {
        (TypeId(ID_U32), "number"@)
    } else if k == 8 {
        (TypeId(ID_U64), "number"@)
    } else if k == 9 {
        (TypeId(ID_U128), "number"@)
    } else if k == 10 {
        (TypeId(ID_ISIZE), "number"@)
    } else if k == 11 {
        (TypeId(ID_I8), "number"@)
    } else if k == 12 {
        (TypeId(ID_I16), "number"@)
    } else if k == 13 {
        (TypeId(ID_I32), "number"@)
    } else if k == 14 {
        (TypeId(ID_I64), "number"@)
    } else if k == 15 {
        (TypeId(ID_I128), "number"@)
    } else if k == 16 {
        (TypeId(ID_F32), "number"@)
    } else {
        (TypeId(ID_F64), "number"@)
    }
}

/// Whether a name table ends with the whole builtin remap table appended
/// after a kept prefix.
pub open spec fn remaps_appended(pre: Seq<(TypeId, String)>, post: Seq<(TypeId, String)>) -> bool {
    &&& post.len() == pre.len() + 18
    &&& forall|k: int| 0 <= k < pre.len() ==> post[k] == pre[k]
    &&& forall|k: int|
        0 <= k < 18 ==> (#[trigger] post[pre.len() + k]).0 == builtin_remap(k).0
            && post[pre.len() + k].1@ == builtin_remap(k).1
}

/// One finished output: where the file goes and the text it holds.
#[derive(Debug)]
pub struct RenderedFile {
    pub target: TargetPath,
    pub content: String,
}

/// The TypeScript output target and its configuration.
#[derive(Debug)]
pub struct TypeScript {
    pub formatter: TsFormatter,
    pub mod_file_map: ModFileMap,
    /// Identities rendered as a fixed name instead of an import.
    pub type_map: Vec<(TypeId, String)>,
    /// Identities substituted by another identity when fields are named.
    pub type_overrides: Vec<(TypeId, TypeId)>,
}

impl Default for TypeScript {
    /// Pretty formatting, full decomposition, and no remaps at all.
    fn default() -> (r: TypeScript)
        ensures
            r.mod_file_map is DecomposeAll,
            r.type_map@.len() == 0,
            r.type_overrides@.len() == 0,
    {
        TypeScript {
            formatter: TsFormatter::pretty(),
            mod_file_map: ModFileMap::DecomposeAll,
            type_map: Vec::new(),
            type_overrides: Vec::new(),
        }
    }
}

impl TypeScript {
    /// A target with defaults matching common standards: pretty
    /// formatting, full decomposition, and the builtin remaps.
    pub fn new() -> (r: TypeScript)
        ensures
            r.mod_file_map is DecomposeAll,
            r.type_overrides@.len() == 0,
            remaps_appended(Seq::empty(), r.type_map@),
    {
        let mut t = TypeScript {
            formatter: TsFormatter::pretty(),
            mod_file_map: ModFileMap::DecomposeAll,
            type_map: Vec::new(),
            type_overrides: Vec::new(),
        };
        t.push_remaps();
        t
    }

    /// Maps the reserved builtin identities onto TypeScript's `string`,
    /// `boolean` and `number`.
    pub fn with_std_remaps(self) -> (r: TypeScript)
        ensures
            r.formatter == self.formatter,
            r.mod_file_map == self.mod_file_map,
            r.type_overrides == self.type_overrides,
            remaps_appended(self.type_map@, r.type_map@),
    {
        let mut t = self;
        t.push_remaps();
        t
    }

    fn push_remaps(&mut self)
        ensures
            final(self).formatter == old(self).formatter,
            final(self).mod_file_map == old(self).mod_file_map,
            final(self).type_overrides == old(self).type_overrides,
            remaps_appended(old(self).type_map@, final(self).type_map@),
    {
        self.type_map.push((TypeId(ID_STR), "string".to_owned()));
        self.type_map.push((TypeId(ID_CHAR), "string".to_owned()));
        self.type_map.push((TypeId(ID_STRING), "string".to_owned()));
        self.type_map.push((TypeId(ID_BOOL), "boolean".to_owned()));
        self.type_map.push((TypeId(ID_USIZE), "number".to_owned()));
        self.type_map.push((TypeId(ID_U8), "number".to_owned()));
        self.type_map.push((TypeId(ID_U16), "number".to_owned()));
        self.type_map.push((TypeId(ID_U32), "number".to_owned()));
        self.type_map.push((TypeId(ID_U64), "number".to_owned()));
        self.type_map.push((TypeId(ID_U128), "number".to_owned()));
        self.type_map.push((TypeId(ID_ISIZE), "number".to_owned()));
        self.type_map.push((TypeId(ID_I8), "number".to_owned()));
        self.type_map.push((TypeId(ID_I16), "number".to_owned()));
        self.type_map.push((TypeId(ID_I32), "number".to_owned()));
        self.type_map.push((TypeId(ID_I64), "number".to_owned()));
        self.type_map.push((TypeId(ID_I128), "number".to_owned()));
        self.type_map.push((TypeId(ID_F32), "number".to_owned()));
        self.type_map.push((TypeId(ID_F64), "number".to_owned()));
        proof {
            assert forall|k: int|
                0 <= k < 18 implies (#[trigger] self.type_map@[old(self).type_map@.len() + k]).0
                == builtin_remap(k).0 && self.type_map@[old(self).type_map@.len() + k].1@
                == builtin_remap(k).1 by {
            }
        }
    }

    /// Sets the exported name written for a given identity.
    pub fn with_type_name(self, id: TypeId, name: String) -> (r: TypeScript)
        ensures
            r.type_map@ == self.type_map@.push((id, name)),
            r.formatter == self.formatter,
            r.mod_file_map == self.mod_file_map,
            r.type_overrides == self.type_overrides,
    {
        let mut t = self;
        t.type_map.push((id, name));
        t
    }

    /// Substitutes one identity with another when fields are written.
    pub fn with_type_remap(self, from: TypeId, to: TypeId) -> (r: TypeScript)
        ensures
            r.type_overrides@ == self.type_overrides@.push((from, to)),
            r.formatter == self.formatter,
            r.mod_file_map == self.mod_file_map,
            r.type_map == self.type_map,
    {
        let mut t = self;
        t.type_overrides.push((from, to));
        t
    }

    /// Replaces the formatter.
    pub fn with_formatter(self, formatter: TsFormatter) -> (r: TypeScript)
        ensures
            r.formatter == formatter,
            r.mod_file_map == self.mod_file_map,
            r.type_map == self.type_map,
            r.type_overrides == self.type_overrides,
    {
        TypeScript { formatter, ..self }
    }

    /// Controls how modules are mapped to files.
    pub fn with_file_map(self, mod_file_map: ModFileMap) -> (r: TypeScript)
        ensures
            r.mod_file_map == mod_file_map,
            r.formatter == self.formatter,
            r.type_map == self.type_map,
            r.type_overrides == self.type_overrides,
    {
        TypeScript { mod_file_map, ..self }
    }
}

/// What a lookup among file assignments returns.
pub open spec fn path_get(es: Seq<(TypeId, TargetPath)>, id: TypeId) -> Option<TargetPath>
    decreases es.len(),
{
    if es.len() == 0 {
        Option::None
    } else if es[0].0 == id {
        Option::Some(es[0].1)
    } else {
        path_get(es.drop_first(), id)
    }
}

/// Finds the file assignment recorded for an identity.
fn lookup_path(es: &Vec<(TypeId, TargetPath)>, id: TypeId) -> (r: Option<usize>)
    ensures
        match r {
            Option::Some(idx) => idx < es@.len() && es@[idx as int].0 == id && path_get(es@, id)
                == Option::Some(es@[idx as int].1),
            Option::None => path_get(es@, id) is None,
        },
{
    let n = es.len();
    let mut i: usize = 0;
    proof {
        assert(es@.skip(0) =~= es@);
    }
    while i < n
        invariant
            0 <= i <= n,
            n == es@.len(),
            path_get(es@, id) == path_get(es@.skip(i as int), id),
        decreases n - i,
    {
        proof {
            assert(es@.skip(i as int)[0] == es@[i as int]);
            assert(es@.skip(i as int).drop_first() =~= es@.skip(i + 1 as int));
        }
        if es[i].0 == id {
            return Some(i);
        }
        i = i + 1;
    }
    None
}

/// Whether two planned files collide on one target location.
pub open spec fn plans_dup_path(plans: Seq<crate::tsfile::FilePlan>) -> bool {
    exists|i: int, j: int|
        0 <= i < j < plans.len() && (#[trigger] plans[i]).dirs == (#[trigger] plans[j]).dirs
            && plans[i].stem == plans[j].stem
}

/// Whether one identity is planned into two item positions.
pub open spec fn plans_dup_id(plans: Seq<crate::tsfile::FilePlan>) -> bool {
    exists|f1: int, k1: int, f2: int, k2: int|
        {
            &&& 0 <= f1 < plans.len()
            &&& 0 <= k1 < plans[f1].items.len()
            &&& 0 <= f2 < plans.len()
            &&& 0 <= k2 < plans[f2].items.len()
            &&& (f1 < f2 || (f1 == f2 && k1 < k2))
            &&& crate::ir::model_id(#[trigger] plans[f1].items[k1]) == crate::ir::model_id(
                #[trigger] plans[f2].items[k2],
            )
        }
}

/// The mapped files and their plans agree on path collisions.
pub proof fn lemma_dup_path_bridge(files: Seq<TsFile>)
    requires
        forall|w: int| 0 <= w < files.len() ==> (#[trigger] files[w]).target.ext@ == "ts"@,
    ensures
        dup_path_exists(files) <==> plans_dup_path(crate::tsfile::plans_of(files)),
{
    let plans = crate::tsfile::plans_of(files);
    if dup_path_exists(files) {
        let (i, j) = choose|i: int, j: int|
            0 <= i < j < files.len() && (#[trigger] files[i]).target.model() == (
            #[trigger] files[j]).target.model();
        assert(plans[i] == files[i].plan());
        assert(plans[j] == files[j].plan());
        assert((#[trigger] plans[i]).dirs == (#[trigger] plans[j]).dirs && plans[i].stem
            == plans[j].stem);
    }
    if plans_dup_path(plans) {
        let (i, j) = choose|i: int, j: int|
            0 <= i < j < plans.len() && (#[trigger] plans[i]).dirs == (#[trigger] plans[j]).dirs
                && plans[i].stem == plans[j].stem;
        assert(plans[i] == files[i].plan());
        assert(plans[j] == files[j].plan());
        assert((#[trigger] files[i]).target.model() == (#[trigger] files[j]).target.model());
    }
}

/// The mapped files and their plans agree on duplicated identities.
pub proof fn lemma_dup_id_bridge(files: Seq<TsFile>)
    ensures
        dup_id_exists(files) <==> plans_dup_id(crate::tsfile::plans_of(files)),
{
    let plans = crate::tsfile::plans_of(files);
    if dup_id_exists(files) {
        let (f1, k1, f2, k2) = choose|f1: int, k1: int, f2: int, k2: int|
            {
                &&& 0 <= f1 < files.len()
                &&& 0 <= k1 < files[f1].items@.len()
                &&& 0 <= f2 < files.len()
                &&& 0 <= k2 < files[f2].items@.len()
                &&& (f1 < f2 || (f1 == f2 && k1 < k2))
                &&& (#[trigger] files[f1].items@[k1]).spec_type_id() == (
                #[trigger] files[f2].items@[k2]).spec_type_id()
            };
        assert(plans[f1] == files[f1].plan());
        assert(plans[f2] == files[f2].plan());
        assert(plans[f1].items[k1] == files[f1].items@[k1].model());
        assert(plans[f2].items[k2] == files[f2].items@[k2].model());
        crate::ir::lemma_model_id(files[f1].items@[k1]);
        crate::ir::lemma_model_id(files[f2].items@[k2]);
        assert(crate::ir::model_id(#[trigger] plans[f1].items[k1]) == crate::ir::model_id(
            #[trigger] plans[f2].items[k2],
        ));
    }
    if plans_dup_id(plans) {
        let (f1, k1, f2, k2) = choose|f1: int, k1: int, f2: int, k2: int|
            {
                &&& 0 <= f1 < plans.len()
                &&& 0 <= k1 < plans[f1].items.len()
                &&& 0 <= f2 < plans.len()
                &&& 0 <= k2 < plans[f2].items.len()
                &&& (f1 < f2 || (f1 == f2 && k1 < k2))
                &&& crate::ir::model_id(#[trigger] plans[f1].items[k1]) == crate::ir::model_id(
                    #[trigger] plans[f2].items[k2],
                )
            };
        assert(plans[f1] == files[f1].plan());
        assert(plans[f2] == files[f2].plan());
        assert(plans[f1].items[k1] == files[f1].items@[k1].model());
        assert(plans[f2].items[k2] == files[f2].items@[k2].model());
        crate::ir::lemma_model_id(files[f1].items@[k1]);
        crate::ir::lemma_model_id(files[f2].items@[k2]);
        assert((#[trigger] files[f1].items@[k1]).spec_type_id() == (
        #[trigger] files[f2].items@[k2]).spec_type_id());
    }
}

/// Whether two mapped files collide on one target path.
pub open spec fn dup_path_exists(files: Seq<TsFile>) -> bool {
    exists|i: int, j: int|
        0 <= i < j < files.len() && (#[trigger] files[i]).target.model() == (
        #[trigger] files[j]).target.model()
}

/// Whether one identity is assigned to two item positions.
pub open spec fn dup_id_exists(files: Seq<TsFile>) -> bool {
    exists|f1: int, k1: int, f2: int, k2: int|
        {
            &&& 0 <= f1 < files.len()
            &&& 0 <= k1 < files[f1].items@.len()
            &&& 0 <= f2 < files.len()
            &&& 0 <= k2 < files[f2].items@.len()
            &&& (f1 < f2 || (f1 == f2 && k1 < k2))
            &&& (#[trigger] files[f1].items@[k1]).spec_type_id() == (
            #[trigger] files[f2].items@[k2]).spec_type_id()
        }
}

/// Builds the run's export maps: which item stands behind each exported
/// identity, and which file each identity is written to. Colliding
/// target paths and types assigned to two files are refused, never
/// silently merged.
#[verifier::rlimit(100)]
pub fn build_type_maps(files: &Vec<TsFile>) -> (r: Result<
    (Registry, Vec<(TypeId, TargetPath)>),
    ExportError,
>)
    ensures
        match r {
            Result::Ok(maps) => {
                &&& !dup_path_exists(files@)
                &&& !dup_id_exists(files@)
                &&& maps.0.wf()
                &&& forall|f: int, k: int|
                    0 <= f < files@.len() && 0 <= k < files@[f].items@.len()
                        ==> maps.0.spec_contains(
                        (#[trigger] files@[f].items@[k]).spec_type_id(),
                    )
                &&& forall|f: int, k: int|
                    0 <= f < files@.len() && 0 <= k < files@[f].items@.len()
                        ==> crate::registry::table_get(
                        maps.0.entries@,
                        (#[trigger] files@[f].items@[k]).spec_type_id(),
                    )->Some_0.model() == files@[f].items@[k].model()
                &&& forall|id: TypeId|
                    #[trigger] maps.0.spec_contains(id) ==> exists|f: int, k: int|
                        0 <= f < files@.len() && 0 <= k < files@[f].items@.len() && (
                        #[trigger] files@[f].items@[k]).spec_type_id() == id
                &&& forall|f: int, k: int|
                    0 <= f < files@.len() && 0 <= k < files@[f].items@.len() ==> (
                    match path_get(maps.1@, (#[trigger] files@[f].items@[k]).spec_type_id()) {
                        Option::Some(t) => t.model() == files@[f].target.model(),
                        Option::None => false,
                    })
                &&& forall|v: int|
                    0 <= v < maps.1@.len() ==> maps.0.spec_contains(
                        (#[trigger] maps.1@[v]).0,
                    )
                &&& forall|v1: int, v2: int|
                    0 <= v1 < v2 < maps.1@.len() ==> (#[trigger] maps.1@[v1]).0 != (
                    #[trigger] maps.1@[v2]).0
            },
            Result::Err(e) => match e {
                ExportError::DuplicateExport { name } => dup_path_exists(files@)
                    || dup_id_exists(files@),
                _ => false,
            },
        },
{
    let mut reg = Registry::new();
    let mut tex: Vec<(TypeId, TargetPath)> = Vec::new();
    let fnum = files.len();
    let mut f: usize = 0;
    while f < fnum
        invariant
            0 <= f <= fnum,
            fnum == files@.len(),
            reg.wf(),
            forall|i: int, j: int|
                0 <= i < j < f ==> (#[trigger] files@[i]).target.model() != (
                #[trigger] files@[j]).target.model(),
            forall|f2: int, k2: int|
                0 <= f2 < f && 0 <= k2 < files@[f2].items@.len() ==> reg.spec_contains(
                    (#[trigger] files@[f2].items@[k2]).spec_type_id(),
                ),
            forall|f2: int, k2: int|
                0 <= f2 < f && 0 <= k2 < files@[f2].items@.len()
                    ==> crate::registry::table_get(
                    reg.entries@,
                    (#[trigger] files@[f2].items@[k2]).spec_type_id(),
                )->Some_0.model() == files@[f2].items@[k2].model(),
            forall|id: TypeId|
                #[trigger] crate::registry::table_contains(reg.entries@, id) ==> exists|f2: int, k2: int|
                    0 <= f2 < f && 0 <= k2 < files@[f2].items@.len() && (
                    #[trigger] files@[f2].items@[k2]).spec_type_id() == id,
            forall|f1: int, k1: int, f2: int, k2: int|
                {
                    &&& 0 <= f1 < f
                    &&& 0 <= k1 < files@[f1].items@.len()
                    &&& 0 <= f2 < f
                    &&& 0 <= k2 < files@[f2].items@.len()
                    &&& (f1 < f2 || (f1 == f2 && k1 < k2))
                } ==> (#[trigger] files@[f1].items@[k1]).spec_type_id() != (
                #[trigger] files@[f2].items@[k2]).spec_type_id(),
            forall|f2: int, k2: int|
                0 <= f2 < f && 0 <= k2 < files@[f2].items@.len() ==> (match path_get(
                    tex@,
                    (#[trigger] files@[f2].items@[k2]).spec_type_id(),
                ) {
                    Option::Some(t) => t.model() == files@[f2].target.model(),
                    Option::None => false,
                }),
            forall|v: int| 0 <= v < tex@.len() ==> reg.spec_contains((#[trigger] tex@[v]).0),
            forall|v1: int, v2: int|
                0 <= v1 < v2 < tex@.len() ==> (#[trigger] tex@[v1]).0 != (#[trigger] tex@[v2]).0,
        decreases fnum - f,
    {
        // refuse a target path already claimed by an earlier file
        let mut pf: usize = 0;
        while pf < f
            invariant
                0 <= pf <= f < fnum,
                fnum == files@.len(),
                forall|i: int|
                    0 <= i < pf ==> (#[trigger] files@[i]).target.model()
                        != files@[f as int].target.model(),
            decreases f - pf,
        {
            if files[pf].target.same_as(&files[f].target) {
                proof {
                    assert(dup_path_exists(files@)) by {
                        assert((#[trigger] files@[pf as int]).target.model() == (
                        #[trigger] files@[f as int]).target.model());
                    }
                }
                return Err(
                    ExportError::DuplicateExport { name: files[f].target.to_slash() },
                );
            }
            pf = pf + 1;
        }
        let knum = files[f].items.len();
        let mut k: usize = 0;
        while k < knum
            invariant
                0 <= k <= knum,
                0 <= f < fnum,
                fnum == files@.len(),
                knum == files@[f as int].items@.len(),
                reg.wf(),
                forall|f2: int, k2: int|
                    (0 <= f2 < f && 0 <= k2 < files@[f2].items@.len()) || (f2 == f && 0 <= k2
                        < k) ==> reg.spec_contains(
                        (#[trigger] files@[f2].items@[k2]).spec_type_id(),
                    ),
                forall|f2: int, k2: int|
                    (0 <= f2 < f && 0 <= k2 < files@[f2].items@.len()) || (f2 == f && 0 <= k2
                        < k) ==> crate::registry::table_get(
                        reg.entries@,
                        (#[trigger] files@[f2].items@[k2]).spec_type_id(),
                    )->Some_0.model() == files@[f2].items@[k2].model(),
                forall|id: TypeId|
                    #[trigger] crate::registry::table_contains(reg.entries@, id) ==> exists|
                        f2: int,
                        k2: int,
                    |
                        ((0 <= f2 < f && 0 <= k2 < files@[f2].items@.len()) || (f2 == f && 0
                            <= k2 < k)) && (#[trigger] files@[f2].items@[k2]).spec_type_id()
                            == id,
                forall|f1: int, k1: int, f2: int, k2: int|
                    {
                        &&& ((0 <= f1 < f && 0 <= k1 < files@[f1].items@.len()) || (f1 == f && 0
                            <= k1 < k))
                        &&& ((0 <= f2 < f && 0 <= k2 < files@[f2].items@.len()) || (f2 == f && 0
                            <= k2 < k))
                        &&& (f1 < f2 || (f1 == f2 && k1 < k2))
                    } ==> (#[trigger] files@[f1].items@[k1]).spec_type_id() != (
                    #[trigger] files@[f2].items@[k2]).spec_type_id(),
                forall|f2: int, k2: int|
                    (0 <= f2 < f && 0 <= k2 < files@[f2].items@.len()) || (f2 == f && 0 <= k2
                        < k) ==> (match path_get(
                        tex@,
                        (#[trigger] files@[f2].items@[k2]).spec_type_id(),
                    ) {
                        Option::Some(t) => t.model() == files@[f2].target.model(),
                        Option::None => false,
                    }),
                forall|v: int| 0 <= v < tex@.len() ==> reg.spec_contains((#[trigger] tex@[v]).0),
                forall|v1: int, v2: int|
                    0 <= v1 < v2 < tex@.len() ==> (#[trigger] tex@[v1]).0 != (
                    #[trigger] tex@[v2]).0,
            decreases knum - k,
        {
            let item = &files[f].items[k];
            let id = item.type_id();
            if reg.contains(id) {
                proof {
                    // the identity was registered for an earlier position
                    assert(crate::registry::table_contains(reg.entries@, id));
                    let (f2, k2) = choose|f2: int, k2: int|
                        ((0 <= f2 < f && 0 <= k2 < files@[f2].items@.len()) || (f2 == f && 0
                            <= k2 < k)) && (#[trigger] files@[f2].items@[k2]).spec_type_id()
                            == id;
                    assert(files@[f2].items@[k2].spec_type_id() == files@[f as int].items@[
                        k as int].spec_type_id());
                    assert(dup_id_exists(files@));
                }
                return Err(ExportError::DuplicateExport { name: item.name() });
            }
            let ghost tex0 = tex@;
            let ghost reg0 = reg.entries@;
            let d = dup_item(item);
            let ghost dmodel = d;
            reg.insert(d);
            let tpath = dup_path(&files[f].target);
            let ghost tp = tpath;
            tex.push((id, tpath));
            proof {
                assert(reg.entries@ == reg0.push((id, dmodel)));
                assert forall|k3: TypeId|
                    crate::registry::table_contains(reg0, k3) || k3 == id
                        implies #[trigger] reg.spec_contains(k3) by {
                    crate::registry::lemma_get_push(reg0, id, dmodel, k3);
                }
                assert forall|k3: TypeId|
                    #[trigger] reg.spec_contains(k3)
                        implies crate::registry::table_contains(reg0, k3) || k3 == id by {
                    crate::registry::lemma_get_push(reg0, id, dmodel, k3);
                }
                assert(reg.spec_contains(id));
                assert forall|id2: TypeId|
                    #[trigger] crate::registry::table_contains(reg.entries@, id2) implies exists|
                    f2: int,
                    k2: int,
                |
                    ((0 <= f2 < f && 0 <= k2 < files@[f2].items@.len()) || (f2 == f && 0 <= k2
                        < k + 1)) && (#[trigger] files@[f2].items@[k2]).spec_type_id() == id2
                by {
                    assert(reg.spec_contains(id2));
                    if id2 == id {
                        assert(((0 <= (f as int) < f && false) || ((f as int) == f && 0 <= (
                        k as int) < k + 1)) && files@[f as int].items@[k as int].spec_type_id()
                            == id2);
                    } else {
                        assert(crate::registry::table_contains(reg0, id2));
                        let (f2, k2) = choose|f2: int, k2: int|
                            ((0 <= f2 < f && 0 <= k2 < files@[f2].items@.len()) || (f2 == f
                                && 0 <= k2 < k)) && (
                            #[trigger] files@[f2].items@[k2]).spec_type_id() == id2;
                        assert(((0 <= f2 < f && 0 <= k2 < files@[f2].items@.len()) || (f2 == f
                            && 0 <= k2 < k + 1)) && files@[f2].items@[k2].spec_type_id()
                            == id2);
                    }
                }
                assert(crate::registry::table_get(reg.entries@, id)->Some_0.model()
                    == files@[f as int].items@[k as int].model()) by {
                    crate::registry::lemma_get_push(reg0, id, dmodel, id);
                    assert(dmodel.model() == files@[f as int].items@[k as int].model());
                }
                assert forall|k3: TypeId|
                    crate::registry::table_contains(reg0, k3) implies #[trigger]
                    crate::registry::table_get(reg.entries@, k3) == crate::registry::table_get(
                    reg0,
                    k3,
                ) by {
                    crate::registry::lemma_get_push(reg0, id, dmodel, k3);
                }
                assert forall|v: int|
                    0 <= v < tex@.len() implies reg.spec_contains((#[trigger] tex@[v]).0) by {
                    if v < tex0.len() {
                        assert(tex@[v] == tex0[v]);
                        crate::registry::lemma_get_push(reg0, id, dmodel, tex0[v].0);
                    }
                }
                assert(tex@ =~= tex0.push((id, tp)));
                assert forall|v1: int, v2: int|
                    0 <= v1 < v2 < tex@.len() implies (#[trigger] tex@[v1]).0 != (
                #[trigger] tex@[v2]).0 by {
                    if v2 == tex@.len() - 1 {
                        assert(tex@[v1] == tex0[v1]);
                        assert(crate::registry::table_contains(reg0, tex0[v1].0));
                    }
                }
                lemma_path_get_push_one(tex0, id, tp, id);
                if path_get(tex0, id) is Some {
                    let v = lemma_path_get_index(tex0, id);
                    assert(crate::registry::table_contains(reg0, tex0[v].0));
                    assert(false);
                }
                assert(path_get(tex@, id) == Option::Some(tp));
                assert forall|f2: int, k2: int|
                    (0 <= f2 < f && 0 <= k2 < files@[f2].items@.len()) || (f2 == f && 0 <= k2
                        < k + 1) implies (match path_get(
                        tex@,
                        (#[trigger] files@[f2].items@[k2]).spec_type_id(),
                    ) {
                        Option::Some(t) => t.model() == files@[f2].target.model(),
                        Option::None => false,
                    }) by {
                    let kid = files@[f2].items@[k2].spec_type_id();
                    lemma_path_get_push_one(tex0, id, tp, kid);
                }
            }
            k = k + 1;
        }
        f = f + 1;
    }
    proof {
        if dup_path_exists(files@) {
            assert(false);
        }
        if dup_id_exists(files@) {
            assert(false);
        }
        assert forall|id: TypeId|
            #[trigger] reg.spec_contains(id) implies exists|f2: int, k2: int|
            0 <= f2 < files@.len() && 0 <= k2 < files@[f2].items@.len() && (
            #[trigger] files@[f2].items@[k2]).spec_type_id() == id by {
            assert(crate::registry::table_contains(reg.entries@, id));
        }
    }
    Ok((reg, tex))
}

/// Appending a fresh assignment keeps every earlier lookup, and resolves
/// the new identity when it was absent.
pub proof fn lemma_path_get_push_one(
    es: Seq<(TypeId, TargetPath)>,
    id: TypeId,
    t: TargetPath,
    k: TypeId,
)
    ensures
        path_get(es.push((id, t)), k) == if path_get(es, k) is Some {
            path_get(es, k)
        } else if k == id {
            Option::Some(t)
        } else {
            Option::<TargetPath>::None
        },
    decreases es.len(),
{
    let p = es.push((id, t));
    if es.len() == 0 {
        assert(p[0] == (id, t));
        assert(p.drop_first() =~= Seq::<(TypeId, TargetPath)>::empty());
        if k == id {
            assert(path_get(p, k) == Option::Some(t));
        } else {
            assert(path_get(p, k) == path_get(p.drop_first(), k));
        }
    } else {
        assert(p[0] == es[0]);
        assert(p.drop_first() =~= es.drop_first().push((id, t)));
        lemma_path_get_push_one(es.drop_first(), id, t, k);
    }
}

/// A resolvable identity is the key of some assignment.
pub proof fn lemma_path_get_index(es: Seq<(TypeId, TargetPath)>, id: TypeId) -> (v: int)
    requires
        path_get(es, id) is Some,
    ensures
        0 <= v < es.len(),
        es[v].0 == id,
    decreases es.len(),
{
    if es[0].0 == id {
        0
    } else {
        let w = lemma_path_get_index(es.drop_first(), id);
        assert(es.drop_first()[w] == es[w + 1]);
        w + 1
    }
}


/// Every identity referenced by a field of any item in a list, in order.
pub open spec fn items_field_ids(items: Seq<IrItem>) -> Seq<TypeId>
    decreases items.len(),
{
    if items.len() == 0 {
        Seq::empty()
    } else {
        items_field_ids(items.drop_last()) + item_field_ids(items.last())
    }
}

/// One import group as a mathematical value: the owning file's path and
/// the identities imported from it.
pub struct GroupModel {
    pub target: (Seq<Seq<char>>, Seq<char>, Seq<char>),
    pub ids: Seq<TypeId>,
}

pub open spec fn groups_model(gs: Seq<(TargetPath, Vec<TypeId>)>) -> Seq<GroupModel> {
    gs.map_values(|g: (TargetPath, Vec<TypeId>)| GroupModel { target: g.0.model(), ids: g.1@ })
}

/// The first group already opened for an owning file.
pub open spec fn find_group_spec(
    gs: Seq<GroupModel>,
    tm: (Seq<Seq<char>>, Seq<char>, Seq<char>),
) -> Option<int>
    decreases gs.len(),
{
    if gs.len() == 0 {
        Option::None
    } else if gs[0].target == tm {
        Option::Some(0)
    } else {
        match find_group_spec(gs.drop_first(), tm) {
            Option::None => Option::None,
            Option::Some(i) => Option::Some(i + 1),
        }
    }
}

pub proof fn lemma_find_group_char(
    gs: Seq<GroupModel>,
    tm: (Seq<Seq<char>>, Seq<char>, Seq<char>),
    k: int,
)
    requires
        0 <= k <= gs.len(),
        forall|j: int| 0 <= j < k ==> (#[trigger] gs[j]).target != tm,
        k < gs.len() ==> gs[k].target == tm,
    ensures
        k < gs.len() ==> find_group_spec(gs, tm) == Option::Some(k),
        k == gs.len() ==> find_group_spec(gs, tm) is None,
    decreases gs.len(),
{
    if gs.len() == 0 {
    } else if k == 0 {
        if gs.len() > 0 && gs[0].target != tm {
            assert forall|j: int|
                0 <= j < gs.drop_first().len() implies (#[trigger] gs.drop_first()[j]).target
                != tm by {
                assert(gs.drop_first()[j] == gs[j + 1]);
            }
            lemma_find_group_char(gs.drop_first(), tm, gs.drop_first().len() as int);
        }
    } else {
        assert(gs[0].target != tm);
        assert forall|j: int|
            0 <= j < k - 1 implies (#[trigger] gs.drop_first()[j]).target != tm by {
            assert(gs.drop_first()[j] == gs[j + 1]);
        }
        assert(k - 1 < gs.drop_first().len() ==> gs.drop_first()[k - 1].target == tm);
        lemma_find_group_char(gs.drop_first(), tm, k - 1);
    }
}

/// What one referenced identity does to the group list: nothing for a
/// builtin or a locally owned type; otherwise it joins its owner's group,
/// opened at the end if absent, each identity at most once.
pub open spec fn group_step(
    gs: Seq<GroupModel>,
    tex: Seq<(TypeId, TargetPath)>,
    selfm: (Seq<Seq<char>>, Seq<char>, Seq<char>),
    id: TypeId,
) -> Seq<GroupModel> {
    match path_get(tex, id) {
        Option::None => gs,
        Option::Some(t) => if t.model() == selfm {
            gs
        } else {
            match find_group_spec(gs, t.model()) {
                Option::None => gs.push(GroupModel { target: t.model(), ids: seq![id] }),
                Option::Some(g) => if gs[g].ids.contains(id) {
                    gs
                } else {
                    gs.update(g, GroupModel { target: t.model(), ids: gs[g].ids.push(id) })
                },
            }
        },
    }
}

/// The group list a file's references build, processed in order.
pub open spec fn build_groups_spec(
    tex: Seq<(TypeId, TargetPath)>,
    selfm: (Seq<Seq<char>>, Seq<char>, Seq<char>),
    ids: Seq<TypeId>,
) -> Seq<GroupModel>
    decreases ids.len(),
{
    if ids.len() == 0 {
        Seq::empty()
    } else {
        group_step(build_groups_spec(tex, selfm, ids.drop_last()), tex, selfm, ids.last())
    }
}

impl TsExporter {
    /// Groups the external types a file references by the file that owns
    /// each: one group per distinct owning file, each holding the
    /// referenced identities once. References owned by the file itself
    /// need no import and never form a group, so no file imports from its
    /// own target path; identities the assignment map does not know are
    /// builtins and resolve by name instead.
    pub fn build_import_groups(&self, file: &TsFile) -> (r: Vec<(TargetPath, Vec<TypeId>)>)
        ensures
            forall|g: int|
                0 <= g < r@.len() ==> (#[trigger] r@[g]).0.model() != file.target.model(),
            forall|g: int, v: int|
                0 <= g < r@.len() && 0 <= v < r@[g].1@.len() ==> (match path_get(
                    self.type_exports@,
                    (#[trigger] r@[g].1@[v]),
                ) {
                    Option::Some(t) => t.model() == r@[g].0.model(),
                    Option::None => false,
                }),
            forall|g: int, v1: int, v2: int|
                0 <= g < r@.len() && 0 <= v1 < v2 < r@[g].1@.len() ==> (#[trigger] r@[g].1@[v1])
                    != (#[trigger] r@[g].1@[v2]),
            forall|g1: int, g2: int|
                0 <= g1 < g2 < r@.len() ==> (#[trigger] r@[g1]).0.model() != (
                #[trigger] r@[g2]).0.model(),
            forall|id: TypeId|
                items_field_ids(file.items@).contains(id) && path_get(self.type_exports@, id)
                    is Some && path_get(self.type_exports@, id)->Some_0.model()
                    != file.target.model() ==> exists|g: int|
                    0 <= g < r@.len() && (#[trigger] r@[g]).1@.contains(id),
            groups_model(r@) == build_groups_spec(
                self.type_exports@,
                file.target.model(),
                items_field_ids(file.items@),
            ),
    {
        // collect every referenced identity
        let mut field_ids: Vec<TypeId> = Vec::new();
        let inum = file.items.len();
        let mut i: usize = 0;
        while i < inum
            invariant
                0 <= i <= inum,
                inum == file.items@.len(),
                field_ids@ == items_field_ids(file.items@.subrange(0, i as int)),
            decreases inum - i,
        {
            let mut v = file.items[i].all_field_types();
            let ghost v0 = v@;
            field_ids.append(&mut v);
            proof {
                let sub1 = file.items@.subrange(0, i + 1 as int);
                assert(sub1.drop_last() =~= file.items@.subrange(0, i as int));
                assert(sub1.last() == file.items@[i as int]);
                assert(field_ids@ =~= items_field_ids(sub1));
            }
            i = i + 1;
        }
        proof {
            assert(file.items@.subrange(0, inum as int) =~= file.items@);
        }
        // group them by owning file, skipping self-references
        let mut groups: Vec<(TargetPath, Vec<TypeId>)> = Vec::new();
        let n = field_ids.len();
        let mut w: usize = 0;
        proof {
            assert(field_ids@.subrange(0, 0) =~= Seq::<TypeId>::empty());
            assert(groups_model(groups@) =~= Seq::<GroupModel>::empty());
        }
        while w < n
            invariant
                0 <= w <= n,
                n == field_ids@.len(),
                field_ids@ == items_field_ids(file.items@),
                groups_model(groups@) == build_groups_spec(
                    self.type_exports@,
                    file.target.model(),
                    field_ids@.subrange(0, w as int),
                ),
                forall|g: int|
                    0 <= g < groups@.len() ==> (#[trigger] groups@[g]).0.model()
                        != file.target.model(),
                forall|g: int, v: int|
                    0 <= g < groups@.len() && 0 <= v < groups@[g].1@.len() ==> (match path_get(
                        self.type_exports@,
                        (#[trigger] groups@[g].1@[v]),
                    ) {
                        Option::Some(t) => t.model() == groups@[g].0.model(),
                        Option::None => false,
                    }),
                forall|g: int, v1: int, v2: int|
                    0 <= g < groups@.len() && 0 <= v1 < v2 < groups@[g].1@.len() ==> (
                    #[trigger] groups@[g].1@[v1]) != (#[trigger] groups@[g].1@[v2]),
                forall|g1: int, g2: int|
                    0 <= g1 < g2 < groups@.len() ==> (#[trigger] groups@[g1]).0.model() != (
                    #[trigger] groups@[g2]).0.model(),
                forall|id: TypeId|
                    field_ids@.subrange(0, w as int).contains(id) && path_get(
                        self.type_exports@,
                        id,
                    ) is Some && path_get(self.type_exports@, id)->Some_0.model()
                        != file.target.model() ==> exists|g: int|
                        0 <= g < groups@.len() && (#[trigger] groups@[g]).1@.contains(id),
            decreases n - w,
        {
            let id = field_ids[w];
            let ghost groups0 = groups@;
            let ghost gm0 = groups_model(groups@);
            let ghost selfm = file.target.model();
            proof {
                assert(field_ids@.subrange(0, w + 1 as int).drop_last() =~= field_ids@.subrange(
                    0,
                    w as int,
                ));
                assert(field_ids@.subrange(0, w + 1 as int).last() == field_ids@[w as int]);
            }
            match lookup_path(&self.type_exports, id) {
                None => {
                    proof {
                        assert(groups_model(groups@) == build_groups_spec(
                            self.type_exports@,
                            selfm,
                            field_ids@.subrange(0, w + 1 as int),
                        ));
                    }
                },
                Some(idx) => {
                    let owner = &self.type_exports[idx].1;
                    if !owner.same_as(&file.target) {
                        let ghost tm = owner.model();
                        // find this owner's group, or open one
                        let gn = groups.len();
                        let mut gi: usize = 0;
                        let mut found = false;
                        while gi < gn && !found
                            invariant
                                0 <= gi <= gn,
                                gn == groups@.len(),
                                groups@ == groups0,
                                found ==> gi < gn && groups@[gi as int].0.model() == owner.model(),
                                !found ==> forall|g: int|
                                    0 <= g < gi ==> (#[trigger] groups@[g]).0.model()
                                        != owner.model(),
                            decreases gn - gi + (if found { 0int } else { 1int }),
                        {
                            if groups[gi].0.same_as(owner) {
                                found = true;
                            } else {
                                gi = gi + 1;
                            }
                        }
                        if found {
                            let mut grp = groups.remove(gi);
                            if !contains_id(&grp.1, id) {
                                let ghost ids0 = grp.1@;
                                grp.1.push(id);
                                proof {
                                    assert forall|v1: int, v2: int|
                                        0 <= v1 < v2 < grp.1@.len() implies (
                                    #[trigger] grp.1@[v1]) != (#[trigger] grp.1@[v2]) by {
                                        if v2 == grp.1@.len() - 1 {
                                            assert(grp.1@[v1] == ids0[v1]);
                                            assert(ids0.contains(ids0[v1]));
                                        }
                                    }
                                }
                            }
                            let ghost grp2 = grp;
                            groups.insert(gi, grp);
                            proof {
                                assert(groups@ =~= groups0.update(gi as int, grp2));
                                assert(grp2.1@.contains(id)) by {
                                    if grp2.1@ == groups0[gi as int].1@ {
                                        assert(groups0[gi as int].1@.contains(id));
                                    } else {
                                        assert(grp2.1@.last() == id);
                                    }
                                }
                                assert(groups@[gi as int].1@.contains(id));
                                // the model matches the specified step
                                assert forall|j: int|
                                    0 <= j < gi implies (#[trigger] gm0[j]).target != tm by {
                                    assert(gm0[j].target == groups0[j].0.model());
                                }
                                assert(gm0[gi as int].target == tm);
                                lemma_find_group_char(gm0, tm, gi as int);
                                assert(gm0[gi as int].ids == groups0[gi as int].1@);
                                if grp2.1@ == groups0[gi as int].1@ {
                                    assert(grp2.0 == groups0[gi as int].0);
                                    assert forall|j: int|
                                        0 <= j < groups_model(groups@).len() implies
                                        #[trigger] groups_model(groups@)[j] == group_step(
                                        gm0,
                                        self.type_exports@,
                                        selfm,
                                        id,
                                    )[j] by {
                                        assert(groups_model(groups@)[j] == GroupModel {
                                            target: groups@[j].0.model(),
                                            ids: groups@[j].1@,
                                        });
                                    }
                                    assert(groups_model(groups@) =~= group_step(
                                        gm0,
                                        self.type_exports@,
                                        selfm,
                                        id,
                                    ));
                                } else {
                                    assert(grp2.0 == groups0[gi as int].0);
                                    assert(grp2.1@ == groups0[gi as int].1@.push(id));
                                    assert forall|j: int|
                                        0 <= j < groups_model(groups@).len() implies
                                        #[trigger] groups_model(groups@)[j] == group_step(
                                        gm0,
                                        self.type_exports@,
                                        selfm,
                                        id,
                                    )[j] by {
                                        assert(groups_model(groups@)[j] == GroupModel {
                                            target: groups@[j].0.model(),
                                            ids: groups@[j].1@,
                                        });
                                        if j != gi {
                                            assert(groups@[j] == groups0[j]);
                                            assert(gm0[j] == GroupModel {
                                                target: groups0[j].0.model(),
                                                ids: groups0[j].1@,
                                            });
                                        }
                                    }
                                    assert(groups_model(groups@) =~= group_step(
                                        gm0,
                                        self.type_exports@,
                                        selfm,
                                        id,
                                    ));
                                }
                                assert(groups_model(groups@) == build_groups_spec(
                                    self.type_exports@,
                                    selfm,
                                    field_ids@.subrange(0, w + 1 as int),
                                ));
                            }
                        } else {
                            let mut ids: Vec<TypeId> = Vec::new();
                            ids.push(id);
                            let tcopy = dup_path(owner);
                            groups.push((tcopy, ids));
                            proof {
                                assert(groups@.last().1@.contains(id)) by {
                                    assert(groups@.last().1@[0] == id);
                                }
                                assert(groups@[groups@.len() - 1].1@.contains(id));
                                // the model matches the specified step
                                assert forall|j: int|
                                    0 <= j < gm0.len() implies (#[trigger] gm0[j]).target != tm
                                by {
                                    assert(gm0[j].target == groups0[j].0.model());
                                }
                                lemma_find_group_char(gm0, tm, gm0.len() as int);
                                assert(groups@.last().1@ =~= seq![id]);
                                assert(groups@.last().0.model() == tm);
                                assert forall|j: int|
                                    0 <= j < groups_model(groups@).len() implies
                                    #[trigger] groups_model(groups@)[j] == group_step(
                                    gm0,
                                    self.type_exports@,
                                    selfm,
                                    id,
                                )[j] by {
                                    assert(groups_model(groups@)[j] == GroupModel {
                                        target: groups@[j].0.model(),
                                        ids: groups@[j].1@,
                                    });
                                    if j < groups0.len() {
                                        assert(groups@[j] == groups0[j]);
                                        assert(gm0[j] == GroupModel {
                                            target: groups0[j].0.model(),
                                            ids: groups0[j].1@,
                                        });
                                    }
                                }
                                assert(groups_model(groups@) =~= group_step(
                                    gm0,
                                    self.type_exports@,
                                    selfm,
                                    id,
                                ));
                                assert(groups_model(groups@) == build_groups_spec(
                                    self.type_exports@,
                                    selfm,
                                    field_ids@.subrange(0, w + 1 as int),
                                ));
                            }
                        }
                        proof {
                            assert forall|id2: TypeId|
                                field_ids@.subrange(0, w + 1 as int).contains(id2) && path_get(
                                    self.type_exports@,
                                    id2,
                                ) is Some && path_get(self.type_exports@, id2)->Some_0.model()
                                    != file.target.model() implies exists|g: int|
                                0 <= g < groups@.len() && (#[trigger] groups@[g]).1@.contains(
                                    id2,
                                ) by {
                                if id2 == id {
                                    assert(exists|g: int|
                                        0 <= g < groups@.len() && (
                                        #[trigger] groups@[g]).1@.contains(id));
                                } else {
                                    assert(field_ids@.subrange(0, w as int).contains(id2)) by {
                                        let v = choose|v: int|
                                            0 <= v < w + 1 && #[trigger] field_ids@.subrange(
                                                0,
                                                w + 1 as int,
                                            )[v] == id2;
                                        assert(field_ids@[v] == id2);
                                        assert(v < w);
                                        assert(field_ids@.subrange(0, w as int)[v] == id2);
                                    }
                                    let g0 = choose|g: int|
                                        0 <= g < groups0.len() && (
                                        #[trigger] groups0[g]).1@.contains(id2);
                                    assert(groups@[g0].1@.contains(id2)) by {
                                        if groups@[g0].1@ != groups0[g0].1@ {
                                            let v = choose|v: int|
                                                0 <= v < groups0[g0].1@.len()
                                                    && #[trigger] groups0[g0].1@[v] == id2;
                                            assert(groups@[g0].1@[v] == id2);
                                        }
                                    }
                                }
                            }
                        }
                    }
                },
            }
            proof {
                if path_get(self.type_exports@, id) is Some && path_get(
                    self.type_exports@,
                    id,
                )->Some_0.model() == file.target.model() {
                    assert(groups_model(groups@) == build_groups_spec(
                        self.type_exports@,
                        selfm,
                        field_ids@.subrange(0, w + 1 as int),
                    ));
                }
                if path_get(self.type_exports@, id) is None || (path_get(
                    self.type_exports@,
                    id,
                ) is Some && path_get(self.type_exports@, id)->Some_0.model()
                    == file.target.model()) {
                    assert forall|id2: TypeId|
                        field_ids@.subrange(0, w + 1 as int).contains(id2) && path_get(
                            self.type_exports@,
                            id2,
                        ) is Some && path_get(self.type_exports@, id2)->Some_0.model()
                            != file.target.model() implies exists|g: int|
                        0 <= g < groups@.len() && (#[trigger] groups@[g]).1@.contains(id2) by {
                        assert(id2 != id);
                        assert(field_ids@.subrange(0, w as int).contains(id2)) by {
                            let v = choose|v: int|
                                0 <= v < w + 1 && #[trigger] field_ids@.subrange(
                                    0,
                                    w + 1 as int,
                                )[v] == id2;
                            assert(field_ids@[v] == id2);
                            assert(v < w);
                            assert(field_ids@.subrange(0, w as int)[v] == id2);
                        }
                    }
                }
            }
            w = w + 1;
        }
        proof {
            assert(field_ids@.subrange(0, n as int) =~= field_ids@);
        }
        groups
    }
}


/// Parts joined by a separator.
pub open spec fn join_sep(parts: Seq<Seq<char>>, sep: Seq<char>) -> Seq<char>
    decreases parts.len(),
{
    if parts.len() == 0 {
        Seq::empty()
    } else if parts.len() == 1 {
        parts[0]
    } else {
        join_sep(parts.drop_last(), sep) + sep + parts.last()
    }
}

/// The display name of an exported identity as an import writes it: the
/// registered item's name with any raw-identifier marker dropped.
pub open spec fn import_name_spec(reg: Registry, id: TypeId) -> Seq<char> {
    crate::render::strip_spec(crate::registry::table_get(reg.entries@, id)->Some_0.spec_ident())
}

/// The name list one import statement carries for a group of identities:
/// every registered display name, sorted alphabetically.
pub open spec fn group_names_spec(reg: Registry, ids: Seq<TypeId>) -> Seq<Seq<char>> {
    crate::order::vsort_names(Seq::new(ids.len(), |k: int| import_name_spec(reg, ids[k])))
}

impl TsExporter {
    /// The names an import statement lists for a group: each identity's
    /// registered display name, stripped of any raw-identifier marker and
    /// sorted alphabetically.
    pub fn sorted_import_names(&self, ids: &Vec<TypeId>) -> (r: Vec<String>)
        requires
            forall|v: int|
                0 <= v < ids@.len() ==> self.type_registry.spec_contains(#[trigger] ids@[v]),
        ensures
            crate::path::deep(r@) == group_names_spec(self.type_registry, ids@),
    {
        let mut pairs: Vec<(TypeId, String)> = Vec::new();
        let n = ids.len();
        let mut i: usize = 0;
        while i < n
            invariant
                0 <= i <= n,
                n == ids@.len(),
                forall|v: int|
                    0 <= v < ids@.len() ==> self.type_registry.spec_contains(#[trigger] ids@[v]),
                pairs@.len() == i,
                forall|v: int|
                    0 <= v < i ==> (#[trigger] pairs@[v]).1@ == import_name_spec(
                        self.type_registry,
                        ids@[v],
                    ),
            decreases n - i,
        {
            let id = ids[i];
            match self.type_registry.get(id) {
                Some(it) => {
                    let nm = crate::render::strip_rust_prefix(it.ident().as_str());
                    pairs.push((id, nm));
                },
                None => {
                    proof {
                        assert(self.type_registry.spec_contains(ids@[i as int]));
                        assert(false);
                    }
                    vstd::pervasive::unreached()
                },
            }
            i = i + 1;
        }
        let ghost pairs0 = pairs@;
        let sorted = crate::order::sort_pairs_by_name(pairs, false);
        proof {
            crate::order::lemma_sort_name_proj(pairs0);
            assert(crate::order::names_of(pairs0) =~= Seq::new(
                ids@.len(),
                |k: int| import_name_spec(self.type_registry, ids@[k]),
            )) by {
                assert forall|k: int|
                    0 <= k < pairs0.len() implies #[trigger] crate::order::names_of(pairs0)[k]
                    == import_name_spec(self.type_registry, ids@[k]) by {
                    assert(crate::order::names_of(pairs0)[k] == pairs0[k].1@);
                }
            }
        }
        let mut out: Vec<String> = Vec::new();
        let sn = sorted.len();
        let mut k: usize = 0;
        while k < sn
            invariant
                0 <= k <= sn,
                sn == sorted@.len(),
                out@.len() == k,
                forall|w: int| 0 <= w < k ==> (#[trigger] out@[w])@ == sorted@[w].1@,
            decreases sn - k,
        {
            out.push(sorted[k].1.clone());
            k = k + 1;
        }
        proof {
            assert forall|w: int|
                0 <= w < out@.len() implies #[trigger] crate::path::deep(out@)[w]
                == crate::order::names_of(sorted@)[w] by {
                assert(crate::path::deep(out@)[w] == out@[w]@);
                assert(crate::order::names_of(sorted@)[w] == sorted@[w].1@);
            }
            assert(crate::path::deep(out@) =~= crate::order::names_of(sorted@));
        }
        out
    }

    /// One import statement: the sorted names, and the relative path from
    /// this file to the owning one, extension left off.
    pub fn import_line(&self, file: &TsFile, target: &TargetPath, names: &Vec<String>) -> (r:
        String)
        ensures
            r@ == "import { "@ + join_sep(crate::path::deep(names@), ", "@) + " } from '"@
                + crate::path::rel_spec(
                (crate::path::deep(file.target.dirs@).len() - crate::path::lcp(
                    crate::path::deep(file.target.dirs@),
                    crate::path::deep(target.dirs@),
                )) as nat,
                crate::path::deep(target.dirs@).skip(
                    crate::path::lcp(
                        crate::path::deep(file.target.dirs@),
                        crate::path::deep(target.dirs@),
                    ) as int,
                ) + seq![target.stem@],
            ) + "'\n"@,
    {
        let mut out = "import { ".to_owned();
        let n = names.len();
        let mut i: usize = 0;
        proof {
            assert(crate::path::deep(names@).subrange(0, 0) =~= Seq::<Seq<char>>::empty());
            assert(join_sep(crate::path::deep(names@).subrange(0, 0), ", "@) =~= Seq::<
                char,
            >::empty());
        }
        while i < n
            invariant
                0 <= i <= n,
                n == names@.len(),
                out@ == "import { "@ + join_sep(
                    crate::path::deep(names@).subrange(0, i as int),
                    ", "@,
                ),
            decreases n - i,
        {
            if i > 0 {
                out.append(", ");
            }
            out.append(names[i].as_str());
            proof {
                let pre = crate::path::deep(names@).subrange(0, i + 1 as int);
                assert(pre.drop_last() =~= crate::path::deep(names@).subrange(0, i as int));
                assert(pre.last() == names@[i as int]@);
                if i == 0 {
                    assert(join_sep(pre, ", "@) == pre[0]);
                    assert(out@ =~= "import { "@ + join_sep(pre, ", "@));
                } else {
                    assert(out@ =~= "import { "@ + join_sep(pre, ", "@));
                }
            }
            i = i + 1;
        }
        proof {
            assert(crate::path::deep(names@).subrange(0, n as int) =~= crate::path::deep(names@));
        }
        out.append(" } from '");
        let (ups, rest) = crate::path::resolve_relative(&file.target, target);
        let rel = crate::path::rel_import_string(ups, &rest);
        out.append(rel.as_str());
        out.append("'\n");
        proof {
            assert(out@ =~= "import { "@ + join_sep(crate::path::deep(names@), ", "@)
                + " } from '"@ + crate::path::rel_spec(
                (crate::path::deep(file.target.dirs@).len() - crate::path::lcp(
                    crate::path::deep(file.target.dirs@),
                    crate::path::deep(target.dirs@),
                )) as nat,
                crate::path::deep(target.dirs@).skip(
                    crate::path::lcp(
                        crate::path::deep(file.target.dirs@),
                        crate::path::deep(target.dirs@),
                    ) as int,
                ) + seq![target.stem@],
            ) + "'\n"@);
        }
        out
    }
}

/// Whether one import statement stands at or above another: longer
/// statements first, then longer paths, then reverse-alphabetical paths.
pub open spec fn line_before(a: (String, String), b: (String, String)) -> bool {
    if a.0@.len() != b.0@.len() {
        a.0@.len() > b.0@.len()
    } else if a.1@.len() != b.1@.len() {
        a.1@.len() > b.1@.len()
    } else {
        crate::order::lex_le(b.1@, a.1@, false)
    }
}

/// Where a line lands among already-placed ones.
pub open spec fn insert_line(x: (String, String), s: Seq<(String, String)>) -> Seq<
    (String, String),
>
    decreases s.len(),
{
    if s.len() > 0 && line_before(s[0], x) {
        seq![s[0]] + insert_line(x, s.drop_first())
    } else {
        seq![x] + s
    }
}

/// Insertion sort for import statements, stable.
pub open spec fn sort_lines(s: Seq<(String, String)>) -> Seq<(String, String)>
    decreases s.len(),
{
    if s.len() == 0 {
        Seq::empty()
    } else {
        insert_line(s.last(), sort_lines(s.drop_last()))
    }
}

pub proof fn lemma_insert_line_position(x: (String, String), s: Seq<(String, String)>, k: int)
    requires
        0 <= k <= s.len(),
        forall|j: int| 0 <= j < k ==> line_before(#[trigger] s[j], x),
        k < s.len() ==> !line_before(s[k], x),
    ensures
        insert_line(x, s) == s.subrange(0, k) + seq![x] + s.subrange(k, s.len() as int),
    decreases k,
{
    if k == 0 {
        assert(insert_line(x, s) =~= s.subrange(0, 0) + seq![x] + s.subrange(0, s.len() as int));
    } else {
        assert(line_before(s[0], x));
        assert forall|j: int| 0 <= j < k - 1 implies line_before(
            #[trigger] s.drop_first()[j],
            x,
        ) by {
            assert(s.drop_first()[j] == s[j + 1]);
        }
        assert(k - 1 < s.drop_first().len() ==> !line_before(s.drop_first()[k - 1], x));
        lemma_insert_line_position(x, s.drop_first(), k - 1);
        assert(insert_line(x, s) =~= s.subrange(0, k) + seq![x] + s.subrange(k, s.len() as int));
    }
}

/// Whether `a` stands at or above `b`, decided executably.
fn line_before_exec(a: &(String, String), b: &(String, String)) -> (r: bool)
    ensures
        r == line_before(*a, *b),
{
    let al = a.0.as_str().unicode_len();
    let bl = b.0.as_str().unicode_len();
    if al != bl {
        return al > bl;
    }
    let akl = a.1.as_str().unicode_len();
    let bkl = b.1.as_str().unicode_len();
    if akl != bkl {
        return akl > bkl;
    }
    crate::order::lex_le_str(b.1.as_str(), a.1.as_str(), false)
}

/// Sorts import statements into their final order.
pub fn sort_import_lines(v: Vec<(String, String)>) -> (r: Vec<(String, String)>)
    ensures
        r@ == sort_lines(v@),
{
    let ghost orig = v@;
    let mut src = v;
    let mut out: Vec<(String, String)> = Vec::new();
    let ghost mut k: int = 0;
    proof {
        assert(orig.subrange(0, 0) =~= Seq::<(String, String)>::empty());
        assert(src@ =~= orig.skip(0));
    }
    while src.len() > 0
        invariant
            0 <= k <= orig.len(),
            src@ == orig.skip(k),
            out@ == sort_lines(orig.subrange(0, k)),
        decreases src@.len(),
    {
        let e = src.remove(0);
        proof {
            assert(e == orig[k]);
            assert(src@ =~= orig.skip(k + 1));
        }
        let n = out.len();
        let mut j: usize = 0;
        let mut found = false;
        while j < n && !found
            invariant
                0 <= j <= n,
                n == out@.len(),
                forall|w: int| 0 <= w < j ==> line_before(#[trigger] out@[w], e),
                found ==> j < n && !line_before(out@[j as int], e),
            decreases n - j + (if found { 0int } else { 1int }),
        {
            if !line_before_exec(&out[j], &e) {
                found = true;
            } else {
                j = j + 1;
            }
        }
        proof {
            lemma_insert_line_position(e, out@, j as int);
        }
        let ghost out_before = out@;
        out.insert(j, e);
        proof {
            assert(out@ =~= out_before.subrange(0, j as int) + seq![e] + out_before.subrange(
                j as int,
                out_before.len() as int,
            ));
            assert(orig.subrange(0, k + 1).drop_last() =~= orig.subrange(0, k));
            assert(orig.subrange(0, k + 1).last() == orig[k]);
            assert(out@ == sort_lines(orig.subrange(0, k + 1)));
            k = k + 1;
        }
    }
    proof {
        assert(orig.subrange(0, orig.len() as int) =~= orig);
        assert(k == orig.len());
    }
    out
}


/// The character sequences of a list of built statements and keys.
pub open spec fn lines_of(s: Seq<(String, String)>) -> Seq<(Seq<char>, Seq<char>)> {
    s.map_values(|p: (String, String)| (p.0@, p.1@))
}

/// `line_before`, read off the character sequences.
pub open spec fn vline_before(a: (Seq<char>, Seq<char>), b: (Seq<char>, Seq<char>)) -> bool {
    if a.0.len() != b.0.len() {
        a.0.len() > b.0.len()
    } else if a.1.len() != b.1.len() {
        a.1.len() > b.1.len()
    } else {
        crate::order::lex_le(b.1, a.1, false)
    }
}

pub open spec fn vinsert_line(
    x: (Seq<char>, Seq<char>),
    s: Seq<(Seq<char>, Seq<char>)>,
) -> Seq<(Seq<char>, Seq<char>)>
    decreases s.len(),
{
    if s.len() > 0 && vline_before(s[0], x) {
        seq![s[0]] + vinsert_line(x, s.drop_first())
    } else {
        seq![x] + s
    }
}

pub open spec fn vsort_lines(s: Seq<(Seq<char>, Seq<char>)>) -> Seq<(Seq<char>, Seq<char>)>
    decreases s.len(),
{
    if s.len() == 0 {
        Seq::empty()
    } else {
        vinsert_line(s.last(), vsort_lines(s.drop_last()))
    }
}

/// Inserting a statement and inserting its characters agree: the
/// comparator reads only the characters.
pub proof fn lemma_insert_line_proj(x: (String, String), s: Seq<(String, String)>)
    ensures
        lines_of(insert_line(x, s)) == vinsert_line((x.0@, x.1@), lines_of(s)),
    decreases s.len(),
{
    if s.len() > 0 && line_before(s[0], x) {
        lemma_insert_line_proj(x, s.drop_first());
        assert(lines_of(s).drop_first() =~= lines_of(s.drop_first()));
        assert(lines_of(s)[0] == (s[0].0@, s[0].1@));
        assert(lines_of(insert_line(x, s)) =~= seq![(s[0].0@, s[0].1@)] + lines_of(
            insert_line(x, s.drop_first()),
        )) by {
            assert(insert_line(x, s) =~= seq![s[0]] + insert_line(x, s.drop_first()));
        }
        assert(vinsert_line((x.0@, x.1@), lines_of(s)) =~= seq![(s[0].0@, s[0].1@)]
            + vinsert_line((x.0@, x.1@), lines_of(s.drop_first())));
    } else {
        assert(lines_of(insert_line(x, s)) =~= seq![(x.0@, x.1@)] + lines_of(s)) by {
            assert(insert_line(x, s) =~= seq![x] + s);
        }
        if s.len() > 0 {
            assert(lines_of(s)[0] == (s[0].0@, s[0].1@));
        }
        assert(vinsert_line((x.0@, x.1@), lines_of(s)) =~= seq![(x.0@, x.1@)] + lines_of(s));
    }
}

/// Sorting statements and sorting their characters agree.
pub proof fn lemma_sort_lines_proj(s: Seq<(String, String)>)
    ensures
        lines_of(sort_lines(s)) == vsort_lines(lines_of(s)),
    decreases s.len(),
{
    if s.len() > 0 {
        lemma_sort_lines_proj(s.drop_last());
        assert(lines_of(s.drop_last()) =~= lines_of(s).drop_last());
        assert(lines_of(s).last() == (s.last().0@, s.last().1@));
        lemma_insert_line_proj(s.last(), sort_lines(s.drop_last()));
    }
}

/// The statements written out, in list order.
pub open spec fn concat_lines(s: Seq<(Seq<char>, Seq<char>)>) -> Seq<char>
    decreases s.len(),
{
    if s.len() == 0 {
        Seq::empty()
    } else {
        concat_lines(s.drop_last()) + s.last().0
    }
}

/// A group's ordering key: its owning file's path with `/` separators.
pub open spec fn key_spec(g: GroupModel) -> Seq<char> {
    crate::path::slash_join(
        g.target.0 + seq![crate::path::filename_spec(g.target.1, g.target.2)],
    )
}

/// One import statement for a group, as the file at directory `fdirs`
/// writes it: the sorted names, and the relative path to the owner with
/// the extension left off.
pub open spec fn import_line_model(
    reg: Registry,
    fdirs: Seq<Seq<char>>,
    g: GroupModel,
) -> Seq<char> {
    "import { "@ + join_sep(group_names_spec(reg, g.ids), ", "@) + " } from '"@
        + crate::path::rel_spec(
        (fdirs.len() - crate::path::lcp(fdirs, g.target.0)) as nat,
        g.target.0.skip(crate::path::lcp(fdirs, g.target.0) as int) + seq![g.target.1],
    ) + "'\n"@
}

/// The whole import section: every group's statement, ordered longest
/// first, then a separating blank line when any import exists.
pub open spec fn import_section_spec(
    reg: Registry,
    fdirs: Seq<Seq<char>>,
    gs: Seq<GroupModel>,
) -> Seq<char> {
    concat_lines(
        vsort_lines(
            Seq::new(gs.len(), |g: int| (import_line_model(reg, fdirs, gs[g]), key_spec(gs[g]))),
        ),
    ) + if gs.len() > 0 {
        "\n"@
    } else {
        Seq::empty()
    }
}

/// The import section a file carries, computed from its own references
/// and the run's file assignments.
pub open spec fn file_imports_spec(
    reg: Registry,
    tex: Seq<(TypeId, TargetPath)>,
    file: TsFile,
) -> Seq<char> {
    import_section_spec(
        reg,
        crate::path::deep(file.target.dirs@),
        build_groups_spec(tex, file.target.model(), items_field_ids(file.items@)),
    )
}

/// The plans one export pass maps the declared trees onto, by policy.
pub open spec fn mapped_plans(
    ts: TypeScript,
    exporter: Burrxporter,
    to: TargetPath,
) -> Seq<crate::tsfile::FilePlan> {
    match ts.mod_file_map {
        ModFileMap::Inline => seq![
            crate::tsfile::FilePlan {
                name: to.spec_str(),
                dirs: crate::path::deep(to.dirs@),
                stem: to.stem@,
                items: crate::tsfile::flatten_models(exporter.mods@),
            },
        ],
        ModFileMap::DecomposeTop => crate::tsfile::decompose_top_plans(
            exporter.mods@,
            crate::path::deep(to.dirs@) + seq![crate::path::filename_spec(to.stem@, to.ext@)],
        ),
        ModFileMap::DecomposeAll => crate::tsfile::decompose_all_plans(
            exporter.mods@,
            Seq::<Seq<char>>::empty(),
        ),
    }
}

/// What holds of the export maps a successful mapping produces for a
/// file set: every item registered under its own identity with its own
/// value, nothing else registered, and every identity assigned to
/// exactly its file.
pub open spec fn maps_ok(
    files: Seq<TsFile>,
    reg: Registry,
    tex: Seq<(TypeId, TargetPath)>,
) -> bool {
    &&& reg.wf()
    &&& forall|f: int, k: int|
        0 <= f < files.len() && 0 <= k < files[f].items@.len() ==> reg.spec_contains(
            (#[trigger] files[f].items@[k]).spec_type_id(),
        )
    &&& forall|f: int, k: int|
        0 <= f < files.len() && 0 <= k < files[f].items@.len()
            ==> crate::registry::table_get(
            reg.entries@,
            (#[trigger] files[f].items@[k]).spec_type_id(),
        )->Some_0.model() == files[f].items@[k].model()
    &&& forall|id: TypeId|
        #[trigger] reg.spec_contains(id) ==> exists|f: int, k: int|
            0 <= f < files.len() && 0 <= k < files[f].items@.len() && (
            #[trigger] files[f].items@[k]).spec_type_id() == id
    &&& forall|f: int, k: int|
        0 <= f < files.len() && 0 <= k < files[f].items@.len() ==> (match path_get(
            tex,
            (#[trigger] files[f].items@[k]).spec_type_id(),
        ) {
            Option::Some(t) => t.model() == files[f].target.model(),
            Option::None => false,
        })
    &&& forall|v: int| 0 <= v < tex.len() ==> reg.spec_contains((#[trigger] tex[v]).0)
    &&& forall|v1: int, v2: int|
        0 <= v1 < v2 < tex.len() ==> (#[trigger] tex[v1]).0 != (#[trigger] tex[v2]).0
}

/// Whether a rendering pass carries exactly a target's configuration and
/// the run's input registry.
pub open spec fn exporter_wired(ex: TsExporter, ts: TypeScript, input: Registry) -> bool {
    &&& ex.formatter == ts.formatter
    &&& ex.type_overrides@ == ts.type_overrides@
    &&& ex.type_strings@ == ts.type_map@
    &&& ex.input_registry.entries@.len() == input.entries@.len()
    &&& forall|k: int|
        0 <= k < input.entries@.len() ==> (#[trigger] ex.input_registry.entries@[k]).0
            == input.entries@[k].0 && ex.input_registry.entries@[k].1.model()
            == input.entries@[k].1.model()
}

/// What a successful rendering pass writes: one output per file, at the
/// file's target, holding exactly its import section and its rendered
/// declarations.
pub open spec fn pass_output_ok(
    ex: TsExporter,
    files: Seq<TsFile>,
    out: Seq<RenderedFile>,
) -> bool {
    &&& out.len() == files.len()
    &&& forall|i: int|
        0 <= i < out.len() ==> (#[trigger] out[i]).target.model() == files[i].target.model()
    &&& forall|i: int|
        0 <= i < files.len() ==> items_text_spec(ex, (#[trigger] files[i]).items@, ex.formatter)
            is Rendered
    &&& forall|i: int|
        0 <= i < out.len() ==> (#[trigger] out[i]).content@ == file_imports_spec(
            ex.type_registry,
            ex.type_exports@,
            files[i],
        ) + items_text_spec(ex, files[i].items@, ex.formatter)->Rendered_0
}

/// Whether an error is exactly the first rendering failure of a file
/// list.
pub open spec fn render_failure(ex: TsExporter, files: Seq<TsFile>, e: ExportError) -> bool {
    exists|i: int|
        {
            &&& 0 <= i < files.len()
            &&& !(#[trigger] items_text_spec(ex, files[i].items@, ex.formatter) is Rendered)
            &&& forall|j: int|
                0 <= j < i ==> items_text_spec(ex, (#[trigger] files[j]).items@, ex.formatter)
                    is Rendered
            &&& match e {
                ExportError::UnknownType { id } => items_text_spec(
                    ex,
                    files[i].items@,
                    ex.formatter,
                ) is Unknown && id == items_text_spec(
                    ex,
                    files[i].items@,
                    ex.formatter,
                )->Unknown_0,
                ExportError::InvalidEnumRepr { name } => items_text_spec(
                    ex,
                    files[i].items@,
                    ex.formatter,
                ) is BadRepr,
                _ => false,
            }
        }
}

/// The declarations section of a file: each item's text, separated by
/// blank lines, each followed by a newline.
pub open spec fn items_text_spec(
    ex: TsExporter,
    items: Seq<IrItem>,
    fmt: TsFormatter,
) -> crate::render::RenderOut
    decreases items.len(),
{
    if items.len() == 0 {
        crate::render::RenderOut::Rendered(Seq::empty())
    } else {
        match items_text_spec(ex, items.drop_last(), fmt) {
            crate::render::RenderOut::Rendered(pre) => match crate::render::render_item_spec(
                ex,
                items.last().model(),
                0,
                fmt,
            ) {
                crate::render::RenderOut::Rendered(one) => crate::render::RenderOut::Rendered(
                    pre + (if items.len() == 1 {
                        Seq::empty()
                    } else {
                        "\n"@
                    }) + one + "\n"@,
                ),
                other => other,
            },
            other => other,
        }
    }
}

/// A failure met on an early item decides the whole list.
pub proof fn lemma_items_text_err(
    ex: TsExporter,
    items: Seq<IrItem>,
    fmt: TsFormatter,
    k: int,
)
    requires
        0 <= k <= items.len(),
        !(items_text_spec(ex, items.subrange(0, k), fmt) is Rendered),
    ensures
        items_text_spec(ex, items, fmt) == items_text_spec(ex, items.subrange(0, k), fmt),
    decreases items.len() - k,
{
    if k == items.len() {
        assert(items.subrange(0, k) =~= items);
    } else {
        assert(items.subrange(0, k + 1).drop_last() =~= items.subrange(0, k));
        lemma_items_text_err(ex, items, fmt, k + 1);
    }
}

impl TsExporter {
    /// The full text of one output file: the import statements in their
    /// final order, a separating blank line when any import exists, and
    /// every item's declaration.
    #[verifier::rlimit(100)]
    pub fn render_file(&self, file: &TsFile, groups: &Vec<(TargetPath, Vec<TypeId>)>) -> (r:
        Result<String, ExportError>)
        requires
            forall|g: int, v: int|
                0 <= g < groups@.len() && 0 <= v < groups@[g].1@.len()
                    ==> self.type_registry.spec_contains(#[trigger] groups@[g].1@[v]),
        ensures
            match r {
                Result::Ok(s) => items_text_spec(*self, file.items@, self.formatter) is Rendered
                    && s@ == import_section_spec(
                    self.type_registry,
                    crate::path::deep(file.target.dirs@),
                    groups_model(groups@),
                ) + items_text_spec(*self, file.items@, self.formatter)->Rendered_0,
                Result::Err(e) => !(items_text_spec(*self, file.items@, self.formatter)
                    is Rendered) && (match e {
                    ExportError::UnknownType { id } => items_text_spec(
                        *self,
                        file.items@,
                        self.formatter,
                    ) is Unknown && id == items_text_spec(
                        *self,
                        file.items@,
                        self.formatter,
                    )->Unknown_0,
                    ExportError::InvalidEnumRepr { name } => items_text_spec(
                        *self,
                        file.items@,
                        self.formatter,
                    ) is BadRepr,
                    _ => false,
                }),
            },
    {
        // build each import statement with its ordering key
        let ghost gmod = groups_model(groups@);
        let ghost fdirs = crate::path::deep(file.target.dirs@);
        let mut lines: Vec<(String, String)> = Vec::new();
        let gn = groups.len();
        let mut g: usize = 0;
        while g < gn
            invariant
                0 <= g <= gn,
                gn == groups@.len(),
                gmod == groups_model(groups@),
                gmod.len() == gn,
                fdirs == crate::path::deep(file.target.dirs@),
                forall|g2: int, v: int|
                    0 <= g2 < groups@.len() && 0 <= v < groups@[g2].1@.len()
                        ==> self.type_registry.spec_contains(#[trigger] groups@[g2].1@[v]),
                lines@.len() == g,
                forall|w: int|
                    0 <= w < g ==> (#[trigger] lines@[w]).0@ == import_line_model(
                        self.type_registry,
                        fdirs,
                        gmod[w],
                    ),
                forall|w: int| 0 <= w < g ==> (#[trigger] lines@[w]).1@ == key_spec(gmod[w]),
            decreases gn - g,
        {
            let names = self.sorted_import_names(&groups[g].1);
            let line = self.import_line(file, &groups[g].0, &names);
            let key = groups[g].0.to_slash();
            proof {
                assert(gmod[g as int] == GroupModel {
                    target: groups@[g as int].0.model(),
                    ids: groups@[g as int].1@,
                });
                assert(line@ == import_line_model(self.type_registry, fdirs, gmod[g as int]));
                assert(key@ == key_spec(gmod[g as int]));
            }
            lines.push((line, key));
            g = g + 1;
        }
        let had_imports = lines.len() > 0;
        let ghost lines0 = lines@;
        let sorted = sort_import_lines(lines);
        proof {
            lemma_sort_lines_proj(lines0);
            assert(lines_of(lines0) =~= Seq::new(
                gmod.len(),
                |w: int| (import_line_model(self.type_registry, fdirs, gmod[w]), key_spec(
                    gmod[w],
                )),
            )) by {
                assert forall|w: int|
                    0 <= w < lines0.len() implies #[trigger] lines_of(lines0)[w] == (
                import_line_model(self.type_registry, fdirs, gmod[w]), key_spec(gmod[w])) by {
                    assert(lines_of(lines0)[w] == (lines0[w].0@, lines0[w].1@));
                }
            }
        }
        let ghost vsorted = vsort_lines(
            Seq::new(
                gmod.len(),
                |w: int| (import_line_model(self.type_registry, fdirs, gmod[w]), key_spec(
                    gmod[w],
                )),
            ),
        );
        let mut out = String::new();
        let sn = sorted.len();
        let mut li: usize = 0;
        proof {
            assert(lines_of(sorted@) == vsorted);
            assert(lines_of(sorted@).subrange(0, 0) =~= Seq::<(Seq<char>, Seq<char>)>::empty());
            assert(out@ =~= concat_lines(lines_of(sorted@).subrange(0, 0)));
        }
        while li < sn
            invariant
                0 <= li <= sn,
                sn == sorted@.len(),
                out@ == concat_lines(lines_of(sorted@).subrange(0, li as int)),
            decreases sn - li,
        {
            out.append(sorted[li].0.as_str());
            proof {
                let sub1 = lines_of(sorted@).subrange(0, li + 1 as int);
                assert(sub1.drop_last() =~= lines_of(sorted@).subrange(0, li as int));
                assert(sub1.last() == lines_of(sorted@)[li as int]);
                assert(lines_of(sorted@)[li as int].0 == sorted@[li as int].0@);
                assert(out@ =~= concat_lines(sub1));
            }
            li = li + 1;
        }
        proof {
            assert(lines_of(sorted@).subrange(0, sn as int) =~= lines_of(sorted@));
        }
        if had_imports {
            out.append("\n");
        }
        proof {
            if gn > 0 {
                assert(out@ =~= concat_lines(vsorted) + "\n"@);
            } else {
                assert(out@ =~= concat_lines(vsorted) + Seq::<char>::empty());
            }
            assert(out@ == import_section_spec(self.type_registry, fdirs, gmod));
        }
        // write the declarations
        let ghost head = out@;
        let inum = file.items.len();
        let mut i: usize = 0;
        proof {
            assert(file.items@.subrange(0, 0) =~= Seq::<IrItem>::empty());
            assert(out@ =~= head + Seq::<char>::empty());
        }
        while i < inum
            invariant
                0 <= i <= inum,
                inum == file.items@.len(),
                items_text_spec(*self, file.items@.subrange(0, i as int), self.formatter)
                    is Rendered,
                out@ == head + items_text_spec(
                    *self,
                    file.items@.subrange(0, i as int),
                    self.formatter,
                )->Rendered_0,
            decreases inum - i,
        {
            if i > 0 {
                out.append("\n");
            }
            match self.format_type(&file.items[i], 0) {
                Ok(text) => {
                    out.append(text.as_str());
                    out.append("\n");
                    proof {
                        let sub1 = file.items@.subrange(0, i + 1 as int);
                        assert(sub1.drop_last() =~= file.items@.subrange(0, i as int));
                        assert(sub1.last() == file.items@[i as int]);
                        assert(items_text_spec(*self, sub1, self.formatter) is Rendered);
                        assert(out@ =~= head + items_text_spec(
                            *self,
                            sub1,
                            self.formatter,
                        )->Rendered_0);
                    }
                },
                Err(e) => {
                    proof {
                        let sub1 = file.items@.subrange(0, i + 1 as int);
                        assert(sub1.drop_last() =~= file.items@.subrange(0, i as int));
                        assert(sub1.last() == file.items@[i as int]);
                        assert(!(items_text_spec(*self, sub1, self.formatter) is Rendered));
                        lemma_items_text_err(*self, file.items@, self.formatter, i + 1 as int);
                    }
                    return Err(e);
                },
            }
            i = i + 1;
        }
        proof {
            assert(file.items@.subrange(0, inum as int) =~= file.items@);
        }
        Ok(out)
    }

    /// Renders every file: for each, the import groups are computed, the
    /// text assembled, and the file's target carried over. It succeeds
    /// exactly when every item of every file renders; the first failing
    /// file decides the error.
    pub fn export(&self, files: &Vec<TsFile>) -> (r: Result<Vec<RenderedFile>, ExportError>)
        requires
            forall|v: int|
                0 <= v < self.type_exports@.len() ==> self.type_registry.spec_contains(
                    (#[trigger] self.type_exports@[v]).0,
                ),
        ensures
            match r {
                Result::Ok(out) => pass_output_ok(*self, files@, out@),
                Result::Err(e) => render_failure(*self, files@, e),
            },
    {
        let mut out: Vec<RenderedFile> = Vec::new();
        let n = files.len();
        let mut i: usize = 0;
        while i < n
            invariant
                0 <= i <= n,
                n == files@.len(),
                forall|v: int|
                    0 <= v < self.type_exports@.len() ==> self.type_registry.spec_contains(
                        (#[trigger] self.type_exports@[v]).0,
                    ),
                out@.len() == i,
                forall|w: int|
                    0 <= w < i ==> (#[trigger] out@[w]).target.model()
                        == files@[w].target.model(),
                forall|w: int|
                    0 <= w < i ==> items_text_spec(
                        *self,
                        (#[trigger] files@[w]).items@,
                        self.formatter,
                    ) is Rendered,
                forall|w: int|
                    0 <= w < i ==> (#[trigger] out@[w]).content@ == file_imports_spec(
                        self.type_registry,
                        self.type_exports@,
                        files@[w],
                    ) + items_text_spec(*self, files@[w].items@, self.formatter)->Rendered_0,
            decreases n - i,
        {
            let file = &files[i];
            let groups = self.build_import_groups(file);
            proof {
                assert forall|g: int, v: int|
                    0 <= g < groups@.len() && 0 <= v < groups@[g].1@.len()
                        implies self.type_registry.spec_contains(
                    #[trigger] groups@[g].1@[v],
                ) by {
                    let id = groups@[g].1@[v];
                    assert(path_get(self.type_exports@, id) is Some);
                    let w = lemma_path_get_index(self.type_exports@, id);
                }
            }
            match self.render_file(file, &groups) {
                Ok(content) => {
                    proof {
                        assert(content@ == file_imports_spec(
                            self.type_registry,
                            self.type_exports@,
                            files@[i as int],
                        ) + items_text_spec(
                            *self,
                            files@[i as int].items@,
                            self.formatter,
                        )->Rendered_0);
                    }
                    out.push(RenderedFile { target: dup_path(&file.target), content });
                },
                Err(e) => {
                    proof {
                        assert(!(items_text_spec(
                            *self,
                            files@[i as int].items@,
                            self.formatter,
                        ) is Rendered));
                    }
                    return Err(e);
                },
            }
            i = i + 1;
        }
        Ok(out)
    }
}

/// An output language target: turns a resolved exporter into rendered
/// files under a target sub-path. A pass surfaces only the errors the
/// pipeline defines: a duplicate export, an unknown referenced type, or
/// an invalid tagging configuration.
pub trait Target {
    fn export(self, to: &TargetPath, exporter: &Burrxporter) -> (r: Result<
        Vec<RenderedFile>,
        ExportError,
    >)
        requires
            exporter.wf(),
        ensures
            match r {
                Result::Ok(out) => true,
                Result::Err(e) => e is DuplicateExport || e is UnknownType
                    || e is InvalidEnumRepr,
            },
    ;
}

/// A value-for-value copy of a registry's entries.
fn dup_registry(reg: &Registry) -> (r: Registry)
    ensures
        r.entries@.len() == reg.entries@.len(),
        forall|k: int|
            0 <= k < r.entries@.len() ==> (#[trigger] r.entries@[k]).0 == reg.entries@[k].0
                && r.entries@[k].1.model() == reg.entries@[k].1.model(),
{
    let mut out: Vec<(TypeId, IrItem)> = Vec::new();
    let n = reg.entries.len();
    let mut i: usize = 0;
    while i < n
        invariant
            0 <= i <= n,
            n == reg.entries@.len(),
            out@.len() == i,
            forall|k: int|
                0 <= k < i ==> (#[trigger] out@[k]).0 == reg.entries@[k].0 && out@[k].1.model()
                    == reg.entries@[k].1.model(),
        decreases n - i,
    {
        let id = reg.entries[i].0;
        let d = dup_item(&reg.entries[i].1);
        out.push((id, d));
        i = i + 1;
    }
    Registry { entries: out }
}

impl TypeScript {
    /// Runs the whole output side for one export pass: maps the resolved
    /// trees onto files under the chosen policy, refuses a type exported
    /// to two files, and renders every file with its imports.
    pub fn export_to(self, to: &TargetPath, exporter: &Burrxporter) -> (r: Result<
        Vec<RenderedFile>,
        ExportError,
    >)
        requires
            exporter.wf(),
        ensures
            match r {
                Result::Ok(out) => {
                    &&& forall|i: int|
                        0 <= i < out@.len() ==> (#[trigger] out@[i]).target.ext@ == "ts"@
                    &&& (self.mod_file_map is Inline ==> out@.len() == 1 && out@[0].target.model()
                        == (crate::path::deep(to.dirs@), to.stem@, "ts"@))
                    &&& (self.mod_file_map is DecomposeTop ==> out@.len()
                        == exporter.mods@.len() && forall|i: int|
                        0 <= i < out@.len() ==> (#[trigger] out@[i]).target.model() == (
                        crate::path::deep(to.dirs@) + seq![
                            crate::path::filename_spec(to.stem@, to.ext@),
                        ],
                        exporter.mods@[i].name@,
                        "ts"@,
                        ))
                    &&& (self.mod_file_map is DecomposeAll ==> {
                        let plans = crate::tsfile::decompose_all_plans(
                            exporter.mods@,
                            Seq::<Seq<char>>::empty(),
                        );
                        out@.len() == plans.len() && forall|i: int|
                            0 <= i < out@.len() ==> (#[trigger] out@[i]).target.model() == (
                            plans[i].dirs,
                            plans[i].stem,
                            "ts"@,
                            )
                    })
                    &&& !plans_dup_path(mapped_plans(self, *exporter, *to))
                    &&& !plans_dup_id(mapped_plans(self, *exporter, *to))
                    &&& exists|ex: TsExporter, files2: Seq<TsFile>|
                        {
                            &&& crate::tsfile::plans_of(files2) == mapped_plans(
                                self,
                                *exporter,
                                *to,
                            )
                            &&& forall|w: int|
                                0 <= w < files2.len() ==> (#[trigger] files2[w]).target.ext@
                                    == "ts"@
                            &&& exporter_wired(ex, self, exporter.type_registry)
                            &&& maps_ok(files2, ex.type_registry, ex.type_exports@)
                            &&& #[trigger] pass_output_ok(ex, files2, out@)
                        }
                },
                Result::Err(e) => match e {
                    ExportError::DuplicateExport { .. } => plans_dup_path(
                        mapped_plans(self, *exporter, *to),
                    ) || plans_dup_id(mapped_plans(self, *exporter, *to)),
                    _ => {
                        &&& (e is UnknownType || e is InvalidEnumRepr)
                        &&& !plans_dup_path(mapped_plans(self, *exporter, *to))
                        &&& !plans_dup_id(mapped_plans(self, *exporter, *to))
                        &&& exists|ex: TsExporter, files2: Seq<TsFile>|
                            {
                                &&& crate::tsfile::plans_of(files2) == mapped_plans(
                                    self,
                                    *exporter,
                                    *to,
                                )
                                &&& exporter_wired(ex, self, exporter.type_registry)
                                &&& maps_ok(files2, ex.type_registry, ex.type_exports@)
                                &&& #[trigger] render_failure(ex, files2, e)
                            }
                    },
                },
            },
    {
        let files = map_files(&exporter.mods, self.mod_file_map, to);
        proof {
            if self.mod_file_map is Inline {
                assert(crate::tsfile::plans_of(files@) =~= seq![files@[0].plan()]);
            }
            assert(crate::tsfile::plans_of(files@) == mapped_plans(self, *exporter, *to));
        }
        let maps = match build_type_maps(&files) {
            Ok(maps) => maps,
            Err(e) => {
                proof {
                    lemma_dup_path_bridge(files@);
                    lemma_dup_id_bridge(files@);
                }
                return Err(e);
            },
        };
        proof {
            lemma_dup_path_bridge(files@);
            lemma_dup_id_bridge(files@);
        }
        let ex = TsExporter {
            formatter: self.formatter,
            type_registry: maps.0,
            input_registry: dup_registry(&exporter.type_registry),
            type_exports: maps.1,
            type_overrides: self.type_overrides,
            type_strings: self.type_map,
        };
        let ghost exg = ex;
        match ex.export(&files) {
            Ok(out) => {
                proof {
                    assert(exporter_wired(exg, self, exporter.type_registry));
                    assert(maps_ok(files@, exg.type_registry, exg.type_exports@));
                    assert(pass_output_ok(exg, files@, out@));
                    assert forall|i: int|
                        0 <= i < out@.len() implies (#[trigger] out@[i]).target.ext@ == "ts"@ by {
                        assert(out@[i].target.model() == files@[i].target.model());
                    }
                    assert forall|i: int|
                        0 <= i < out@.len() implies #[trigger] out@[i].target.model() == (
                        crate::path::deep(files@[i].target.dirs@),
                        files@[i].target.stem@,
                        "ts"@,
                        ) by {
                        assert(out@[i].target.model() == files@[i].target.model());
                    }
                    if self.mod_file_map is DecomposeTop {
                        crate::tsfile::lemma_decompose_top_len(
                            exporter.mods@,
                            crate::path::deep(to.dirs@) + seq![
                                crate::path::filename_spec(to.stem@, to.ext@),
                            ],
                        );
                        assert(crate::tsfile::plans_of(files@).len() == files@.len());
                        assert forall|i: int|
                            0 <= i < out@.len() implies #[trigger] out@[i].target.model() == (
                            crate::path::deep(to.dirs@) + seq![
                                crate::path::filename_spec(to.stem@, to.ext@),
                            ],
                            exporter.mods@[i].name@,
                            "ts"@,
                            ) by {
                            assert(crate::tsfile::plans_of(files@)[i] == files@[i].plan());
                            crate::tsfile::lemma_decompose_top_plan_at(
                                exporter.mods@,
                                crate::path::deep(to.dirs@) + seq![
                                    crate::path::filename_spec(to.stem@, to.ext@),
                                ],
                                i,
                            );
                        }
                    }
                    if self.mod_file_map is DecomposeAll {
                        let plans = crate::tsfile::decompose_all_plans(
                            exporter.mods@,
                            Seq::<Seq<char>>::empty(),
                        );
                        assert forall|i: int|
                            0 <= i < out@.len() implies #[trigger] out@[i].target.model() == (
                            plans[i].dirs,
                            plans[i].stem,
                            "ts"@,
                            ) by {
                            assert(crate::tsfile::plans_of(files@)[i] == files@[i].plan());
                        }
                    }
                }
                Ok(out)
            },
            Err(e) => {
                proof {
                    assert(render_failure(exg, files@, e));
                }
                Err(e)
            },
        }
    }
}

impl Target for TypeScript {
    fn export(self, to: &TargetPath, exporter: &Burrxporter) -> Result<
        Vec<RenderedFile>,
        ExportError,
    > {
        self.export_to(to, exporter)
    }
}

impl Burrxporter {
    /// Runs one export pass through a target; the rendered files are
    /// returned for a writer to put on disk under the configured root.
    pub fn export<T: Target>(&self, to: &TargetPath, target: T) -> (r: Result<
        Vec<RenderedFile>,
        ExportError,
    >)
        requires
            self.wf(),
        ensures
            match r {
                Result::Ok(out) => true,
                Result::Err(e) => e is DuplicateExport || e is UnknownType
                    || e is InvalidEnumRepr,
            },
    {
        target.export(to, self)
    }
}


/// Running the declaration renderer twice over value-equal inputs gives
/// byte-identical text: the section is one mathematical function of the
/// items' values and the configuration.
pub proof fn lemma_items_text_deterministic(
    ex: TsExporter,
    items1: Seq<IrItem>,
    items2: Seq<IrItem>,
    fmt: TsFormatter,
)
    requires
        items1.len() == items2.len(),
        forall|i: int| 0 <= i < items1.len() ==> (#[trigger] items1[i]).model() == items2[i].model(),
    ensures
        items_text_spec(ex, items1, fmt) == items_text_spec(ex, items2, fmt),
    decreases items1.len(),
{
    if items1.len() > 0 {
        assert forall|i: int|
            0 <= i < items1.drop_last().len() implies (#[trigger] items1.drop_last()[i]).model()
            == items2.drop_last()[i].model() by {
            assert(items1.drop_last()[i] == items1[i]);
            assert(items2.drop_last()[i] == items2[i]);
        }
        lemma_items_text_deterministic(ex, items1.drop_last(), items2.drop_last(), fmt);
        assert(items1.last().model() == items2.last().model());
    }
}

} // verus!