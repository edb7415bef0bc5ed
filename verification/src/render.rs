//! Rendering: turns each item into its TypeScript declaration text.
//!
//! Every function here pins its output exactly: the text is a function of
//! the item, the configured formatter and the name maps, so re-running a
//! render can only produce the same bytes.

use vstd::prelude::*;

use crate::case::{pascal_of, transform_spec, CaseConvention};
use crate::error::ExportError;
use crate::ir::{
    ItemModel, NamedFieldModel, ReprModel, TypeId, UnnamedFieldModel, VariantModel,
};
use crate::path::TargetPath;
use crate::registry::{table_get, Registry};

verus! {

/// A formatter with options to cover most general cases.
#[derive(Clone, Debug)]
pub struct TsFormatter {
    /// One indentation step.
    pub tab: String,
    /// How many tuple elements share a line before wrapping.
    pub max_items_per_line: usize,
    /// Renders struct-shaped variants of at most this many fields on a
    /// single line; `None` never compacts.
    pub compact_enum: Option<usize>,
}

/// `depth` repetitions of the indentation step.
pub open spec fn indent_spec(tab: Seq<char>, depth: nat) -> Seq<char>
    decreases depth,
{
    if depth == 0 {
        Seq::empty()
    } else {
        indent_spec(tab, (depth - 1) as nat) + tab
    }
}

impl TsFormatter {
    /// The defaults: two-space tabs, twelve tuple items per line, and
    /// struct variants of up to two fields on one line.
    pub fn pretty() -> (r: TsFormatter)
        ensures
            r.tab@ == "  "@,
            r.max_items_per_line == 12,
            r.compact_enum == Option::<usize>::Some(2usize),
    {
        TsFormatter { tab: "  ".to_owned(), max_items_per_line: 12, compact_enum: Some(2) }
    }

    pub fn with_max_items_per_line(self, n: usize) -> (r: TsFormatter)
        ensures
            r.tab == self.tab,
            r.max_items_per_line == n,
            r.compact_enum == self.compact_enum,
    {
        TsFormatter { max_items_per_line: n, ..self }
    }

    /// The indentation for a nesting depth.
    pub fn get_indentation(&self, depth: usize) -> (r: String)
        ensures
            r@ == indent_spec(self.tab@, depth as nat),
    {
        let mut out = String::new();
        let mut i: usize = 0;
        while i < depth
            invariant
                0 <= i <= depth,
                out@ == indent_spec(self.tab@, i as nat),
            decreases depth - i,
        {
            out.append(self.tab.as_str());
            i = i + 1;
        }
        out
    }
}

/// What a lookup among type substitutions returns.
pub open spec fn override_get(es: Seq<(TypeId, TypeId)>, id: TypeId) -> Option<TypeId>
    decreases es.len(),
{
    if es.len() == 0 {
        Option::None
    } else if es[0].0 == id {
        Option::Some(es[0].1)
    } else {
        override_get(es.drop_first(), id)
    }
}

/// What a lookup among builtin names returns.
pub open spec fn name_get(es: Seq<(TypeId, String)>, id: TypeId) -> Option<Seq<char>>
    decreases es.len(),
{
    if es.len() == 0 {
        Option::None
    } else if es[0].0 == id {
        Option::Some(es[0].1@)
    } else {
        name_get(es.drop_first(), id)
    }
}

/// The identity left after following substitutions, giving up after
/// `fuel` steps so that a substitution cycle cannot run forever.
pub open spec fn override_chase(es: Seq<(TypeId, TypeId)>, id: TypeId, fuel: nat) -> TypeId
    decreases fuel,
{
    if fuel == 0 {
        id
    } else {
        match override_get(es, id) {
            Option::Some(n) => override_chase(es, n, (fuel - 1) as nat),
            Option::None => id,
        }
    }
}

/// An export-friendly rendering pass: the files being exported and the
/// computed name and location maps for their types.
pub struct TsExporter {
    pub formatter: TsFormatter,
    /// The items being exported, keyed by identity.
    pub type_registry: Registry,
    /// The full input registry, consulted when an identity is referenced
    /// but not itself exported.
    pub input_registry: Registry,
    /// Which file each exported identity lands in.
    pub type_exports: Vec<(TypeId, TargetPath)>,
    /// Substitutions applied before naming a field's type.
    pub type_overrides: Vec<(TypeId, TypeId)>,
    /// Identities rendered as a fixed builtin name.
    pub type_strings: Vec<(TypeId, String)>,
}

/// The rendered name of a field's type, if any source knows it: the
/// identity is chased through the substitutions, then looked up among the
/// builtin names, the exported items, and finally the full registry.
pub open spec fn field_name_spec(ex: TsExporter, id: TypeId) -> Option<Seq<char>> {
    let t = override_chase(ex.type_overrides@, id, ex.type_overrides@.len());
    match name_get(ex.type_strings@, t) {
        Option::Some(s) => Option::Some(s),
        Option::None => match table_get(ex.type_registry.entries@, t) {
            Option::Some(item) => Option::Some(item.spec_ident()),
            Option::None => match table_get(ex.input_registry.entries@, t) {
                Option::Some(item) => Option::Some(item.spec_ident()),
                Option::None => Option::None,
            },
        },
    }
}

/// The identity blamed when no source knows a name: the one left after
/// the substitution chase.
pub open spec fn field_name_err_id(ex: TsExporter, id: TypeId) -> TypeId {
    override_chase(ex.type_overrides@, id, ex.type_overrides@.len())
}

impl TsExporter {
    /// Resolves the rendered name for a referenced identity; an identity
    /// that neither the registries nor the builtin name map know is a
    /// fatal render-time error.
    pub fn get_field_name(&self, id: TypeId) -> (r: Result<String, ExportError>)
        ensures
            match r {
                Result::Ok(s) => field_name_spec(*self, id) == Option::Some(s@),
                Result::Err(e) => field_name_spec(*self, id) is None && e
                    == (ExportError::UnknownType { id: field_name_err_id(*self, id) }),
            },
    {
        let mut cur: TypeId = id;
        let n = self.type_overrides.len();
        let mut fuel: usize = n;
        while fuel > 0
            invariant
                n == self.type_overrides@.len(),
                fuel <= n,
                override_chase(self.type_overrides@, id, n as nat) == override_chase(
                    self.type_overrides@,
                    cur,
                    fuel as nat,
                ),
            decreases fuel,
        {
            match lookup_override(&self.type_overrides, cur) {
                Some(next) => {
                    cur = next;
                    fuel = fuel - 1;
                },
                None => {
                    // a dead end keeps its identity at any remaining fuel
                    fuel = 0;
                },
            }
        }
        proof {
            assert(override_chase(self.type_overrides@, cur, 0) == cur);
        }
        match lookup_name(&self.type_strings, cur) {
            Some(s) => {
                return Ok(s);
            },
            None => {},
        }
        match self.type_registry.get(cur) {
            Some(item) => {
                return Ok(item.name());
            },
            None => {},
        }
        match self.input_registry.get(cur) {
            Some(item) => Ok(item.name()),
            None => Err(ExportError::UnknownType { id: cur }),
        }
    }
}

/// Finds the substitution recorded for an identity.
fn lookup_override(es: &Vec<(TypeId, TypeId)>, id: TypeId) -> (r: Option<TypeId>)
    ensures
        r == override_get(es@, id),
{
    let n = es.len();
    let mut i: usize = 0;
    proof {
        assert(es@.skip(0) =~= es@);
    }
    while i < n
        invariant
            0 <= i <= n,
            n == es@.len(),
            override_get(es@, id) == override_get(es@.skip(i as int), id),
        decreases n - i,
    {
        proof {
            assert(es@.skip(i as int)[0] == es@[i as int]);
            assert(es@.skip(i as int).drop_first() =~= es@.skip(i + 1 as int));
        }
        if es[i].0 == id {
            return Some(es[i].1);
        }
        i = i + 1;
    }
    None
}

/// Finds the builtin name recorded for an identity.
fn lookup_name(es: &Vec<(TypeId, String)>, id: TypeId) -> (r: Option<String>)
    ensures
        match r {
            Option::Some(s) => name_get(es@, id) == Option::Some(s@),
            Option::None => name_get(es@, id) is None,
        },
{
    let n = es.len();
    let mut i: usize = 0;
    proof {
        assert(es@.skip(0) =~= es@);
    }
    while i < n
        invariant
            0 <= i <= n,
            n == es@.len(),
            name_get(es@, id) == name_get(es@.skip(i as int), id),
        decreases n - i,
    {
        proof {
            assert(es@.skip(i as int)[0] == es@[i as int]);
            assert(es@.skip(i as int).drop_first() =~= es@.skip(i + 1 as int));
        }
        if es[i].0 == id {
            return Some(es[i].1.clone());
        }
        i = i + 1;
    }
    None
}

/// What a raw name renders as: a raw-identifier marker is dropped, the
/// rest stays.
pub open spec fn strip_spec(s: Seq<char>) -> Seq<char> {
    if s.len() >= 2 && s[0] == 'r' && s[1] == '#' {
        s.skip(2)
    } else {
        s
    }
}

/// Drops a leading raw-identifier marker from a name.
pub fn strip_rust_prefix(s: &str) -> (r: String)
    ensures
        r@ == strip_spec(s@),
{
    let n = s.unicode_len();
    if n >= 2 {
        if s.get_char(0) == 'r' && s.get_char(1) == '#' {
            let rest = s.substring_char(2, n);
            return rest.to_owned();
        }
    }
    s.to_owned()
}


/// The outcome of rendering: the text, or the first fatal condition met.
pub enum RenderOut {
    Rendered(Seq<char>),
    /// A referenced identity that no name source knows.
    Unknown(TypeId),
    /// An internally tagged enum holding a tuple variant.
    BadRepr,
}

/// A variant or field name as it is rendered: the raw-identifier marker
/// dropped, then the item's naming convention applied.
pub open spec fn rendered_name(case: CaseConvention, ident: Seq<char>) -> Seq<char> {
    transform_spec(case, strip_spec(ident))
}

/// The core of one named field: `name?: Type[]`, without separators.
pub open spec fn named_field_core(
    ex: TsExporter,
    f: NamedFieldModel,
    case: CaseConvention,
) -> Option<Seq<char>> {
    match field_name_spec(ex, f.ty.id) {
        Option::Some(nm) => Option::Some(
            rendered_name(case, f.ident) + (if f.ty.optional {
                "?"@
            } else {
                Seq::empty()
            }) + ": "@ + nm + (if f.ty.array {
                "[]"@
            } else {
                Seq::empty()
            }),
        ),
        Option::None => Option::None,
    }
}

/// The text of a struct-shaped field list: one `ind`-prefixed line per
/// field ending `,\n`, or, compacted, the fields joined by `, ` on one
/// line.
pub open spec fn render_named_fields(
    ex: TsExporter,
    fs: Seq<NamedFieldModel>,
    case: CaseConvention,
    ind: Seq<char>,
    compact: bool,
) -> RenderOut
    decreases fs.len(),
{
    if fs.len() == 0 {
        RenderOut::Rendered(Seq::empty())
    } else {
        match render_named_fields(ex, fs.drop_last(), case, ind, compact) {
            RenderOut::Rendered(pre) => match named_field_core(ex, fs.last(), case) {
                Option::Some(core) => RenderOut::Rendered(
                    if compact {
                        pre + (if fs.len() == 1 {
                            Seq::empty()
                        } else {
                            ", "@
                        }) + core
                    } else {
                        pre + ind + core + ",\n"@
                    },
                ),
                Option::None => RenderOut::Unknown(field_name_err_id(ex, fs.last().ty.id)),
            },
            other => other,
        }
    }
}

/// The text of a tuple-shaped variant payload: the field type names
/// joined by `, `.
pub open spec fn render_tuple_fields(ex: TsExporter, fs: Seq<UnnamedFieldModel>) -> RenderOut
    decreases fs.len(),
{
    if fs.len() == 0 {
        RenderOut::Rendered(Seq::empty())
    } else {
        match render_tuple_fields(ex, fs.drop_last()) {
            RenderOut::Rendered(pre) => match field_name_spec(ex, fs.last().ty.id) {
                Option::Some(nm) => RenderOut::Rendered(
                    pre + (if fs.len() == 1 {
                        Seq::empty()
                    } else {
                        ", "@
                    }) + nm,
                ),
                Option::None => RenderOut::Unknown(field_name_err_id(ex, fs.last().ty.id)),
            },
            other => other,
        }
    }
}

/// The text of a tuple struct's element list, wrapping to a new line
/// after every `max` elements (`max` zero never wraps).
pub open spec fn render_tuple_item_fields(
    ex: TsExporter,
    fs: Seq<UnnamedFieldModel>,
    max: nat,
) -> RenderOut
    decreases fs.len(),
{
    if fs.len() == 0 {
        RenderOut::Rendered(Seq::empty())
    } else {
        match render_tuple_item_fields(ex, fs.drop_last(), max) {
            RenderOut::Rendered(pre) => match field_name_spec(ex, fs.last().ty.id) {
                Option::Some(nm) => RenderOut::Rendered(
                    pre + (if fs.len() == 1 {
                        Seq::empty()
                    } else if max > 0 && (fs.len() - 1) as nat % max == 0 {
                        ",\n"@
                    } else {
                        ", "@
                    }) + nm,
                ),
                Option::None => RenderOut::Unknown(field_name_err_id(ex, fs.last().ty.id)),
            },
            other => other,
        }
    }
}

/// ` ` between braces of a one-line variant, a newline otherwise.
pub open spec fn sp_or_nl(compact: bool) -> Seq<char> {
    if compact {
        " "@
    } else {
        "\n"@
    }
}

/// What stands before a closing brace: a space on a one-line variant,
/// the closing indentation otherwise.
pub open spec fn close_pre(compact: bool, tab: Seq<char>, depth: nat) -> Seq<char> {
    if compact {
        " "@
    } else {
        indent_spec(tab, depth)
    }
}

/// The text of one enum variant under a tagging convention, at variant
/// depth `dv`.
pub open spec fn render_variant(
    ex: TsExporter,
    repr: ReprModel,
    v: VariantModel,
    case: CaseConvention,
    dv: nat,
    fmt: TsFormatter,
) -> RenderOut {
    let tab = fmt.tab@;
    let ind = indent_spec(tab, dv);
    match v {
        VariantModel::Struct { ident, fields } => {
            let compact = match fmt.compact_enum {
                Option::Some(n) => fields.len() <= n,
                Option::None => false,
            };
            let nm = rendered_name(case, ident);
            match render_named_fields(ex, fields, case, indent_spec(tab, dv + 2), compact) {
                RenderOut::Rendered(fb) => match repr {
                    ReprModel::External => RenderOut::Rendered(
                        ind + "| { "@ + nm + ": {"@ + sp_or_nl(compact) + fb + close_pre(
                            compact,
                            tab,
                            dv + 1,
                        ) + "}}\n"@,
                    ),
                    ReprModel::Untagged => RenderOut::Rendered(
                        ind + "| {"@ + sp_or_nl(compact) + fb + close_pre(compact, tab, dv + 1)
                            + "}\n"@,
                    ),
                    ReprModel::Internal(tag) => RenderOut::Rendered(
                        ind + "| {"@ + sp_or_nl(compact) + (if compact {
                            Seq::empty()
                        } else {
                            indent_spec(tab, dv + 2)
                        }) + tag + ": \""@ + nm + "\","@ + sp_or_nl(compact) + fb + close_pre(
                            compact,
                            tab,
                            dv + 1,
                        ) + "}\n"@,
                    ),
                    ReprModel::Adjacent { tag, content } => RenderOut::Rendered(
                        ind + "| {"@ + sp_or_nl(compact) + (if compact {
                            Seq::empty()
                        } else {
                            indent_spec(tab, dv + 2)
                        }) + tag + ": \""@ + nm + "\","@ + sp_or_nl(compact) + (if compact {
                            Seq::empty()
                        } else {
                            indent_spec(tab, dv + 2)
                        }) + content + ": {"@ + sp_or_nl(compact) + fb + (if compact {
                            " }"@
                        } else {
                            indent_spec(tab, dv + 2) + "}\n"@
                        }) + close_pre(compact, tab, dv + 1) + "}\n"@,
                    ),
                },
                other => other,
            }
        },
        VariantModel::Tuple { ident, fields } => {
            let compact = fields.len() == 1;
            let nm = rendered_name(case, ident);
            match repr {
                ReprModel::Internal(_) => RenderOut::BadRepr,
                _ => match render_tuple_fields(ex, fields) {
                    RenderOut::Rendered(fb) => match repr {
                        ReprModel::External => RenderOut::Rendered(
                            if compact {
                                ind + "| { "@ + nm + ": "@ + fb + " }\n"@
                            } else {
                                ind + "| { "@ + nm + ": ["@ + fb + "] }\n"@
                            },
                        ),
                        ReprModel::Untagged => RenderOut::Rendered(
                            ind + "| "@ + (if compact {
                                Seq::empty()
                            } else {
                                "["@
                            }) + fb + (if compact {
                                Seq::empty()
                            } else {
                                "]"@
                            }) + "\n"@,
                        ),
                        ReprModel::Adjacent { tag, content } => RenderOut::Rendered(
                            ind + "| {"@ + (if compact {
                                Seq::empty()
                            } else {
                                "\n"@
                            }) + close_pre(compact, tab, dv + 2) + strip_spec(tag) + ": \""@ + nm
                                + "\","@ + (if compact {
                                Seq::empty()
                            } else {
                                "\n"@
                            }) + close_pre(compact, tab, dv + 2) + strip_spec(content) + ": "@ + (
                            if compact {
                                Seq::empty()
                            } else {
                                "["@
                            }) + fb + (if compact {
                                Seq::empty()
                            } else {
                                "],\n"@
                            }) + close_pre(compact, tab, dv + 1) + "}\n"@,
                        ),
                        ReprModel::Internal(_) => RenderOut::BadRepr,
                    },
                    other => other,
                },
            }
        },
        VariantModel::Unit { ident } => {
            let nm = rendered_name(case, ident);
            match repr {
                ReprModel::External => RenderOut::Rendered(ind + "| \""@ + nm + "\"\n"@),
                ReprModel::Untagged => RenderOut::Rendered(ind + "| \""@ + nm + "\"\n"@),
                ReprModel::Internal(tag) => RenderOut::Rendered(
                    ind + "| { "@ + tag + ": \""@ + nm + "\" }\n"@,
                ),
                ReprModel::Adjacent { tag, content } => RenderOut::Rendered(
                    ind + "| { "@ + tag + ": \""@ + nm + "\", "@ + content + ": null }\n"@,
                ),
            }
        },
    }
}

/// The text of a whole variant list, in declaration order. Declared
/// order is load-bearing for untagged consumers, so variants are never
/// reordered.
pub open spec fn render_variants(
    ex: TsExporter,
    repr: ReprModel,
    vs: Seq<VariantModel>,
    case: CaseConvention,
    dv: nat,
    fmt: TsFormatter,
) -> RenderOut
    decreases vs.len(),
{
    if vs.len() == 0 {
        RenderOut::Rendered(Seq::empty())
    } else {
        match render_variants(ex, repr, vs.drop_last(), case, dv, fmt) {
            RenderOut::Rendered(pre) => match render_variant(ex, repr, vs.last(), case, dv, fmt) {
                RenderOut::Rendered(one) => RenderOut::Rendered(pre + one),
                other => other,
            },
            other => other,
        }
    }
}

/// The declaration text of one item at nesting depth `d`.
pub open spec fn render_item_spec(ex: TsExporter, m: ItemModel, d: nat, fmt: TsFormatter) -> RenderOut {
    let tab = fmt.tab@;
    let ind = indent_spec(tab, d);
    match m {
        ItemModel::NamedStruct { ident, id, fields, case_convention, module_hint } => {
            match render_named_fields(ex, fields, case_convention, indent_spec(tab, d + 1), false) {
                RenderOut::Rendered(fb) => RenderOut::Rendered(
                    ind + "export interface "@ + pascal_of(strip_spec(ident)) + " {\n"@ + fb + ind
                        + "}"@,
                ),
                other => other,
            }
        },
        ItemModel::TupleStruct { ident, id, fields, module_hint } => {
            if fields.len() == 1 {
                match field_name_spec(ex, fields[0].ty.id) {
                    Option::Some(nm) => RenderOut::Rendered(
                        ind + "export type "@ + pascal_of(strip_spec(ident)) + " = "@ + nm,
                    ),
                    Option::None => RenderOut::Unknown(field_name_err_id(ex, fields[0].ty.id)),
                }
            } else {
                match render_tuple_item_fields(ex, fields, fmt.max_items_per_line as nat) {
                    RenderOut::Rendered(fb) => RenderOut::Rendered(
                        ind + "export type "@ + pascal_of(strip_spec(ident)) + " = ["@ + fb + "]"@,
                    ),
                    other => other,
                }
            }
        },
        ItemModel::UnitStruct { ident, id, module_hint } => RenderOut::Rendered(
            ind + "export type "@ + pascal_of(strip_spec(ident)) + " = null"@,
        ),
        ItemModel::Enum { ident, id, variants, repr, case_convention, module_hint } => {
            match render_variants(ex, repr, variants, case_convention, d + 1, fmt) {
                RenderOut::Rendered(vb) => RenderOut::Rendered(
                    ind + "export type "@ + pascal_of(strip_spec(ident)) + " =\n"@ + vb + ";"@,
                ),
                other => other,
            }
        },
    }
}


/// A failure met in a prefix of the field list decides the whole list.
pub proof fn lemma_named_fields_err(
    ex: TsExporter,
    fs: Seq<NamedFieldModel>,
    case: CaseConvention,
    ind: Seq<char>,
    compact: bool,
    k: int,
)
    requires
        0 <= k <= fs.len(),
        !(render_named_fields(ex, fs.subrange(0, k), case, ind, compact) is Rendered),
    ensures
        render_named_fields(ex, fs, case, ind, compact) == render_named_fields(
            ex,
            fs.subrange(0, k),
            case,
            ind,
            compact,
        ),
    decreases fs.len() - k,
{
    if k == fs.len() {
        assert(fs.subrange(0, k) =~= fs);
    } else {
        assert(fs.subrange(0, k + 1).drop_last() =~= fs.subrange(0, k));
        lemma_named_fields_err(ex, fs, case, ind, compact, k + 1);
    }
}

/// A failure met in a prefix of a tuple payload decides the whole list.
pub proof fn lemma_tuple_fields_err(ex: TsExporter, fs: Seq<UnnamedFieldModel>, k: int)
    requires
        0 <= k <= fs.len(),
        !(render_tuple_fields(ex, fs.subrange(0, k)) is Rendered),
    ensures
        render_tuple_fields(ex, fs) == render_tuple_fields(ex, fs.subrange(0, k)),
    decreases fs.len() - k,
{
    if k == fs.len() {
        assert(fs.subrange(0, k) =~= fs);
    } else {
        assert(fs.subrange(0, k + 1).drop_last() =~= fs.subrange(0, k));
        lemma_tuple_fields_err(ex, fs, k + 1);
    }
}

/// A failure met in a prefix of a tuple struct's elements decides the
/// whole list.
pub proof fn lemma_tuple_item_fields_err(
    ex: TsExporter,
    fs: Seq<UnnamedFieldModel>,
    max: nat,
    k: int,
)
    requires
        0 <= k <= fs.len(),
        !(render_tuple_item_fields(ex, fs.subrange(0, k), max) is Rendered),
    ensures
        render_tuple_item_fields(ex, fs, max) == render_tuple_item_fields(
            ex,
            fs.subrange(0, k),
            max,
        ),
    decreases fs.len() - k,
{
    if k == fs.len() {
        assert(fs.subrange(0, k) =~= fs);
    } else {
        assert(fs.subrange(0, k + 1).drop_last() =~= fs.subrange(0, k));
        lemma_tuple_item_fields_err(ex, fs, max, k + 1);
    }
}

/// A failure met in a prefix of the variant list decides the whole list.
pub proof fn lemma_variants_err(
    ex: TsExporter,
    repr: ReprModel,
    vs: Seq<VariantModel>,
    case: CaseConvention,
    dv: nat,
    fmt: TsFormatter,
    k: int,
)
    requires
        0 <= k <= vs.len(),
        !(render_variants(ex, repr, vs.subrange(0, k), case, dv, fmt) is Rendered),
    ensures
        render_variants(ex, repr, vs, case, dv, fmt) == render_variants(
            ex,
            repr,
            vs.subrange(0, k),
            case,
            dv,
            fmt,
        ),
    decreases vs.len() - k,
{
    if k == vs.len() {
        assert(vs.subrange(0, k) =~= vs);
    } else {
        assert(vs.subrange(0, k + 1).drop_last() =~= vs.subrange(0, k));
        lemma_variants_err(ex, repr, vs, case, dv, fmt, k + 1);
    }
}

impl TsExporter {
    /// Writes a struct-shaped field list onto `out`, one field per line,
    /// or joined on one line when compacted.
    #[verifier::rlimit(60)]
    pub fn format_enum_struct_fields(
        &self,
        out: &mut String,
        compact: bool,
        case: CaseConvention,
        ind: &String,
        fields: &Vec<crate::ir::IrNamedField>,
    ) -> (r: Result<(), ExportError>)
        ensures
            ({
                let rr = render_named_fields(
                    *self,
                    crate::ir::named_fields_model(fields@),
                    case,
                    ind@,
                    compact,
                );
                match r {
                    Result::Ok(u) => rr is Rendered && final(out)@ == old(out)@ + rr->Rendered_0,
                    Result::Err(e) => rr is Unknown && e == (ExportError::UnknownType {
                        id: rr->Unknown_0,
                    }),
                }
            }),
    {
        let ghost fsm = crate::ir::named_fields_model(fields@);
        let ghost out0 = out@;
        let n = fields.len();
        let mut i: usize = 0;
        proof {
            assert(fsm.subrange(0, 0) =~= Seq::<NamedFieldModel>::empty());
            assert(out@ =~= out0 + Seq::<char>::empty());
        }
        while i < n
            invariant
                0 <= i <= n,
                n == fields@.len(),
                fsm == crate::ir::named_fields_model(fields@),
                fsm.len() == n,
                render_named_fields(*self, fsm.subrange(0, i as int), case, ind@, compact)
                    is Rendered,
                out@ == out0 + render_named_fields(
                    *self,
                    fsm.subrange(0, i as int),
                    case,
                    ind@,
                    compact,
                )->Rendered_0,
            decreases n - i,
        {
            proof {
                assert(fsm[i as int] == fields@[i as int].model());
            }
            let nm = match self.get_field_name(fields[i].ty.id) {
                Ok(nm) => nm,
                Err(e) => {
                    proof {
                        assert(fsm.subrange(0, i + 1 as int).drop_last() =~= fsm.subrange(
                            0,
                            i as int,
                        ));
                        assert(fsm.subrange(0, i + 1 as int).last() == fsm[i as int]);
                        assert(render_named_fields(
                            *self,
                            fsm.subrange(0, i + 1 as int),
                            case,
                            ind@,
                            compact,
                        ) is Unknown);
                        lemma_named_fields_err(*self, fsm, case, ind@, compact, i + 1 as int);
                    }
                    return Err(e);
                },
            };
            let stripped = strip_rust_prefix(fields[i].ident.as_str());
            let shown = case.transform(stripped.as_str());
            let mut core = shown;
            if fields[i].ty.optional {
                core.append("?");
            }
            core.append(": ");
            core.append(nm.as_str());
            if fields[i].ty.array {
                core.append("[]");
            }
            proof {
                assert(named_field_core(*self, fsm[i as int], case) is Some);
                assert(core@ =~= named_field_core(*self, fsm[i as int], case)->Some_0);
            }
            if compact {
                if i > 0 {
                    out.append(", ");
                }
            } else {
                out.append(ind.as_str());
            }
            out.append(core.as_str());
            if !compact {
                out.append(",\n");
            }
            proof {
                let sub1 = fsm.subrange(0, i + 1 as int);
                assert(sub1.drop_last() =~= fsm.subrange(0, i as int));
                assert(sub1.last() == fsm[i as int]);
                let pre = render_named_fields(*self, fsm.subrange(0, i as int), case, ind@, compact)->Rendered_0;
                let corev = named_field_core(*self, fsm[i as int], case)->Some_0;
                if compact {
                    if i > 0 {
                        assert(out@ =~= out0 + (pre + ", "@ + corev));
                        assert(sub1.len() != 1);
                    } else {
                        assert(pre =~= Seq::<char>::empty());
                        assert(out@ =~= out0 + (pre + Seq::<char>::empty() + corev));
                        assert(sub1.len() == 1);
                    }
                } else {
                    assert(out@ =~= out0 + (pre + ind@ + corev + ",\n"@));
                }
                assert(render_named_fields(*self, sub1, case, ind@, compact) is Rendered);
                assert(out@ == out0 + render_named_fields(
                    *self,
                    sub1,
                    case,
                    ind@,
                    compact,
                )->Rendered_0);
            }
            i = i + 1;
        }
        proof {
            assert(fsm.subrange(0, n as int) =~= fsm);
        }
        Ok(())
    }

    /// Writes a tuple-shaped payload onto `out`: the type names joined by
    /// a comma.
    pub fn format_enum_tuple_fields(
        &self,
        out: &mut String,
        fields: &Vec<crate::ir::IrUnnamedField>,
    ) -> (r: Result<(), ExportError>)
        ensures
            ({
                let rr = render_tuple_fields(*self, crate::ir::unnamed_fields_model(fields@));
                match r {
                    Result::Ok(u) => rr is Rendered && final(out)@ == old(out)@ + rr->Rendered_0,
                    Result::Err(e) => rr is Unknown && e == (ExportError::UnknownType {
                        id: rr->Unknown_0,
                    }),
                }
            }),
    {
        let ghost fsm = crate::ir::unnamed_fields_model(fields@);
        let ghost out0 = out@;
        let n = fields.len();
        let mut i: usize = 0;
        proof {
            assert(fsm.subrange(0, 0) =~= Seq::<UnnamedFieldModel>::empty());
            assert(out@ =~= out0 + Seq::<char>::empty());
        }
        while i < n
            invariant
                0 <= i <= n,
                n == fields@.len(),
                fsm == crate::ir::unnamed_fields_model(fields@),
                fsm.len() == n,
                render_tuple_fields(*self, fsm.subrange(0, i as int)) is Rendered,
                out@ == out0 + render_tuple_fields(*self, fsm.subrange(0, i as int))->Rendered_0,
            decreases n - i,
        {
            proof {
                assert(fsm[i as int] == fields@[i as int].model());
            }
            let nm = match self.get_field_name(fields[i].ty.id) {
                Ok(nm) => nm,
                Err(e) => {
                    proof {
                        assert(fsm.subrange(0, i + 1 as int).drop_last() =~= fsm.subrange(
                            0,
                            i as int,
                        ));
                        assert(fsm.subrange(0, i + 1 as int).last() == fsm[i as int]);
                        assert(render_tuple_fields(*self, fsm.subrange(0, i + 1 as int))
                            is Unknown);
                        lemma_tuple_fields_err(*self, fsm, i + 1 as int);
                    }
                    return Err(e);
                },
            };
            if i > 0 {
                out.append(", ");
            }
            out.append(nm.as_str());
            proof {
                let sub1 = fsm.subrange(0, i + 1 as int);
                assert(sub1.drop_last() =~= fsm.subrange(0, i as int));
                assert(sub1.last() == fsm[i as int]);
                assert(render_tuple_fields(*self, sub1) is Rendered);
                assert(out@ =~= out0 + render_tuple_fields(*self, sub1)->Rendered_0);
            }
            i = i + 1;
        }
        proof {
            assert(fsm.subrange(0, n as int) =~= fsm);
        }
        Ok(())
    }
}


impl TsExporter {
    /// The text of one variant at variant depth `dv`.
    #[verifier::rlimit(100)]
    pub fn format_one_variant(
        &self,
        repr: &crate::ir::EnumRepr,
        case: CaseConvention,
        v: &crate::ir::IrEnumVariant,
        dv: usize,
        enum_name: &String,
    ) -> (r: Result<String, ExportError>)
        requires
            dv <= usize::MAX - 2,
        ensures
            ({
                let rr = render_variant(
                    *self,
                    repr.model(),
                    v.model(),
                    case,
                    dv as nat,
                    self.formatter,
                );
                match r {
                    Result::Ok(s) => rr is Rendered && s@ == rr->Rendered_0,
                    Result::Err(e) => match e {
                        ExportError::UnknownType { id } => rr is Unknown && id == rr->Unknown_0,
                        ExportError::InvalidEnumRepr { name } => rr is BadRepr && name@
                            == enum_name@,
                        _ => false,
                    },
                }
            }),
    {
        let ind = self.formatter.get_indentation(dv);
        let ind1 = self.formatter.get_indentation(dv + 1);
        let ind2 = self.formatter.get_indentation(dv + 2);
        let mut out = String::new();
        match v {
            crate::ir::IrEnumVariant::Struct(sv) => {
                let compact = match self.formatter.compact_enum {
                    Some(n) => sv.fields.len() <= n,
                    None => false,
                };
                let stripped = strip_rust_prefix(sv.ident.as_str());
                let nm = case.transform(stripped.as_str());
                let mut fb = String::new();
                match self.format_enum_struct_fields(&mut fb, compact, case, &ind2, &sv.fields) {
                    Ok(_) => {},
                    Err(e) => {
                        return Err(e);
                    },
                }
                match repr {
                    crate::ir::EnumRepr::External => {
                        out.append(ind.as_str());
                        out.append("| { ");
                        out.append(nm.as_str());
                        out.append(": {");
                        out.append(if compact { " " } else { "\n" });
                        out.append(fb.as_str());
                        if compact {
                            out.append(" ");
                        } else {
                            out.append(ind1.as_str());
                        }
                        out.append("}}\n");
                        proof {
                            assert(out@ =~= render_variant(
                                *self,
                                repr.model(),
                                v.model(),
                                case,
                                dv as nat,
                                self.formatter,
                            )->Rendered_0);
                        }
                        Ok(out)
                    },
                    crate::ir::EnumRepr::Untagged => {
                        out.append(ind.as_str());
                        out.append("| {");
                        out.append(if compact { " " } else { "\n" });
                        out.append(fb.as_str());
                        if compact {
                            out.append(" ");
                        } else {
                            out.append(ind1.as_str());
                        }
                        out.append("}\n");
                        proof {
                            assert(out@ =~= render_variant(
                                *self,
                                repr.model(),
                                v.model(),
                                case,
                                dv as nat,
                                self.formatter,
                            )->Rendered_0);
                        }
                        Ok(out)
                    },
                    crate::ir::EnumRepr::Internal(tag) => {
                        out.append(ind.as_str());
                        out.append("| {");
                        out.append(if compact { " " } else { "\n" });
                        if !compact {
                            out.append(ind2.as_str());
                        }
                        out.append(tag.as_str());
                        out.append(": \"");
                        out.append(nm.as_str());
                        out.append("\",");
                        out.append(if compact { " " } else { "\n" });
                        out.append(fb.as_str());
                        if compact {
                            out.append(" ");
                        } else {
                            out.append(ind1.as_str());
                        }
                        out.append("}\n");
                        proof {
                            assert(out@ =~= render_variant(
                                *self,
                                repr.model(),
                                v.model(),
                                case,
                                dv as nat,
                                self.formatter,
                            )->Rendered_0);
                        }
                        Ok(out)
                    },
                    crate::ir::EnumRepr::Adjacent { tag, content } => {
                        out.append(ind.as_str());
                        out.append("| {");
                        out.append(if compact { " " } else { "\n" });
                        if !compact {
                            out.append(ind2.as_str());
                        }
                        out.append(tag.as_str());
                        out.append(": \"");
                        out.append(nm.as_str());
                        out.append("\",");
                        out.append(if compact { " " } else { "\n" });
                        if !compact {
                            out.append(ind2.as_str());
                        }
                        out.append(content.as_str());
                        out.append(": {");
                        out.append(if compact { " " } else { "\n" });
                        out.append(fb.as_str());
                        if compact {
                            out.append(" }");
                        } else {
                            out.append(ind2.as_str());
                            out.append("}\n");
                        }
                        if compact {
                            out.append(" ");
                        } else {
                            out.append(ind1.as_str());
                        }
                        out.append("}\n");
                        proof {
                            assert(out@ =~= render_variant(
                                *self,
                                repr.model(),
                                v.model(),
                                case,
                                dv as nat,
                                self.formatter,
                            )->Rendered_0);
                        }
                        Ok(out)
                    },
                }
            },
            crate::ir::IrEnumVariant::Tuple(tv) => {
                if let crate::ir::EnumRepr::Internal(_) = repr {
                    return Err(ExportError::InvalidEnumRepr { name: enum_name.clone() });
                }
                let compact = tv.fields.len() == 1;
                let stripped = strip_rust_prefix(tv.ident.as_str());
                let nm = case.transform(stripped.as_str());
                let mut fb = String::new();
                match self.format_enum_tuple_fields(&mut fb, &tv.fields) {
                    Ok(_) => {},
                    Err(e) => {
                        return Err(e);
                    },
                }
                match repr {
                    crate::ir::EnumRepr::External => {
                        out.append(ind.as_str());
                        out.append("| { ");
                        out.append(nm.as_str());
                        if compact {
                            out.append(": ");
                            out.append(fb.as_str());
                            out.append(" }\n");
                        } else {
                            out.append(": [");
                            out.append(fb.as_str());
                            out.append("] }\n");
                        }
                        proof {
                            assert(out@ =~= render_variant(
                                *self,
                                repr.model(),
                                v.model(),
                                case,
                                dv as nat,
                                self.formatter,
                            )->Rendered_0);
                        }
                        Ok(out)
                    },
                    crate::ir::EnumRepr::Untagged => {
                        out.append(ind.as_str());
                        out.append("| ");
                        if !compact {
                            out.append("[");
                        }
                        out.append(fb.as_str());
                        if !compact {
                            out.append("]");
                        }
                        out.append("\n");
                        proof {
                            assert(out@ =~= render_variant(
                                *self,
                                repr.model(),
                                v.model(),
                                case,
                                dv as nat,
                                self.formatter,
                            )->Rendered_0);
                        }
                        Ok(out)
                    },
                    crate::ir::EnumRepr::Adjacent { tag, content } => {
                        let stag = strip_rust_prefix(tag.as_str());
                        let scontent = strip_rust_prefix(content.as_str());
                        out.append(ind.as_str());
                        out.append("| {");
                        if !compact {
                            out.append("\n");
                        }
                        if compact {
                            out.append(" ");
                        } else {
                            out.append(ind2.as_str());
                        }
                        out.append(stag.as_str());
                        out.append(": \"");
                        out.append(nm.as_str());
                        out.append("\",");
                        if !compact {
                            out.append("\n");
                        }
                        if compact {
                            out.append(" ");
                        } else {
                            out.append(ind2.as_str());
                        }
                        out.append(scontent.as_str());
                        out.append(": ");
                        if !compact {
                            out.append("[");
                        }
                        out.append(fb.as_str());
                        if !compact {
                            out.append("],\n");
                        }
                        if compact {
                            out.append(" ");
                        } else {
                            out.append(ind1.as_str());
                        }
                        out.append("}\n");
                        proof {
                            assert(out@ =~= render_variant(
                                *self,
                                repr.model(),
                                v.model(),
                                case,
                                dv as nat,
                                self.formatter,
                            )->Rendered_0);
                        }
                        Ok(out)
                    },
                    crate::ir::EnumRepr::Internal(_) => {
                        Err(ExportError::InvalidEnumRepr { name: enum_name.clone() })
                    },
                }
            },
            crate::ir::IrEnumVariant::Unit(uv) => {
                let stripped = strip_rust_prefix(uv.ident.as_str());
                let nm = case.transform(stripped.as_str());
                match repr {
                    crate::ir::EnumRepr::External => {
                        out.append(ind.as_str());
                        out.append("| \"");
                        out.append(nm.as_str());
                        out.append("\"\n");
                    },
                    crate::ir::EnumRepr::Untagged => {
                        out.append(ind.as_str());
                        out.append("| \"");
                        out.append(nm.as_str());
                        out.append("\"\n");
                    },
                    crate::ir::EnumRepr::Internal(tag) => {
                        out.append(ind.as_str());
                        out.append("| { ");
                        out.append(tag.as_str());
                        out.append(": \"");
                        out.append(nm.as_str());
                        out.append("\" }\n");
                    },
                    crate::ir::EnumRepr::Adjacent { tag, content } => {
                        out.append(ind.as_str());
                        out.append("| { ");
                        out.append(tag.as_str());
                        out.append(": \"");
                        out.append(nm.as_str());
                        out.append("\", ");
                        out.append(content.as_str());
                        out.append(": null }\n");
                    },
                }
                proof {
                    assert(out@ =~= render_variant(
                        *self,
                        repr.model(),
                        v.model(),
                        case,
                        dv as nat,
                        self.formatter,
                    )->Rendered_0);
                }
                Ok(out)
            },
        }
    }
}


impl TsExporter {
    /// Writes every variant onto `out`, in declaration order.
    pub fn format_enum_variants(
        &self,
        out: &mut String,
        repr: &crate::ir::EnumRepr,
        case: CaseConvention,
        variants: &Vec<crate::ir::IrEnumVariant>,
        dv: usize,
        enum_name: &String,
    ) -> (r: Result<(), ExportError>)
        requires
            dv <= usize::MAX - 2,
        ensures
            ({
                let rr = render_variants(
                    *self,
                    repr.model(),
                    crate::ir::variants_model(variants@),
                    case,
                    dv as nat,
                    self.formatter,
                );
                match r {
                    Result::Ok(u) => rr is Rendered && final(out)@ == old(out)@ + rr->Rendered_0,
                    Result::Err(e) => match e {
                        ExportError::UnknownType { id } => rr is Unknown && id == rr->Unknown_0,
                        ExportError::InvalidEnumRepr { name } => rr is BadRepr && name@
                            == enum_name@,
                        _ => false,
                    },
                }
            }),
    {
        let ghost vsm = crate::ir::variants_model(variants@);
        let ghost out0 = out@;
        let n = variants.len();
        let mut i: usize = 0;
        proof {
            assert(vsm.subrange(0, 0) =~= Seq::<VariantModel>::empty());
            assert(out@ =~= out0 + Seq::<char>::empty());
        }
        while i < n
            invariant
                0 <= i <= n,
                n == variants@.len(),
                vsm == crate::ir::variants_model(variants@),
                vsm.len() == n,
                dv <= usize::MAX - 2,
                render_variants(
                    *self,
                    repr.model(),
                    vsm.subrange(0, i as int),
                    case,
                    dv as nat,
                    self.formatter,
                ) is Rendered,
                out@ == out0 + render_variants(
                    *self,
                    repr.model(),
                    vsm.subrange(0, i as int),
                    case,
                    dv as nat,
                    self.formatter,
                )->Rendered_0,
            decreases n - i,
        {
            proof {
                assert(vsm[i as int] == variants@[i as int].model());
            }
            match self.format_one_variant(repr, case, &variants[i], dv, enum_name) {
                Ok(vtext) => {
                    out.append(vtext.as_str());
                    proof {
                        let sub1 = vsm.subrange(0, i + 1 as int);
                        assert(sub1.drop_last() =~= vsm.subrange(0, i as int));
                        assert(sub1.last() == vsm[i as int]);
                        assert(render_variants(
                            *self,
                            repr.model(),
                            sub1,
                            case,
                            dv as nat,
                            self.formatter,
                        ) is Rendered);
                        assert(out@ =~= out0 + render_variants(
                            *self,
                            repr.model(),
                            sub1,
                            case,
                            dv as nat,
                            self.formatter,
                        )->Rendered_0);
                    }
                },
                Err(e) => {
                    proof {
                        let sub1 = vsm.subrange(0, i + 1 as int);
                        assert(sub1.drop_last() =~= vsm.subrange(0, i as int));
                        assert(sub1.last() == vsm[i as int]);
                        assert(!(render_variants(
                            *self,
                            repr.model(),
                            sub1,
                            case,
                            dv as nat,
                            self.formatter,
                        ) is Rendered));
                        lemma_variants_err(
                            *self,
                            repr.model(),
                            vsm,
                            case,
                            dv as nat,
                            self.formatter,
                            i + 1 as int,
                        );
                    }
                    return Err(e);
                },
            }
            i = i + 1;
        }
        proof {
            assert(vsm.subrange(0, n as int) =~= vsm);
        }
        Ok(())
    }

    /// Writes a tuple struct's element list onto `out`, wrapping after
    /// every `max` elements.
    pub fn format_tuple_item_fields(
        &self,
        out: &mut String,
        fields: &Vec<crate::ir::IrUnnamedField>,
        max: usize,
    ) -> (r: Result<(), ExportError>)
        ensures
            ({
                let rr = render_tuple_item_fields(
                    *self,
                    crate::ir::unnamed_fields_model(fields@),
                    max as nat,
                );
                match r {
                    Result::Ok(u) => rr is Rendered && final(out)@ == old(out)@ + rr->Rendered_0,
                    Result::Err(e) => rr is Unknown && e == (ExportError::UnknownType {
                        id: rr->Unknown_0,
                    }),
                }
            }),
    {
        let ghost fsm = crate::ir::unnamed_fields_model(fields@);
        let ghost out0 = out@;
        let n = fields.len();
        let mut i: usize = 0;
        proof {
            assert(fsm.subrange(0, 0) =~= Seq::<UnnamedFieldModel>::empty());
            assert(out@ =~= out0 + Seq::<char>::empty());
        }
        while i < n
            invariant
                0 <= i <= n,
                n == fields@.len(),
                fsm == crate::ir::unnamed_fields_model(fields@),
                fsm.len() == n,
                render_tuple_item_fields(*self, fsm.subrange(0, i as int), max as nat)
                    is Rendered,
                out@ == out0 + render_tuple_item_fields(
                    *self,
                    fsm.subrange(0, i as int),
                    max as nat,
                )->Rendered_0,
            decreases n - i,
        {
            proof {
                assert(fsm[i as int] == fields@[i as int].model());
            }
            let nm = match self.get_field_name(fields[i].ty.id) {
                Ok(nm) => nm,
                Err(e) => {
                    proof {
                        assert(fsm.subrange(0, i + 1 as int).drop_last() =~= fsm.subrange(
                            0,
                            i as int,
                        ));
                        assert(fsm.subrange(0, i + 1 as int).last() == fsm[i as int]);
                        assert(render_tuple_item_fields(
                            *self,
                            fsm.subrange(0, i + 1 as int),
                            max as nat,
                        ) is Unknown);
                        lemma_tuple_item_fields_err(*self, fsm, max as nat, i + 1 as int);
                    }
                    return Err(e);
                },
            };
            if i > 0 {
                if max > 0 && i % max == 0 {
                    out.append(",\n");
                } else {
                    out.append(", ");
                }
            }
            out.append(nm.as_str());
            proof {
                let sub1 = fsm.subrange(0, i + 1 as int);
                assert(sub1.drop_last() =~= fsm.subrange(0, i as int));
                assert(sub1.last() == fsm[i as int]);
                assert(render_tuple_item_fields(*self, sub1, max as nat) is Rendered);
                assert(out@ =~= out0 + render_tuple_item_fields(
                    *self,
                    sub1,
                    max as nat,
                )->Rendered_0);
            }
            i = i + 1;
        }
        proof {
            assert(fsm.subrange(0, n as int) =~= fsm);
        }
        Ok(())
    }

    /// The declaration text of one item, at nesting depth `depth`.
    #[verifier::rlimit(60)]
    pub fn format_type(&self, item: &crate::ir::IrItem, depth: usize) -> (r: Result<
        String,
        ExportError,
    >)
        requires
            depth <= usize::MAX - 3,
        ensures
            ({
                let rr = render_item_spec(*self, item.model(), depth as nat, self.formatter);
                match r {
                    Result::Ok(s) => rr is Rendered && s@ == rr->Rendered_0,
                    Result::Err(e) => match e {
                        ExportError::UnknownType { id } => rr is Unknown && id == rr->Unknown_0,
                        ExportError::InvalidEnumRepr { name } => rr is BadRepr && name@
                            == item.spec_ident(),
                        _ => false,
                    },
                }
            }),
    {
        let ind = self.formatter.get_indentation(depth);
        let mut out = String::new();
        match item {
            crate::ir::IrItem::NamedStruct(ir) => {
                let stripped = strip_rust_prefix(ir.ident.as_str());
                let pname = crate::case::to_pascal(stripped.as_str());
                out.append(ind.as_str());
                out.append("export interface ");
                out.append(pname.as_str());
                out.append(" {\n");
                let ind1 = self.formatter.get_indentation(depth + 1);
                match self.format_enum_struct_fields(
                    &mut out,
                    false,
                    ir.case_convention,
                    &ind1,
                    &ir.fields,
                ) {
                    Ok(_) => {},
                    Err(e) => {
                        return Err(e);
                    },
                }
                out.append(ind.as_str());
                out.append("}");
                proof {
                    assert(out@ =~= render_item_spec(
                        *self,
                        item.model(),
                        depth as nat,
                        self.formatter,
                    )->Rendered_0);
                }
                Ok(out)
            },
            crate::ir::IrItem::TupleStruct(ir) => {
                let stripped = strip_rust_prefix(ir.ident.as_str());
                let pname = crate::case::to_pascal(stripped.as_str());
                if ir.fields.len() == 1 {
                    proof {
                        assert(crate::ir::unnamed_fields_model(ir.fields@)[0] == ir.fields@[0]
                            .model());
                    }
                    let nm = match self.get_field_name(ir.fields[0].ty.id) {
                        Ok(nm) => nm,
                        Err(e) => {
                            return Err(e);
                        },
                    };
                    out.append(ind.as_str());
                    out.append("export type ");
                    out.append(pname.as_str());
                    out.append(" = ");
                    out.append(nm.as_str());
                    proof {
                        assert(out@ =~= render_item_spec(
                            *self,
                            item.model(),
                            depth as nat,
                            self.formatter,
                        )->Rendered_0);
                    }
                    Ok(out)
                } else {
                    out.append(ind.as_str());
                    out.append("export type ");
                    out.append(pname.as_str());
                    out.append(" = [");
                    match self.format_tuple_item_fields(
                        &mut out,
                        &ir.fields,
                        self.formatter.max_items_per_line,
                    ) {
                        Ok(_) => {},
                        Err(e) => {
                            return Err(e);
                        },
                    }
                    out.append("]");
                    proof {
                        assert(out@ =~= render_item_spec(
                            *self,
                            item.model(),
                            depth as nat,
                            self.formatter,
                        )->Rendered_0);
                    }
                    Ok(out)
                }
            },
            crate::ir::IrItem::UnitStruct(ir) => {
                let stripped = strip_rust_prefix(ir.ident.as_str());
                let pname = crate::case::to_pascal(stripped.as_str());
                out.append(ind.as_str());
                out.append("export type ");
                out.append(pname.as_str());
                out.append(" = null");
                proof {
                    assert(out@ =~= render_item_spec(
                        *self,
                        item.model(),
                        depth as nat,
                        self.formatter,
                    )->Rendered_0);
                }
                Ok(out)
            },
            crate::ir::IrItem::Enum(ir) => {
                let stripped = strip_rust_prefix(ir.ident.as_str());
                let pname = crate::case::to_pascal(stripped.as_str());
                out.append(ind.as_str());
                out.append("export type ");
                out.append(pname.as_str());
                out.append(" =\n");
                match self.format_enum_variants(
                    &mut out,
                    &ir.repr,
                    ir.case_convention,
                    &ir.variants,
                    depth + 1,
                    &ir.ident,
                ) {
                    Ok(_) => {},
                    Err(e) => {
                        return Err(e);
                    },
                }
                out.append(";");
                proof {
                    assert(out@ =~= render_item_spec(
                        *self,
                        item.model(),
                        depth as nat,
                        self.formatter,
                    )->Rendered_0);
                }
                Ok(out)
            },
        }
    }
}


/// A tuple struct with exactly one field renders as a direct alias to
/// its inner type's name — never as a bracketed one-element tuple.
pub proof fn lemma_newtype_unwraps(ex: TsExporter, m: ItemModel, d: nat, fmt: TsFormatter)
    requires
        m is TupleStruct,
        m->TupleStruct_fields.len() == 1,
        render_item_spec(ex, m, d, fmt) is Rendered,
    ensures
        render_item_spec(ex, m, d, fmt)->Rendered_0 == indent_spec(fmt.tab@, d)
            + "export type "@ + pascal_of(strip_spec(m->TupleStruct_ident)) + " = "@
            + field_name_spec(ex, m->TupleStruct_fields[0].ty.id)->Some_0,
{
}

/// The rendered text depends only on an item's mathematical value, never
/// on where the item happens to be held: two value-equal item lists
/// render to identical bytes.
pub proof fn lemma_render_deterministic(
    ex: TsExporter,
    a: crate::ir::IrItem,
    b: crate::ir::IrItem,
    d: nat,
    fmt: TsFormatter,
)
    requires
        a.model() == b.model(),
    ensures
        render_item_spec(ex, a.model(), d, fmt) == render_item_spec(ex, b.model(), d, fmt),
{
}

} // verus!