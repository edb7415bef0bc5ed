//! The intermediate representation: a language-agnostic structural
//! description of structs and enums, their field shapes, and the wire
//! tagging convention of each enum.

use vstd::prelude::*;

use crate::case::CaseConvention;

verus! {

/// A stable identity for a declared type, independent of its display name.
/// Two references to the same declared type always compare equal, and maps
/// can be keyed by it.
#[derive(Clone, Copy, PartialEq, Eq, Structural, Hash, Debug)]
pub struct TypeId(pub u64);

/// A reference to a type as it appears in a field position: the identity of
/// the referenced type together with the shape of the field (`optional` for
/// `Option`-like fields, `array` for list-like fields).
#[derive(Clone, Debug)]
pub struct IrType {
    pub id: TypeId,
    pub path: String,
    pub optional: bool,
    pub array: bool,
}

/// A `name: type` field of a struct-shaped item or variant.
#[derive(Clone, Debug)]
pub struct IrNamedField {
    pub ident: String,
    pub ty: IrType,
}

/// A positional `type` field of a tuple-shaped item or variant.
#[derive(Clone, Debug)]
pub struct IrUnnamedField {
    pub ty: IrType,
}

impl IrNamedField {
    pub fn name(&self) -> (r: String)
        ensures
            r@ == self.ident@,
    {
        self.ident.clone()
    }
}

/// How an enum's tag is encoded relative to its variant payload.
#[derive(Clone, Debug)]
pub enum EnumRepr {
    /// The variant name is the sole key wrapping the payload.
    External,
    /// No tag at all; consumers disambiguate by shape, tried in declaration
    /// order.
    Untagged,
    /// The tag field is merged into a struct-shaped payload. Invalid to
    /// combine with tuple variants.
    Internal(String),
    /// Tag and payload sit side by side under two fixed keys.
    Adjacent { tag: String, content: String },
}

/// A struct-shaped enum variant: `T { name: type, ... }`.
#[derive(Clone, Debug)]
pub struct IrEnumStructVariant {
    pub ident: String,
    pub fields: Vec<IrNamedField>,
}

/// A tuple-shaped enum variant: `T(U, ...)`.
#[derive(Clone, Debug)]
pub struct IrEnumTupleVariant {
    pub ident: String,
    pub fields: Vec<IrUnnamedField>,
}

/// A payload-less enum variant: `T`.
#[derive(Clone, Debug)]
pub struct IrEnumUnitVariant {
    pub ident: String,
}

#[derive(Clone, Debug)]
pub enum IrEnumVariant {
    Struct(IrEnumStructVariant),
    Tuple(IrEnumTupleVariant),
    Unit(IrEnumUnitVariant),
}

/// The identities referenced by the fields of one variant, in declaration
/// order.
pub open spec fn variant_field_ids(v: IrEnumVariant) -> Seq<TypeId> {
    match v {
        IrEnumVariant::Struct(inner) => inner.fields@.map_values(|f: IrNamedField| f.ty.id),
        IrEnumVariant::Tuple(inner) => inner.fields@.map_values(|f: IrUnnamedField| f.ty.id),
        IrEnumVariant::Unit(_) => Seq::empty(),
    }
}

impl IrEnumVariant {
    pub fn ident(&self) -> (r: &String)
        ensures
            r@ == self.spec_ident(),
    {
        match self {
            IrEnumVariant::Struct(inner) => &inner.ident,
            IrEnumVariant::Tuple(inner) => &inner.ident,
            IrEnumVariant::Unit(inner) => &inner.ident,
        }
    }

    pub open spec fn spec_ident(&self) -> Seq<char> {
        match self {
            IrEnumVariant::Struct(inner) => inner.ident@,
            IrEnumVariant::Tuple(inner) => inner.ident@,
            IrEnumVariant::Unit(inner) => inner.ident@,
        }
    }

    pub fn name(&self) -> (r: String)
        ensures
            r@ == self.spec_ident(),
    {
        self.ident().clone()
    }

    /// The identities referenced by this variant's fields, in declaration
    /// order.
    pub fn all_field_types(&self) -> (r: Vec<TypeId>)
        ensures
            r@ == variant_field_ids(*self),
    {
        let mut out: Vec<TypeId> = Vec::new();
        match self {
            IrEnumVariant::Struct(inner) => {
                let n = inner.fields.len();
                let mut i: usize = 0;
                while i < n
                    invariant
                        0 <= i <= n,
                        n == inner.fields@.len(),
                        out@ == inner.fields@.subrange(0, i as int).map_values(
                            |f: IrNamedField| f.ty.id,
                        ),
                    decreases n - i,
                {
                    out.push(inner.fields[i].ty.id);
                    proof {
                        assert(inner.fields@.subrange(0, i + 1 as int).drop_last() =~= inner
                            .fields@.subrange(0, i as int));
                        assert(out@ =~= inner.fields@.subrange(0, i + 1 as int).map_values(
                            |f: IrNamedField| f.ty.id,
                        ));
                    }
                    i = i + 1;
                }
                proof {
                    assert(inner.fields@.subrange(0, n as int) =~= inner.fields@);
                }
            },
            IrEnumVariant::Tuple(inner) => {
                let n = inner.fields.len();
                let mut i: usize = 0;
                while i < n
                    invariant
                        0 <= i <= n,
                        n == inner.fields@.len(),
                        out@ == inner.fields@.subrange(0, i as int).map_values(
                            |f: IrUnnamedField| f.ty.id,
                        ),
                    decreases n - i,
                {
                    out.push(inner.fields[i].ty.id);
                    proof {
                        assert(inner.fields@.subrange(0, i + 1 as int).drop_last() =~= inner
                            .fields@.subrange(0, i as int));
                        assert(out@ =~= inner.fields@.subrange(0, i + 1 as int).map_values(
                            |f: IrUnnamedField| f.ty.id,
                        ));
                    }
                    i = i + 1;
                }
                proof {
                    assert(inner.fields@.subrange(0, n as int) =~= inner.fields@);
                }
            },
            IrEnumVariant::Unit(_) => {},
        }
        out
    }
}

/// A struct with named fields: `struct T { name: type, ... }`.
#[derive(Clone, Debug)]
pub struct IrNamedStruct {
    pub ident: String,
    pub id: TypeId,
    pub fields: Vec<IrNamedField>,
    pub case_convention: CaseConvention,
    pub module_hint: Option<String>,
}

/// A struct with positional fields: `struct T(type, ...);`.
#[derive(Clone, Debug)]
pub struct IrTupleStruct {
    pub ident: String,
    pub id: TypeId,
    pub fields: Vec<IrUnnamedField>,
    pub module_hint: Option<String>,
}

/// A struct with no fields: `struct T;`.
#[derive(Clone, Debug)]
pub struct IrUnitStruct {
    pub ident: String,
    pub id: TypeId,
    pub module_hint: Option<String>,
}

/// An enum: a list of variants and the tagging convention that lays a
/// variant's name out against its payload.
#[derive(Clone, Debug)]
pub struct IrEnum {
    pub ident: String,
    pub id: TypeId,
    pub variants: Vec<IrEnumVariant>,
    pub repr: EnumRepr,
    pub case_convention: CaseConvention,
    pub module_hint: Option<String>,
}

impl IrNamedStruct {
    pub fn name(&self) -> (r: String)
        ensures
            r@ == self.ident@,
    {
        self.ident.clone()
    }
}

impl IrTupleStruct {
    pub fn name(&self) -> (r: String)
        ensures
            r@ == self.ident@,
    {
        self.ident.clone()
    }
}

impl IrUnitStruct {
    pub fn name(&self) -> (r: String)
        ensures
            r@ == self.ident@,
    {
        self.ident.clone()
    }
}

impl IrEnum {
    pub fn name(&self) -> (r: String)
        ensures
            r@ == self.ident@,
    {
        self.ident.clone()
    }
}

/// One described type: the tagged union over the four declarable shapes.
#[derive(Debug)]
pub enum IrItem {
    NamedStruct(IrNamedStruct),
    TupleStruct(IrTupleStruct),
    UnitStruct(IrUnitStruct),
    Enum(IrEnum),
}

/// The identities referenced by every field of an item, in declaration
/// order (for an enum, variant by variant).
pub open spec fn item_field_ids(item: IrItem) -> Seq<TypeId> {
    match item {
        IrItem::NamedStruct(inner) => inner.fields@.map_values(|f: IrNamedField| f.ty.id),
        IrItem::TupleStruct(inner) => inner.fields@.map_values(|f: IrUnnamedField| f.ty.id),
        IrItem::UnitStruct(_) => Seq::empty(),
        IrItem::Enum(inner) => variants_field_ids(inner.variants@),
    }
}

/// The identities referenced by a list of variants, in declaration order.
pub open spec fn variants_field_ids(vars: Seq<IrEnumVariant>) -> Seq<TypeId>
    decreases vars.len(),
{
    if vars.len() == 0 {
        Seq::empty()
    } else {
        variants_field_ids(vars.drop_last()) + variant_field_ids(vars.last())
    }
}

impl IrItem {
    pub open spec fn spec_ident(&self) -> Seq<char> {
        match self {
            IrItem::NamedStruct(inner) => inner.ident@,
            IrItem::TupleStruct(inner) => inner.ident@,
            IrItem::UnitStruct(inner) => inner.ident@,
            IrItem::Enum(inner) => inner.ident@,
        }
    }

    pub open spec fn spec_type_id(&self) -> TypeId {
        match self {
            IrItem::NamedStruct(inner) => inner.id,
            IrItem::TupleStruct(inner) => inner.id,
            IrItem::UnitStruct(inner) => inner.id,
            IrItem::Enum(inner) => inner.id,
        }
    }

    /// The module path declared on the type itself, if any; consumed when
    /// the type is pulled in implicitly by the resolver.
    pub open spec fn spec_module_hint(&self) -> Option<Seq<char>> {
        match self {
            IrItem::NamedStruct(inner) => match inner.module_hint {
                Option::Some(p) => Option::Some(p@),
                Option::None => Option::None,
            },
            IrItem::TupleStruct(inner) => match inner.module_hint {
                Option::Some(p) => Option::Some(p@),
                Option::None => Option::None,
            },
            IrItem::UnitStruct(inner) => match inner.module_hint {
                Option::Some(p) => Option::Some(p@),
                Option::None => Option::None,
            },
            IrItem::Enum(inner) => match inner.module_hint {
                Option::Some(p) => Option::Some(p@),
                Option::None => Option::None,
            },
        }
    }

    pub fn ident(&self) -> (r: &String)
        ensures
            r@ == self.spec_ident(),
    {
        match self {
            IrItem::NamedStruct(inner) => &inner.ident,
            IrItem::TupleStruct(inner) => &inner.ident,
            IrItem::UnitStruct(inner) => &inner.ident,
            IrItem::Enum(inner) => &inner.ident,
        }
    }

    pub fn name(&self) -> (r: String)
        ensures
            r@ == self.spec_ident(),
    {
        self.ident().clone()
    }

    pub fn type_id(&self) -> (r: TypeId)
        ensures
            r == self.spec_type_id(),
    {
        match self {
            IrItem::NamedStruct(inner) => inner.id,
            IrItem::TupleStruct(inner) => inner.id,
            IrItem::UnitStruct(inner) => inner.id,
            IrItem::Enum(inner) => inner.id,
        }
    }

    /// The module path declared on the type itself, if any.
    pub fn module_hint(&self) -> (r: &Option<String>)
        ensures
            match r {
                Option::Some(p) => self.spec_module_hint() == Option::Some(p@),
                Option::None => self.spec_module_hint() is None,
            },
    {
        match self {
            IrItem::NamedStruct(inner) => &inner.module_hint,
            IrItem::TupleStruct(inner) => &inner.module_hint,
            IrItem::UnitStruct(inner) => &inner.module_hint,
            IrItem::Enum(inner) => &inner.module_hint,
        }
    }

    /// Every identity used by a field of this item, in declaration order.
    pub fn all_field_types(&self) -> (r: Vec<TypeId>)
        ensures
            r@ == item_field_ids(*self),
    {
        match self {
            IrItem::NamedStruct(inner) => {
                let mut out: Vec<TypeId> = Vec::new();
                let n = inner.fields.len();
                let mut i: usize = 0;
                while i < n
                    invariant
                        0 <= i <= n,
                        n == inner.fields@.len(),
                        out@ == inner.fields@.subrange(0, i as int).map_values(
                            |f: IrNamedField| f.ty.id,
                        ),
                    decreases n - i,
                {
                    out.push(inner.fields[i].ty.id);
                    proof {
                        assert(inner.fields@.subrange(0, i + 1 as int).drop_last() =~= inner
                            .fields@.subrange(0, i as int));
                        assert(out@ =~= inner.fields@.subrange(0, i + 1 as int).map_values(
                            |f: IrNamedField| f.ty.id,
                        ));
                    }
                    i = i + 1;
                }
                proof {
                    assert(inner.fields@.subrange(0, n as int) =~= inner.fields@);
                }
                out
            },
            IrItem::TupleStruct(inner) => {
                let mut out: Vec<TypeId> = Vec::new();
                let n = inner.fields.len();
                let mut i: usize = 0;
                while i < n
                    invariant
                        0 <= i <= n,
                        n == inner.fields@.len(),
                        out@ == inner.fields@.subrange(0, i as int).map_values(
                            |f: IrUnnamedField| f.ty.id,
                        ),
                    decreases n - i,
                {
                    out.push(inner.fields[i].ty.id);
                    proof {
                        assert(inner.fields@.subrange(0, i + 1 as int).drop_last() =~= inner
                            .fields@.subrange(0, i as int));
                        assert(out@ =~= inner.fields@.subrange(0, i + 1 as int).map_values(
                            |f: IrUnnamedField| f.ty.id,
                        ));
                    }
                    i = i + 1;
                }
                proof {
                    assert(inner.fields@.subrange(0, n as int) =~= inner.fields@);
                }
                out
            },
            IrItem::UnitStruct(_) => Vec::new(),
            IrItem::Enum(inner) => {
                let mut out: Vec<TypeId> = Vec::new();
                let n = inner.variants.len();
                let mut i: usize = 0;
                while i < n
                    invariant
                        0 <= i <= n,
                        n == inner.variants@.len(),
                        out@ == variants_field_ids(inner.variants@.subrange(0, i as int)),
                    decreases n - i,
                {
                    let mut vf = inner.variants[i].all_field_types();
                    out.append(&mut vf);
                    proof {
                        assert(inner.variants@.subrange(0, i + 1 as int).drop_last() =~= inner
                            .variants@.subrange(0, i as int));
                        assert(inner.variants@.subrange(0, i + 1 as int).last() == inner
                            .variants@[i as int]);
                    }
                    i = i + 1;
                }
                proof {
                    assert(inner.variants@.subrange(0, n as int) =~= inner.variants@);
                }
                out
            },
        }
    }
}

/// The mathematical value of a field's type reference.
pub struct TypeModel {
    pub id: TypeId,
    pub path: Seq<char>,
    pub optional: bool,
    pub array: bool,
}

/// The mathematical value of a named field.
pub struct NamedFieldModel {
    pub ident: Seq<char>,
    pub ty: TypeModel,
}

/// The mathematical value of a positional field.
pub struct UnnamedFieldModel {
    pub ty: TypeModel,
}

/// The mathematical value of a tagging convention.
pub enum ReprModel {
    External,
    Untagged,
    Internal(Seq<char>),
    Adjacent { tag: Seq<char>, content: Seq<char> },
}

/// The mathematical value of one enum variant.
pub enum VariantModel {
    Struct { ident: Seq<char>, fields: Seq<NamedFieldModel> },
    Tuple { ident: Seq<char>, fields: Seq<UnnamedFieldModel> },
    Unit { ident: Seq<char> },
}

/// The mathematical value of one described type; contracts that must not
/// depend on where a value is allocated speak of this.
pub enum ItemModel {
    NamedStruct {
        ident: Seq<char>,
        id: TypeId,
        fields: Seq<NamedFieldModel>,
        case_convention: CaseConvention,
        module_hint: Option<Seq<char>>,
    },
    TupleStruct {
        ident: Seq<char>,
        id: TypeId,
        fields: Seq<UnnamedFieldModel>,
        module_hint: Option<Seq<char>>,
    },
    UnitStruct { ident: Seq<char>, id: TypeId, module_hint: Option<Seq<char>> },
    Enum {
        ident: Seq<char>,
        id: TypeId,
        variants: Seq<VariantModel>,
        repr: ReprModel,
        case_convention: CaseConvention,
        module_hint: Option<Seq<char>>,
    },
}

impl IrType {
    pub open spec fn model(self) -> TypeModel {
        TypeModel { id: self.id, path: self.path@, optional: self.optional, array: self.array }
    }
}

impl IrNamedField {
    pub open spec fn model(self) -> NamedFieldModel {
        NamedFieldModel { ident: self.ident@, ty: self.ty.model() }
    }
}

impl IrUnnamedField {
    pub open spec fn model(self) -> UnnamedFieldModel {
        UnnamedFieldModel { ty: self.ty.model() }
    }
}

pub open spec fn named_fields_model(fs: Seq<IrNamedField>) -> Seq<NamedFieldModel> {
    fs.map_values(|f: IrNamedField| f.model())
}

pub open spec fn unnamed_fields_model(fs: Seq<IrUnnamedField>) -> Seq<UnnamedFieldModel> {
    fs.map_values(|f: IrUnnamedField| f.model())
}

impl EnumRepr {
    pub open spec fn model(self) -> ReprModel {
        match self {
            EnumRepr::External => ReprModel::External,
            EnumRepr::Untagged => ReprModel::Untagged,
            EnumRepr::Internal(tag) => ReprModel::Internal(tag@),
            EnumRepr::Adjacent { tag, content } => ReprModel::Adjacent {
                tag: tag@,
                content: content@,
            },
        }
    }
}

impl IrEnumVariant {
    pub open spec fn model(self) -> VariantModel {
        match self {
            IrEnumVariant::Struct(inner) => VariantModel::Struct {
                ident: inner.ident@,
                fields: named_fields_model(inner.fields@),
            },
            IrEnumVariant::Tuple(inner) => VariantModel::Tuple {
                ident: inner.ident@,
                fields: unnamed_fields_model(inner.fields@),
            },
            IrEnumVariant::Unit(inner) => VariantModel::Unit { ident: inner.ident@ },
        }
    }
}

pub open spec fn variants_model(vs: Seq<IrEnumVariant>) -> Seq<VariantModel> {
    vs.map_values(|v: IrEnumVariant| v.model())
}

pub open spec fn hint_model(h: Option<String>) -> Option<Seq<char>> {
    match h {
        Option::Some(p) => Option::Some(p@),
        Option::None => Option::None,
    }
}

impl IrItem {
    pub open spec fn model(self) -> ItemModel {
        match self {
            IrItem::NamedStruct(inner) => ItemModel::NamedStruct {
                ident: inner.ident@,
                id: inner.id,
                fields: named_fields_model(inner.fields@),
                case_convention: inner.case_convention,
                module_hint: hint_model(inner.module_hint),
            },
            IrItem::TupleStruct(inner) => ItemModel::TupleStruct {
                ident: inner.ident@,
                id: inner.id,
                fields: unnamed_fields_model(inner.fields@),
                module_hint: hint_model(inner.module_hint),
            },
            IrItem::UnitStruct(inner) => ItemModel::UnitStruct {
                ident: inner.ident@,
                id: inner.id,
                module_hint: hint_model(inner.module_hint),
            },
            IrItem::Enum(inner) => ItemModel::Enum {
                ident: inner.ident@,
                id: inner.id,
                variants: variants_model(inner.variants@),
                repr: inner.repr.model(),
                case_convention: inner.case_convention,
                module_hint: hint_model(inner.module_hint),
            },
        }
    }
}

/// The identity an item model carries.
pub open spec fn model_id(m: ItemModel) -> TypeId {
    match m {
        ItemModel::NamedStruct { id, .. } => id,
        ItemModel::TupleStruct { id, .. } => id,
        ItemModel::UnitStruct { id, .. } => id,
        ItemModel::Enum { id, .. } => id,
    }
}

/// An item's model carries the item's own identity.
pub proof fn lemma_model_id(item: IrItem)
    ensures
        model_id(item.model()) == item.spec_type_id(),
{
}

/// Two items with the same mathematical value reference the same field
/// identities, carry the same identity and name, and declare the same
/// module hint.
pub proof fn lemma_model_determines_ids(a: IrItem, b: IrItem)
    requires
        a.model() == b.model(),
    ensures
        item_field_ids(a) == item_field_ids(b),
        a.spec_ident() == b.spec_ident(),
        a.spec_type_id() == b.spec_type_id(),
        a.spec_module_hint() == b.spec_module_hint(),
{
    match (a, b) {
        (IrItem::NamedStruct(x), IrItem::NamedStruct(y)) => {
            assert(named_fields_model(x.fields@) == named_fields_model(y.fields@));
            assert forall|k: int|
                0 <= k < x.fields@.len() implies (#[trigger] x.fields@[k]).ty.id
                == y.fields@[k].ty.id by {
                assert(named_fields_model(x.fields@)[k] == x.fields@[k].model());
                assert(named_fields_model(y.fields@)[k] == y.fields@[k].model());
            }
            assert(item_field_ids(a) =~= item_field_ids(b));
        },
        (IrItem::TupleStruct(x), IrItem::TupleStruct(y)) => {
            assert(unnamed_fields_model(x.fields@) == unnamed_fields_model(y.fields@));
            assert forall|k: int|
                0 <= k < x.fields@.len() implies (#[trigger] x.fields@[k]).ty.id
                == y.fields@[k].ty.id by {
                assert(unnamed_fields_model(x.fields@)[k] == x.fields@[k].model());
                assert(unnamed_fields_model(y.fields@)[k] == y.fields@[k].model());
            }
            assert(item_field_ids(a) =~= item_field_ids(b));
        },
        (IrItem::UnitStruct(x), IrItem::UnitStruct(y)) => {
        },
        (IrItem::Enum(x), IrItem::Enum(y)) => {
            lemma_variants_model_ids(x.variants@, y.variants@);
        },
        _ => {
            assert(false);
        },
    }
}

pub proof fn lemma_variant_model_ids(x: IrEnumVariant, y: IrEnumVariant)
    requires
        x.model() == y.model(),
    ensures
        variant_field_ids(x) == variant_field_ids(y),
{
    match (x, y) {
        (IrEnumVariant::Struct(a), IrEnumVariant::Struct(b)) => {
            assert(named_fields_model(a.fields@) == named_fields_model(b.fields@));
            assert forall|k: int|
                0 <= k < a.fields@.len() implies (#[trigger] a.fields@[k]).ty.id
                == b.fields@[k].ty.id by {
                assert(named_fields_model(a.fields@)[k] == a.fields@[k].model());
                assert(named_fields_model(b.fields@)[k] == b.fields@[k].model());
            }
            assert(variant_field_ids(x) =~= variant_field_ids(y));
        },
        (IrEnumVariant::Tuple(a), IrEnumVariant::Tuple(b)) => {
            assert(unnamed_fields_model(a.fields@) == unnamed_fields_model(b.fields@));
            assert forall|k: int|
                0 <= k < a.fields@.len() implies (#[trigger] a.fields@[k]).ty.id
                == b.fields@[k].ty.id by {
                assert(unnamed_fields_model(a.fields@)[k] == a.fields@[k].model());
                assert(unnamed_fields_model(b.fields@)[k] == b.fields@[k].model());
            }
            assert(variant_field_ids(x) =~= variant_field_ids(y));
        },
        (IrEnumVariant::Unit(a), IrEnumVariant::Unit(b)) => {
        },
        _ => {
            assert(false);
        },
    }
}

pub proof fn lemma_variants_model_ids(xs: Seq<IrEnumVariant>, ys: Seq<IrEnumVariant>)
    requires
        variants_model(xs) == variants_model(ys),
    ensures
        variants_field_ids(xs) == variants_field_ids(ys),
    decreases xs.len(),
{
    assert(variants_model(xs).len() == xs.len());
    assert(variants_model(ys).len() == ys.len());
    if xs.len() == 0 {
        assert(variants_field_ids(xs) =~= variants_field_ids(ys));
    } else {
        assert(variants_model(xs.drop_last()) =~= variants_model(xs).drop_last());
        assert(variants_model(ys.drop_last()) =~= variants_model(ys).drop_last());
        lemma_variants_model_ids(xs.drop_last(), ys.drop_last());
        assert(variants_model(xs)[xs.len() - 1] == xs.last().model());
        assert(variants_model(ys)[ys.len() - 1] == ys.last().model());
        lemma_variant_model_ids(xs.last(), ys.last());
    }
}

/// A value-for-value copy of a named field.
pub fn dup_named_field(f: &IrNamedField) -> (r: IrNamedField)
    ensures
        r.model() == f.model(),
{
    IrNamedField {
        ident: f.ident.clone(),
        ty: IrType {
            id: f.ty.id,
            path: f.ty.path.clone(),
            optional: f.ty.optional,
            array: f.ty.array,
        },
    }
}

/// A value-for-value copy of a positional field.
pub fn dup_unnamed_field(f: &IrUnnamedField) -> (r: IrUnnamedField)
    ensures
        r.model() == f.model(),
{
    IrUnnamedField {
        ty: IrType {
            id: f.ty.id,
            path: f.ty.path.clone(),
            optional: f.ty.optional,
            array: f.ty.array,
        },
    }
}

/// A value-for-value copy of a named field list.
pub fn dup_named_fields(fs: &Vec<IrNamedField>) -> (r: Vec<IrNamedField>)
    ensures
        named_fields_model(r@) == named_fields_model(fs@),
{
    let mut out: Vec<IrNamedField> = Vec::new();
    let n = fs.len();
    let mut i: usize = 0;
    while i < n
        invariant
            0 <= i <= n,
            n == fs@.len(),
            out@.len() == i,
            named_fields_model(out@) == named_fields_model(fs@.subrange(0, i as int)),
        decreases n - i,
    {
        out.push(dup_named_field(&fs[i]));
        proof {
            assert forall|k: int|
                0 <= k < i + 1 implies named_fields_model(out@)[k] == named_fields_model(
                fs@.subrange(0, i + 1 as int),
            )[k] by {
                assert(named_fields_model(out@)[k] == out@[k].model());
                assert(named_fields_model(fs@.subrange(0, i + 1 as int))[k] == fs@[k].model());
                if k < i {
                    assert(named_fields_model(fs@.subrange(0, i as int))[k] == fs@[k].model());
                }
            }
            assert(named_fields_model(out@) =~= named_fields_model(
                fs@.subrange(0, i + 1 as int),
            ));
        }
        i = i + 1;
    }
    proof {
        assert(fs@.subrange(0, n as int) =~= fs@);
    }
    out
}

/// A value-for-value copy of a positional field list.
pub fn dup_unnamed_fields(fs: &Vec<IrUnnamedField>) -> (r: Vec<IrUnnamedField>)
    ensures
        unnamed_fields_model(r@) == unnamed_fields_model(fs@),
{
    let mut out: Vec<IrUnnamedField> = Vec::new();
    let n = fs.len();
    let mut i: usize = 0;
    while i < n
        invariant
            0 <= i <= n,
            n == fs@.len(),
            out@.len() == i,
            unnamed_fields_model(out@) == unnamed_fields_model(fs@.subrange(0, i as int)),
        decreases n - i,
    {
        out.push(dup_unnamed_field(&fs[i]));
        proof {
            assert forall|k: int|
                0 <= k < i + 1 implies unnamed_fields_model(out@)[k] == unnamed_fields_model(
                fs@.subrange(0, i + 1 as int),
            )[k] by {
                assert(unnamed_fields_model(out@)[k] == out@[k].model());
                assert(unnamed_fields_model(fs@.subrange(0, i + 1 as int))[k] == fs@[k].model());
                if k < i {
                    assert(unnamed_fields_model(fs@.subrange(0, i as int))[k] == fs@[k].model());
                }
            }
            assert(unnamed_fields_model(out@) =~= unnamed_fields_model(
                fs@.subrange(0, i + 1 as int),
            ));
        }
        i = i + 1;
    }
    proof {
        assert(fs@.subrange(0, n as int) =~= fs@);
    }
    out
}

/// A value-for-value copy of an optional module hint.
pub fn dup_hint(h: &Option<String>) -> (r: Option<String>)
    ensures
        hint_model(r) == hint_model(*h),
{
    match h {
        Some(p) => Some(p.clone()),
        None => None,
    }
}

/// A value-for-value copy of a tagging convention.
pub fn dup_repr(r0: &EnumRepr) -> (r: EnumRepr)
    ensures
        r.model() == r0.model(),
{
    match r0 {
        EnumRepr::External => EnumRepr::External,
        EnumRepr::Untagged => EnumRepr::Untagged,
        EnumRepr::Internal(tag) => EnumRepr::Internal(tag.clone()),
        EnumRepr::Adjacent { tag, content } => EnumRepr::Adjacent {
            tag: tag.clone(),
            content: content.clone(),
        },
    }
}

/// A value-for-value copy of one variant.
pub fn dup_variant(v: &IrEnumVariant) -> (r: IrEnumVariant)
    ensures
        r.model() == v.model(),
{
    match v {
        IrEnumVariant::Struct(inner) => IrEnumVariant::Struct(
            IrEnumStructVariant { ident: inner.ident.clone(), fields: dup_named_fields(&inner.fields) },
        ),
        IrEnumVariant::Tuple(inner) => IrEnumVariant::Tuple(
            IrEnumTupleVariant { ident: inner.ident.clone(), fields: dup_unnamed_fields(&inner.fields) },
        ),
        IrEnumVariant::Unit(inner) => IrEnumVariant::Unit(
            IrEnumUnitVariant { ident: inner.ident.clone() },
        ),
    }
}

/// A value-for-value copy of one item: the copy has the same mathematical
/// value, wherever it is held.
pub fn dup_item(it: &IrItem) -> (r: IrItem)
    ensures
        r.model() == it.model(),
{
    match it {
        IrItem::NamedStruct(inner) => IrItem::NamedStruct(
            IrNamedStruct {
                ident: inner.ident.clone(),
                id: inner.id,
                fields: dup_named_fields(&inner.fields),
                case_convention: inner.case_convention,
                module_hint: dup_hint(&inner.module_hint),
            },
        ),
        IrItem::TupleStruct(inner) => IrItem::TupleStruct(
            IrTupleStruct {
                ident: inner.ident.clone(),
                id: inner.id,
                fields: dup_unnamed_fields(&inner.fields),
                module_hint: dup_hint(&inner.module_hint),
            },
        ),
        IrItem::UnitStruct(inner) => IrItem::UnitStruct(
            IrUnitStruct {
                ident: inner.ident.clone(),
                id: inner.id,
                module_hint: dup_hint(&inner.module_hint),
            },
        ),
        IrItem::Enum(inner) => {
            let mut vars: Vec<IrEnumVariant> = Vec::new();
            let n = inner.variants.len();
            let mut i: usize = 0;
            while i < n
                invariant
                    0 <= i <= n,
                    n == inner.variants@.len(),
                    vars@.len() == i,
                    variants_model(vars@) == variants_model(inner.variants@.subrange(0, i as int)),
                decreases n - i,
            {
                vars.push(dup_variant(&inner.variants[i]));
                proof {
                    assert forall|k: int|
                        0 <= k < i + 1 implies #[trigger] variants_model(vars@)[k]
                        == variants_model(inner.variants@.subrange(0, i + 1 as int))[k] by {
                        assert(variants_model(vars@)[k] == vars@[k].model());
                        assert(variants_model(inner.variants@.subrange(0, i + 1 as int))[k]
                            == inner.variants@[k].model());
                        if k < i {
                            assert(variants_model(inner.variants@.subrange(0, i as int))[k]
                                == inner.variants@[k].model());
                        }
                    }
                    assert(variants_model(vars@) =~= variants_model(
                        inner.variants@.subrange(0, i + 1 as int),
                    ));
                }
                i = i + 1;
            }
            proof {
                assert(inner.variants@.subrange(0, n as int) =~= inner.variants@);
            }
            IrItem::Enum(
                IrEnum {
                    ident: inner.ident.clone(),
                    id: inner.id,
                    variants: vars,
                    repr: dup_repr(&inner.repr),
                    case_convention: inner.case_convention,
                    module_hint: dup_hint(&inner.module_hint),
                },
            )
        },
    }
}

} // verus!
