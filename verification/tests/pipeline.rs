use burrtype::burrmod::BurrMod;
use burrtype::case::CaseConvention;
use burrtype::error::ExportError;
use burrtype::exporter::Burrxporter;
use burrtype::ir::{
    EnumRepr, IrEnum, IrEnumStructVariant, IrEnumTupleVariant, IrEnumUnitVariant, IrEnumVariant,
    IrItem, IrNamedField, IrNamedStruct, IrTupleStruct, IrType, IrUnitStruct, IrUnnamedField,
    TypeId,
};
use burrtype::path::TargetPath;
use burrtype::render::TsFormatter;
use burrtype::tsfile::ModFileMap;
use burrtype::typescript::{RenderedFile, TypeScript, ID_U64};

fn u64_ref(optional: bool, array: bool) -> IrType {
    IrType {
        id: TypeId(ID_U64),
        path: "u64".to_string(),
        optional,
        array,
    }
}

fn type_ref(id: u64) -> IrType {
    IrType {
        id: TypeId(id),
        path: String::new(),
        optional: false,
        array: false,
    }
}

fn named_field(name: &str, ty: IrType) -> IrNamedField {
    IrNamedField {
        ident: name.to_string(),
        ty,
    }
}

fn named_struct(name: &str, id: u64, fields: Vec<IrNamedField>) -> IrItem {
    IrItem::NamedStruct(IrNamedStruct {
        ident: name.to_string(),
        id: TypeId(id),
        fields,
        case_convention: CaseConvention::Default,
        module_hint: None,
    })
}

fn unit_struct(name: &str, id: u64) -> IrItem {
    IrItem::UnitStruct(IrUnitStruct {
        ident: name.to_string(),
        id: TypeId(id),
        module_hint: None,
    })
}

fn to(stem: &str) -> TargetPath {
    TargetPath::new(Vec::new(), stem.to_string(), String::new())
}

fn find<'a>(files: &'a [RenderedFile], path: &str) -> &'a RenderedFile {
    for f in files {
        if f.target.to_slash() == path {
            return f;
        }
    }
    panic!("no file at {path}");
}

#[test]
fn adjacent_unit_variant_carries_both_keys() {
    let status = IrItem::Enum(IrEnum {
        ident: "Status".to_string(),
        id: TypeId(100),
        variants: vec![IrEnumVariant::Unit(IrEnumUnitVariant {
            ident: "Unit".to_string(),
        })],
        repr: EnumRepr::Adjacent {
            tag: "t".to_string(),
            content: "c".to_string(),
        },
        case_convention: CaseConvention::Default,
        module_hint: None,
    });
    let mut x = Burrxporter::new().with_mod(BurrMod::new("api".to_string()).with_type(status));
    x.resolve_exports("common");
    let files = x
        .export(&to("api"), TypeScript::new().with_file_map(ModFileMap::Inline))
        .unwrap();
    assert_eq!(files.len(), 1);
    assert_eq!(
        files[0].content,
        "export type Status =\n  | { t: \"Unit\", c: null }\n;\n"
    );
}

#[test]
fn untagged_unit_variant_is_a_bare_literal() {
    let status = IrItem::Enum(IrEnum {
        ident: "Status".to_string(),
        id: TypeId(100),
        variants: vec![IrEnumVariant::Unit(IrEnumUnitVariant {
            ident: "Unit".to_string(),
        })],
        repr: EnumRepr::Untagged,
        case_convention: CaseConvention::Default,
        module_hint: None,
    });
    let mut x = Burrxporter::new().with_mod(BurrMod::new("api".to_string()).with_type(status));
    x.resolve_exports("common");
    let files = x
        .export(&to("api"), TypeScript::new().with_file_map(ModFileMap::Inline))
        .unwrap();
    assert_eq!(files[0].content, "export type Status =\n  | \"Unit\"\n;\n");
    assert!(!files[0].content.contains("t:"));
    assert!(!files[0].content.contains("c:"));
}

#[test]
fn newtype_renders_as_direct_alias() {
    let user_id = IrItem::TupleStruct(IrTupleStruct {
        ident: "UserId".to_string(),
        id: TypeId(100),
        fields: vec![IrUnnamedField {
            ty: u64_ref(false, false),
        }],
        module_hint: None,
    });
    let mut x = Burrxporter::new().with_mod(BurrMod::new("api".to_string()).with_type(user_id));
    x.resolve_exports("common");
    let files = x
        .export(&to("api"), TypeScript::new().with_file_map(ModFileMap::Inline))
        .unwrap();
    assert_eq!(files[0].content, "export type UserId = number\n");
    assert!(!files[0].content.contains('['));
}

#[test]
fn decompose_all_splits_the_tree_into_indexed_files() {
    let type_x = named_struct("TypeX", 101, vec![named_field("x", u64_ref(false, false))]);
    let type_y = named_struct("TypeY", 102, vec![named_field("y", u64_ref(false, false))]);
    let tree = BurrMod::new("root".to_string())
        .with_mod(BurrMod::new("a".to_string()).with_type(type_x))
        .with_mod(BurrMod::new("b".to_string()).with_type(type_y));
    let mut x = Burrxporter::new().with_mod(tree);
    x.resolve_exports("common");
    let files = x.export(&to("ignored"), TypeScript::new()).unwrap();
    assert_eq!(files.len(), 3);
    assert_eq!(files[0].target.to_slash(), "root/index.ts");
    assert_eq!(files[1].target.to_slash(), "root/a.ts");
    assert_eq!(files[2].target.to_slash(), "root/b.ts");
    assert_eq!(files[0].content, "");
    assert_eq!(
        files[1].content,
        "export interface TypeX {\n  x: number,\n}\n"
    );
    assert_eq!(
        files[2].content,
        "export interface TypeY {\n  y: number,\n}\n"
    );
    // no type appears in two files
    assert!(!files[1].content.contains("TypeY"));
    assert!(!files[2].content.contains("TypeX"));
}

#[test]
fn missing_type_lands_in_the_default_module() {
    let type_a = named_struct("TypeA", 100, vec![named_field("z", type_ref(200))]);
    let mut x = Burrxporter::new().with_mod(BurrMod::new("api".to_string()).with_type(type_a));
    x.register(unit_struct("TypeZ", 200));
    x.resolve_exports("common");
    let files = x.export(&to("ignored"), TypeScript::new()).unwrap();
    assert_eq!(files.len(), 2);
    let api = find(&files, "api.ts");
    let common = find(&files, "common.ts");
    assert_eq!(common.content, "export type TypeZ = null\n");
    assert_eq!(
        api.content,
        "import { TypeZ } from './common'\n\nexport interface TypeA {\n  z: TypeZ,\n}\n"
    );
}

#[test]
fn module_hint_overrides_the_default_path() {
    let type_a = named_struct("TypeA", 100, vec![named_field("z", type_ref(200))]);
    let hinted = IrItem::UnitStruct(IrUnitStruct {
        ident: "TypeZ".to_string(),
        id: TypeId(200),
        module_hint: Some("special/inner".to_string()),
    });
    let mut x = Burrxporter::new().with_mod(BurrMod::new("api".to_string()).with_type(type_a));
    x.register(hinted);
    x.resolve_exports("common");
    let files = x.export(&to("ignored"), TypeScript::new()).unwrap();
    let inner = find(&files, "special/inner.ts");
    assert_eq!(inner.content, "export type TypeZ = null\n");
    let api = find(&files, "api.ts");
    assert_eq!(
        api.content,
        "import { TypeZ } from './special/inner'\n\nexport interface TypeA {\n  z: TypeZ,\n}\n"
    );
}

#[test]
fn resolution_is_idempotent() {
    let type_a = named_struct("TypeA", 100, vec![named_field("z", type_ref(200))]);
    let mut x = Burrxporter::new().with_mod(BurrMod::new("api".to_string()).with_type(type_a));
    x.register(unit_struct("TypeZ", 200));
    x.resolve_exports("common");
    let once = x.export(&to("ignored"), TypeScript::new()).unwrap();
    x.resolve_exports("common");
    let twice = x.export(&to("ignored"), TypeScript::new()).unwrap();
    assert_eq!(once.len(), twice.len());
    for (a, b) in once.iter().zip(twice.iter()) {
        assert_eq!(a.target.to_slash(), b.target.to_slash());
        assert_eq!(a.content, b.content);
    }
}

#[test]
fn the_pipeline_is_deterministic() {
    fn run() -> Vec<RenderedFile> {
        let type_a = named_struct(
            "TypeA",
            100,
            vec![
                named_field("z", type_ref(200)),
                named_field("n", u64_ref(true, true)),
            ],
        );
        let mut x =
            Burrxporter::new().with_mod(BurrMod::new("api".to_string()).with_type(type_a));
        x.register(unit_struct("TypeZ", 200));
        x.resolve_exports("common");
        x.export(&to("ignored"), TypeScript::new()).unwrap()
    }
    let first = run();
    let second = run();
    assert_eq!(first.len(), second.len());
    for (a, b) in first.iter().zip(second.iter()) {
        assert_eq!(a.target.to_slash(), b.target.to_slash());
        assert_eq!(a.content, b.content);
    }
}

#[test]
fn a_file_never_imports_from_itself() {
    let type_a = named_struct("TypeA", 100, vec![named_field("b", type_ref(101))]);
    let type_b = named_struct("TypeB", 101, vec![named_field("a", type_ref(100))]);
    let tree = BurrMod::new("api".to_string())
        .with_type(type_a)
        .with_type(type_b);
    let mut x = Burrxporter::new().with_mod(tree);
    x.resolve_exports("common");
    let files = x
        .export(&to("api"), TypeScript::new().with_file_map(ModFileMap::Inline))
        .unwrap();
    assert_eq!(files.len(), 1);
    assert!(!files[0].content.contains("import"));
}

#[test]
fn duplicate_export_is_refused() {
    let mk = || named_struct("TypeX", 101, vec![named_field("x", u64_ref(false, false))]);
    let tree = BurrMod::new("root".to_string())
        .with_mod(BurrMod::new("a".to_string()).with_type(mk()))
        .with_mod(BurrMod::new("b".to_string()).with_type(mk()));
    let mut x = Burrxporter::new().with_mod(tree);
    x.resolve_exports("common");
    let r = x.export(&to("ignored"), TypeScript::new());
    match r {
        Err(ExportError::DuplicateExport { name }) => assert_eq!(name, "TypeX"),
        other => panic!("expected a duplicate-export error, got {other:?}"),
    }
}

#[test]
fn unknown_field_type_is_refused() {
    let type_a = named_struct("TypeA", 100, vec![named_field("q", type_ref(999))]);
    let mut x = Burrxporter::new().with_mod(BurrMod::new("api".to_string()).with_type(type_a));
    x.resolve_exports("common");
    let r = x.export(&to("api"), TypeScript::new().with_file_map(ModFileMap::Inline));
    match r {
        Err(ExportError::UnknownType { id }) => assert_eq!(id, TypeId(999)),
        other => panic!("expected an unknown-type error, got {other:?}"),
    }
}

#[test]
fn internal_tag_with_tuple_variant_is_refused() {
    let bad = IrItem::Enum(IrEnum {
        ident: "Bad".to_string(),
        id: TypeId(100),
        variants: vec![IrEnumVariant::Tuple(IrEnumTupleVariant {
            ident: "V".to_string(),
            fields: vec![IrUnnamedField {
                ty: u64_ref(false, false),
            }],
        })],
        repr: EnumRepr::Internal("t".to_string()),
        case_convention: CaseConvention::Default,
        module_hint: None,
    });
    let mut x = Burrxporter::new().with_mod(BurrMod::new("api".to_string()).with_type(bad));
    x.resolve_exports("common");
    let r = x.export(&to("api"), TypeScript::new().with_file_map(ModFileMap::Inline));
    match r {
        Err(ExportError::InvalidEnumRepr { name }) => assert_eq!(name, "Bad"),
        other => panic!("expected an invalid-representation error, got {other:?}"),
    }
}

#[test]
fn case_convention_renames_fields_at_render_time() {
    let profile = IrItem::NamedStruct(IrNamedStruct {
        ident: "Profile".to_string(),
        id: TypeId(100),
        fields: vec![named_field("user_name", u64_ref(false, false))],
        case_convention: CaseConvention::CamelCase,
        module_hint: None,
    });
    let mut x = Burrxporter::new().with_mod(BurrMod::new("api".to_string()).with_type(profile));
    x.resolve_exports("common");
    let files = x
        .export(&to("api"), TypeScript::new().with_file_map(ModFileMap::Inline))
        .unwrap();
    assert_eq!(
        files[0].content,
        "export interface Profile {\n  userName: number,\n}\n"
    );
}

#[test]
fn optional_and_array_shapes_mark_the_field() {
    let foo = named_struct("Foo", 100, vec![named_field("bar", u64_ref(true, true))]);
    let mut x = Burrxporter::new().with_mod(BurrMod::new("api".to_string()).with_type(foo));
    x.resolve_exports("common");
    let files = x
        .export(&to("api"), TypeScript::new().with_file_map(ModFileMap::Inline))
        .unwrap();
    assert_eq!(
        files[0].content,
        "export interface Foo {\n  bar?: number[],\n}\n"
    );
}

#[test]
fn compact_struct_variant_sits_on_one_line() {
    let e = IrItem::Enum(IrEnum {
        ident: "E".to_string(),
        id: TypeId(100),
        variants: vec![IrEnumVariant::Struct(IrEnumStructVariant {
            ident: "V".to_string(),
            fields: vec![
                named_field("a", u64_ref(false, false)),
                named_field("b", u64_ref(false, false)),
            ],
        })],
        repr: EnumRepr::External,
        case_convention: CaseConvention::Default,
        module_hint: None,
    });
    let mut x = Burrxporter::new().with_mod(BurrMod::new("api".to_string()).with_type(e));
    x.resolve_exports("common");
    let files = x
        .export(&to("api"), TypeScript::new().with_file_map(ModFileMap::Inline))
        .unwrap();
    assert_eq!(
        files[0].content,
        "export type E =\n  | { V: { a: number, b: number }}\n;\n"
    );
}

#[test]
fn wide_tuple_struct_wraps_between_groups() {
    let t = IrItem::TupleStruct(IrTupleStruct {
        ident: "Triple".to_string(),
        id: TypeId(100),
        fields: vec![
            IrUnnamedField {
                ty: u64_ref(false, false),
            },
            IrUnnamedField {
                ty: u64_ref(false, false),
            },
            IrUnnamedField {
                ty: u64_ref(false, false),
            },
        ],
        module_hint: None,
    });
    let mut x = Burrxporter::new().with_mod(BurrMod::new("api".to_string()).with_type(t));
    x.resolve_exports("common");
    let ts = TypeScript::new()
        .with_file_map(ModFileMap::Inline)
        .with_formatter(TsFormatter::pretty().with_max_items_per_line(2));
    let files = x.export(&to("api"), ts).unwrap();
    assert_eq!(
        files[0].content,
        "export type Triple = [number, number,\nnumber]\n"
    );
}

#[test]
fn longer_import_statements_stand_first() {
    let long_a = named_struct("TypeWithQuiteALongName", 201, Vec::new());
    let short_b = named_struct("X", 202, Vec::new());
    let c = named_struct(
        "C",
        100,
        vec![
            named_field("p", type_ref(201)),
            named_field("q", type_ref(202)),
        ],
    );
    let tree = BurrMod::new("root".to_string())
        .with_mod(BurrMod::new("a".to_string()).with_type(long_a))
        .with_mod(BurrMod::new("b".to_string()).with_type(short_b))
        .with_mod(BurrMod::new("c".to_string()).with_type(c));
    let mut x = Burrxporter::new().with_mod(tree);
    x.resolve_exports("common");
    let files = x.export(&to("ignored"), TypeScript::new()).unwrap();
    let c_file = find(&files, "root/c.ts");
    let long_line = "import { TypeWithQuiteALongName } from './a'\n";
    let short_line = "import { X } from './b'\n";
    assert_eq!(
        c_file.content,
        format!("{long_line}{short_line}\nexport interface C {{\n  p: TypeWithQuiteALongName,\n  q: X,\n}}\n")
    );
}

#[test]
fn names_in_one_import_are_alphabetical() {
    let zed = named_struct("Zed", 201, Vec::new());
    let alpha = named_struct("Alpha", 202, Vec::new());
    let c = named_struct(
        "C",
        100,
        vec![
            named_field("z", type_ref(201)),
            named_field("a", type_ref(202)),
        ],
    );
    let tree = BurrMod::new("root".to_string())
        .with_mod(
            BurrMod::new("a".to_string())
                .with_type(zed)
                .with_type(alpha),
        )
        .with_mod(BurrMod::new("c".to_string()).with_type(c));
    let mut x = Burrxporter::new().with_mod(tree);
    x.resolve_exports("common");
    let files = x.export(&to("ignored"), TypeScript::new()).unwrap();
    let c_file = find(&files, "root/c.ts");
    assert!(c_file.content.starts_with("import { Alpha, Zed } from './a'\n"));
}

#[test]
fn auto_exports_sort_by_name_ignoring_case() {
    let a = named_struct(
        "A",
        100,
        vec![
            named_field("z", type_ref(201)),
            named_field("b", type_ref(202)),
        ],
    );
    let mut x = Burrxporter::new().with_mod(BurrMod::new("api".to_string()).with_type(a));
    x.register(unit_struct("zeta", 201));
    x.register(unit_struct("Alpha", 202));
    x.resolve_exports("common");
    let files = x.export(&to("ignored"), TypeScript::new()).unwrap();
    let common = find(&files, "common.ts");
    assert_eq!(
        common.content,
        "export type Alpha = null\n\nexport type Zeta = null\n"
    );
}

#[test]
fn decompose_top_inlines_everything_under_each_top_module() {
    let type_x = named_struct("TypeX", 101, vec![named_field("x", u64_ref(false, false))]);
    let type_y = named_struct("TypeY", 102, vec![named_field("y", u64_ref(false, false))]);
    let tree = BurrMod::new("root".to_string())
        .with_mod(BurrMod::new("a".to_string()).with_type(type_x))
        .with_mod(BurrMod::new("b".to_string()).with_type(type_y));
    let mut x = Burrxporter::new().with_mod(tree);
    x.resolve_exports("common");
    let dest = TargetPath::new(vec!["out".to_string()], "base".to_string(), String::new());
    let files = x
        .export(&dest, TypeScript::new().with_file_map(ModFileMap::DecomposeTop))
        .unwrap();
    assert_eq!(files.len(), 1);
    assert_eq!(files[0].target.to_slash(), "out/base/root.ts");
    assert_eq!(
        files[0].content,
        "export interface TypeX {\n  x: number,\n}\n\nexport interface TypeY {\n  y: number,\n}\n"
    );
}

#[test]
fn inline_flattens_the_whole_tree_into_one_file() {
    let type_x = named_struct("TypeX", 101, vec![named_field("x", u64_ref(false, false))]);
    let type_y = named_struct("TypeY", 102, vec![named_field("y", u64_ref(false, false))]);
    let tree = BurrMod::new("root".to_string())
        .with_mod(BurrMod::new("a".to_string()).with_type(type_x))
        .with_mod(BurrMod::new("b".to_string()).with_type(type_y));
    let mut x = Burrxporter::new().with_mod(tree);
    x.resolve_exports("common");
    let files = x
        .export(&to("bundled"), TypeScript::new().with_file_map(ModFileMap::Inline))
        .unwrap();
    assert_eq!(files.len(), 1);
    assert_eq!(files[0].target.to_slash(), "bundled.ts");
    assert!(files[0].content.contains("TypeX"));
    assert!(files[0].content.contains("TypeY"));
    assert!(!files[0].content.contains("import"));
}

#[test]
fn deep_imports_climb_to_the_common_ancestor() {
    let type_y = named_struct("TypeY", 102, Vec::new());
    let type_x = named_struct("TypeX", 101, vec![named_field("y", type_ref(102))]);
    let tree = BurrMod::new("root".to_string())
        .with_mod(
            BurrMod::new("a".to_string())
                .with_mod(BurrMod::new("deep".to_string()).with_type(type_x)),
        )
        .with_mod(BurrMod::new("b".to_string()).with_type(type_y));
    let mut x = Burrxporter::new().with_mod(tree);
    x.resolve_exports("common");
    let files = x.export(&to("ignored"), TypeScript::new()).unwrap();
    let deep = find(&files, "root/a/deep.ts");
    assert!(deep.content.starts_with("import { TypeY } from '../b'\n"));
}

#[test]
fn one_exporter_serves_several_passes() {
    let type_x = named_struct("TypeX", 101, vec![named_field("x", u64_ref(false, false))]);
    let mut x = Burrxporter::new().with_mod(BurrMod::new("api".to_string()).with_type(type_x));
    x.resolve_exports("common");
    let split = x.export(&to("ignored"), TypeScript::new()).unwrap();
    let bundled = x
        .export(
            &to("bundled"),
            TypeScript::new().with_file_map(ModFileMap::Inline),
        )
        .unwrap();
    assert_eq!(split.len(), 1);
    assert_eq!(split[0].target.to_slash(), "api.ts");
    assert_eq!(bundled.len(), 1);
    assert_eq!(bundled[0].target.to_slash(), "bundled.ts");
    assert_eq!(split[0].content, bundled[0].content);
}

#[test]
fn colliding_target_paths_are_refused() {
    let type_x = named_struct("TypeX", 101, Vec::new());
    let type_y = named_struct("TypeY", 102, Vec::new());
    let mut x = Burrxporter::new()
        .with_mod(BurrMod::new("api".to_string()).with_type(type_x))
        .with_mod(BurrMod::new("api".to_string()).with_type(type_y));
    x.resolve_exports("common");
    let r = x.export(&to("ignored"), TypeScript::new());
    match r {
        Err(ExportError::DuplicateExport { name }) => assert_eq!(name, "api.ts"),
        other => panic!("expected a duplicate-target error, got {other:?}"),
    }
}
