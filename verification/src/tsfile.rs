//! The file mapper: turns a closed module tree into the flat set of
//! output files, under one of three decomposition policies.

use vstd::prelude::*;

use crate::burrmod::BurrMod;
use crate::ir::{dup_item, IrItem, ItemModel, TypeId};
use crate::path::{deep, TargetPath};
use crate::registry::{table_get, Registry};

verus! {

/// How modules are mapped onto files.
#[derive(Copy, Clone, PartialEq, Eq, Structural, Debug)]
pub enum ModFileMap {
    /// Everything is written to one file; all modules are inlined.
    Inline,
    /// Each top-level module becomes one file; everything nested in it is
    /// inlined there.
    DecomposeTop,
    /// Every module becomes its own file; a module with children becomes
    /// a directory with an index file.
    DecomposeAll,
}

/// One output file: its module name, its target path, and the items it
/// declares, in order.
#[derive(Debug)]
pub struct TsFile {
    pub name: String,
    pub target: TargetPath,
    pub items: Vec<IrItem>,
}

/// What one planned file is, as a mathematical value.
pub struct FilePlan {
    pub name: Seq<char>,
    pub dirs: Seq<Seq<char>>,
    pub stem: Seq<char>,
    pub items: Seq<ItemModel>,
}

impl TsFile {
    pub open spec fn plan(self) -> FilePlan {
        FilePlan {
            name: self.name@,
            dirs: deep(self.target.dirs@),
            stem: self.target.stem@,
            items: items_models(self.items@),
        }
    }
}

pub open spec fn items_models(s: Seq<IrItem>) -> Seq<ItemModel> {
    s.map_values(|it: IrItem| it.model())
}

pub open spec fn plans_of(files: Seq<TsFile>) -> Seq<FilePlan> {
    files.map_values(|f: TsFile| f.plan())
}

/// The items a list of identities names in a table, in list order.
pub open spec fn ids_items(types: Registry, ids: Seq<TypeId>) -> Seq<ItemModel> {
    Seq::new(ids.len(), |k: int| table_get(types.entries@, ids[k])->Some_0.model())
}

/// The items one node itself declares: explicit exports first, then the
/// automatic ones.
pub open spec fn node_items_models(m: BurrMod) -> Seq<ItemModel> {
    ids_items(m.types, m.exports@) + ids_items(m.types, m.auto_exports@)
}

/// Every item in a forest, depth-first: each node's own items, then its
/// subtree, then its right siblings.
pub open spec fn flatten_models(ms: Seq<BurrMod>) -> Seq<ItemModel>
    decreases ms,
{
    if ms.len() == 0 {
        Seq::empty()
    } else {
        node_items_models(ms.first()) + flatten_models(ms.first().children@) + flatten_models(
            ms.drop_first(),
        )
    }
}

/// The planned files of the full decomposition: a childless module is one
/// file named after it; a module with children becomes a directory whose
/// index file holds the module's own items, with each child recursing
/// under that directory.
pub open spec fn decompose_all_plans(ms: Seq<BurrMod>, prefix: Seq<Seq<char>>) -> Seq<FilePlan>
    decreases ms,
{
    if ms.len() == 0 {
        Seq::empty()
    } else {
        let m = ms.first();
        (if m.children@.len() == 0 {
            seq![
                FilePlan {
                    name: m.name@,
                    dirs: prefix,
                    stem: m.name@,
                    items: node_items_models(m),
                },
            ]
        } else {
            seq![
                FilePlan {
                    name: m.name@,
                    dirs: prefix.push(m.name@),
                    stem: "index"@,
                    items: node_items_models(m),
                },
            ] + decompose_all_plans(m.children@, prefix.push(m.name@))
        }) + decompose_all_plans(ms.drop_first(), prefix)
    }
}

/// The planned files of the top-level decomposition: one file per
/// top-level module, named after it, holding its whole subtree.
pub open spec fn decompose_top_plans(ms: Seq<BurrMod>, todir: Seq<Seq<char>>) -> Seq<FilePlan>
    decreases ms,
{
    if ms.len() == 0 {
        Seq::empty()
    } else {
        seq![
            FilePlan {
                name: ms.first().name@,
                dirs: todir,
                stem: ms.first().name@,
                items: node_items_models(ms.first()) + flatten_models(ms.first().children@),
            },
        ] + decompose_top_plans(ms.drop_first(), todir)
    }
}

/// A value-for-value copy of a target path.
pub fn dup_path(p: &TargetPath) -> (r: TargetPath)
    ensures
        r.model() == p.model(),
{
    let mut dirs: Vec<String> = Vec::new();
    let n = p.dirs.len();
    let mut i: usize = 0;
    while i < n
        invariant
            0 <= i <= n,
            n == p.dirs@.len(),
            dirs@.len() == i,
            deep(dirs@) == deep(p.dirs@.subrange(0, i as int)),
        decreases n - i,
    {
        let ghost d0 = dirs@;
        dirs.push(p.dirs[i].clone());
        proof {
            crate::path::lemma_deep_push(d0, dirs@, p.dirs@[i as int]@);
            crate::path::lemma_deep_subrange_snoc(p.dirs@, i as int);
        }
        i = i + 1;
    }
    proof {
        assert(p.dirs@.subrange(0, n as int) =~= p.dirs@);
        assert(deep(dirs@) =~= deep(p.dirs@));
    }
    TargetPath { dirs, stem: p.stem.clone(), ext: p.ext.clone() }
}

/// The items one node declares, in export order.
pub fn node_items(m: &BurrMod) -> (r: Vec<IrItem>)
    requires
        m.wf(),
    ensures
        items_models(r@) == node_items_models(*m),
{
    let mut out: Vec<IrItem> = Vec::new();
    let en = m.exports.len();
    let mut i: usize = 0;
    while i < en
        invariant
            0 <= i <= en,
            m.wf(),
            en == m.exports@.len(),
            out@.len() == i,
            forall|w: int|
                0 <= w < i ==> (#[trigger] out@[w]).model() == table_get(
                    m.types.entries@,
                    m.exports@[w],
                )->Some_0.model(),
        decreases en - i,
    {
        let id = m.exports[i];
        proof {
            assert(m.exports@.contains(id));
            assert(m.types.spec_contains(id));
        }
        match m.types.get(id) {
            Some(it) => {
                out.push(dup_item(it));
            },
            None => {
                proof {
                    assert(false);
                }
                vstd::pervasive::unreached()
            },
        }
        i = i + 1;
    }
    let an = m.auto_exports.len();
    let mut i2: usize = 0;
    while i2 < an
        invariant
            0 <= i2 <= an,
            m.wf(),
            en == m.exports@.len(),
            an == m.auto_exports@.len(),
            out@.len() == en + i2,
            forall|w: int|
                0 <= w < en ==> (#[trigger] out@[w]).model() == table_get(
                    m.types.entries@,
                    m.exports@[w],
                )->Some_0.model(),
            forall|w: int|
                en <= w < en + i2 ==> (#[trigger] out@[w]).model() == table_get(
                    m.types.entries@,
                    m.auto_exports@[w - en],
                )->Some_0.model(),
        decreases an - i2,
    {
        let id = m.auto_exports[i2];
        proof {
            assert(m.auto_exports@.contains(id));
            assert(m.types.spec_contains(id));
        }
        match m.types.get(id) {
            Some(it) => {
                out.push(dup_item(it));
            },
            None => {
                proof {
                    assert(false);
                }
                vstd::pervasive::unreached()
            },
        }
        i2 = i2 + 1;
    }
    proof {
        assert forall|w: int|
            0 <= w < items_models(out@).len() implies #[trigger] items_models(out@)[w]
            == node_items_models(*m)[w] by {
            assert(items_models(out@)[w] == out@[w].model());
            if w < en {
                assert(node_items_models(*m)[w] == ids_items(m.types, m.exports@)[w]);
            } else {
                assert(node_items_models(*m)[w] == ids_items(m.types, m.auto_exports@)[w - en]);
            }
        }
        assert(items_models(out@) =~= node_items_models(*m));
    }
    out
}

/// Flattens a whole forest's items onto `out`, depth-first.
pub fn flatten_into(out: &mut Vec<IrItem>, ms: &Vec<BurrMod>)
    requires
        forall|j: int| 0 <= j < ms@.len() ==> (#[trigger] ms@[j]).wf(),
    ensures
        items_models(final(out)@) == items_models(old(out)@) + flatten_models(ms@),
    decreases ms@,
{
    let n = ms.len();
    let mut i: usize = 0;
    proof {
        assert(ms@.skip(0) =~= ms@);
    }
    while i < n
        invariant
            0 <= i <= n,
            n == ms@.len(),
            forall|j: int| 0 <= j < ms@.len() ==> (#[trigger] ms@[j]).wf(),
            items_models(out@) + flatten_models(ms@.skip(i as int)) == items_models(old(out)@)
                + flatten_models(ms@),
        decreases n - i,
    {
        let ghost before = items_models(out@);
        let mut own = node_items(&ms[i]);
        let ghost own0 = own@;
        out.append(&mut own);
        proof {
            assert forall|w: int|
                0 <= w < items_models(out@).len() implies #[trigger] items_models(out@)[w] == (
                before + node_items_models(ms@[i as int]))[w] by {
                assert(items_models(out@)[w] == out@[w].model());
                if w < before.len() {
                } else {
                    assert(out@[w] == own0[w - before.len()]);
                    assert(items_models(own0)[w - before.len()] == own0[w - before.len()].model());
                }
            }
            assert(items_models(out@) =~= before + node_items_models(ms@[i as int]));
            assert(decreases_to!(ms@ => ms@[i as int].children@));
        }
        flatten_into(out, &ms[i].children);
        proof {
            let sk = ms@.skip(i as int);
            assert(sk.first() == ms@[i as int]);
            assert(sk.drop_first() =~= ms@.skip(i + 1 as int));
            assert(flatten_models(sk) == node_items_models(ms@[i as int]) + flatten_models(
                ms@[i as int].children@,
            ) + flatten_models(ms@.skip(i + 1 as int)));
            assert(items_models(out@) + flatten_models(ms@.skip(i + 1 as int))
                =~= items_models(old(out)@) + flatten_models(ms@));
        }
        i = i + 1;
    }
    proof {
        assert(ms@.skip(n as int).len() == 0);
        assert(flatten_models(ms@.skip(n as int)) =~= Seq::<ItemModel>::empty());
        assert(items_models(out@) =~= items_models(out@) + flatten_models(ms@.skip(n as int)));
    }
}


/// A value-for-value copy of a segment list.
pub fn dup_segs(p: &Vec<String>) -> (r: Vec<String>)
    ensures
        deep(r@) == deep(p@),
{
    let mut dirs: Vec<String> = Vec::new();
    let n = p.len();
    let mut i: usize = 0;
    while i < n
        invariant
            0 <= i <= n,
            n == p@.len(),
            dirs@.len() == i,
            deep(dirs@) == deep(p@.subrange(0, i as int)),
        decreases n - i,
    {
        let ghost d0 = dirs@;
        dirs.push(p[i].clone());
        proof {
            crate::path::lemma_deep_push(d0, dirs@, p@[i as int]@);
            crate::path::lemma_deep_subrange_snoc(p@, i as int);
        }
        i = i + 1;
    }
    proof {
        assert(p@.subrange(0, n as int) =~= p@);
        assert(deep(dirs@) =~= deep(p@));
    }
    dirs
}

/// Appends the files of the full decomposition of a forest, under the
/// given directory prefix.
pub fn decompose_into(out: &mut Vec<TsFile>, ms: &Vec<BurrMod>, prefix: &Vec<String>)
    requires
        forall|j: int| 0 <= j < ms@.len() ==> (#[trigger] ms@[j]).wf(),
    ensures
        plans_of(final(out)@) == plans_of(old(out)@) + decompose_all_plans(ms@, deep(prefix@)),
        forall|w: int|
            old(out)@.len() <= w < final(out)@.len() ==> (#[trigger] final(out)@[w]).target.ext@
                == "ts"@,
        forall|w: int| 0 <= w < old(out)@.len() ==> final(out)@[w] == old(out)@[w],
    decreases ms@,
{
    let n = ms.len();
    let mut i: usize = 0;
    proof {
        assert(ms@.skip(0) =~= ms@);
    }
    while i < n
        invariant
            0 <= i <= n,
            n == ms@.len(),
            forall|j: int| 0 <= j < ms@.len() ==> (#[trigger] ms@[j]).wf(),
            plans_of(out@) + decompose_all_plans(ms@.skip(i as int), deep(prefix@)) == plans_of(
                old(out)@,
            ) + decompose_all_plans(ms@, deep(prefix@)),
            forall|w: int|
                old(out)@.len() <= w < out@.len() ==> (#[trigger] out@[w]).target.ext@ == "ts"@,
            forall|w: int| 0 <= w < old(out)@.len() ==> out@[w] == old(out)@[w],
            out@.len() >= old(out)@.len(),
        decreases n - i,
    {
        let ghost plans_before = plans_of(out@);
        let m = &ms[i];
        if m.children.len() == 0 {
            let items = node_items(m);
            let file = TsFile {
                name: m.name.clone(),
                target: TargetPath {
                    dirs: dup_segs(prefix),
                    stem: m.name.clone(),
                    ext: "ts".to_owned(),
                },
                items,
            };
            let ghost fplan = file.plan();
            out.push(file);
            proof {
                assert forall|w: int|
                    0 <= w < plans_of(out@).len() implies #[trigger] plans_of(out@)[w] == (
                plans_before + seq![fplan])[w] by {
                    assert(plans_of(out@)[w] == out@[w].plan());
                }
                assert(plans_of(out@) =~= plans_before + seq![fplan]);
                let sk = ms@.skip(i as int);
                assert(sk.first() == ms@[i as int]);
                assert(sk.drop_first() =~= ms@.skip(i + 1 as int));
                assert(fplan == FilePlan {
                    name: ms@[i as int].name@,
                    dirs: deep(prefix@),
                    stem: ms@[i as int].name@,
                    items: node_items_models(ms@[i as int]),
                });
                assert(plans_of(out@) + decompose_all_plans(ms@.skip(i + 1 as int), deep(prefix@))
                    =~= plans_of(old(out)@) + decompose_all_plans(ms@, deep(prefix@)));
            }
        } else {
            let mut newprefix = dup_segs(prefix);
            let ghost np0 = newprefix@;
            newprefix.push(m.name.clone());
            proof {
                crate::path::lemma_deep_push(np0, newprefix@, ms@[i as int].name@);
                assert(deep(newprefix@) =~= deep(prefix@).push(ms@[i as int].name@));
            }
            let items = node_items(m);
            let file = TsFile {
                name: m.name.clone(),
                target: TargetPath {
                    dirs: dup_segs(&newprefix),
                    stem: "index".to_owned(),
                    ext: "ts".to_owned(),
                },
                items,
            };
            let ghost fplan = file.plan();
            out.push(file);
            proof {
                assert forall|w: int|
                    0 <= w < plans_of(out@).len() implies #[trigger] plans_of(out@)[w] == (
                plans_before + seq![fplan])[w] by {
                    assert(plans_of(out@)[w] == out@[w].plan());
                }
                assert(plans_of(out@) =~= plans_before + seq![fplan]);
                assert(decreases_to!(ms@ => ms@[i as int].children@));
            }
            let ghost plans_mid = plans_of(out@);
            decompose_into(out, &m.children, &newprefix);
            proof {
                let sk = ms@.skip(i as int);
                assert(sk.first() == ms@[i as int]);
                assert(sk.drop_first() =~= ms@.skip(i + 1 as int));
                assert(fplan == FilePlan {
                    name: ms@[i as int].name@,
                    dirs: deep(prefix@).push(ms@[i as int].name@),
                    stem: "index"@,
                    items: node_items_models(ms@[i as int]),
                });
                assert(plans_of(out@) =~= plans_mid + decompose_all_plans(
                    ms@[i as int].children@,
                    deep(prefix@).push(ms@[i as int].name@),
                ));
                assert(plans_of(out@) + decompose_all_plans(ms@.skip(i + 1 as int), deep(prefix@))
                    =~= plans_of(old(out)@) + decompose_all_plans(ms@, deep(prefix@)));
            }
        }
        i = i + 1;
    }
    proof {
        assert(ms@.skip(n as int).len() == 0);
        assert(decompose_all_plans(ms@.skip(n as int), deep(prefix@)) =~= Seq::<
            FilePlan,
        >::empty());
        assert(plans_of(out@) =~= plans_of(out@) + decompose_all_plans(
            ms@.skip(n as int),
            deep(prefix@),
        ));
    }
}

/// Maps a closed forest onto output files under the chosen policy.
pub fn map_files(mods: &Vec<BurrMod>, policy: ModFileMap, to: &TargetPath) -> (r: Vec<TsFile>)
    requires
        forall|j: int| 0 <= j < mods@.len() ==> (#[trigger] mods@[j]).wf(),
    ensures
        forall|w: int| 0 <= w < r@.len() ==> (#[trigger] r@[w]).target.ext@ == "ts"@,
        policy is Inline ==> r@.len() == 1 && r@[0].plan() == (FilePlan {
            name: to.spec_str(),
            dirs: deep(to.dirs@),
            stem: to.stem@,
            items: flatten_models(mods@),
        }),
        policy is DecomposeTop ==> plans_of(r@) == decompose_top_plans(
            mods@,
            deep(to.dirs@) + seq![crate::path::filename_spec(to.stem@, to.ext@)],
        ),
        policy is DecomposeAll ==> plans_of(r@) == decompose_all_plans(
            mods@,
            Seq::<Seq<char>>::empty(),
        ),
{
    let mut files: Vec<TsFile> = Vec::new();
    match policy {
        ModFileMap::Inline => {
            let mut items: Vec<IrItem> = Vec::new();
            flatten_into(&mut items, mods);
            let file = TsFile {
                name: to.to_slash(),
                target: TargetPath {
                    dirs: dup_segs(&to.dirs),
                    stem: to.stem.clone(),
                    ext: "ts".to_owned(),
                },
                items,
            };
            files.push(file);
            proof {
                assert(items_models(Seq::<IrItem>::empty()) =~= Seq::<ItemModel>::empty());
                assert(items_models(files@[0].items@) =~= flatten_models(mods@));
            }
        },
        ModFileMap::DecomposeTop => {
            let todir = to.as_dir_segments();
            let n = mods.len();
            let mut i: usize = 0;
            proof {
                assert(mods@.skip(0) =~= mods@);
            }
            while i < n
                invariant
                    0 <= i <= n,
                    n == mods@.len(),
                    forall|j: int| 0 <= j < mods@.len() ==> (#[trigger] mods@[j]).wf(),
                    deep(todir@) == deep(to.dirs@) + seq![
                        crate::path::filename_spec(to.stem@, to.ext@),
                    ],
                    plans_of(files@) + decompose_top_plans(mods@.skip(i as int), deep(todir@))
                        == decompose_top_plans(mods@, deep(todir@)),
                    forall|w: int|
                        0 <= w < files@.len() ==> (#[trigger] files@[w]).target.ext@ == "ts"@,
                decreases n - i,
            {
                let ghost plans_before = plans_of(files@);
                let m = &mods[i];
                let mut items = node_items(m);
                proof {
                    assert(items_models(items@) =~= items_models(Seq::<IrItem>::empty())
                        + node_items_models(mods@[i as int]));
                    assert(items_models(Seq::<IrItem>::empty()) =~= Seq::<ItemModel>::empty());
                }
                flatten_into(&mut items, &m.children);
                let file = TsFile {
                    name: m.name.clone(),
                    target: TargetPath {
                        dirs: dup_segs(&todir),
                        stem: m.name.clone(),
                        ext: "ts".to_owned(),
                    },
                    items,
                };
                let ghost fplan = file.plan();
                files.push(file);
                proof {
                    assert forall|w: int|
                        0 <= w < plans_of(files@).len() implies #[trigger] plans_of(files@)[w]
                        == (plans_before + seq![fplan])[w] by {
                        assert(plans_of(files@)[w] == files@[w].plan());
                    }
                    assert(plans_of(files@) =~= plans_before + seq![fplan]);
                    let sk = mods@.skip(i as int);
                    assert(sk.first() == mods@[i as int]);
                    assert(sk.drop_first() =~= mods@.skip(i + 1 as int));
                    assert(fplan == FilePlan {
                        name: mods@[i as int].name@,
                        dirs: deep(todir@),
                        stem: mods@[i as int].name@,
                        items: node_items_models(mods@[i as int]) + flatten_models(
                            mods@[i as int].children@,
                        ),
                    });
                    assert(plans_of(files@) + decompose_top_plans(
                        mods@.skip(i + 1 as int),
                        deep(todir@),
                    ) =~= decompose_top_plans(mods@, deep(todir@)));
                }
                i = i + 1;
            }
            proof {
                assert(mods@.skip(n as int).len() == 0);
                assert(decompose_top_plans(mods@.skip(n as int), deep(todir@)) =~= Seq::<
                    FilePlan,
                >::empty());
                assert(plans_of(files@) =~= plans_of(files@) + decompose_top_plans(
                    mods@.skip(n as int),
                    deep(todir@),
                ));
            }
        },
        ModFileMap::DecomposeAll => {
            let prefix: Vec<String> = Vec::new();
            proof {
                assert(deep(prefix@) =~= Seq::<Seq<char>>::empty());
                assert(plans_of(files@) =~= Seq::<FilePlan>::empty());
            }
            decompose_into(&mut files, mods, &prefix);
            proof {
                assert(plans_of(files@) =~= decompose_all_plans(mods@, Seq::<Seq<char>>::empty()));
            }
        },
    }
    files
}


/// The top-level decomposition yields one file per top module, in order.
pub proof fn lemma_decompose_top_len(ms: Seq<BurrMod>, todir: Seq<Seq<char>>)
    ensures
        decompose_top_plans(ms, todir).len() == ms.len(),
    decreases ms,
{
    if ms.len() > 0 {
        lemma_decompose_top_len(ms.drop_first(), todir);
        assert(decompose_top_plans(ms.drop_first(), todir).len() == ms.len() - 1);
    }
}

/// What the top-level decomposition holds at one position.
pub proof fn lemma_decompose_top_plan_at(ms: Seq<BurrMod>, todir: Seq<Seq<char>>, i: int)
    requires
        0 <= i < ms.len(),
    ensures
        decompose_top_plans(ms, todir).len() == ms.len(),
        decompose_top_plans(ms, todir)[i] == (FilePlan {
            name: ms[i].name@,
            dirs: todir,
            stem: ms[i].name@,
            items: node_items_models(ms[i]) + flatten_models(ms[i].children@),
        }),
    decreases ms,
{
    lemma_decompose_top_len(ms, todir);
    lemma_decompose_top_len(ms.drop_first(), todir);
    if i == 0 {
    } else {
        assert(ms.drop_first()[i - 1] == ms[i]);
        lemma_decompose_top_plan_at(ms.drop_first(), todir, i - 1);
    }
}

} // verus!