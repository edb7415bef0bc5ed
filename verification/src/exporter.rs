//! The export driver: the input registry, the declared module trees, and
//! the fixed-point resolver that makes those trees closed — every type a
//! field references is either a builtin or exported somewhere.

use vstd::prelude::*;

use crate::burrmod::{
    contains_id, entries_imports_set, exports_set, imports_set, mods_exports_set,
    mods_imports_set, BurrMod,
};
use crate::case::str_eq;
use crate::ir::{dup_item, item_field_ids, lemma_model_determines_ids, IrItem, TypeId};
use crate::path::{deep, slash_join};
use crate::registry::{table_contains, table_get, Registry};

verus! {

/// Splits a module path on `/`. The result is the unique list of
/// slash-free segments that joins back to the input; an empty input gives
/// one empty segment.
pub fn split_path(s: &str) -> (r: Vec<String>)
    ensures
        r@.len() >= 1,
        slash_join(deep(r@)) == s@,
        forall|i: int, j: int|
            0 <= i < deep(r@).len() && 0 <= j < deep(r@)[i].len() ==> deep(r@)[i][j] != '/',
{
    let n = s.unicode_len();
    let mut segs: Vec<String> = Vec::new();
    let mut start: usize = 0;
    let mut i: usize = 0;
    while i < n
        invariant
            0 <= start <= i <= n,
            n == s@.len(),
            segs@.len() == 0 ==> start == 0,
            segs@.len() > 0 ==> (1 <= start && s@[start - 1] == '/' && slash_join(deep(segs@))
                == s@.subrange(0, start - 1)),
            forall|w: int| start <= w < i ==> s@[w] != '/',
            forall|a: int, b: int|
                0 <= a < deep(segs@).len() && 0 <= b < deep(segs@)[a].len() ==> deep(segs@)[a][b]
                    != '/',
        decreases n - i,
    {
        if s.get_char(i) == '/' {
            let piece = s.substring_char(start, i);
            let ghost segs0 = deep(segs@);
            segs.push(piece.to_owned());
            proof {
                reveal_strlit("/");
                crate::path::lemma_deep_push(
                    segs@.drop_last(),
                    segs@,
                    s@.subrange(start as int, i as int),
                );
                assert(deep(segs@) =~= segs0 + seq![s@.subrange(start as int, i as int)]);
                if segs0.len() == 0 {
                    assert(slash_join(deep(segs@)) == s@.subrange(start as int, i as int));
                    assert(slash_join(deep(segs@)) =~= s@.subrange(0, i as int));
                } else {
                    assert(deep(segs@).drop_last() =~= segs0);
                    assert(slash_join(deep(segs@)) == slash_join(segs0) + "/"@ + s@.subrange(
                        start as int,
                        i as int,
                    ));
                    assert(slash_join(deep(segs@)) =~= s@.subrange(0, i as int));
                }
            }
            start = i + 1;
        }
        i = i + 1;
    }
    let last = s.substring_char(start, n);
    let ghost segs0 = deep(segs@);
    segs.push(last.to_owned());
    proof {
        reveal_strlit("/");
        crate::path::lemma_deep_push(segs@.drop_last(), segs@, s@.subrange(start as int, n as int));
        assert(deep(segs@) =~= segs0 + seq![s@.subrange(start as int, n as int)]);
        if segs0.len() == 0 {
            assert(slash_join(deep(segs@)) == s@.subrange(start as int, n as int));
            assert(slash_join(deep(segs@)) =~= s@);
        } else {
            assert(deep(segs@).drop_last() =~= segs0);
            assert(slash_join(deep(segs@)) == slash_join(segs0) + "/"@ + s@.subrange(
                start as int,
                n as int,
            ));
            assert(slash_join(deep(segs@)) =~= s@);
        }
    }
    segs
}


/// An element of a forest contributes its whole subtree to the forest's
/// export and import sets.
pub proof fn lemma_mods_member_subset(ms: Seq<BurrMod>, i: int)
    requires
        0 <= i < ms.len(),
    ensures
        forall|x: TypeId|
            exports_set(ms[i]).contains(x) ==> #[trigger] mods_exports_set(ms).contains(x),
        forall|x: TypeId|
            imports_set(ms[i]).contains(x) ==> #[trigger] mods_imports_set(ms).contains(x),
    decreases ms.len(),
{
    assert(mods_exports_set(ms) == mods_exports_set(ms.drop_last()).union(
        exports_set(ms.last()),
    ));
    assert(mods_imports_set(ms) == mods_imports_set(ms.drop_last()).union(
        imports_set(ms.last()),
    ));
    if i == ms.len() - 1 {
        assert(ms.last() == ms[i]);
    } else {
        lemma_mods_member_subset(ms.drop_last(), i);
        assert(ms.drop_last()[i] == ms[i]);
        assert forall|x: TypeId|
            exports_set(ms[i]).contains(x) implies #[trigger] mods_exports_set(ms).contains(x) by {
            assert(mods_exports_set(ms.drop_last()).contains(x));
        }
        assert forall|x: TypeId|
            imports_set(ms[i]).contains(x) implies #[trigger] mods_imports_set(ms).contains(x) by {
            assert(mods_imports_set(ms.drop_last()).contains(x));
        }
    }
}

/// Replacing one node with a version whose sets differ by the given
/// extras shifts the forest's sets by exactly those extras.
pub proof fn lemma_mods_update(
    ms: Seq<BurrMod>,
    i: int,
    m2: BurrMod,
    ex_extra: Set<TypeId>,
    im_extra: Set<TypeId>,
)
    requires
        0 <= i < ms.len(),
        forall|x: TypeId|
            #[trigger] exports_set(m2).contains(x) <==> (exports_set(ms[i]).contains(x)
                || ex_extra.contains(x)),
        forall|x: TypeId|
            #[trigger] imports_set(m2).contains(x) <==> (imports_set(ms[i]).contains(x)
                || im_extra.contains(x)),
    ensures
        forall|x: TypeId|
            #[trigger] mods_exports_set(ms.update(i, m2)).contains(x) <==> (mods_exports_set(
                ms,
            ).contains(x) || ex_extra.contains(x)),
        forall|x: TypeId|
            #[trigger] mods_imports_set(ms.update(i, m2)).contains(x) <==> (mods_imports_set(
                ms,
            ).contains(x) || im_extra.contains(x)),
    decreases ms.len(),
{
    let upd = ms.update(i, m2);
    assert(upd.len() == ms.len());
    assert(mods_exports_set(ms) == mods_exports_set(ms.drop_last()).union(
        exports_set(ms.last()),
    ));
    assert(mods_imports_set(ms) == mods_imports_set(ms.drop_last()).union(
        imports_set(ms.last()),
    ));
    assert(mods_exports_set(upd) == mods_exports_set(upd.drop_last()).union(
        exports_set(upd.last()),
    ));
    assert(mods_imports_set(upd) == mods_imports_set(upd.drop_last()).union(
        imports_set(upd.last()),
    ));
    if i == ms.len() - 1 {
        assert(upd.drop_last() =~= ms.drop_last());
        assert(upd.last() == m2);
        assert(ms.last() == ms[i]);
    } else {
        assert(upd.drop_last() =~= ms.drop_last().update(i, m2));
        assert(upd.last() == ms.last());
        assert(ms.drop_last()[i] == ms[i]);
        lemma_mods_update(ms.drop_last(), i, m2, ex_extra, im_extra);
    }
}

/// Appending a freshly made, empty node leaves the forest's sets as they
/// were.
pub proof fn lemma_mods_push_empty(ms: Seq<BurrMod>, m_new: BurrMod)
    requires
        m_new.exports@.len() == 0,
        m_new.auto_exports@.len() == 0,
        m_new.types.entries@.len() == 0,
        m_new.children@.len() == 0,
    ensures
        forall|x: TypeId|
            #[trigger] mods_exports_set(ms.push(m_new)).contains(x) <==> mods_exports_set(
                ms,
            ).contains(x),
        forall|x: TypeId|
            #[trigger] mods_imports_set(ms.push(m_new)).contains(x) <==> mods_imports_set(
                ms,
            ).contains(x),
{
    let p = ms.push(m_new);
    assert(p.drop_last() =~= ms);
    assert(p.last() == m_new);
    assert(mods_exports_set(p) == mods_exports_set(p.drop_last()).union(exports_set(p.last())));
    assert(mods_imports_set(p) == mods_imports_set(p.drop_last()).union(imports_set(p.last())));
    assert(forall|x: TypeId| !m_new.exports@.contains(x));
    assert(forall|x: TypeId| !m_new.auto_exports@.contains(x));
    assert(mods_exports_set(m_new.children@) =~= Set::<TypeId>::empty());
    assert(mods_imports_set(m_new.children@) =~= Set::<TypeId>::empty());
    assert(entries_imports_set(m_new.types.entries@) =~= Set::<TypeId>::empty());
}

/// The first node of a forest carrying a name.
pub open spec fn find_named(ms: Seq<BurrMod>, nm: Seq<char>) -> Option<int>
    decreases ms.len(),
{
    if ms.len() == 0 {
        Option::None
    } else if ms[0].name@ == nm {
        Option::Some(0)
    } else {
        match find_named(ms.drop_first(), nm) {
            Option::None => Option::None,
            Option::Some(i) => Option::Some(i + 1),
        }
    }
}

pub proof fn lemma_find_named_char(ms: Seq<BurrMod>, nm: Seq<char>, k: int)
    requires
        0 <= k <= ms.len(),
        forall|j: int| 0 <= j < k ==> (#[trigger] ms[j]).name@ != nm,
        k < ms.len() ==> ms[k].name@ == nm,
    ensures
        k < ms.len() ==> find_named(ms, nm) == Option::Some(k),
        k == ms.len() ==> find_named(ms, nm) is None,
    decreases ms.len(),
{
    if ms.len() == 0 {
    } else if k == 0 {
        if ms[0].name@ != nm {
            assert forall|j: int|
                0 <= j < ms.drop_first().len() implies (#[trigger] ms.drop_first()[j]).name@
                != nm by {
                assert(ms.drop_first()[j] == ms[j + 1]);
            }
            lemma_find_named_char(ms.drop_first(), nm, ms.drop_first().len() as int);
        }
    } else {
        assert(ms[0].name@ != nm);
        assert forall|j: int|
            0 <= j < k - 1 implies (#[trigger] ms.drop_first()[j]).name@ != nm by {
            assert(ms.drop_first()[j] == ms[j + 1]);
        }
        assert(k - 1 < ms.drop_first().len() ==> ms.drop_first()[k - 1].name@ == nm);
        lemma_find_named_char(ms.drop_first(), nm, k - 1);
    }
}

/// What a successful name lookup pins down: the index found, its name,
/// and that nothing earlier matches.
pub proof fn lemma_find_named_inv(ms: Seq<BurrMod>, nm: Seq<char>)
    requires
        find_named(ms, nm) is Some,
    ensures
        0 <= find_named(ms, nm)->Some_0 < ms.len(),
        ms[find_named(ms, nm)->Some_0].name@ == nm,
        forall|j: int| 0 <= j < find_named(ms, nm)->Some_0 ==> (#[trigger] ms[j]).name@ != nm,
    decreases ms.len(),
{
    if ms[0].name@ == nm {
    } else {
        lemma_find_named_inv(ms.drop_first(), nm);
        let g = find_named(ms, nm)->Some_0;
        assert forall|j: int| 0 <= j < g implies (#[trigger] ms[j]).name@ != nm by {
            if j > 0 {
                assert(ms.drop_first()[j - 1] == ms[j]);
            }
        }
    }
}

/// Whether the module that a path names — following the first node of
/// each name, level by level — lists the identity among its automatic
/// exports.
pub open spec fn path_holds_id(ms: Seq<BurrMod>, path: Seq<Seq<char>>, id: TypeId) -> bool
    decreases path.len(),
{
    if path.len() == 0 {
        false
    } else {
        match find_named(ms, path[0]) {
            Option::None => false,
            Option::Some(g) => if path.len() == 1 {
                ms[g].auto_exports@.contains(id)
            } else {
                path_holds_id(ms[g].children@, path.drop_first(), id)
            },
        }
    }
}

/// Finds a child with the given name: the first match, or nothing.
fn find_mod(mods: &Vec<BurrMod>, name: &String) -> (r: Option<usize>)
    ensures
        match r {
            Option::Some(idx) => idx < mods@.len() && mods@[idx as int].name@ == name@ && forall|
                j: int,
            | 0 <= j < idx ==> (#[trigger] mods@[j]).name@ != name@,
            Option::None => forall|j: int|
                0 <= j < mods@.len() ==> (#[trigger] mods@[j]).name@ != name@,
        },
{
    let n = mods.len();
    let mut i: usize = 0;
    while i < n
        invariant
            0 <= i <= n,
            n == mods@.len(),
            forall|j: int| 0 <= j < i ==> (#[trigger] mods@[j]).name@ != name@,
        decreases n - i,
    {
        if str_eq(mods[i].name.as_str(), name.as_str()) {
            return Some(i);
        }
        i = i + 1;
    }
    None
}

/// Appends one resolved type to the automatic exports of the module at
/// the given path, creating any missing nodes on the way. The forest then
/// exports exactly what it did plus the one identity, and references in
/// addition exactly the identities of the item's own fields.
pub fn add_at(mods: &mut Vec<BurrMod>, path: &Vec<String>, k: usize, id: TypeId, item: IrItem)
    requires
        k < path@.len(),
        forall|j: int| 0 <= j < old(mods)@.len() ==> (#[trigger] old(mods)@[j]).wf(),
        !mods_exports_set(old(mods)@).contains(id),
        item.spec_type_id() == id,
    ensures
        forall|j: int| 0 <= j < final(mods)@.len() ==> (#[trigger] final(mods)@[j]).wf(),
        forall|x: TypeId|
            #[trigger] mods_exports_set(final(mods)@).contains(x) <==> (mods_exports_set(
                old(mods)@,
            ).contains(x) || x == id),
        forall|x: TypeId|
            #[trigger] mods_imports_set(final(mods)@).contains(x) <==> (mods_imports_set(
                old(mods)@,
            ).contains(x) || item_field_ids(item).to_set().contains(x)),
        path_holds_id(final(mods)@, deep(path@).skip(k as int), id),
        forall|p2: Seq<Seq<char>>, id2: TypeId|
            path_holds_id(old(mods)@, p2, id2) ==> #[trigger] path_holds_id(
                final(mods)@,
                p2,
                id2,
            ),
        extends_forest(old(mods)@, final(mods)@),
        forall|id2: TypeId|
            #[trigger] count_in_mods(final(mods)@, id2) == count_in_mods(old(mods)@, id2) + (
            if id2 == id {
                1nat
            } else {
                0nat
            }),
    decreases path@.len() - k,
{
    let ghost ms0 = mods@;
    let idx = match find_mod(mods, &path[k]) {
        Some(idx) => idx,
        None => {
            let fresh = BurrMod::new(path[k].clone());
            mods.push(fresh);
            proof {
                lemma_mods_push_empty(ms0, mods@.last());
                assert forall|j: int| 0 <= j < mods@.len() implies (#[trigger] mods@[j]).wf() by {
                    if j < ms0.len() {
                        assert(mods@[j] == ms0[j]);
                    }
                }
            }
            mods.len() - 1
        },
    };
    let ghost base = mods@;
    let mut node = mods.remove(idx);
    proof {
        assert(node == base[idx as int]);
        assert(!exports_set(node).contains(id)) by {
            lemma_mods_member_subset(base, idx as int);
        }
    }
    let ghost node0 = node;
    let plen = path.len();
    if k + 1 == plen {
        let ghost autos0 = node.auto_exports@;
        node.auto_exports.push(id);
        node.types.insert(item);
        proof {
            assert(!autos0.contains(id));
            assert(!node0.exports@.contains(id));
            assert(!node0.types.spec_contains(id));
            // the node stays well-formed
            assert(node.auto_exports@.drop_last() =~= autos0);
            assert forall|i: int, j: int|
                0 <= i < j < node.auto_exports@.len() implies node.auto_exports@[i] != node
                .auto_exports@[j] by {
                if j == node.auto_exports@.len() - 1 {
                    assert(node.auto_exports@[i] == autos0[i]);
                    assert(autos0.contains(autos0[i]));
                }
            }
            assert forall|i: int|
                0 <= i < node.exports@.len() implies !node.auto_exports@.contains(
                #[trigger] node.exports@[i],
            ) by {
                assert(node.exports@[i] == node0.exports@[i]);
                if node.auto_exports@.contains(node.exports@[i]) {
                    let w = choose|w: int|
                        0 <= w < node.auto_exports@.len() && node.auto_exports@[w] == node
                            .exports@[i];
                    if w < autos0.len() {
                        assert(autos0[w] == node.exports@[i]);
                        assert(autos0.contains(node.exports@[i]));
                    } else {
                        assert(node.exports@[i] == id);
                        assert(node0.exports@.contains(id));
                    }
                }
            }
            assert forall|x: TypeId| #[trigger]
                node.types.spec_contains(x) <==> (node.exports@.contains(x)
                    || node.auto_exports@.contains(x)) by {
                crate::registry::lemma_get_push(node0.types.entries@, id, item, x);
                assert(node0.types.spec_contains(x) == (node0.exports@.contains(x)
                    || node0.auto_exports@.contains(x)));
                if x == id {
                    assert(node.auto_exports@[node.auto_exports@.len() - 1] == id);
                    assert(node.auto_exports@.contains(id));
                } else {
                    assert(node.auto_exports@.contains(x) == autos0.contains(x)) by {
                        if autos0.contains(x) {
                            let w = choose|w: int| 0 <= w < autos0.len() && autos0[w] == x;
                            assert(node.auto_exports@[w] == x);
                        }
                        if node.auto_exports@.contains(x) {
                            let w = choose|w: int|
                                0 <= w < node.auto_exports@.len() && node.auto_exports@[w] == x;
                            assert(w < autos0.len());
                            assert(autos0[w] == x);
                        }
                    }
                }
            }
            assert(node.wf());
            // the node's sets shift by exactly the one identity and the
            // item's fields
            assert forall|x: TypeId| #[trigger]
                exports_set(node).contains(x) <==> (exports_set(node0).contains(x) || x == id)
            by {
                if x == id {
                    assert(node.auto_exports@[node.auto_exports@.len() - 1] == id);
                    assert(node.auto_exports@.contains(id));
                }
                if exports_set(node).contains(x) && x != id {
                    if node.auto_exports@.contains(x) {
                        let w = choose|w: int|
                            0 <= w < node.auto_exports@.len() && node.auto_exports@[w] == x;
                        assert(w < autos0.len());
                        assert(autos0[w] == x);
                    }
                }
                if exports_set(node0).contains(x) && autos0.contains(x) {
                    let w = choose|w: int| 0 <= w < autos0.len() && autos0[w] == x;
                    assert(node.auto_exports@[w] == x);
                }
            }
            assert(node.types.entries@ =~= node0.types.entries@.push((id, item)));
            assert(node.types.entries@.drop_last() =~= node0.types.entries@);
            assert forall|x: TypeId| #[trigger]
                imports_set(node).contains(x) <==> (imports_set(node0).contains(x)
                    || item_field_ids(item).to_set().contains(x)) by {
                assert(entries_imports_set(node.types.entries@) == entries_imports_set(
                    node0.types.entries@,
                ).union(item_field_ids(node.types.entries@.last().1).to_set()));
            }
        }
    } else {
        proof {
            assert(decreases_to!(path@.len() - k => path@.len() - (k + 1)));
        }
        add_at(&mut node.children, path, k + 1, id, item);
        proof {
            assert(exports_set(node) == node.exports@.to_set().union(
                node.auto_exports@.to_set(),
            ).union(mods_exports_set(node.children@)));
            assert(exports_set(node0) == node0.exports@.to_set().union(
                node0.auto_exports@.to_set(),
            ).union(mods_exports_set(node0.children@)));
            assert(imports_set(node) == entries_imports_set(node.types.entries@).union(
                mods_imports_set(node.children@),
            ));
            assert(imports_set(node0) == entries_imports_set(node0.types.entries@).union(
                mods_imports_set(node0.children@),
            ));
            assert forall|x: TypeId| #[trigger]
                exports_set(node).contains(x) <==> (exports_set(node0).contains(x) || x == id)
            by {
                assert(mods_exports_set(node.children@).contains(x) <==> (mods_exports_set(
                    node0.children@,
                ).contains(x) || x == id));
            }
            assert forall|x: TypeId| #[trigger]
                imports_set(node).contains(x) <==> (imports_set(node0).contains(x)
                    || item_field_ids(item).to_set().contains(x)) by {
                assert(mods_imports_set(node.children@).contains(x) <==> (mods_imports_set(
                    node0.children@,
                ).contains(x) || item_field_ids(item).to_set().contains(x)));
            }
            assert forall|x: TypeId| #[trigger]
                node.types.spec_contains(x) <==> (node.exports@.contains(x)
                    || node.auto_exports@.contains(x)) by {
                assert(node0.types.spec_contains(x) == (node0.exports@.contains(x)
                    || node0.auto_exports@.contains(x)));
            }
            assert(node.wf());
        }
    }
    let ghost removed = mods@;
    mods.insert(idx, node);
    proof {
        assert(mods@ =~= base.update(idx as int, node));
        lemma_mods_update(
            base,
            idx as int,
            node,
            Set::<TypeId>::empty().insert(id),
            item_field_ids(item).to_set(),
        );
        assert forall|j: int| 0 <= j < mods@.len() implies (#[trigger] mods@[j]).wf() by {
            if j != idx {
                assert(mods@[j] == base[j]);
            }
        }
        // the identity now sits along the given path
        let p = deep(path@).skip(k as int);
        assert(p[0] == path@[k as int]@);
        assert(node.name@ == path@[k as int]@);
        assert forall|j: int| 0 <= j < idx implies (#[trigger] mods@[j]).name@ != p[0] by {
            assert(mods@[j] == base[j]);
        }
        assert(mods@[idx as int].name@ == p[0]);
        lemma_find_named_char(mods@, p[0], idx as int);
        if k + 1 == plen {
            assert(node.auto_exports@.contains(id)) by {
                assert(node.auto_exports@[node.auto_exports@.len() - 1] == id);
            }
            assert(p.len() == 1);
            assert(path_holds_id(mods@, p, id));
        } else {
            assert(p.drop_first() =~= deep(path@).skip(k + 1 as int));
            assert(path_holds_id(node.children@, deep(path@).skip(k + 1 as int), id));
            assert(path_holds_id(mods@, p, id));
        }
        // each identity's export count shifts by the one addition
        assert forall|id2: TypeId|
            #[trigger] count_in_mods(mods@, id2) == count_in_mods(ms0, id2) + (if id2 == id {
                1nat
            } else {
                0nat
            }) by {
            lemma_count_update(base, idx as int, node, id2);
            if idx == ms0.len() {
                lemma_count_push(ms0, base[idx as int], id2);
                assert(count_in_mod(base[idx as int], id2) == 0) by {
                    assert(!base[idx as int].exports@.contains(id2));
                    assert(!base[idx as int].auto_exports@.contains(id2));
                    assert(count_in_mods(base[idx as int].children@, id2) == 0);
                }
            }
            assert(node0 == base[idx as int]);
            assert(!node0.exports@.contains(id));
            assert(!node0.auto_exports@.contains(id));
            if k + 1 == plen {
                assert(node.children@ == node0.children@);
                assert(node.exports@ == node0.exports@);
                if id2 == id {
                    assert(node.auto_exports@.contains(id)) by {
                        assert(node.auto_exports@[node.auto_exports@.len() - 1] == id);
                    }
                    assert(count_in_mod(node, id2) == count_in_mod(node0, id2) + 1);
                } else {
                    assert(node.auto_exports@.contains(id2) == node0.auto_exports@.contains(
                        id2,
                    )) by {
                        if node0.auto_exports@.contains(id2) {
                            let w = choose|w: int|
                                0 <= w < node0.auto_exports@.len()
                                    && #[trigger] node0.auto_exports@[w] == id2;
                            assert(node.auto_exports@[w] == id2);
                        }
                        if node.auto_exports@.contains(id2) {
                            let w = choose|w: int|
                                0 <= w < node.auto_exports@.len()
                                    && #[trigger] node.auto_exports@[w] == id2;
                            assert(w < node0.auto_exports@.len());
                            assert(node0.auto_exports@[w] == id2);
                        }
                    }
                    assert(count_in_mod(node, id2) == count_in_mod(node0, id2));
                }
            } else {
                assert(node.exports@ == node0.exports@);
                assert(node.auto_exports@ == node0.auto_exports@);
                assert(count_in_mods(node.children@, id2) == count_in_mods(
                    node0.children@,
                    id2,
                ) + (if id2 == id {
                    1nat
                } else {
                    0nat
                }));
                assert(count_in_mod(node, id2) == count_in_mod(node0, id2) + (if id2 == id {
                    1nat
                } else {
                    0nat
                }));
            }
        }
        // the tree only grows
        assert forall|i: int|
            0 <= i < ms0.len() implies extends_mod(#[trigger] ms0[i], mods@[i]) by {
            if i != idx {
                assert(mods@[i] == base[i]);
                assert(base[i] == ms0[i]);
                lemma_extends_refl(ms0[i]);
            } else {
                assert(node0 == base[i]);
                assert(base[i] == ms0[i]);
                if k + 1 == plen {
                    assert forall|id2: TypeId|
                        node0.auto_exports@.contains(id2) implies #[trigger] node
                        .auto_exports@.contains(id2) by {
                        let w = choose|w: int|
                            0 <= w < node0.auto_exports@.len() && #[trigger] node0.auto_exports@[w]
                                == id2;
                        assert(node.auto_exports@[w] == id2);
                    }
                    assert forall|c: int|
                        0 <= c < node0.children@.len() implies extends_mod(
                        #[trigger] node0.children@[c],
                        node.children@[c],
                    ) by {
                        lemma_extends_refl(node0.children@[c]);
                    }
                    assert(extends_mod(ms0[i], node));
                } else {
                    assert(extends_mod(ms0[i], node));
                }
            }
        }
        assert(extends_forest(ms0, mods@));
        // whatever already sat along some path still does
        assert forall|p2: Seq<Seq<char>>, id2: TypeId|
            path_holds_id(ms0, p2, id2) implies #[trigger] path_holds_id(mods@, p2, id2) by {
            lemma_find_named_inv(ms0, p2[0]);
            let g = find_named(ms0, p2[0])->Some_0;
            assert(g < ms0.len());
            assert(base[g] == ms0[g]);
            assert forall|j: int| 0 <= j < g implies (#[trigger] mods@[j]).name@ != p2[0] by {
                if j != idx {
                    assert(mods@[j] == base[j]);
                    assert(base[j] == ms0[j]);
                } else {
                    assert(node.name@ == base[j].name@);
                    assert(base[j] == ms0[j]);
                }
            }
            assert(mods@[g].name@ == p2[0]) by {
                if g != idx {
                    assert(mods@[g] == base[g]);
                } else {
                    assert(node.name@ == base[g].name@);
                }
            }
            lemma_find_named_char(mods@, p2[0], g);
            if g != idx {
                assert(mods@[g] == ms0[g]);
            } else {
                assert(node0 == base[g]);
                if p2.len() == 1 {
                    assert(ms0[g].auto_exports@.contains(id2));
                    if k + 1 == plen {
                        let w = choose|w: int|
                            0 <= w < node0.auto_exports@.len() && #[trigger] node0.auto_exports@[w]
                                == id2;
                        assert(node.auto_exports@[w] == id2);
                        assert(node.auto_exports@.contains(id2));
                    } else {
                        assert(node.auto_exports@ == node0.auto_exports@);
                    }
                } else {
                    assert(path_holds_id(node0.children@, p2.drop_first(), id2));
                    if k + 1 == plen {
                        assert(node.children@ == node0.children@);
                    } else {
                        assert(path_holds_id(node.children@, p2.drop_first(), id2));
                    }
                }
            }
        }
    }
}


/// The display name behind one automatic export of a node.
pub open spec fn auto_name(m: BurrMod, i: int) -> Seq<char> {
    table_get(m.types.entries@, m.auto_exports@[i])->Some_0.spec_ident()
}

/// Every node's automatic exports are in case-insensitive name order.
pub open spec fn autos_sorted(m: BurrMod) -> bool
    decreases m,
{
    &&& forall|i: int, j: int|
        0 <= i < j < m.auto_exports@.len() ==> crate::order::lex_le(
            #[trigger] auto_name(m, i),
            #[trigger] auto_name(m, j),
            true,
        )
    &&& forall|c: int| 0 <= c < m.children@.len() ==> autos_sorted(#[trigger] m.children@[c])
}

/// The two parts of name-ordering, put back together.
pub proof fn lemma_autos_sorted_parts(m: BurrMod)
    requires
        forall|i: int, j: int|
            0 <= i < j < m.auto_exports@.len() ==> crate::order::lex_le(
                #[trigger] auto_name(m, i),
                #[trigger] auto_name(m, j),
                true,
            ),
        forall|c: int| 0 <= c < m.children@.len() ==> autos_sorted(#[trigger] m.children@[c]),
    ensures
        autos_sorted(m),
{
}

/// Whether a transformed node keeps its layout: the same name, the same
/// membership of its automatic exports, and children in place, each
/// keeping its own layout.
pub open spec fn keeps_layout(pre: BurrMod, post: BurrMod) -> bool
    decreases pre,
{
    &&& post.name@ == pre.name@
    &&& post.exports@ == pre.exports@
    &&& forall|id: TypeId|
        #[trigger] post.auto_exports@.contains(id) <==> pre.auto_exports@.contains(id)
    &&& post.children@.len() == pre.children@.len()
    &&& forall|i: int|
        0 <= i < pre.children@.len() ==> keeps_layout(
            #[trigger] pre.children@[i],
            post.children@[i],
        )
}

/// Whether a transformed node only grows: the same name and explicit
/// exports, automatic exports and children kept in place, children only
/// appended.
pub open spec fn extends_mod(pre: BurrMod, post: BurrMod) -> bool
    decreases pre,
{
    &&& post.name@ == pre.name@
    &&& post.exports@ == pre.exports@
    &&& forall|id: TypeId|
        pre.auto_exports@.contains(id) ==> #[trigger] post.auto_exports@.contains(id)
    &&& post.children@.len() >= pre.children@.len()
    &&& forall|i: int|
        0 <= i < pre.children@.len() ==> extends_mod(
            #[trigger] pre.children@[i],
            post.children@[i],
        )
}

/// Whether a forest only grows: existing modules extend in place, new
/// ones only appear after them.
pub open spec fn extends_forest(pre: Seq<BurrMod>, post: Seq<BurrMod>) -> bool {
    &&& post.len() >= pre.len()
    &&& forall|i: int| 0 <= i < pre.len() ==> extends_mod(#[trigger] pre[i], post[i])
}

pub proof fn lemma_extends_refl(m: BurrMod)
    ensures
        extends_mod(m, m),
    decreases m,
{
    assert forall|i: int|
        0 <= i < m.children@.len() implies extends_mod(
        #[trigger] m.children@[i],
        m.children@[i],
    ) by {
        lemma_extends_refl(m.children@[i]);
    }
}

pub proof fn lemma_extends_trans(a: BurrMod, b: BurrMod, c: BurrMod)
    requires
        extends_mod(a, b),
        extends_mod(b, c),
    ensures
        extends_mod(a, c),
    decreases a,
{
    assert forall|i: int|
        0 <= i < a.children@.len() implies extends_mod(
        #[trigger] a.children@[i],
        c.children@[i],
    ) by {
        lemma_extends_trans(a.children@[i], b.children@[i], c.children@[i]);
    }
}

/// A layout-keeping step is in particular a growth step.
pub proof fn lemma_keeps_extends(pre: BurrMod, post: BurrMod)
    requires
        keeps_layout(pre, post),
    ensures
        extends_mod(pre, post),
    decreases pre,
{
    assert forall|i: int|
        0 <= i < pre.children@.len() implies extends_mod(
        #[trigger] pre.children@[i],
        post.children@[i],
    ) by {
        lemma_keeps_extends(pre.children@[i], post.children@[i]);
    }
}

/// A forest of layout-keeping nodes answers every path lookup as before.
pub proof fn lemma_layout_path_holds(
    ms1: Seq<BurrMod>,
    ms2: Seq<BurrMod>,
    p: Seq<Seq<char>>,
    id: TypeId,
)
    requires
        ms1.len() == ms2.len(),
        forall|i: int| 0 <= i < ms1.len() ==> keeps_layout(#[trigger] ms1[i], ms2[i]),
        path_holds_id(ms1, p, id),
    ensures
        path_holds_id(ms2, p, id),
    decreases p.len(),
{
    lemma_find_named_inv(ms1, p[0]);
    let g = find_named(ms1, p[0])->Some_0;
    assert(keeps_layout(ms1[g], ms2[g]));
    assert forall|j: int| 0 <= j < g implies (#[trigger] ms2[j]).name@ != p[0] by {
        assert(keeps_layout(ms1[j], ms2[j]));
    }
    assert(ms2[g].name@ == p[0]);
    lemma_find_named_char(ms2, p[0], g);
    if p.len() == 1 {
        assert(ms2[g].auto_exports@.contains(id));
    } else {
        lemma_layout_path_holds(ms1[g].children@, ms2[g].children@, p.drop_first(), id);
    }
}

/// A permutation of identity-name pairs with pairwise-distinct
/// identities again has pairwise-distinct identities.
pub proof fn lemma_ids_nodup_perm(p1: Seq<(TypeId, String)>, p2: Seq<(TypeId, String)>)
    requires
        p1.to_multiset() == p2.to_multiset(),
        forall|i: int, j: int| 0 <= i < j < p1.len() ==> (#[trigger] p1[i]).0 != (#[trigger] p1[j]).0,
    ensures
        forall|i: int, j: int| 0 <= i < j < p2.len() ==> (#[trigger] p2[i]).0 != (#[trigger] p2[j]).0,
{
    broadcast use vstd::seq_lib::group_to_multiset_ensures;

    assert forall|i: int, j: int| 0 <= i < j < p1.len() implies p1[i] != p1[j] by {
        assert(p1[i].0 != p1[j].0);
    }
    assert(p1.no_duplicates());
    p1.lemma_multiset_has_no_duplicates();
    p2.lemma_multiset_has_no_duplicates_conv();
    assert(p2.no_duplicates());
    assert forall|i: int, j: int|
        0 <= i < j < p2.len() implies (#[trigger] p2[i]).0 != (#[trigger] p2[j]).0 by {
        if p2[i].0 == p2[j].0 {
            assert(p2[i] != p2[j]);
            assert(p2.contains(p2[i]));
            assert(p2.contains(p2[j]));
            assert(p2.to_multiset().count(p2[i]) > 0);
            assert(p1.to_multiset().count(p2[i]) > 0);
            assert(p2.to_multiset().count(p2[j]) > 0);
            assert(p1.to_multiset().count(p2[j]) > 0);
            assert(p1.contains(p2[i]));
            assert(p1.contains(p2[j]));
            let wi = choose|w: int| 0 <= w < p1.len() && p1[w] == p2[i];
            let wj = choose|w: int| 0 <= w < p1.len() && p1[w] == p2[j];
            assert(wi != wj);
            if wi < wj {
                assert(p1[wi].0 != p1[wj].0);
            } else {
                assert(p1[wj].0 != p1[wi].0);
            }
        }
    }
}

/// Two forests whose nodes pairwise export and reference the same
/// identities export and reference the same identities.
pub proof fn lemma_mods_elementwise(ms1: Seq<BurrMod>, ms2: Seq<BurrMod>)
    requires
        ms1.len() == ms2.len(),
        forall|j: int, x: TypeId|
            0 <= j < ms1.len() ==> (#[trigger] exports_set(ms1[j]).contains(x)
                <==> exports_set(ms2[j]).contains(x)),
        forall|j: int, x: TypeId|
            0 <= j < ms1.len() ==> (#[trigger] imports_set(ms1[j]).contains(x)
                <==> imports_set(ms2[j]).contains(x)),
    ensures
        forall|x: TypeId|
            #[trigger] mods_exports_set(ms1).contains(x) <==> mods_exports_set(ms2).contains(x),
        forall|x: TypeId|
            #[trigger] mods_imports_set(ms1).contains(x) <==> mods_imports_set(ms2).contains(x),
    decreases ms1.len(),
{
    if ms1.len() > 0 {
        assert(mods_exports_set(ms1) == mods_exports_set(ms1.drop_last()).union(
            exports_set(ms1.last()),
        ));
        assert(mods_exports_set(ms2) == mods_exports_set(ms2.drop_last()).union(
            exports_set(ms2.last()),
        ));
        assert(mods_imports_set(ms1) == mods_imports_set(ms1.drop_last()).union(
            imports_set(ms1.last()),
        ));
        assert(mods_imports_set(ms2) == mods_imports_set(ms2.drop_last()).union(
            imports_set(ms2.last()),
        ));
        assert forall|j: int, x: TypeId|
            0 <= j < ms1.drop_last().len() implies (#[trigger] exports_set(
            ms1.drop_last()[j],
        ).contains(x) <==> exports_set(ms2.drop_last()[j]).contains(x)) by {
            assert(ms1.drop_last()[j] == ms1[j]);
            assert(ms2.drop_last()[j] == ms2[j]);
            assert(exports_set(ms1[j]).contains(x) <==> exports_set(ms2[j]).contains(x));
        }
        assert forall|j: int, x: TypeId|
            0 <= j < ms1.drop_last().len() implies (#[trigger] imports_set(
            ms1.drop_last()[j],
        ).contains(x) <==> imports_set(ms2.drop_last()[j]).contains(x)) by {
            assert(ms1.drop_last()[j] == ms1[j]);
            assert(ms2.drop_last()[j] == ms2[j]);
            assert(imports_set(ms1[j]).contains(x) <==> imports_set(ms2[j]).contains(x));
        }
        lemma_mods_elementwise(ms1.drop_last(), ms2.drop_last());
        assert(ms1.last() == ms1[ms1.len() - 1]);
        assert(ms2.last() == ms2[ms1.len() - 1]);
    }
}

/// Puts every node's automatic exports in case-insensitive display-name
/// order, all through the subtree; nothing else about the tree changes.
pub fn sort_autos_tree(m: BurrMod) -> (r: BurrMod)
    requires
        m.wf(),
    ensures
        r.wf(),
        autos_sorted(r),
        keeps_layout(m, r),
        forall|x: TypeId| #[trigger] exports_set(r).contains(x) <==> exports_set(m).contains(x),
        forall|x: TypeId| #[trigger] imports_set(r).contains(x) <==> imports_set(m).contains(x),
    decreases m,
{
    let BurrMod { name, exports, auto_exports, types, children } = m;
    // pair each automatic export with its display name
    let mut pairs: Vec<(TypeId, String)> = Vec::new();
    let an = auto_exports.len();
    let mut i: usize = 0;
    while i < an
        invariant
            0 <= i <= an,
            an == auto_exports@.len(),
            auto_exports@ == m.auto_exports@,
            types == m.types,
            m.wf(),
            pairs@.len() == i,
            forall|w: int| 0 <= w < i ==> (#[trigger] pairs@[w]).0 == m.auto_exports@[w],
            forall|w: int|
                0 <= w < i ==> (#[trigger] pairs@[w]).1@ == table_get(
                    m.types.entries@,
                    m.auto_exports@[w],
                )->Some_0.spec_ident(),
        decreases an - i,
    {
        let id = auto_exports[i];
        proof {
            assert(m.auto_exports@.contains(id));
            assert(m.types.spec_contains(id));
        }
        match types.get(id) {
            Some(it) => {
                let nm = it.name();
                pairs.push((id, nm));
            },
            None => {
                proof {
                    assert(false);
                }
                vstd::pervasive::unreached()
            },
        }
        i = i + 1;
    }
    let ghost pairs0 = pairs@;
    let sorted = crate::order::sort_pairs_by_name(pairs, true);
    proof {
        crate::order::lemma_sort_by_name_multiset(pairs0, true);
        crate::order::lemma_sort_by_name_sorted(pairs0, true);
        broadcast use vstd::seq_lib::group_to_multiset_ensures;

        lemma_ids_nodup_perm(pairs0, sorted@);
    }
    // write the identities back in sorted order
    let mut new_autos: Vec<TypeId> = Vec::new();
    let sn = sorted.len();
    let mut j: usize = 0;
    while j < sn
        invariant
            0 <= j <= sn,
            sn == sorted@.len(),
            new_autos@.len() == j,
            forall|w: int| 0 <= w < j ==> #[trigger] new_autos@[w] == sorted@[w].0,
        decreases sn - j,
    {
        new_autos.push(sorted[j].0);
        j = j + 1;
    }
    let ghost autos_new = new_autos@;
    proof {
        broadcast use vstd::seq_lib::group_to_multiset_ensures;

        // membership in the automatic exports is unchanged
        assert forall|x: TypeId| autos_new.contains(x) <==> m.auto_exports@.contains(x) by {
            if autos_new.contains(x) {
                let w = choose|w: int| 0 <= w < autos_new.len() && autos_new[w] == x;
                assert(sorted@[w].0 == x);
                assert(sorted@.contains(sorted@[w]));
                assert(sorted@.to_multiset().count(sorted@[w]) > 0);
                assert(pairs0.to_multiset().count(sorted@[w]) > 0);
                assert(pairs0.contains(sorted@[w]));
                let v = choose|v: int| 0 <= v < pairs0.len() && pairs0[v] == sorted@[w];
                assert(m.auto_exports@[v] == x);
            }
            if m.auto_exports@.contains(x) {
                let w = choose|w: int| 0 <= w < m.auto_exports@.len() && m.auto_exports@[w] == x;
                assert(pairs0[w].0 == x);
                assert(pairs0.contains(pairs0[w]));
                assert(pairs0.to_multiset().count(pairs0[w]) > 0);
                assert(sorted@.to_multiset().count(pairs0[w]) > 0);
                assert(sorted@.contains(pairs0[w]));
                let v = choose|v: int| 0 <= v < sorted@.len() && sorted@[v] == pairs0[w];
                assert(autos_new[v] == x);
            }
        }
    }
    // recurse into the children, preserving their order
    let mut src = children;
    let mut new_kids: Vec<BurrMod> = Vec::new();
    let ghost mut rebuilt: int = 0;
    while src.len() > 0
        invariant
            src@ =~= m.children@.skip(rebuilt),
            rebuilt == new_kids@.len(),
            0 <= rebuilt <= m.children@.len(),
            m.wf(),
            forall|w: int| 0 <= w < rebuilt ==> (#[trigger] new_kids@[w]).wf(),
            forall|w: int| 0 <= w < rebuilt ==> autos_sorted(#[trigger] new_kids@[w]),
            forall|w: int|
                0 <= w < rebuilt ==> keeps_layout(#[trigger] m.children@[w], new_kids@[w]),
            forall|w: int, x: TypeId|
                0 <= w < rebuilt ==> (#[trigger] exports_set(new_kids@[w]).contains(x)
                    <==> exports_set(m.children@[w]).contains(x)),
            forall|w: int, x: TypeId|
                0 <= w < rebuilt ==> (#[trigger] imports_set(new_kids@[w]).contains(x)
                    <==> imports_set(m.children@[w]).contains(x)),
        decreases src@.len(),
    {
        let c = src.remove(0);
        proof {
            assert(c == m.children@[rebuilt]);
            assert(src@ =~= m.children@.skip(rebuilt + 1));
            assert(decreases_to!(m => m.children@[rebuilt]));
        }
        let c2 = sort_autos_tree(c);
        new_kids.push(c2);
        proof {
            rebuilt = rebuilt + 1;
        }
    }
    let r = BurrMod { name, exports, auto_exports: new_autos, types, children: new_kids };
    proof {
        assert(m.children@.skip(rebuilt).len() == 0);
        assert(rebuilt == m.children@.len());
        lemma_mods_elementwise(r.children@, m.children@);
        // well-formedness of the reassembled node
        assert forall|i2: int, j2: int|
            0 <= i2 < j2 < r.auto_exports@.len() implies r.auto_exports@[i2] != r
            .auto_exports@[j2] by {
            assert(sorted@[i2].0 == r.auto_exports@[i2]);
            assert(sorted@[j2].0 == r.auto_exports@[j2]);
        }
        assert forall|i2: int|
            0 <= i2 < r.exports@.len() implies !r.auto_exports@.contains(
            #[trigger] r.exports@[i2],
        ) by {
            assert(!m.auto_exports@.contains(m.exports@[i2]));
        }
        assert forall|x: TypeId| #[trigger]
            r.types.spec_contains(x) <==> (r.exports@.contains(x) || r.auto_exports@.contains(x))
        by {
            assert(m.types.spec_contains(x) == (m.exports@.contains(x)
                || m.auto_exports@.contains(x)));
        }
        assert(r.wf());
        // the sorted order holds of the looked-up names
        assert forall|i2: int, j2: int|
            0 <= i2 < j2 < r.auto_exports@.len() implies crate::order::lex_le(
            #[trigger] auto_name(r, i2),
            #[trigger] auto_name(r, j2),
            true,
        ) by {
            broadcast use vstd::seq_lib::group_to_multiset_ensures;

            assert(crate::order::name_le(sorted@[i2], sorted@[j2], true));
            assert(sorted@.contains(sorted@[i2]));
            assert(sorted@.to_multiset().count(sorted@[i2]) > 0);
            assert(pairs0.to_multiset().count(sorted@[i2]) > 0);
            assert(pairs0.contains(sorted@[i2]));
            let wi = choose|w: int| 0 <= w < pairs0.len() && pairs0[w] == sorted@[i2];
            assert(pairs0[wi].1@ == table_get(
                m.types.entries@,
                pairs0[wi].0,
            )->Some_0.spec_ident());
            assert(sorted@.contains(sorted@[j2]));
            assert(sorted@.to_multiset().count(sorted@[j2]) > 0);
            assert(pairs0.to_multiset().count(sorted@[j2]) > 0);
            assert(pairs0.contains(sorted@[j2]));
            let wj = choose|w: int| 0 <= w < pairs0.len() && pairs0[w] == sorted@[j2];
            assert(pairs0[wj].1@ == table_get(
                m.types.entries@,
                pairs0[wj].0,
            )->Some_0.spec_ident());
            assert(auto_name(r, i2) == sorted@[i2].1@);
            assert(auto_name(r, j2) == sorted@[j2].1@);
        }
        assert(autos_sorted(r));
        assert(keeps_layout(m, r)) by {
            assert(r.name@ == m.name@);
            assert(r.exports@ == m.exports@);
            assert(forall|id2: TypeId|
                #[trigger] r.auto_exports@.contains(id2) <==> m.auto_exports@.contains(id2));
        }
        // the subtree's sets are unchanged
        assert(exports_set(r) == r.exports@.to_set().union(r.auto_exports@.to_set()).union(
            mods_exports_set(r.children@),
        ));
        assert(exports_set(m) == m.exports@.to_set().union(m.auto_exports@.to_set()).union(
            mods_exports_set(m.children@),
        ));
        assert(imports_set(r) == entries_imports_set(r.types.entries@).union(
            mods_imports_set(r.children@),
        ));
        assert(imports_set(m) == entries_imports_set(m.types.entries@).union(
            mods_imports_set(m.children@),
        ));
    }
    r
}


/// How many registry entries still lack an export anywhere in the forest.
pub open spec fn count_unexported(es: Seq<(TypeId, IrItem)>, ms: Seq<BurrMod>) -> nat
    decreases es.len(),
{
    if es.len() == 0 {
        0
    } else {
        count_unexported(es.drop_last(), ms) + (if mods_exports_set(ms).contains(es.last().0) {
            0nat
        } else {
            1nat
        })
    }
}

/// Exporting more can only shrink the count of unexported entries.
pub proof fn lemma_count_monotone(es: Seq<(TypeId, IrItem)>, ms1: Seq<BurrMod>, ms2: Seq<BurrMod>)
    requires
        forall|x: TypeId|
            #[trigger] mods_exports_set(ms1).contains(x) ==> mods_exports_set(ms2).contains(x),
    ensures
        count_unexported(es, ms2) <= count_unexported(es, ms1),
    decreases es.len(),
{
    if es.len() > 0 {
        lemma_count_monotone(es.drop_last(), ms1, ms2);
    }
}

/// Newly exporting a registry entry's identity strictly shrinks the
/// count.
pub proof fn lemma_count_strict(
    es: Seq<(TypeId, IrItem)>,
    ms1: Seq<BurrMod>,
    ms2: Seq<BurrMod>,
    id: TypeId,
    j: int,
)
    requires
        forall|x: TypeId|
            #[trigger] mods_exports_set(ms1).contains(x) ==> mods_exports_set(ms2).contains(x),
        0 <= j < es.len(),
        es[j].0 == id,
        mods_exports_set(ms2).contains(id),
        !mods_exports_set(ms1).contains(id),
    ensures
        count_unexported(es, ms2) < count_unexported(es, ms1),
    decreases es.len(),
{
    if j == es.len() - 1 {
        lemma_count_monotone(es.drop_last(), ms1, ms2);
        assert(es.last().0 == id);
    } else {
        assert(es.drop_last()[j] == es[j]);
        lemma_count_strict(es.drop_last(), ms1, ms2, id, j);
    }
}

/// A key a table holds is the key of some entry.
pub proof fn lemma_table_contains_index(es: Seq<(TypeId, IrItem)>, id: TypeId) -> (j: int)
    requires
        table_contains(es, id),
    ensures
        0 <= j < es.len(),
        es[j].0 == id,
    decreases es.len(),
{
    if es[0].0 == id {
        0
    } else {
        let w = lemma_table_contains_index(es.drop_first(), id);
        assert(es.drop_first()[w] == es[w + 1]);
        w + 1
    }
}

/// In a well-formed table, the found item declares the key it was found
/// under.
pub proof fn lemma_table_get_wf(es: Seq<(TypeId, IrItem)>, id: TypeId)
    requires
        table_get(es, id) is Some,
        forall|i: int|
            0 <= i < es.len() ==> (#[trigger] es[i]).0 == es[i].1.spec_type_id(),
    ensures
        table_get(es, id)->Some_0.spec_type_id() == id,
    decreases es.len(),
{
    if es[0].0 == id {
        assert(es[0].0 == es[0].1.spec_type_id());
    } else {
        assert forall|i: int|
            0 <= i < es.drop_first().len() implies (#[trigger] es.drop_first()[i]).0 == es
            .drop_first()[i].1.spec_type_id() by {
            assert(es.drop_first()[i] == es[i + 1]);
        }
        lemma_table_get_wf(es.drop_first(), id);
    }
}

/// How many export lists across a subtree carry an identity.
pub open spec fn count_in_mod(m: BurrMod, id: TypeId) -> nat
    decreases m,
{
    (if m.exports@.contains(id) {
        1nat
    } else {
        0nat
    }) + (if m.auto_exports@.contains(id) {
        1nat
    } else {
        0nat
    }) + count_in_mods(m.children@, id)
}

/// How many export lists across a forest carry an identity.
pub open spec fn count_in_mods(ms: Seq<BurrMod>, id: TypeId) -> nat
    decreases ms,
{
    if ms.len() == 0 {
        0nat
    } else {
        count_in_mods(ms.drop_last(), id) + count_in_mod(ms.last(), id)
    }
}

/// No identity stands in more than one export list anywhere.
pub open spec fn exports_unique(ms: Seq<BurrMod>) -> bool {
    forall|id: TypeId| #[trigger] count_in_mods(ms, id) <= 1
}

/// An identity is exported somewhere exactly when some list carries it.
pub proof fn lemma_count_positive(ms: Seq<BurrMod>, id: TypeId)
    ensures
        count_in_mods(ms, id) > 0 <==> mods_exports_set(ms).contains(id),
    decreases ms,
{
    if ms.len() > 0 {
        lemma_count_positive(ms.drop_last(), id);
        lemma_count_positive_mod(ms.last(), id);
        assert(mods_exports_set(ms) == mods_exports_set(ms.drop_last()).union(
            exports_set(ms.last()),
        ));
    }
}

pub proof fn lemma_count_positive_mod(m: BurrMod, id: TypeId)
    ensures
        count_in_mod(m, id) > 0 <==> exports_set(m).contains(id),
    decreases m,
{
    lemma_count_positive(m.children@, id);
}

/// Replacing one node shifts a forest's count by the node's own change.
pub proof fn lemma_count_update(ms: Seq<BurrMod>, i: int, m2: BurrMod, id: TypeId)
    requires
        0 <= i < ms.len(),
    ensures
        count_in_mods(ms.update(i, m2), id) + count_in_mod(ms[i], id) == count_in_mods(ms, id)
            + count_in_mod(m2, id),
    decreases ms,
{
    let upd = ms.update(i, m2);
    if i == ms.len() - 1 {
        assert(upd.drop_last() =~= ms.drop_last());
        assert(upd.last() == m2);
        assert(ms.last() == ms[i]);
    } else {
        assert(upd.drop_last() =~= ms.drop_last().update(i, m2));
        assert(upd.last() == ms.last());
        assert(ms.drop_last()[i] == ms[i]);
        lemma_count_update(ms.drop_last(), i, m2, id);
    }
}

/// Appending a node adds the node's own count.
pub proof fn lemma_count_push(ms: Seq<BurrMod>, m2: BurrMod, id: TypeId)
    ensures
        count_in_mods(ms.push(m2), id) == count_in_mods(ms, id) + count_in_mod(m2, id),
{
    assert(ms.push(m2).drop_last() =~= ms);
    assert(ms.push(m2).last() == m2);
}

/// A layout-keeping step keeps every count.
pub proof fn lemma_keeps_count(pre: BurrMod, post: BurrMod, id: TypeId)
    requires
        keeps_layout(pre, post),
    ensures
        count_in_mod(post, id) == count_in_mod(pre, id),
    decreases pre,
{
    lemma_keeps_counts(pre.children@, post.children@, id);
}

pub proof fn lemma_keeps_counts(pre: Seq<BurrMod>, post: Seq<BurrMod>, id: TypeId)
    requires
        pre.len() == post.len(),
        forall|i: int| 0 <= i < pre.len() ==> keeps_layout(#[trigger] pre[i], post[i]),
    ensures
        count_in_mods(post, id) == count_in_mods(pre, id),
    decreases pre,
{
    if pre.len() > 0 {
        assert forall|i: int|
            0 <= i < pre.drop_last().len() implies keeps_layout(
            #[trigger] pre.drop_last()[i],
            post.drop_last()[i],
        ) by {
            assert(pre.drop_last()[i] == pre[i]);
            assert(post.drop_last()[i] == post[i]);
        }
        lemma_keeps_counts(pre.drop_last(), post.drop_last(), id);
        assert(keeps_layout(pre[pre.len() - 1], post[pre.len() - 1]));
        lemma_keeps_count(pre.last(), post.last(), id);
    }
}

/// Well-formed path segments: at least one, none holding a separator.
pub open spec fn segs_wf(segs: Seq<Seq<char>>) -> bool {
    &&& segs.len() >= 1
    &&& forall|a: int, b: int|
        0 <= a < segs.len() && 0 <= b < segs[a].len() ==> (#[trigger] segs[a][b]) != '/'
}

/// The module path an implicitly resolved identity is destined for: its
/// registered item's own hint when it declares one, else the caller's
/// default path.
pub open spec fn hint_path_of(reg: Registry, id: TypeId, default: Seq<char>) -> Seq<char> {
    match table_get(reg.entries@, id)->Some_0.spec_module_hint() {
        Option::Some(h) => h,
        Option::None => default,
    }
}

/// A module tree is closed when every identity that any field references
/// and that the registry knows is exported somewhere in the tree.
pub open spec fn is_closed(ms: Seq<BurrMod>, reg: Registry) -> bool {
    forall|id: TypeId|
        #[trigger] mods_imports_set(ms).contains(id) && reg.spec_contains(id)
            ==> mods_exports_set(ms).contains(id)
}

/// Builds and exports a collection of modules describing an API: the
/// known types, the declared module trees, and the output root that a
/// writer combines with each file's target path.
#[derive(Debug)]
pub struct Burrxporter {
    pub mods: Vec<BurrMod>,
    pub root: Option<String>,
    pub type_registry: Registry,
}

impl Burrxporter {
    /// The registry is well-formed and so is every declared tree.
    pub open spec fn wf(self) -> bool {
        &&& self.type_registry.wf()
        &&& forall|j: int| 0 <= j < self.mods@.len() ==> (#[trigger] self.mods@[j]).wf()
    }

    pub fn new() -> (r: Burrxporter)
        ensures
            r.mods@ =~= Seq::<BurrMod>::empty(),
            r.root is None,
            r.type_registry.entries@ =~= Seq::<(TypeId, IrItem)>::empty(),
            r.wf(),
    {
        Burrxporter { mods: Vec::new(), root: None, type_registry: Registry::new() }
    }

    /// Makes one described type known to the run; the registry is
    /// populated once, before resolution, and read-only afterwards.
    pub fn register(&mut self, item: IrItem)
        ensures
            final(self).type_registry.entries@ == crate::registry::table_insert(
                old(self).type_registry.entries@,
                item.spec_type_id(),
                item,
            ),
            final(self).mods == old(self).mods,
            final(self).root == old(self).root,
            old(self).wf() ==> final(self).wf(),
    {
        self.type_registry.insert(item);
    }

    /// Attaches one declared module tree.
    pub fn with_mod(self, m: BurrMod) -> (r: Burrxporter)
        ensures
            r.mods@ == self.mods@.push(m),
            r.root == self.root,
            r.type_registry == self.type_registry,
            self.wf() && m.wf() ==> r.wf(),
            (forall|j: int| 0 <= j < self.mods@.len() ==> autos_sorted(#[trigger] self.mods@[j]))
                && autos_sorted(m) ==> forall|j: int|
                0 <= j < r.mods@.len() ==> autos_sorted(#[trigger] r.mods@[j]),
    {
        let mut e = self;
        e.mods.push(m);
        proof {
            if self.wf() && m.wf() {
                assert forall|j: int| 0 <= j < e.mods@.len() implies (#[trigger] e.mods@[j]).wf()
                by {
                    if j < self.mods@.len() {
                        assert(e.mods@[j] == self.mods@[j]);
                    }
                }
            }
            if (forall|j: int|
                0 <= j < self.mods@.len() ==> autos_sorted(#[trigger] self.mods@[j]))
                && autos_sorted(m) {
                assert forall|j: int|
                    0 <= j < e.mods@.len() implies autos_sorted(#[trigger] e.mods@[j]) by {
                    if j < self.mods@.len() {
                        assert(e.mods@[j] == self.mods@[j]);
                    }
                }
            }
        }
        e
    }

    /// Sets the root path that the writer prefixes every output file
    /// with.
    pub fn with_root(self, to: String) -> (r: Burrxporter)
        ensures
            r.root == Option::Some(to),
            r.mods == self.mods,
            r.type_registry == self.type_registry,
            self.wf() ==> r.wf(),
    {
        Burrxporter { root: Some(to), ..self }
    }
}


/// The loop step that remains: one while the passes still run.
pub open spec fn go_measure(b: bool) -> nat {
    if b {
        1nat
    } else {
        0nat
    }
}

impl Burrxporter {
    /// One resolution pass. Every identity that some field references,
    /// that the registry knows, and that no module exports yet is
    /// appended to the module its hint (or the caller's default path)
    /// names; afterwards every automatic export list is re-sorted by
    /// display name. Returns whether anything was added.
    fn resolve_pass(&mut self, default: &str) -> (changed: bool)
        requires
            old(self).wf(),
            forall|j: int|
                0 <= j < old(self).mods@.len() ==> autos_sorted(#[trigger] old(self).mods@[j]),
        ensures
            final(self).wf(),
            final(self).type_registry == old(self).type_registry,
            final(self).root == old(self).root,
            forall|x: TypeId|
                mods_exports_set(old(self).mods@).contains(x) ==> #[trigger] mods_exports_set(
                    final(self).mods@,
                ).contains(x),
            forall|x: TypeId|
                mods_imports_set(old(self).mods@).contains(x) ==> #[trigger] mods_imports_set(
                    final(self).mods@,
                ).contains(x),
            forall|x: TypeId|
                #[trigger] mods_exports_set(final(self).mods@).contains(x)
                    && !mods_exports_set(old(self).mods@).contains(x) ==> old(
                    self,
                ).type_registry.spec_contains(x) && mods_imports_set(old(self).mods@).contains(
                    x,
                ),
            forall|j: int|
                0 <= j < final(self).mods@.len() ==> autos_sorted(#[trigger] final(self).mods@[j]),
            forall|p2: Seq<Seq<char>>, id2: TypeId|
                path_holds_id(old(self).mods@, p2, id2) ==> #[trigger] path_holds_id(
                    final(self).mods@,
                    p2,
                    id2,
                ),
            extends_forest(old(self).mods@, final(self).mods@),
            exports_unique(old(self).mods@) ==> exports_unique(final(self).mods@),
            forall|x: TypeId|
                #[trigger] mods_exports_set(final(self).mods@).contains(x)
                    && !mods_exports_set(old(self).mods@).contains(x) ==> exists|
                    segs: Seq<Seq<char>>,
                |
                    segs_wf(segs) && crate::path::slash_join(segs) == hint_path_of(
                        old(self).type_registry,
                        x,
                        default@,
                    ) && #[trigger] path_holds_id(final(self).mods@, segs, x),
            !changed ==> *final(self) == *old(self) && is_closed(
                old(self).mods@,
                old(self).type_registry,
            ),
            changed ==> exists|id: TypeId|
                {
                    &&& old(self).type_registry.spec_contains(id)
                    &&& #[trigger] mods_exports_set(final(self).mods@).contains(id)
                    &&& !mods_exports_set(old(self).mods@).contains(id)
                    &&& mods_imports_set(old(self).mods@).contains(id)
                },
    {
        // gather what the trees export and what their fields reference
        let mut exporting: Vec<TypeId> = Vec::new();
        let mn = self.mods.len();
        let mut j: usize = 0;
        while j < mn
            invariant
                0 <= j <= mn,
                *self == *old(self),
                mn == self.mods@.len(),
                forall|x: TypeId|
                    exporting@.contains(x) <==> mods_exports_set(
                        self.mods@.subrange(0, j as int),
                    ).contains(x),
            decreases mn - j,
        {
            let mut v = self.mods[j].pull_exports();
            let ghost v0 = v@;
            let ghost e0 = exporting@;
            exporting.append(&mut v);
            proof {
                let sub1 = self.mods@.subrange(0, j + 1 as int);
                assert(sub1.drop_last() =~= self.mods@.subrange(0, j as int));
                assert(sub1.last() == self.mods@[j as int]);
                assert forall|x: TypeId|
                    exporting@.contains(x) <==> mods_exports_set(sub1).contains(x) by {
                    vstd::seq_lib::lemma_seq_concat_contains_all_elements(e0, v0, x);
                }
            }
            j = j + 1;
        }
        let mut importing: Vec<TypeId> = Vec::new();
        let mut j2: usize = 0;
        while j2 < mn
            invariant
                0 <= j2 <= mn,
                *self == *old(self),
                mn == self.mods@.len(),
                forall|x: TypeId|
                    importing@.contains(x) <==> mods_imports_set(
                        self.mods@.subrange(0, j2 as int),
                    ).contains(x),
            decreases mn - j2,
        {
            let mut v = self.mods[j2].pull_fields();
            let ghost v0 = v@;
            let ghost e0 = importing@;
            importing.append(&mut v);
            proof {
                let sub1 = self.mods@.subrange(0, j2 + 1 as int);
                assert(sub1.drop_last() =~= self.mods@.subrange(0, j2 as int));
                assert(sub1.last() == self.mods@[j2 as int]);
                assert forall|x: TypeId|
                    importing@.contains(x) <==> mods_imports_set(sub1).contains(x) by {
                    vstd::seq_lib::lemma_seq_concat_contains_all_elements(e0, v0, x);
                }
            }
            j2 = j2 + 1;
        }
        proof {
            assert(self.mods@.subrange(0, mn as int) =~= self.mods@);
        }
        // the missing set: referenced, known, not yet exported
        let mut missing_ids: Vec<TypeId> = Vec::new();
        let mut missing_items: Vec<IrItem> = Vec::new();
        let mut missing_paths: Vec<String> = Vec::new();
        let inum = importing.len();
        let mut w: usize = 0;
        while w < inum
            invariant
                0 <= w <= inum,
                *self == *old(self),
                inum == importing@.len(),
                forall|x: TypeId|
                    exporting@.contains(x) <==> mods_exports_set(self.mods@).contains(x),
                forall|x: TypeId|
                    importing@.contains(x) <==> mods_imports_set(self.mods@).contains(x),
                self.wf(),
                missing_items@.len() == missing_ids@.len(),
                missing_paths@.len() == missing_ids@.len(),
                forall|v: int|
                    0 <= v < missing_ids@.len() ==> old(self).type_registry.spec_contains(
                        #[trigger] missing_ids@[v],
                    ),
                forall|v: int|
                    0 <= v < missing_ids@.len() ==> !mods_exports_set(old(self).mods@).contains(
                        #[trigger] missing_ids@[v],
                    ),
                forall|v: int|
                    0 <= v < missing_ids@.len() ==> mods_imports_set(old(self).mods@).contains(
                        #[trigger] missing_ids@[v],
                    ),
                forall|v1: int, v2: int|
                    0 <= v1 < v2 < missing_ids@.len() ==> #[trigger] missing_ids@[v1]
                        != #[trigger] missing_ids@[v2],
                forall|v: int|
                    0 <= v < missing_ids@.len() ==> (#[trigger] missing_items@[v]).spec_type_id()
                        == missing_ids@[v],
                forall|v: int|
                    0 <= v < missing_ids@.len() ==> (#[trigger] missing_paths@[v])@
                        == hint_path_of(old(self).type_registry, missing_ids@[v], default@),
                forall|i2: int|
                    0 <= i2 < w ==> (exporting@.contains(#[trigger] importing@[i2])
                        || !old(self).type_registry.spec_contains(importing@[i2])
                        || missing_ids@.contains(importing@[i2])),
            decreases inum - w,
        {
            let id = importing[w];
            if !contains_id(&exporting, id) && !contains_id(&missing_ids, id) {
                match self.type_registry.get(id) {
                    Some(it) => {
                        let d = dup_item(it);
                        proof {
                            lemma_table_get_wf(self.type_registry.entries@, id);
                            lemma_model_determines_ids(
                                d,
                                self.type_registry.spec_get(id)->Some_0,
                            );
                        }
                        let p: String = match it.module_hint() {
                            Some(hint) => hint.clone(),
                            None => default.to_owned(),
                        };
                        proof {
                            assert(p@ == hint_path_of(self.type_registry, id, default@));
                        }
                        let ghost ids0 = missing_ids@;
                        missing_ids.push(id);
                        missing_items.push(d);
                        missing_paths.push(p);
                        proof {
                            assert(missing_ids@.last() == id);
                            assert(missing_ids@.contains(id));
                            assert(importing@[w as int] == id);
                            assert(importing@.contains(id));
                            assert(mods_imports_set(self.mods@).contains(id));
                            assert forall|v1: int, v2: int|
                                0 <= v1 < v2 < missing_ids@.len() implies #[trigger] missing_ids@[v1]
                                != #[trigger] missing_ids@[v2] by {
                                if v2 == missing_ids@.len() - 1 {
                                    assert(missing_ids@[v1] == ids0[v1]);
                                    assert(ids0.contains(ids0[v1]));
                                }
                            }
                            assert forall|i2: int|
                                0 <= i2 < w && ids0.contains(#[trigger] importing@[i2])
                                implies missing_ids@.contains(importing@[i2]) by {
                                let v = choose|v: int|
                                    0 <= v < ids0.len() && #[trigger] ids0[v] == importing@[i2];
                                assert(missing_ids@[v] == importing@[i2]);
                            }
                        }
                    },
                    None => {},
                }
            }
            w = w + 1;
        }
        if missing_ids.len() == 0 {
            proof {
                assert forall|id: TypeId|
                    #[trigger] mods_imports_set(self.mods@).contains(id)
                        && self.type_registry.spec_contains(id) implies mods_exports_set(
                    self.mods@,
                ).contains(id) by {
                    assert(importing@.contains(id));
                    let i2 = choose|i2: int|
                        0 <= i2 < importing@.len() && importing@[i2] == id;
                    assert(exporting@.contains(id) || !old(self).type_registry.spec_contains(id)
                        || missing_ids@.contains(id));
                }
                assert(is_closed(self.mods@, self.type_registry));
                assert forall|i: int|
                    0 <= i < old(self).mods@.len() implies extends_mod(
                    #[trigger] old(self).mods@[i],
                    self.mods@[i],
                ) by {
                    lemma_extends_refl(old(self).mods@[i]);
                }
            }
            return false;
        }
        // append each missing type along its module path
        let ghost ids_all = missing_ids@;
        let ghost paths_all = missing_paths@;
        let ghost mods0 = self.mods@;
        proof {
            assert(mods0 == old(self).mods@);
            assert(forall|v: int|
                0 <= v < paths_all.len() ==> (#[trigger] paths_all[v])@ == hint_path_of(
                    old(self).type_registry,
                    ids_all[v],
                    default@,
                ));
            assert(forall|v: int|
                0 <= v < ids_all.len() ==> old(self).type_registry.spec_contains(
                    #[trigger] ids_all[v],
                ));
            assert(forall|v: int|
                0 <= v < ids_all.len() ==> !mods_exports_set(old(self).mods@).contains(
                    #[trigger] ids_all[v],
                ));
            assert(forall|v: int|
                0 <= v < ids_all.len() ==> mods_imports_set(old(self).mods@).contains(
                    #[trigger] ids_all[v],
                ));
            assert forall|i: int|
                0 <= i < mods0.len() implies extends_mod(#[trigger] mods0[i], mods0[i]) by {
                lemma_extends_refl(mods0[i]);
            }
            assert(extends_forest(mods0, self.mods@));
            assert(forall|id2: TypeId|
                !(#[trigger] ids_all.subrange(0, 0).contains(id2)));
        }
        let ghost mut placed: int = 0;
        let ghost mut placed_segs: Seq<Seq<Seq<char>>> = Seq::empty();
        while missing_ids.len() > 0
            invariant
                paths_all.len() == ids_all.len(),
                forall|v: int|
                    0 <= v < paths_all.len() ==> (#[trigger] paths_all[v])@ == hint_path_of(
                        old(self).type_registry,
                        ids_all[v],
                        default@,
                    ),
                forall|v: int|
                    0 <= v < missing_paths@.len() ==> (#[trigger] missing_paths@[v])@
                        == paths_all[placed + v]@,
                placed_segs.len() == placed,
                forall|v: int| 0 <= v < placed ==> segs_wf(#[trigger] placed_segs[v]),
                forall|v: int|
                    0 <= v < placed ==> crate::path::slash_join(#[trigger] placed_segs[v])
                        == paths_all[v]@,
                forall|v: int|
                    0 <= v < placed ==> path_holds_id(
                        self.mods@,
                        #[trigger] placed_segs[v],
                        ids_all[v],
                    ),
                forall|p2: Seq<Seq<char>>, id2: TypeId|
                    path_holds_id(mods0, p2, id2) ==> #[trigger] path_holds_id(
                        self.mods@,
                        p2,
                        id2,
                    ),
                extends_forest(mods0, self.mods@),
                forall|id2: TypeId|
                    #[trigger] count_in_mods(self.mods@, id2) == count_in_mods(mods0, id2) + (
                    if ids_all.subrange(0, placed).contains(id2) {
                        1nat
                    } else {
                        0nat
                    }),
                forall|v: int|
                    0 <= v < ids_all.len() ==> old(self).type_registry.spec_contains(
                        #[trigger] ids_all[v],
                    ),
                forall|v: int|
                    0 <= v < ids_all.len() ==> !mods_exports_set(old(self).mods@).contains(
                        #[trigger] ids_all[v],
                    ),
                forall|v: int|
                    0 <= v < ids_all.len() ==> mods_imports_set(old(self).mods@).contains(
                        #[trigger] ids_all[v],
                    ),
                mods0 == old(self).mods@,
                forall|x: TypeId|
                    mods_imports_set(mods0).contains(x) ==> #[trigger] mods_imports_set(
                        self.mods@,
                    ).contains(x),
                0 <= placed <= ids_all.len(),
                missing_ids@ =~= ids_all.skip(placed),
                missing_items@.len() == missing_ids@.len(),
                missing_paths@.len() == missing_ids@.len(),
                self.type_registry == old(self).type_registry,
                self.root == old(self).root,
                forall|j3: int| 0 <= j3 < self.mods@.len() ==> (#[trigger] self.mods@[j3]).wf(),
                forall|x: TypeId|
                    #[trigger] mods_exports_set(self.mods@).contains(x) <==> (mods_exports_set(
                        mods0,
                    ).contains(x) || ids_all.subrange(0, placed).contains(x)),
                forall|v: int|
                    0 <= v < missing_ids@.len() ==> !mods_exports_set(mods0).contains(
                        #[trigger] missing_ids@[v],
                    ),
                forall|v: int|
                    0 <= v < missing_ids@.len() ==> (#[trigger] missing_items@[v]).spec_type_id()
                        == missing_ids@[v],
                forall|v1: int, v2: int|
                    0 <= v1 < v2 < ids_all.len() ==> #[trigger] ids_all[v1] != #[trigger] ids_all[v2],
                forall|v: int|
                    0 <= v < missing_ids@.len() ==> #[trigger] missing_ids@[v] == ids_all[placed
                        + v],
            decreases missing_ids@.len(),
        {
            let id = missing_ids.remove(0);
            let item = missing_items.remove(0);
            let pstr = missing_paths.remove(0);
            proof {
                assert(id == ids_all[placed]);
                assert(!ids_all.subrange(0, placed).contains(id)) by {
                    if ids_all.subrange(0, placed).contains(id) {
                        let v = choose|v: int|
                            0 <= v < placed && #[trigger] ids_all.subrange(0, placed)[v] == id;
                        assert(ids_all[v] == id);
                    }
                }
                assert(!mods_exports_set(self.mods@).contains(id));
            }
            proof {
                assert(pstr@ == paths_all[placed]@);
            }
            let ghost mods_pre = self.mods@;
            let segs = split_path(pstr.as_str());
            add_at(&mut self.mods, &segs, 0, id, item);
            proof {
                assert forall|id2: TypeId|
                    #[trigger] count_in_mods(self.mods@, id2) == count_in_mods(mods0, id2) + (
                    if ids_all.subrange(0, placed + 1).contains(id2) {
                        1nat
                    } else {
                        0nat
                    }) by {
                    assert(count_in_mods(self.mods@, id2) == count_in_mods(mods_pre, id2) + (
                    if id2 == id {
                        1nat
                    } else {
                        0nat
                    }));
                    assert(ids_all.subrange(0, placed + 1).drop_last() =~= ids_all.subrange(
                        0,
                        placed,
                    ));
                    if id2 == id {
                        assert(ids_all.subrange(0, placed + 1)[placed] == id);
                        assert(ids_all.subrange(0, placed + 1).contains(id));
                        assert(!ids_all.subrange(0, placed).contains(id));
                    } else {
                        if ids_all.subrange(0, placed + 1).contains(id2) {
                            let v = choose|v: int|
                                0 <= v < placed + 1 && #[trigger] ids_all.subrange(
                                    0,
                                    placed + 1,
                                )[v] == id2;
                            assert(v < placed);
                            assert(ids_all.subrange(0, placed)[v] == id2);
                        }
                        if ids_all.subrange(0, placed).contains(id2) {
                            let v = choose|v: int|
                                0 <= v < placed && #[trigger] ids_all.subrange(0, placed)[v]
                                    == id2;
                            assert(ids_all.subrange(0, placed + 1)[v] == id2);
                        }
                    }
                }
                assert forall|i: int|
                    0 <= i < mods0.len() implies extends_mod(
                    #[trigger] mods0[i],
                    self.mods@[i],
                ) by {
                    lemma_extends_trans(mods0[i], mods_pre[i], self.mods@[i]);
                }
                // record where this identity was placed
                assert(deep(segs@).skip(0) =~= deep(segs@));
                assert(segs_wf(deep(segs@)));
                assert(path_holds_id(self.mods@, deep(segs@), id));
                assert forall|v: int|
                    0 <= v < placed implies path_holds_id(
                    self.mods@,
                    #[trigger] placed_segs[v],
                    ids_all[v],
                ) by {
                    assert(path_holds_id(mods_pre, placed_segs[v], ids_all[v]));
                }
                placed_segs = placed_segs.push(deep(segs@));
                assert forall|x: TypeId|
                    #[trigger] mods_exports_set(self.mods@).contains(x) <==> (mods_exports_set(
                        mods0,
                    ).contains(x) || ids_all.subrange(0, placed + 1).contains(x)) by {
                    assert(ids_all.subrange(0, placed + 1).drop_last() =~= ids_all.subrange(
                        0,
                        placed,
                    ));
                    if x == id {
                        assert(ids_all.subrange(0, placed + 1)[placed] == id);
                        assert(ids_all.subrange(0, placed + 1).contains(id));
                    }
                    if ids_all.subrange(0, placed + 1).contains(x) && x != id {
                        let v = choose|v: int|
                            0 <= v < placed + 1 && #[trigger] ids_all.subrange(
                                0,
                                placed + 1,
                            )[v] == x;
                        assert(v < placed);
                        assert(ids_all.subrange(0, placed)[v] == x);
                    }
                    if ids_all.subrange(0, placed).contains(x) {
                        let v = choose|v: int|
                            0 <= v < placed && #[trigger] ids_all.subrange(0, placed)[v] == x;
                        assert(ids_all.subrange(0, placed + 1)[v] == x);
                    }
                }
                placed = placed + 1;
            }
        }
        proof {
            assert(placed == ids_all.len());
            assert(ids_all.subrange(0, placed) =~= ids_all);
        }
        // keep every automatic export list in display-name order
        let ghost ms1 = self.mods@;
        proof {
            assert(forall|x: TypeId|
                #[trigger] mods_exports_set(ms1).contains(x) <==> (mods_exports_set(
                    mods0,
                ).contains(x) || ids_all.contains(x)));
            assert(forall|x: TypeId|
                mods_imports_set(mods0).contains(x) ==> #[trigger] mods_imports_set(
                    ms1,
                ).contains(x));
            assert(forall|v: int|
                0 <= v < placed ==> path_holds_id(ms1, #[trigger] placed_segs[v], ids_all[v]));
            assert(forall|p2: Seq<Seq<char>>, id2: TypeId|
                path_holds_id(mods0, p2, id2) ==> #[trigger] path_holds_id(ms1, p2, id2));
            assert(extends_forest(mods0, ms1));
            assert(forall|id2: TypeId|
                #[trigger] count_in_mods(ms1, id2) == count_in_mods(mods0, id2) + (
                if ids_all.contains(id2) {
                    1nat
                } else {
                    0nat
                }));
        }
        let mut rest: Vec<BurrMod> = Vec::new();
        core_swap_mods(&mut self.mods, &mut rest);
        let ghost mut rebuilt: int = 0;
        while rest.len() > 0
            invariant
                rest@ =~= ms1.skip(rebuilt),
                0 <= rebuilt <= ms1.len(),
                rebuilt == self.mods@.len(),
                self.type_registry == old(self).type_registry,
                self.root == old(self).root,
                forall|j3: int| 0 <= j3 < ms1.len() ==> (#[trigger] ms1[j3]).wf(),
                forall|j3: int| 0 <= j3 < rebuilt ==> (#[trigger] self.mods@[j3]).wf(),
                forall|j3: int| 0 <= j3 < rebuilt ==> autos_sorted(#[trigger] self.mods@[j3]),
                forall|j3: int|
                    0 <= j3 < rebuilt ==> keeps_layout(#[trigger] ms1[j3], self.mods@[j3]),
                forall|j3: int, x: TypeId|
                    0 <= j3 < rebuilt ==> (#[trigger] exports_set(self.mods@[j3]).contains(x)
                        <==> exports_set(ms1[j3]).contains(x)),
                forall|j3: int, x: TypeId|
                    0 <= j3 < rebuilt ==> (#[trigger] imports_set(self.mods@[j3]).contains(x)
                        <==> imports_set(ms1[j3]).contains(x)),
            decreases rest@.len(),
        {
            let c = rest.remove(0);
            proof {
                assert(c == ms1[rebuilt]);
                assert(rest@ =~= ms1.skip(rebuilt + 1));
            }
            let c2 = sort_autos_tree(c);
            self.mods.push(c2);
            proof {
                rebuilt = rebuilt + 1;
            }
        }
        proof {
            assert(ms1.skip(rebuilt).len() == 0);
            assert(rebuilt == ms1.len());
            lemma_mods_elementwise(self.mods@, ms1);
            let witness = ids_all[0];
            assert(old(self).type_registry.spec_contains(witness));
            assert(mods_exports_set(ms1).contains(witness));
            assert(mods_exports_set(self.mods@).contains(witness));
            assert(!mods_exports_set(mods0).contains(witness));
            assert(mods_imports_set(mods0).contains(witness));
            assert forall|x: TypeId|
                mods_exports_set(mods0).contains(x) implies #[trigger] mods_exports_set(
                self.mods@,
            ).contains(x) by {
                assert(mods_exports_set(ms1).contains(x));
            }
            // every identity this pass added is registered and was already
            // referenced, and references only grow
            assert forall|x: TypeId|
                #[trigger] mods_exports_set(self.mods@).contains(x) && !mods_exports_set(
                    old(self).mods@,
                ).contains(x) implies old(self).type_registry.spec_contains(x)
                && mods_imports_set(old(self).mods@).contains(x) by {
                assert(mods_exports_set(ms1).contains(x));
                assert(ids_all.contains(x));
                let v = choose|v: int| 0 <= v < ids_all.len() && #[trigger] ids_all[v] == x;
            }
            assert forall|x: TypeId|
                mods_imports_set(old(self).mods@).contains(x) implies #[trigger] mods_imports_set(
                    self.mods@,
                ).contains(x) by {
                assert(mods_imports_set(ms1).contains(x));
            }
            // no identity becomes doubly exported
            if exports_unique(old(self).mods@) {
                assert forall|id2: TypeId| #[trigger]
                    count_in_mods(self.mods@, id2) <= 1 by {
                    lemma_keeps_counts(ms1, self.mods@, id2);
                    assert(count_in_mods(ms1, id2) == count_in_mods(mods0, id2) + (
                    if ids_all.contains(id2) {
                        1nat
                    } else {
                        0nat
                    }));
                    if ids_all.contains(id2) {
                        let v = choose|v: int|
                            0 <= v < ids_all.len() && #[trigger] ids_all[v] == id2;
                        assert(!mods_exports_set(mods0).contains(id2));
                        lemma_count_positive(mods0, id2);
                        assert(count_in_mods(mods0, id2) == 0);
                    } else {
                        assert(count_in_mods(mods0, id2) <= 1);
                    }
                }
                assert(exports_unique(self.mods@));
            }
            // the tree only grew across the whole pass
            assert forall|i: int|
                0 <= i < old(self).mods@.len() implies extends_mod(
                #[trigger] old(self).mods@[i],
                self.mods@[i],
            ) by {
                assert(extends_mod(mods0[i], ms1[i]));
                assert(keeps_layout(ms1[i], self.mods@[i]));
                lemma_keeps_extends(ms1[i], self.mods@[i]);
                lemma_extends_trans(mods0[i], ms1[i], self.mods@[i]);
            }
            assert(extends_forest(old(self).mods@, self.mods@));
            // placements survive the re-sort, and earlier placements
            // survive the pass
            assert forall|p2: Seq<Seq<char>>, id2: TypeId|
                path_holds_id(old(self).mods@, p2, id2) implies #[trigger] path_holds_id(
                self.mods@,
                p2,
                id2,
            ) by {
                assert(path_holds_id(ms1, p2, id2));
                lemma_layout_path_holds(ms1, self.mods@, p2, id2);
            }
            assert forall|x: TypeId|
                #[trigger] mods_exports_set(self.mods@).contains(x) && !mods_exports_set(
                    old(self).mods@,
                ).contains(x) implies exists|segs: Seq<Seq<char>>|
                segs_wf(segs) && crate::path::slash_join(segs) == hint_path_of(
                    old(self).type_registry,
                    x,
                    default@,
                ) && #[trigger] path_holds_id(self.mods@, segs, x) by {
                assert(mods_exports_set(ms1).contains(x));
                assert(ids_all.contains(x));
                let v = choose|v: int| 0 <= v < ids_all.len() && #[trigger] ids_all[v] == x;
                assert(path_holds_id(ms1, placed_segs[v], x));
                lemma_layout_path_holds(ms1, self.mods@, placed_segs[v], x);
                assert(segs_wf(placed_segs[v]) && crate::path::slash_join(placed_segs[v])
                    == hint_path_of(old(self).type_registry, x, default@) && path_holds_id(
                    self.mods@,
                    placed_segs[v],
                    x,
                ));
            }
        }
        true
    }

    /// Resolves all modules for export: repeats passes until a full pass
    /// adds nothing, so that the trees are closed. On trees that are
    /// already closed a single pass runs and changes nothing.
    pub fn resolve_exports(&mut self, default: &str)
        requires
            old(self).wf(),
            forall|j: int|
                0 <= j < old(self).mods@.len() ==> autos_sorted(#[trigger] old(self).mods@[j]),
        ensures
            final(self).wf(),
            is_closed(final(self).mods@, final(self).type_registry),
            final(self).type_registry == old(self).type_registry,
            final(self).root == old(self).root,
            forall|x: TypeId|
                mods_exports_set(old(self).mods@).contains(x) ==> #[trigger] mods_exports_set(
                    final(self).mods@,
                ).contains(x),
            forall|x: TypeId|
                mods_imports_set(old(self).mods@).contains(x) ==> #[trigger] mods_imports_set(
                    final(self).mods@,
                ).contains(x),
            forall|x: TypeId|
                #[trigger] mods_exports_set(final(self).mods@).contains(x)
                    && !mods_exports_set(old(self).mods@).contains(x) ==> old(
                    self,
                ).type_registry.spec_contains(x) && mods_imports_set(final(self).mods@).contains(
                    x,
                ),
            forall|x: TypeId|
                #[trigger] mods_exports_set(final(self).mods@).contains(x)
                    && !mods_exports_set(old(self).mods@).contains(x) ==> exists|
                    segs: Seq<Seq<char>>,
                |
                    segs_wf(segs) && crate::path::slash_join(segs) == hint_path_of(
                        old(self).type_registry,
                        x,
                        default@,
                    ) && #[trigger] path_holds_id(final(self).mods@, segs, x),
            extends_forest(old(self).mods@, final(self).mods@),
            exports_unique(old(self).mods@) ==> exports_unique(final(self).mods@),
            forall|j: int|
                0 <= j < final(self).mods@.len() ==> autos_sorted(#[trigger] final(self).mods@[j]),
            is_closed(old(self).mods@, old(self).type_registry) ==> *final(self) == *old(self),
    {
        let mut go = true;
        proof {
            assert forall|i: int|
                0 <= i < old(self).mods@.len() implies extends_mod(
                #[trigger] old(self).mods@[i],
                self.mods@[i],
            ) by {
                lemma_extends_refl(old(self).mods@[i]);
            }
        }
        while go
            invariant
                self.wf(),
                extends_forest(old(self).mods@, self.mods@),
                exports_unique(old(self).mods@) ==> exports_unique(self.mods@),
                self.type_registry == old(self).type_registry,
                self.root == old(self).root,
                forall|x: TypeId|
                    mods_exports_set(old(self).mods@).contains(x) ==> #[trigger] mods_exports_set(
                        self.mods@,
                    ).contains(x),
                forall|x: TypeId|
                    mods_imports_set(old(self).mods@).contains(x) ==> #[trigger] mods_imports_set(
                        self.mods@,
                    ).contains(x),
                forall|x: TypeId|
                    #[trigger] mods_exports_set(self.mods@).contains(x) && !mods_exports_set(
                        old(self).mods@,
                    ).contains(x) ==> old(self).type_registry.spec_contains(x)
                        && mods_imports_set(self.mods@).contains(x),
                forall|x: TypeId|
                    #[trigger] mods_exports_set(self.mods@).contains(x) && !mods_exports_set(
                        old(self).mods@,
                    ).contains(x) ==> exists|segs: Seq<Seq<char>>|
                        segs_wf(segs) && crate::path::slash_join(segs) == hint_path_of(
                            old(self).type_registry,
                            x,
                            default@,
                        ) && #[trigger] path_holds_id(self.mods@, segs, x),
                forall|j: int|
                    0 <= j < self.mods@.len() ==> autos_sorted(#[trigger] self.mods@[j]),
                !go ==> is_closed(self.mods@, self.type_registry),
                is_closed(old(self).mods@, old(self).type_registry) ==> *self == *old(self),
            decreases count_unexported(self.type_registry.entries@, self.mods@), go_measure(go),
        {
            let ghost pre = *self;
            go = self.resolve_pass(default);
            proof {
                // identities added by the pass stay registered and
                // referenced as the tree grows
                assert forall|x: TypeId|
                    #[trigger] mods_exports_set(self.mods@).contains(x) && !mods_exports_set(
                        old(self).mods@,
                    ).contains(x) implies old(self).type_registry.spec_contains(x)
                    && mods_imports_set(self.mods@).contains(x) by {
                    if mods_exports_set(pre.mods@).contains(x) {
                        assert(mods_imports_set(pre.mods@).contains(x));
                    } else {
                        assert(mods_imports_set(pre.mods@).contains(x));
                    }
                }
                // the forest keeps growing in place
                assert forall|i: int|
                    0 <= i < old(self).mods@.len() implies extends_mod(
                    #[trigger] old(self).mods@[i],
                    self.mods@[i],
                ) by {
                    lemma_extends_trans(old(self).mods@[i], pre.mods@[i], self.mods@[i]);
                }
                // and each keeps sitting along its hint-or-default path
                assert forall|x: TypeId|
                    #[trigger] mods_exports_set(self.mods@).contains(x) && !mods_exports_set(
                        old(self).mods@,
                    ).contains(x) implies exists|segs: Seq<Seq<char>>|
                    segs_wf(segs) && crate::path::slash_join(segs) == hint_path_of(
                        old(self).type_registry,
                        x,
                        default@,
                    ) && #[trigger] path_holds_id(self.mods@, segs, x) by {
                    if mods_exports_set(pre.mods@).contains(x) {
                        let segs = choose|segs: Seq<Seq<char>>|
                            segs_wf(segs) && crate::path::slash_join(segs) == hint_path_of(
                                old(self).type_registry,
                                x,
                                default@,
                            ) && #[trigger] path_holds_id(pre.mods@, segs, x);
                        assert(path_holds_id(self.mods@, segs, x));
                    } else {
                        let segs = choose|segs: Seq<Seq<char>>|
                            segs_wf(segs) && crate::path::slash_join(segs) == hint_path_of(
                                pre.type_registry,
                                x,
                                default@,
                            ) && #[trigger] path_holds_id(self.mods@, segs, x);
                        assert(pre.type_registry == old(self).type_registry);
                    }
                }
                if go {
                    let id = choose|id: TypeId|
                        {
                            &&& pre.type_registry.spec_contains(id)
                            &&& #[trigger] mods_exports_set(self.mods@).contains(id)
                            &&& !mods_exports_set(pre.mods@).contains(id)
                            &&& mods_imports_set(pre.mods@).contains(id)
                        };
                    let j = lemma_table_contains_index(pre.type_registry.entries@, id);
                    lemma_count_strict(
                        self.type_registry.entries@,
                        pre.mods@,
                        self.mods@,
                        id,
                        j,
                    );
                    if is_closed(old(self).mods@, old(self).type_registry) {
                        assert(pre == *old(self));
                        assert(false);
                    }
                }
            }
        }
    }
}

/// Exchanges two module lists.
fn core_swap_mods(a: &mut Vec<BurrMod>, b: &mut Vec<BurrMod>)
    ensures
        final(a)@ == old(b)@,
        final(b)@ == old(a)@,
{
    core::mem::swap(a, b);
}

} // verus!