//! The module tree: named nodes, each holding the types it explicitly
//! exports, the types the resolver pulled in for it, and its child
//! modules. Ownership is strict parent-to-child; nothing is shared.

use vstd::prelude::*;

use crate::ir::{item_field_ids, IrItem, TypeId};
use crate::registry::Registry;

verus! {

/// A collection of items to export: one node of the module tree.
#[derive(Debug)]
pub struct BurrMod {
    pub name: String,
    /// Identities added by the caller, in the order they were added.
    pub exports: Vec<TypeId>,
    /// Identities pulled in by the resolver, kept sorted by display name.
    pub auto_exports: Vec<TypeId>,
    /// The items behind every identity of `exports` and `auto_exports`.
    pub types: Registry,
    pub children: Vec<BurrMod>,
}

/// Every identity exported anywhere in the subtree rooted at `m`.
pub open spec fn exports_set(m: BurrMod) -> Set<TypeId>
    decreases m,
{
    m.exports@.to_set().union(m.auto_exports@.to_set()).union(mods_exports_set(m.children@))
}

/// Every identity exported anywhere under a forest of nodes.
pub open spec fn mods_exports_set(ms: Seq<BurrMod>) -> Set<TypeId>
    decreases ms,
{
    if ms.len() == 0 {
        Set::empty()
    } else {
        mods_exports_set(ms.drop_last()).union(exports_set(ms.last()))
    }
}

/// Every identity referenced by a field of any item in a table.
pub open spec fn entries_imports_set(es: Seq<(TypeId, IrItem)>) -> Set<TypeId>
    decreases es.len(),
{
    if es.len() == 0 {
        Set::empty()
    } else {
        entries_imports_set(es.drop_last()).union(item_field_ids(es.last().1).to_set())
    }
}

/// Every identity referenced by a field of any type in the subtree.
pub open spec fn imports_set(m: BurrMod) -> Set<TypeId>
    decreases m,
{
    entries_imports_set(m.types.entries@).union(mods_imports_set(m.children@))
}

/// Every identity referenced by a field of any type under a forest.
pub open spec fn mods_imports_set(ms: Seq<BurrMod>) -> Set<TypeId>
    decreases ms,
{
    if ms.len() == 0 {
        Set::empty()
    } else {
        mods_imports_set(ms.drop_last()).union(imports_set(ms.last()))
    }
}

impl BurrMod {
    /// Well-formedness of the subtree: no identity is listed twice in one
    /// node, the explicit and automatic lists are disjoint, and the node's
    /// table holds exactly the listed identities.
    pub open spec fn wf(self) -> bool
        decreases self,
    {
        &&& self.types.wf()
        &&& self.exports@.no_duplicates()
        &&& self.auto_exports@.no_duplicates()
        &&& forall|i: int|
            0 <= i < self.exports@.len() ==> !self.auto_exports@.contains(
                #[trigger] self.exports@[i],
            )
        &&& forall|id: TypeId|
            #[trigger] self.types.spec_contains(id) <==> (self.exports@.contains(id)
                || self.auto_exports@.contains(id))
        &&& forall|i: int| 0 <= i < self.children@.len() ==> (#[trigger] self.children@[i]).wf()
    }

    pub fn new(target: String) -> (r: BurrMod)
        ensures
            r.name == target,
            r.exports@ =~= Seq::<TypeId>::empty(),
            r.auto_exports@ =~= Seq::<TypeId>::empty(),
            r.types.entries@ =~= Seq::<(TypeId, IrItem)>::empty(),
            r.children@ =~= Seq::<BurrMod>::empty(),
            r.wf(),
            crate::exporter::autos_sorted(r),
    {
        BurrMod {
            name: target,
            exports: Vec::new(),
            auto_exports: Vec::new(),
            types: Registry::new(),
            children: Vec::new(),
        }
    }

    pub fn with_name(self, name: String) -> (r: BurrMod)
        ensures
            r.name == name,
            r.exports == self.exports,
            r.auto_exports == self.auto_exports,
            r.types == self.types,
            r.children == self.children,
    {
        BurrMod { name, ..self }
    }

    /// Adds one type to this module's explicit exports. An identity that
    /// is already present is left as it is.
    pub fn with_type(self, item: IrItem) -> (r: BurrMod)
        ensures
            self.types.spec_contains(item.spec_type_id()) ==> r == self,
            !self.types.spec_contains(item.spec_type_id()) ==> {
                &&& r.exports@ == self.exports@.push(item.spec_type_id())
                &&& r.types.entries@ == self.types.entries@.push((item.spec_type_id(), item))
                &&& r.auto_exports == self.auto_exports
                &&& r.children == self.children
                &&& r.name == self.name
            },
            self.wf() ==> r.wf(),
            self.wf() && crate::exporter::autos_sorted(self) ==> crate::exporter::autos_sorted(
                r,
            ),
    {
        let id = item.type_id();
        if self.types.contains(id) {
            return self;
        }
        let ghost itemg = item;
        let BurrMod { name, exports, auto_exports, types, children } = self;
        let mut types = types;
        types.insert(item);
        let mut exports = exports;
        exports.push(id);
        let m = BurrMod { name, exports, auto_exports, types, children };
        proof {
            if self.wf() {
                assert(!self.exports@.contains(id));
                assert(!self.auto_exports@.contains(id));
                assert(m.exports@.drop_last() =~= self.exports@);
                assert forall|i: int, j: int|
                    0 <= i < j < m.exports@.len() implies m.exports@[i] != m.exports@[j] by {
                    if j == m.exports@.len() - 1 {
                        assert(m.exports@[i] == self.exports@[i]);
                        assert(self.exports@.contains(self.exports@[i]));
                    }
                }
                assert(m.exports@.no_duplicates());
                assert forall|i: int|
                    0 <= i < m.exports@.len() implies !m.auto_exports@.contains(
                    #[trigger] m.exports@[i],
                ) by {
                    if i < self.exports@.len() {
                        assert(m.exports@[i] == self.exports@[i]);
                    }
                }
                assert forall|k: TypeId| #[trigger]
                    m.types.spec_contains(k) <==> (m.exports@.contains(k)
                        || m.auto_exports@.contains(k)) by {
                    crate::registry::lemma_get_push(self.types.entries@, id, itemg, k);
                    assert(self.types.spec_contains(k) == (self.exports@.contains(k)
                        || self.auto_exports@.contains(k)));
                    assert(m.exports@ == self.exports@.push(id));
                    if k == id {
                        assert(m.exports@[m.exports@.len() - 1] == id);
                        assert(m.exports@.contains(id));
                    } else {
                        assert(m.exports@.contains(k) == self.exports@.contains(k)) by {
                            if self.exports@.contains(k) {
                                let w = choose|w: int|
                                    0 <= w < self.exports@.len() && self.exports@[w] == k;
                                assert(m.exports@[w] == k);
                            }
                            if m.exports@.contains(k) {
                                let w = choose|w: int|
                                    0 <= w < m.exports@.len() && m.exports@[w] == k;
                                assert(w < self.exports@.len());
                                assert(self.exports@[w] == k);
                            }
                        }
                    }
                }
            }
            if self.wf() && crate::exporter::autos_sorted(self) {
                assert forall|i: int, j: int|
                    0 <= i < j < m.auto_exports@.len() implies crate::order::lex_le(
                    #[trigger] crate::exporter::auto_name(m, i),
                    #[trigger] crate::exporter::auto_name(m, j),
                    true,
                ) by {
                    assert(self.auto_exports@.contains(self.auto_exports@[i]));
                    assert(self.types.spec_contains(self.auto_exports@[i]));
                    assert(self.auto_exports@.contains(self.auto_exports@[j]));
                    assert(self.types.spec_contains(self.auto_exports@[j]));
                    crate::registry::lemma_get_push(
                        self.types.entries@,
                        id,
                        itemg,
                        self.auto_exports@[i],
                    );
                    crate::registry::lemma_get_push(
                        self.types.entries@,
                        id,
                        itemg,
                        self.auto_exports@[j],
                    );
                    assert(crate::exporter::auto_name(m, i) == crate::exporter::auto_name(
                        self,
                        i,
                    ));
                    assert(crate::exporter::auto_name(m, j) == crate::exporter::auto_name(
                        self,
                        j,
                    ));
                    assert(crate::order::lex_le(
                        crate::exporter::auto_name(self, i),
                        crate::exporter::auto_name(self, j),
                        true,
                    ));
                }
                assert forall|c: int|
                    0 <= c < m.children@.len() implies crate::exporter::autos_sorted(
                    #[trigger] m.children@[c],
                ) by {
                    assert(m.children@[c] == self.children@[c]);
                }
                assert(crate::exporter::autos_sorted(m));
            }
        }
        m
    }

    /// Attaches a child module.
    pub fn with_mod(self, child: BurrMod) -> (r: BurrMod)
        ensures
            r.children@ == self.children@.push(child),
            r.exports == self.exports,
            r.auto_exports == self.auto_exports,
            r.types == self.types,
            r.name == self.name,
            self.wf() && child.wf() ==> r.wf(),
            crate::exporter::autos_sorted(self) && crate::exporter::autos_sorted(child)
                ==> crate::exporter::autos_sorted(r),
    {
        let mut m = self;
        m.children.push(child);
        proof {
            if self.wf() && child.wf() {
                assert forall|i: int| 0 <= i < m.children@.len() implies (
                #[trigger] m.children@[i]).wf() by {
                    if i < self.children@.len() {
                        assert(m.children@[i] == self.children@[i]);
                    }
                }
            }
            if crate::exporter::autos_sorted(self) && crate::exporter::autos_sorted(child) {
                assert forall|i: int|
                    0 <= i < m.children@.len() implies crate::exporter::autos_sorted(
                    #[trigger] m.children@[i],
                ) by {
                    if i < self.children@.len() {
                        assert(m.children@[i] == self.children@[i]);
                    }
                }
                assert forall|i: int, j: int|
                    0 <= i < j < m.auto_exports@.len() implies crate::order::lex_le(
                    #[trigger] crate::exporter::auto_name(m, i),
                    #[trigger] crate::exporter::auto_name(m, j),
                    true,
                ) by {
                    assert(crate::exporter::auto_name(m, i) == crate::exporter::auto_name(
                        self,
                        i,
                    ));
                    assert(crate::exporter::auto_name(m, j) == crate::exporter::auto_name(
                        self,
                        j,
                    ));
                    assert(crate::order::lex_le(
                        crate::exporter::auto_name(self, i),
                        crate::exporter::auto_name(self, j),
                        true,
                    ));
                }
                crate::exporter::lemma_autos_sorted_parts(m);
            }
        }
        m
    }

    /// The flat set of everything this subtree exports, explicit and
    /// automatic, in traversal order.
    pub fn pull_exports(&self) -> (r: Vec<TypeId>)
        ensures
            forall|id: TypeId| r@.contains(id) <==> exports_set(*self).contains(id),
        decreases *self,
    {
        let mut out: Vec<TypeId> = Vec::new();
        let mut k: usize = 0;
        let en = self.exports.len();
        while k < en
            invariant
                0 <= k <= en,
                en == self.exports@.len(),
                out@ =~= self.exports@.subrange(0, k as int),
            decreases en - k,
        {
            out.push(self.exports[k]);
            proof {
                assert(out@ =~= self.exports@.subrange(0, k + 1 as int));
            }
            k = k + 1;
        }
        proof {
            assert(out@ =~= self.exports@);
        }
        let mut k2: usize = 0;
        let an = self.auto_exports.len();
        while k2 < an
            invariant
                0 <= k2 <= an,
                an == self.auto_exports@.len(),
                out@ =~= self.exports@ + self.auto_exports@.subrange(0, k2 as int),
            decreases an - k2,
        {
            out.push(self.auto_exports[k2]);
            proof {
                assert(out@ =~= self.exports@ + self.auto_exports@.subrange(0, k2 + 1 as int));
            }
            k2 = k2 + 1;
        }
        proof {
            assert(out@ =~= self.exports@ + self.auto_exports@);
            assert forall|id: TypeId|
                out@.contains(id) <==> (self.exports@.contains(id)
                    || self.auto_exports@.contains(id) || mods_exports_set(
                    self.children@.subrange(0, 0),
                ).contains(id)) by {
                vstd::seq_lib::lemma_seq_concat_contains_all_elements(
                    self.exports@,
                    self.auto_exports@,
                    id,
                );
            }
        }
        let cn = self.children.len();
        let mut i: usize = 0;
        while i < cn
            invariant
                0 <= i <= cn,
                cn == self.children@.len(),
                forall|id: TypeId|
                    out@.contains(id) <==> (self.exports@.contains(id)
                        || self.auto_exports@.contains(id) || mods_exports_set(
                        self.children@.subrange(0, i as int),
                    ).contains(id)),
            decreases cn - i,
        {
            proof {
                assert(decreases_to!(*self => self.children@[i as int]));
            }
            let mut cv = self.children[i].pull_exports();
            let ghost cv0 = cv@;
            let ghost out0 = out@;
            out.append(&mut cv);
            proof {
                let sub1 = self.children@.subrange(0, i + 1 as int);
                assert(sub1.drop_last() =~= self.children@.subrange(0, i as int));
                assert(sub1.last() == self.children@[i as int]);
                assert forall|id: TypeId|
                    out@.contains(id) <==> (self.exports@.contains(id)
                        || self.auto_exports@.contains(id) || mods_exports_set(sub1).contains(
                        id,
                    )) by {
                    vstd::seq_lib::lemma_seq_concat_contains_all_elements(out0, cv0, id);
                }
            }
            i = i + 1;
        }
        proof {
            assert(self.children@.subrange(0, cn as int) =~= self.children@);
        }
        out
    }

    /// The flat set of every identity used by a field of any type in this
    /// subtree, in traversal order.
    pub fn pull_fields(&self) -> (r: Vec<TypeId>)
        ensures
            forall|id: TypeId| r@.contains(id) <==> imports_set(*self).contains(id),
        decreases *self,
    {
        let mut out: Vec<TypeId> = Vec::new();
        let tn = self.types.entries.len();
        let mut t: usize = 0;
        proof {
            assert(entries_imports_set(self.types.entries@.subrange(0, 0)) =~= Set::<
                TypeId,
            >::empty());
        }
        while t < tn
            invariant
                0 <= t <= tn,
                tn == self.types.entries@.len(),
                forall|id: TypeId|
                    out@.contains(id) <==> entries_imports_set(
                        self.types.entries@.subrange(0, t as int),
                    ).contains(id),
            decreases tn - t,
        {
            let mut fv = self.types.entries[t].1.all_field_types();
            let ghost fv0 = fv@;
            let ghost out0 = out@;
            out.append(&mut fv);
            proof {
                let sub1 = self.types.entries@.subrange(0, t + 1 as int);
                assert(sub1.drop_last() =~= self.types.entries@.subrange(0, t as int));
                assert(sub1.last() == self.types.entries@[t as int]);
                assert forall|id: TypeId|
                    out@.contains(id) <==> entries_imports_set(sub1).contains(id) by {
                    vstd::seq_lib::lemma_seq_concat_contains_all_elements(out0, fv0, id);
                    assert(fv0.contains(id) <==> item_field_ids(
                        self.types.entries@[t as int].1,
                    ).to_set().contains(id));
                }
            }
            t = t + 1;
        }
        proof {
            assert(self.types.entries@.subrange(0, tn as int) =~= self.types.entries@);
        }
        let cn = self.children.len();
        let mut i: usize = 0;
        while i < cn
            invariant
                0 <= i <= cn,
                cn == self.children@.len(),
                forall|id: TypeId|
                    out@.contains(id) <==> (entries_imports_set(self.types.entries@).contains(id)
                        || mods_imports_set(self.children@.subrange(0, i as int)).contains(id)),
            decreases cn - i,
        {
            proof {
                assert(decreases_to!(*self => self.children@[i as int]));
            }
            let mut cv = self.children[i].pull_fields();
            let ghost cv0 = cv@;
            let ghost out0 = out@;
            out.append(&mut cv);
            proof {
                let sub1 = self.children@.subrange(0, i + 1 as int);
                assert(sub1.drop_last() =~= self.children@.subrange(0, i as int));
                assert(sub1.last() == self.children@[i as int]);
                assert forall|id: TypeId|
                    out@.contains(id) <==> (entries_imports_set(self.types.entries@).contains(id)
                        || mods_imports_set(sub1).contains(id)) by {
                    vstd::seq_lib::lemma_seq_concat_contains_all_elements(out0, cv0, id);
                }
            }
            i = i + 1;
        }
        proof {
            assert(self.children@.subrange(0, cn as int) =~= self.children@);
        }
        out
    }
}

/// True when a list of identities holds the given one.
pub fn contains_id(v: &Vec<TypeId>, id: TypeId) -> (r: bool)
    ensures
        r == v@.contains(id),
{
    let n = v.len();
    let mut i: usize = 0;
    while i < n
        invariant
            0 <= i <= n,
            n == v@.len(),
            forall|j: int| 0 <= j < i ==> v@[j] != id,
        decreases n - i,
    {
        if v[i].0 == id.0 {
            proof {
                assert(v@[i as int] == id);
            }
            return true;
        }
        i = i + 1;
    }
    false
}

} // verus!
