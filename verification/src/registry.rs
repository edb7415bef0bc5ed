//! A flat table from type identity to its described item. The same shape
//! backs the run-wide type registry and the per-module type store.

use vstd::prelude::*;

use crate::ir::{IrItem, TypeId};

verus! {

/// What a lookup in a table returns: the item of the first entry carrying
/// the key.
pub open spec fn table_get(es: Seq<(TypeId, IrItem)>, id: TypeId) -> Option<IrItem>
    decreases es.len(),
{
    if es.len() == 0 {
        Option::None
    } else if es[0].0 == id {
        Option::Some(es[0].1)
    } else {
        table_get(es.drop_first(), id)
    }
}

/// Whether any entry carries the key.
pub open spec fn table_contains(es: Seq<(TypeId, IrItem)>, id: TypeId) -> bool {
    table_get(es, id) is Some
}

/// What an insertion leaves behind: tables never overwrite, so a key that
/// is already present keeps its entry.
pub open spec fn table_insert(es: Seq<(TypeId, IrItem)>, id: TypeId, item: IrItem) -> Seq<
    (TypeId, IrItem),
> {
    if table_contains(es, id) {
        es
    } else {
        es.push((id, item))
    }
}

pub proof fn lemma_get_skip(es: Seq<(TypeId, IrItem)>, id: TypeId, i: int)
    requires
        0 <= i <= es.len(),
        forall|j: int| 0 <= j < i ==> es[j].0 != id,
    ensures
        table_get(es, id) == table_get(es.skip(i), id),
    decreases i,
{
    if i == 0 {
        assert(es.skip(0) =~= es);
    } else {
        assert(es[0].0 != id);
        assert(es.drop_first() =~= es.skip(1));
        assert(table_get(es, id) == table_get(es.skip(1), id));
        assert forall|j: int| 0 <= j < i - 1 implies (#[trigger] es.skip(1)[j]).0 != id by {
            assert(es.skip(1)[j] == es[j + 1]);
        }
        lemma_get_skip(es.skip(1), id, i - 1);
        assert(es.skip(1).skip(i - 1) =~= es.skip(i));
    }
}

pub proof fn lemma_get_found(es: Seq<(TypeId, IrItem)>, id: TypeId, i: int)
    requires
        0 <= i < es.len(),
        forall|j: int| 0 <= j < i ==> es[j].0 != id,
        es[i].0 == id,
    ensures
        table_get(es, id) == Option::Some(es[i].1),
{
    lemma_get_skip(es, id, i);
    assert(es.skip(i)[0] == es[i]);
}

pub proof fn lemma_get_push(es: Seq<(TypeId, IrItem)>, id: TypeId, item: IrItem, k: TypeId)
    ensures
        table_get(es.push((id, item)), k) == if table_contains(es, k) {
            table_get(es, k)
        } else if k == id {
            Option::Some(item)
        } else {
            Option::None
        },
    decreases es.len(),
{
    if es.len() == 0 {
        assert(es.push((id, item))[0] == (id, item));
        assert(es.push((id, item)).drop_first() =~= Seq::<(TypeId, IrItem)>::empty());
    } else {
        assert(es.push((id, item))[0] == es[0]);
        assert(es.push((id, item)).drop_first() =~= es.drop_first().push((id, item)));
        lemma_get_push(es.drop_first(), id, item, k);
    }
}

/// A table from stable type identity to the item it describes. Entries are
/// never overwritten: the first registration of an identity wins.
#[derive(Debug)]
pub struct Registry {
    pub entries: Vec<(TypeId, IrItem)>,
}

impl Registry {
    /// Every entry is stored under the identity its item declares, and no
    /// identity appears twice.
    pub open spec fn wf(self) -> bool {
        &&& forall|i: int|
            0 <= i < self.entries@.len() ==> (#[trigger] self.entries@[i]).0
                == self.entries@[i].1.spec_type_id()
        &&& forall|i: int, j: int|
            0 <= i < j < self.entries@.len() ==> (#[trigger] self.entries@[i]).0 != (
            #[trigger] self.entries@[j]).0
    }

    pub open spec fn spec_get(self, id: TypeId) -> Option<IrItem> {
        table_get(self.entries@, id)
    }

    pub open spec fn spec_contains(self, id: TypeId) -> bool {
        table_contains(self.entries@, id)
    }

    pub fn new() -> (r: Registry)
        ensures
            r.entries@ =~= Seq::<(TypeId, IrItem)>::empty(),
            r.wf(),
    {
        Registry { entries: Vec::new() }
    }

    pub fn len(&self) -> (r: usize)
        ensures
            r == self.entries@.len(),
    {
        self.entries.len()
    }

    /// Looks an identity up; a miss usually signals a builtin that the
    /// renderer maps by name instead.
    pub fn get(&self, id: TypeId) -> (r: Option<&IrItem>)
        ensures
            match r {
                Option::Some(item) => self.spec_get(id) == Option::Some(*item),
                Option::None => self.spec_get(id) is None,
            },
    {
        let n = self.entries.len();
        let mut i: usize = 0;
        while i < n
            invariant
                0 <= i <= n,
                n == self.entries@.len(),
                forall|j: int| 0 <= j < i ==> (#[trigger] self.entries@[j]).0 != id,
            decreases n - i,
        {
            if self.entries[i].0 == id {
                proof {
                    lemma_get_found(self.entries@, id, i as int);
                }
                return Some(&self.entries[i].1);
            }
            i = i + 1;
        }
        proof {
            lemma_get_skip(self.entries@, id, n as int);
            assert(self.entries@.skip(n as int) =~= Seq::<(TypeId, IrItem)>::empty());
        }
        None
    }

    pub fn contains(&self, id: TypeId) -> (r: bool)
        ensures
            r == self.spec_contains(id),
    {
        match self.get(id) {
            Some(_) => true,
            None => false,
        }
    }

    /// Records one item under its own identity; an identity that is
    /// already present keeps its first entry.
    pub fn insert(&mut self, item: IrItem)
        ensures
            final(self).entries@ == table_insert(old(self).entries@, item.spec_type_id(), item),
            old(self).wf() ==> final(self).wf(),
    {
        let id = item.type_id();
        if self.contains(id) {
            return ;
        }
        let ghost es0 = self.entries@;
        self.entries.push((id, item));
        proof {
            if old(self).wf() {
                assert forall|i: int, j: int|
                    0 <= i < j < self.entries@.len() implies (#[trigger] self.entries@[i]).0 != (
                    #[trigger] self.entries@[j]).0 by {
                    if j == es0.len() {
                        if self.entries@[i].0 == id {
                            lemma_get_found(es0, id, i);
                        }
                    }
                }
            }
        }
    }
}

} // verus!
