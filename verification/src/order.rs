//! Lexicographic ordering of names and paths, plain or case-insensitive.
//! The deterministic sorts of the pipeline are all built on these
//! comparators.

use vstd::prelude::*;

verus! {

/// The ordering key of one character: its scalar value, with ASCII
/// uppercase folded onto lowercase when `fold` is set.
pub open spec fn char_key(c: char, fold: bool) -> int {
    if fold && 'A' <= c && c <= 'Z' {
        c as int + 32
    } else {
        c as int
    }
}

/// Lexicographic less-or-equal on character sequences, by `char_key`.
pub open spec fn lex_le(a: Seq<char>, b: Seq<char>, fold: bool) -> bool
    decreases a.len(),
{
    if a.len() == 0 {
        true
    } else if b.len() == 0 {
        false
    } else if char_key(a[0], fold) < char_key(b[0], fold) {
        true
    } else if char_key(a[0], fold) > char_key(b[0], fold) {
        false
    } else {
        lex_le(a.drop_first(), b.drop_first(), fold)
    }
}

/// One of `lex_le(a, b)` and `lex_le(b, a)` always holds.
pub proof fn lemma_lex_total(a: Seq<char>, b: Seq<char>, fold: bool)
    ensures
        lex_le(a, b, fold) || lex_le(b, a, fold),
    decreases a.len(),
{
    if a.len() == 0 || b.len() == 0 {
    } else if char_key(a[0], fold) == char_key(b[0], fold) {
        lemma_lex_total(a.drop_first(), b.drop_first(), fold);
    }
}

/// `lex_le` is transitive.
pub proof fn lemma_lex_trans(a: Seq<char>, b: Seq<char>, c: Seq<char>, fold: bool)
    requires
        lex_le(a, b, fold),
        lex_le(b, c, fold),
    ensures
        lex_le(a, c, fold),
    decreases a.len(),
{
    if a.len() == 0 {
    } else {
        assert(b.len() > 0);
        assert(c.len() > 0);
        let ka = char_key(a[0], fold);
        let kb = char_key(b[0], fold);
        let kc = char_key(c[0], fold);
        if ka == kb && kb == kc {
            lemma_lex_trans(a.drop_first(), b.drop_first(), c.drop_first(), fold);
        }
    }
}

/// Compares two strings lexicographically, folding ASCII case when asked.
pub fn lex_le_str(a: &str, b: &str, fold: bool) -> (r: bool)
    ensures
        r == lex_le(a@, b@, fold),
{
    let alen = a.unicode_len();
    let blen = b.unicode_len();
    let mut i: usize = 0;
    proof {
        assert(a@.skip(0) =~= a@);
        assert(b@.skip(0) =~= b@);
    }
    loop
        invariant
            0 <= i,
            i <= alen,
            i <= blen,
            alen == a@.len(),
            blen == b@.len(),
            lex_le(a@, b@, fold) == lex_le(a@.skip(i as int), b@.skip(i as int), fold),
        decreases alen - i,
    {
        if i >= alen {
            proof {
                assert(a@.skip(i as int).len() == 0);
            }
            return true;
        }
        if i >= blen {
            proof {
                assert(b@.skip(i as int).len() == 0);
                assert(a@.skip(i as int).len() > 0);
            }
            return false;
        }
        let ca = a.get_char(i);
        let cb = b.get_char(i);
        let ka = char_fold_key(ca, fold);
        let kb = char_fold_key(cb, fold);
        proof {
            assert(a@.skip(i as int)[0] == a@[i as int]);
            assert(b@.skip(i as int)[0] == b@[i as int]);
            assert(a@.skip(i as int).drop_first() =~= a@.skip(i + 1 as int));
            assert(b@.skip(i as int).drop_first() =~= b@.skip(i + 1 as int));
        }
        if ka < kb {
            return true;
        }
        if ka > kb {
            return false;
        }
        i = i + 1;
    }
}

/// The ordering key of one character.
pub fn char_fold_key(c: char, fold: bool) -> (r: u32)
    ensures
        r as int == char_key(c, fold),
{
    let v = c as u32;
    if fold && v >= 65 && v <= 90 {
        v + 32
    } else {
        v
    }
}


/// `a` sorts at or before `b` when keyed by the string component.
pub open spec fn name_le(a: (crate::ir::TypeId, String), b: (crate::ir::TypeId, String), fold: bool) -> bool {
    lex_le(a.1@, b.1@, fold)
}

/// Where an element lands among already-placed ones: after everything
/// that sorts at or before it.
pub open spec fn insert_by_name(
    x: (crate::ir::TypeId, String),
    s: Seq<(crate::ir::TypeId, String)>,
    fold: bool,
) -> Seq<(crate::ir::TypeId, String)>
    decreases s.len(),
{
    if s.len() > 0 && name_le(s[0], x, fold) {
        seq![s[0]] + insert_by_name(x, s.drop_first(), fold)
    } else {
        seq![x] + s
    }
}

/// Insertion sort, stable, keyed by the string component.
pub open spec fn sort_by_name(s: Seq<(crate::ir::TypeId, String)>, fold: bool) -> Seq<
    (crate::ir::TypeId, String),
>
    decreases s.len(),
{
    if s.len() == 0 {
        Seq::empty()
    } else {
        insert_by_name(s.last(), sort_by_name(s.drop_last(), fold), fold)
    }
}

pub proof fn lemma_insert_by_name_position(
    x: (crate::ir::TypeId, String),
    s: Seq<(crate::ir::TypeId, String)>,
    fold: bool,
    k: int,
)
    requires
        0 <= k <= s.len(),
        forall|j: int| 0 <= j < k ==> name_le(#[trigger] s[j], x, fold),
        k < s.len() ==> !name_le(s[k], x, fold),
    ensures
        insert_by_name(x, s, fold) == s.subrange(0, k) + seq![x] + s.subrange(k, s.len() as int),
    decreases k,
{
    if k == 0 {
        assert(insert_by_name(x, s, fold) =~= s.subrange(0, 0) + seq![x] + s.subrange(
            0,
            s.len() as int,
        ));
    } else {
        assert(name_le(s[0], x, fold));
        assert forall|j: int| 0 <= j < k - 1 implies name_le(#[trigger] s.drop_first()[j], x, fold)
        by {
            assert(s.drop_first()[j] == s[j + 1]);
        }
        assert(k - 1 < s.drop_first().len() ==> !name_le(s.drop_first()[k - 1], x, fold));
        lemma_insert_by_name_position(x, s.drop_first(), fold, k - 1);
        assert(insert_by_name(x, s, fold) =~= s.subrange(0, k) + seq![x] + s.subrange(
            k,
            s.len() as int,
        ));
    }
}

/// Inserting keeps exactly the elements, plus the inserted one.
pub proof fn lemma_insert_by_name_multiset(
    x: (crate::ir::TypeId, String),
    s: Seq<(crate::ir::TypeId, String)>,
    fold: bool,
)
    ensures
        insert_by_name(x, s, fold).to_multiset() =~= s.to_multiset().insert(x),
    decreases s.len(),
{
    broadcast use vstd::seq_lib::group_to_multiset_ensures;

    if s.len() > 0 && name_le(s[0], x, fold) {
        lemma_insert_by_name_multiset(x, s.drop_first(), fold);
        assert(insert_by_name(x, s, fold) =~= seq![s[0]] + insert_by_name(x, s.drop_first(), fold));
        vstd::seq_lib::lemma_multiset_commutative(
            seq![s[0]],
            insert_by_name(x, s.drop_first(), fold),
        );
        vstd::seq_lib::lemma_multiset_commutative(seq![s[0]], s.drop_first());
        assert(s =~= seq![s[0]] + s.drop_first());
        assert(seq![s[0]].to_multiset() =~= vstd::multiset::Multiset::empty().insert(s[0]));
    } else {
        assert(insert_by_name(x, s, fold) =~= seq![x] + s);
        vstd::seq_lib::lemma_multiset_commutative(seq![x], s);
        assert(seq![x].to_multiset() =~= vstd::multiset::Multiset::empty().insert(x));
    }
}

/// Sorting keeps exactly the elements.
pub proof fn lemma_sort_by_name_multiset(s: Seq<(crate::ir::TypeId, String)>, fold: bool)
    ensures
        sort_by_name(s, fold).to_multiset() =~= s.to_multiset(),
    decreases s.len(),
{
    broadcast use vstd::seq_lib::group_to_multiset_ensures;

    if s.len() == 0 {
    } else {
        lemma_sort_by_name_multiset(s.drop_last(), fold);
        lemma_insert_by_name_multiset(s.last(), sort_by_name(s.drop_last(), fold), fold);
        assert(s =~= s.drop_last().push(s.last()));
    }
}

/// Inserting into a list sorted by name keeps it sorted.
pub proof fn lemma_insert_by_name_sorted(
    x: (crate::ir::TypeId, String),
    s: Seq<(crate::ir::TypeId, String)>,
    fold: bool,
)
    requires
        forall|i: int, j: int|
            0 <= i < j < s.len() ==> name_le(#[trigger] s[i], #[trigger] s[j], fold),
    ensures
        forall|i: int, j: int|
            0 <= i < j < insert_by_name(x, s, fold).len() ==> name_le(
                #[trigger] insert_by_name(x, s, fold)[i],
                #[trigger] insert_by_name(x, s, fold)[j],
                fold,
            ),
    decreases s.len(),
{
    let r = insert_by_name(x, s, fold);
    if s.len() > 0 && name_le(s[0], x, fold) {
        assert forall|i: int, j: int|
            0 <= i < j < s.drop_first().len() implies name_le(
            #[trigger] s.drop_first()[i],
            #[trigger] s.drop_first()[j],
            fold,
        ) by {
            assert(s.drop_first()[i] == s[i + 1]);
            assert(s.drop_first()[j] == s[j + 1]);
        }
        lemma_insert_by_name_sorted(x, s.drop_first(), fold);
        let rr = insert_by_name(x, s.drop_first(), fold);
        assert(r =~= seq![s[0]] + rr);
        assert forall|i: int, j: int| 0 <= i < j < r.len() implies name_le(
            #[trigger] r[i],
            #[trigger] r[j],
            fold,
        ) by {
            if i == 0 {
                // the head sorts at or before x and at or before every
                // original element
                let e = r[j];
                assert(e == rr[j - 1]);
                lemma_insert_member(x, s.drop_first(), fold, j - 1);
                if e == x {
                    assert(name_le(s[0], x, fold));
                } else {
                    assert(s.drop_first().contains(e));
                    let w = choose|w: int|
                        0 <= w < s.drop_first().len() && s.drop_first()[w] == e;
                    assert(s[w + 1] == e);
                    assert(name_le(s[0], s[w + 1], fold));
                }
            } else {
                assert(r[i] == rr[i - 1]);
                assert(r[j] == rr[j - 1]);
            }
        }
    } else {
        assert(r =~= seq![x] + s);
        assert forall|i: int, j: int| 0 <= i < j < r.len() implies name_le(
            #[trigger] r[i],
            #[trigger] r[j],
            fold,
        ) by {
            if i == 0 {
                let e = r[j];
                assert(e == s[j - 1]);
                if s.len() > 0 {
                    assert(!name_le(s[0], x, fold));
                    lemma_lex_total(s[0].1@, x.1@, fold);
                    assert(name_le(x, s[0], fold));
                    if j - 1 > 0 {
                        assert(name_le(s[0], s[j - 1], fold));
                        lemma_lex_trans(x.1@, s[0].1@, s[j - 1].1@, fold);
                    }
                }
            } else {
                assert(r[i] == s[i - 1]);
                assert(r[j] == s[j - 1]);
            }
        }
    }
}

/// Every element of an insertion result is the inserted one or one of
/// the originals.
pub proof fn lemma_insert_member(
    x: (crate::ir::TypeId, String),
    s: Seq<(crate::ir::TypeId, String)>,
    fold: bool,
    i: int,
)
    requires
        0 <= i < insert_by_name(x, s, fold).len(),
    ensures
        insert_by_name(x, s, fold)[i] == x || s.contains(insert_by_name(x, s, fold)[i]),
    decreases s.len(),
{
    let r = insert_by_name(x, s, fold);
    if s.len() > 0 && name_le(s[0], x, fold) {
        assert(r =~= seq![s[0]] + insert_by_name(x, s.drop_first(), fold));
        if i == 0 {
            assert(s.contains(s[0]));
        } else {
            lemma_insert_member(x, s.drop_first(), fold, i - 1);
            let e = r[i];
            if e != x {
                assert(s.drop_first().contains(e));
                let w = choose|w: int| 0 <= w < s.drop_first().len() && s.drop_first()[w] == e;
                assert(s[w + 1] == e);
            }
        }
    } else {
        assert(r =~= seq![x] + s);
        if i > 0 {
            assert(s.contains(s[i - 1]));
        }
    }
}

/// The whole of a sorted result is sorted by name.
pub proof fn lemma_sort_by_name_sorted(s: Seq<(crate::ir::TypeId, String)>, fold: bool)
    ensures
        forall|i: int, j: int|
            0 <= i < j < sort_by_name(s, fold).len() ==> name_le(
                #[trigger] sort_by_name(s, fold)[i],
                #[trigger] sort_by_name(s, fold)[j],
                fold,
            ),
    decreases s.len(),
{
    if s.len() > 0 {
        lemma_sort_by_name_sorted(s.drop_last(), fold);
        lemma_insert_by_name_sorted(s.last(), sort_by_name(s.drop_last(), fold), fold);
    }
}

/// The first position whose element sorts after the new one.
fn find_insert_pos(
    out: &Vec<(crate::ir::TypeId, String)>,
    e: &(crate::ir::TypeId, String),
    fold: bool,
) -> (j: usize)
    ensures
        j <= out@.len(),
        forall|w: int| 0 <= w < j ==> name_le(#[trigger] out@[w], *e, fold),
        j < out@.len() ==> !name_le(out@[j as int], *e, fold),
{
    let n = out.len();
    let mut j: usize = 0;
    while j < n
        invariant
            0 <= j <= n,
            n == out@.len(),
            forall|w: int| 0 <= w < j ==> name_le(#[trigger] out@[w], *e, fold),
        decreases n - j,
    {
        if !lex_le_str(out[j].1.as_str(), e.1.as_str(), fold) {
            return j;
        }
        j = j + 1;
    }
    j
}

/// Sorts identity-name pairs by name, stably; `fold` makes the order
/// case-insensitive.
pub fn sort_pairs_by_name(v: Vec<(crate::ir::TypeId, String)>, fold: bool) -> (r: Vec<
    (crate::ir::TypeId, String),
>)
    ensures
        r@ == sort_by_name(v@, fold),
{
    let ghost orig = v@;
    let mut src = v;
    let mut out: Vec<(crate::ir::TypeId, String)> = Vec::new();
    let ghost mut k: int = 0;
    proof {
        assert(orig.subrange(0, 0) =~= Seq::<(crate::ir::TypeId, String)>::empty());
        assert(src@ =~= orig.skip(0));
    }
    while src.len() > 0
        invariant
            0 <= k <= orig.len(),
            src@ == orig.skip(k),
            out@ == sort_by_name(orig.subrange(0, k), fold),
        decreases src@.len(),
    {
        let e = src.remove(0);
        proof {
            assert(e == orig[k]);
            assert(src@ =~= orig.skip(k + 1));
        }
        let j = find_insert_pos(&out, &e, fold);
        proof {
            lemma_insert_by_name_position(e, out@, fold, j as int);
        }
        let ghost out_before = out@;
        out.insert(j, e);
        proof {
            assert(out@ =~= out_before.subrange(0, j as int) + seq![e] + out_before.subrange(
                j as int,
                out_before.len() as int,
            ));
            assert(orig.subrange(0, k + 1).drop_last() =~= orig.subrange(0, k));
            assert(orig.subrange(0, k + 1).last() == orig[k]);
            assert(out@ == sort_by_name(orig.subrange(0, k + 1), fold));
            k = k + 1;
        }
    }
    proof {
        assert(orig.subrange(0, orig.len() as int) =~= orig);
        assert(k == orig.len());
    }
    out
}


/// The character sequences of the string components.
pub open spec fn names_of(s: Seq<(crate::ir::TypeId, String)>) -> Seq<Seq<char>> {
    s.map_values(|p: (crate::ir::TypeId, String)| p.1@)
}

/// Where one name lands among already-placed ones: after everything that
/// sorts at or before it.
pub open spec fn vinsert_name(x: Seq<char>, s: Seq<Seq<char>>) -> Seq<Seq<char>>
    decreases s.len(),
{
    if s.len() > 0 && lex_le(s[0], x, false) {
        seq![s[0]] + vinsert_name(x, s.drop_first())
    } else {
        seq![x] + s
    }
}

/// Stable insertion sort of bare names, alphabetically.
pub open spec fn vsort_names(s: Seq<Seq<char>>) -> Seq<Seq<char>>
    decreases s.len(),
{
    if s.len() == 0 {
        Seq::empty()
    } else {
        vinsert_name(s.last(), vsort_names(s.drop_last()))
    }
}

/// Inserting a pair and inserting its name agree: the comparator reads
/// only the names.
pub proof fn lemma_insert_name_proj(
    x: (crate::ir::TypeId, String),
    s: Seq<(crate::ir::TypeId, String)>,
)
    ensures
        names_of(insert_by_name(x, s, false)) == vinsert_name(x.1@, names_of(s)),
    decreases s.len(),
{
    if s.len() > 0 && name_le(s[0], x, false) {
        lemma_insert_name_proj(x, s.drop_first());
        assert(names_of(s).drop_first() =~= names_of(s.drop_first()));
        assert(names_of(s)[0] == s[0].1@);
        assert(names_of(insert_by_name(x, s, false)) =~= seq![s[0].1@] + names_of(
            insert_by_name(x, s.drop_first(), false),
        )) by {
            assert(insert_by_name(x, s, false) =~= seq![s[0]] + insert_by_name(
                x,
                s.drop_first(),
                false,
            ));
        }
        assert(vinsert_name(x.1@, names_of(s)) =~= seq![s[0].1@] + vinsert_name(
            x.1@,
            names_of(s.drop_first()),
        ));
    } else {
        assert(names_of(insert_by_name(x, s, false)) =~= seq![x.1@] + names_of(s)) by {
            assert(insert_by_name(x, s, false) =~= seq![x] + s);
        }
        if s.len() > 0 {
            assert(names_of(s)[0] == s[0].1@);
        }
        assert(vinsert_name(x.1@, names_of(s)) =~= seq![x.1@] + names_of(s));
    }
}

/// Sorting pairs and sorting their bare names agree.
pub proof fn lemma_sort_name_proj(s: Seq<(crate::ir::TypeId, String)>)
    ensures
        names_of(sort_by_name(s, false)) == vsort_names(names_of(s)),
    decreases s.len(),
{
    if s.len() > 0 {
        lemma_sort_name_proj(s.drop_last());
        assert(names_of(s.drop_last()) =~= names_of(s).drop_last());
        assert(names_of(s).last() == s.last().1@);
        lemma_insert_name_proj(s.last(), sort_by_name(s.drop_last(), false));
    }
}

} // verus!