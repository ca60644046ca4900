//! Canonical form of sets, maps and objects.
//!
//! A set is kept as its elements in strictly increasing order under the
//! total value order; a map or object as its entries in strictly
//! increasing key order. Insertion scans from the end, drops a set
//! element that is already present, and lets a later entry for an
//! existing key replace the earlier one.

use vstd::prelude::*;
use crate::order::{
    chars_cmp, lemma_chars_cmp_laws, lemma_chars_cmp_range, lemma_val_cmp_laws,
    lemma_val_cmp_range, val_cmp,
};
use crate::value::{
    lemma_obj_model, lemma_obj_model_insert, lemma_obj_model_update, lemma_pair_model,
    lemma_pair_model_insert, lemma_pair_model_update, lemma_seq_model, lemma_seq_model_insert,
    obj_model, pair_model, seq_model, ValModel, Value,
};
use crate::order::{str_cmp, value_cmp, Cmp};

verus! {

/// The elements are strictly increasing: adjacent pairs compare below.
pub open spec fn val_seq_sorted(s: Seq<ValModel>) -> bool {
    forall|i: int| 0 <= i && i + 1 < s.len() ==> #[trigger] val_cmp(s[i], s[i + 1]) == -1
}

/// The keys are strictly increasing in the character order.
pub open spec fn obj_entries_sorted(s: Seq<(Seq<char>, ValModel)>) -> bool {
    forall|i: int| 0 <= i && i + 1 < s.len() ==> #[trigger] chars_cmp(s[i].0, s[i + 1].0) == -1
}

/// The keys are strictly increasing in the total value order.
pub open spec fn map_entries_sorted(s: Seq<(ValModel, ValModel)>) -> bool {
    forall|i: int| 0 <= i && i + 1 < s.len() ==> #[trigger] val_cmp(s[i].0, s[i + 1].0) == -1
}

/// Insert a value into a canonical element sequence; an element equal
/// under the order is already present and the sequence stays as it is.
pub open spec fn set_insert(s: Seq<ValModel>, v: ValModel) -> Seq<ValModel>
    decreases s.len(),
{
    if s.len() == 0 {
        seq![v]
    } else if val_cmp(s.last(), v) == -1 {
        s.push(v)
    } else if val_cmp(s.last(), v) == 0 {
        s
    } else {
        set_insert(s.drop_last(), v).push(s.last())
    }
}

/// Canonical element sequence of a set given as elements in any order.
pub open spec fn canon_set(elems: Seq<ValModel>) -> Seq<ValModel>
    decreases elems.len(),
{
    if elems.len() == 0 {
        Seq::empty()
    } else {
        set_insert(canon_set(elems.drop_last()), elems.last())
    }
}

/// Insert an entry into a canonical object entry sequence; a later
/// entry for an existing key replaces the earlier one.
pub open spec fn obj_insert(
    s: Seq<(Seq<char>, ValModel)>,
    k: Seq<char>,
    v: ValModel,
) -> Seq<(Seq<char>, ValModel)>
    decreases s.len(),
{
    if s.len() == 0 {
        seq![(k, v)]
    } else if chars_cmp(s.last().0, k) == -1 {
        s.push((k, v))
    } else if chars_cmp(s.last().0, k) == 0 {
        s.drop_last().push((k, v))
    } else {
        obj_insert(s.drop_last(), k, v).push(s.last())
    }
}

/// Canonical entry sequence of an object given entries in any order.
pub open spec fn canon_obj(entries: Seq<(Seq<char>, ValModel)>) -> Seq<(Seq<char>, ValModel)>
    decreases entries.len(),
{
    if entries.len() == 0 {
        Seq::empty()
    } else {
        obj_insert(canon_obj(entries.drop_last()), entries.last().0, entries.last().1)
    }
}

/// Insert an entry into a canonical map entry sequence; a later entry
/// for an existing key replaces the earlier one.
pub open spec fn map_insert(
    s: Seq<(ValModel, ValModel)>,
    k: ValModel,
    v: ValModel,
) -> Seq<(ValModel, ValModel)>
    decreases s.len(),
{
    if s.len() == 0 {
        seq![(k, v)]
    } else if val_cmp(s.last().0, k) == -1 {
        s.push((k, v))
    } else if val_cmp(s.last().0, k) == 0 {
        s.drop_last().push((k, v))
    } else {
        map_insert(s.drop_last(), k, v).push(s.last())
    }
}

/// Canonical entry sequence of a map given entries in any order.
pub open spec fn canon_map(entries: Seq<(ValModel, ValModel)>) -> Seq<(ValModel, ValModel)>
    decreases entries.len(),
{
    if entries.len() == 0 {
        Seq::empty()
    } else {
        map_insert(canon_map(entries.drop_last()), entries.last().0, entries.last().1)
    }
}

/// A value in canonical form: every set, map and object anywhere in it
/// keeps its elements or entries strictly sorted.
pub open spec fn wf_val(v: ValModel) -> bool
    decreases v,
{
    match v {
        ValModel::Array(items) => wf_val_seq(items),
        ValModel::Object(entries) => obj_entries_sorted(entries) && wf_obj_entry_vals(entries),
        ValModel::SetVal(items) => val_seq_sorted(items) && wf_val_seq(items),
        ValModel::MapVal(entries) => map_entries_sorted(entries) && wf_map_entry_vals(entries),
        _ => true,
    }
}

/// Every element of the sequence is in canonical form.
pub open spec fn wf_val_seq(s: Seq<ValModel>) -> bool
    decreases s,
{
    s.len() == 0 || (wf_val(s[0]) && wf_val_seq(s.drop_first()))
}

/// Every value under an object entry is in canonical form.
pub open spec fn wf_obj_entry_vals(s: Seq<(Seq<char>, ValModel)>) -> bool
    decreases s,
{
    s.len() == 0 || (wf_val(s[0].1) && wf_obj_entry_vals(s.drop_first()))
}

/// Every key and value of a map entry is in canonical form.
pub open spec fn wf_map_entry_vals(s: Seq<(ValModel, ValModel)>) -> bool
    decreases s,
{
    s.len() == 0 || (wf_val(s[0].0) && wf_val(s[0].1) && wf_map_entry_vals(s.drop_first()))
}

/// Inserting into a canonical element sequence keeps it canonical; the
/// result is never empty and ends in the new value or the old last one.
pub proof fn lemma_set_insert_sorted(s: Seq<ValModel>, v: ValModel)
    requires
        val_seq_sorted(s),
    ensures
        val_seq_sorted(set_insert(s, v)),
        set_insert(s, v).len() >= 1,
        set_insert(s, v).len() >= s.len(),
        set_insert(s, v).last() == v || (s.len() > 0 && set_insert(s, v).last() == s.last()),
    decreases s.len(),
{
    if s.len() == 0 {
    } else if val_cmp(s.last(), v) == -1 {
        let r = s.push(v);
        assert forall|i: int| 0 <= i && i + 1 < r.len() implies #[trigger] val_cmp(r[i], r[i + 1])
            == -1 by {
            if i + 2 < r.len() {
                assert(r[i] == s[i]);
                assert(r[i + 1] == s[i + 1]);
            } else {
                assert(r[i] == s.last());
                assert(r[i + 1] == v);
            }
        }
    } else if val_cmp(s.last(), v) == 0 {
    } else {
        let t = s.drop_last();
        assert forall|i: int| 0 <= i && i + 1 < t.len() implies #[trigger] val_cmp(t[i], t[i + 1])
            == -1 by {
            assert(t[i] == s[i]);
            assert(t[i + 1] == s[i + 1]);
        }
        lemma_set_insert_sorted(t, v);
        let u = set_insert(t, v);
        let r = u.push(s.last());
        // the pair joining `u` to the old last element
        lemma_val_cmp_range(s.last(), v);
        assert(val_cmp(s.last(), v) == 1);
        lemma_val_cmp_laws(s.last(), v);
        assert(u.last() == v ==> val_cmp(u.last(), s.last()) == -1);
        if t.len() > 0 && u.last() == t.last() {
            let j = s.len() - 2;
            assert(val_cmp(s[j], s[j + 1]) == -1);
            assert(t.last() == s[j]);
            assert(val_cmp(u.last(), s.last()) == -1);
        }
        assert forall|i: int| 0 <= i && i + 1 < r.len() implies #[trigger] val_cmp(r[i], r[i + 1])
            == -1 by {
            if i + 2 < r.len() {
                assert(r[i] == u[i]);
                assert(r[i + 1] == u[i + 1]);
            } else {
                assert(r[i] == u.last());
                assert(r[i + 1] == s.last());
            }
        }
    }
}

/// Inserting into a canonical object keeps it canonical; the result is
/// never empty and ends in the new entry or the old last one.
pub proof fn lemma_obj_insert_sorted(s: Seq<(Seq<char>, ValModel)>, k: Seq<char>, v: ValModel)
    requires
        obj_entries_sorted(s),
    ensures
        obj_entries_sorted(obj_insert(s, k, v)),
        obj_insert(s, k, v).len() >= 1,
        obj_insert(s, k, v).len() >= s.len(),
        obj_insert(s, k, v).last() == (k, v) || (s.len() > 0 && obj_insert(s, k, v).last()
            == s.last()),
    decreases s.len(),
{
    if s.len() == 0 {
    } else if chars_cmp(s.last().0, k) == -1 {
        let r = s.push((k, v));
        assert forall|i: int| 0 <= i && i + 1 < r.len() implies #[trigger] chars_cmp(
            r[i].0,
            r[i + 1].0,
        ) == -1 by {
            if i + 2 < r.len() {
                assert(r[i] == s[i]);
                assert(r[i + 1] == s[i + 1]);
            } else {
                assert(r[i] == s.last());
                assert(r[i + 1] == (k, v));
            }
        }
    } else if chars_cmp(s.last().0, k) == 0 {
        let r = s.drop_last().push((k, v));
        lemma_chars_cmp_laws(s.last().0, k);
        assert forall|i: int| 0 <= i && i + 1 < r.len() implies #[trigger] chars_cmp(
            r[i].0,
            r[i + 1].0,
        ) == -1 by {
            if i + 2 < r.len() {
                assert(r[i] == s[i]);
                assert(r[i + 1] == s[i + 1]);
            } else {
                assert(r[i] == s[i]);
                assert(r[i + 1].0 == k);
                assert(chars_cmp(s[i].0, s[i + 1].0) == -1);
            }
        }
    } else {
        let t = s.drop_last();
        assert forall|i: int| 0 <= i && i + 1 < t.len() implies #[trigger] chars_cmp(
            t[i].0,
            t[i + 1].0,
        ) == -1 by {
            assert(t[i] == s[i]);
            assert(t[i + 1] == s[i + 1]);
        }
        lemma_obj_insert_sorted(t, k, v);
        let u = obj_insert(t, k, v);
        let r = u.push(s.last());
        lemma_chars_cmp_range(s.last().0, k);
        assert(chars_cmp(s.last().0, k) == 1);
        lemma_chars_cmp_laws(s.last().0, k);
        lemma_chars_cmp_laws(k, s.last().0);
        assert(u.last() == (k, v) ==> chars_cmp(u.last().0, s.last().0) == -1);
        if t.len() > 0 && u.last() == t.last() {
            let j = s.len() - 2;
            assert(chars_cmp(s[j].0, s[j + 1].0) == -1);
            assert(t.last() == s[j]);
            assert(chars_cmp(u.last().0, s.last().0) == -1);
        }
        assert forall|i: int| 0 <= i && i + 1 < r.len() implies #[trigger] chars_cmp(
            r[i].0,
            r[i + 1].0,
        ) == -1 by {
            if i + 2 < r.len() {
                assert(r[i] == u[i]);
                assert(r[i + 1] == u[i + 1]);
            } else {
                assert(r[i] == u.last());
                assert(r[i + 1] == s.last());
            }
        }
    }
}

/// Inserting into a canonical map keeps it canonical; the result is
/// never empty and ends in the new entry or the old last one.
pub proof fn lemma_map_insert_sorted(s: Seq<(ValModel, ValModel)>, k: ValModel, v: ValModel)
    requires
        map_entries_sorted(s),
    ensures
        map_entries_sorted(map_insert(s, k, v)),
        map_insert(s, k, v).len() >= 1,
        map_insert(s, k, v).len() >= s.len(),
        map_insert(s, k, v).last() == (k, v) || (s.len() > 0 && map_insert(s, k, v).last()
            == s.last()),
    decreases s.len(),
{
    if s.len() == 0 {
    } else if val_cmp(s.last().0, k) == -1 {
        let r = s.push((k, v));
        assert forall|i: int| 0 <= i && i + 1 < r.len() implies #[trigger] val_cmp(
            r[i].0,
            r[i + 1].0,
        ) == -1 by {
            if i + 2 < r.len() {
                assert(r[i] == s[i]);
                assert(r[i + 1] == s[i + 1]);
            } else {
                assert(r[i] == s.last());
                assert(r[i + 1] == (k, v));
            }
        }
    } else if val_cmp(s.last().0, k) == 0 {
        let r = s.drop_last().push((k, v));
        lemma_val_cmp_laws(s.last().0, k);
        assert forall|i: int| 0 <= i && i + 1 < r.len() implies #[trigger] val_cmp(
            r[i].0,
            r[i + 1].0,
        ) == -1 by {
            if i + 2 < r.len() {
                assert(r[i] == s[i]);
                assert(r[i + 1] == s[i + 1]);
            } else {
                assert(r[i] == s[i]);
                assert(r[i + 1].0 == k);
                assert(val_cmp(s[i].0, s[i + 1].0) == -1);
            }
        }
    } else {
        let t = s.drop_last();
        assert forall|i: int| 0 <= i && i + 1 < t.len() implies #[trigger] val_cmp(
            t[i].0,
            t[i + 1].0,
        ) == -1 by {
            assert(t[i] == s[i]);
            assert(t[i + 1] == s[i + 1]);
        }
        lemma_map_insert_sorted(t, k, v);
        let u = map_insert(t, k, v);
        let r = u.push(s.last());
        lemma_val_cmp_range(s.last().0, k);
        assert(val_cmp(s.last().0, k) == 1);
        lemma_val_cmp_laws(s.last().0, k);
        lemma_val_cmp_laws(k, s.last().0);
        assert(u.last() == (k, v) ==> val_cmp(u.last().0, s.last().0) == -1);
        if t.len() > 0 && u.last() == t.last() {
            let j = s.len() - 2;
            assert(val_cmp(s[j].0, s[j + 1].0) == -1);
            assert(t.last() == s[j]);
            assert(val_cmp(u.last().0, s.last().0) == -1);
        }
        assert forall|i: int| 0 <= i && i + 1 < r.len() implies #[trigger] val_cmp(
            r[i].0,
            r[i + 1].0,
        ) == -1 by {
            if i + 2 < r.len() {
                assert(r[i] == u[i]);
                assert(r[i + 1] == u[i + 1]);
            } else {
                assert(r[i] == u.last());
                assert(r[i + 1] == s.last());
            }
        }
    }
}

/// A sequence that is already canonical canonicalizes to itself.
pub proof fn lemma_canon_set_of_sorted(s: Seq<ValModel>)
    requires
        val_seq_sorted(s),
    ensures
        canon_set(s) == s,
    decreases s.len(),
{
    if s.len() > 0 {
        let t = s.drop_last();
        assert forall|i: int| 0 <= i && i + 1 < t.len() implies #[trigger] val_cmp(t[i], t[i + 1])
            == -1 by {
            assert(t[i] == s[i]);
            assert(t[i + 1] == s[i + 1]);
        }
        lemma_canon_set_of_sorted(t);
        if t.len() > 0 {
            let j = s.len() - 2;
            assert(val_cmp(s[j], s[j + 1]) == -1);
            assert(t.last() == s[j]);
            assert(val_cmp(t.last(), s.last()) == -1);
            assert(set_insert(t, s.last()) =~= t.push(s.last()));
        }
        assert(canon_set(s) =~= s);
    } else {
        assert(canon_set(s) =~= s);
    }
}

/// An entry sequence that is already canonical canonicalizes to itself.
pub proof fn lemma_canon_obj_of_sorted(s: Seq<(Seq<char>, ValModel)>)
    requires
        obj_entries_sorted(s),
    ensures
        canon_obj(s) == s,
    decreases s.len(),
{
    if s.len() > 0 {
        let t = s.drop_last();
        assert forall|i: int| 0 <= i && i + 1 < t.len() implies #[trigger] chars_cmp(
            t[i].0,
            t[i + 1].0,
        ) == -1 by {
            assert(t[i] == s[i]);
            assert(t[i + 1] == s[i + 1]);
        }
        lemma_canon_obj_of_sorted(t);
        if t.len() > 0 {
            let j = s.len() - 2;
            assert(chars_cmp(s[j].0, s[j + 1].0) == -1);
            assert(t.last() == s[j]);
            assert(chars_cmp(t.last().0, s.last().0) == -1);
            assert(obj_insert(t, s.last().0, s.last().1) =~= t.push(s.last()));
        }
        assert(canon_obj(s) =~= s);
    } else {
        assert(canon_obj(s) =~= s);
    }
}

/// An entry sequence that is already canonical canonicalizes to itself.
pub proof fn lemma_canon_map_of_sorted(s: Seq<(ValModel, ValModel)>)
    requires
        map_entries_sorted(s),
    ensures
        canon_map(s) == s,
    decreases s.len(),
{
    if s.len() > 0 {
        let t = s.drop_last();
        assert forall|i: int| 0 <= i && i + 1 < t.len() implies #[trigger] val_cmp(
            t[i].0,
            t[i + 1].0,
        ) == -1 by {
            assert(t[i] == s[i]);
            assert(t[i + 1] == s[i + 1]);
        }
        lemma_canon_map_of_sorted(t);
        if t.len() > 0 {
            let j = s.len() - 2;
            assert(val_cmp(s[j].0, s[j + 1].0) == -1);
            assert(t.last() == s[j]);
            assert(val_cmp(t.last().0, s.last().0) == -1);
            assert(map_insert(t, s.last().0, s.last().1) =~= t.push(s.last()));
        }
        assert(canon_map(s) =~= s);
    } else {
        assert(canon_map(s) =~= s);
    }
}

/// A canonicalized element sequence is strictly sorted, whatever the
/// order of the elements given.
pub proof fn lemma_canon_set_sorted(elems: Seq<ValModel>)
    ensures
        val_seq_sorted(canon_set(elems)),
    decreases elems.len(),
{
    if elems.len() > 0 {
        lemma_canon_set_sorted(elems.drop_last());
        lemma_set_insert_sorted(canon_set(elems.drop_last()), elems.last());
    }
}

/// A canonicalized object entry sequence has strictly sorted keys.
pub proof fn lemma_canon_obj_sorted(entries: Seq<(Seq<char>, ValModel)>)
    ensures
        obj_entries_sorted(canon_obj(entries)),
    decreases entries.len(),
{
    if entries.len() > 0 {
        lemma_canon_obj_sorted(entries.drop_last());
        lemma_obj_insert_sorted(
            canon_obj(entries.drop_last()),
            entries.last().0,
            entries.last().1,
        );
    }
}

/// A canonicalized map entry sequence has strictly sorted keys.
pub proof fn lemma_canon_map_sorted(entries: Seq<(ValModel, ValModel)>)
    ensures
        map_entries_sorted(canon_map(entries)),
    decreases entries.len(),
{
    if entries.len() > 0 {
        lemma_canon_map_sorted(entries.drop_last());
        lemma_map_insert_sorted(
            canon_map(entries.drop_last()),
            entries.last().0,
            entries.last().1,
        );
    }
}

/// `wf_val_seq` holds exactly when every element is canonical.
pub proof fn lemma_wf_val_seq_index(s: Seq<ValModel>)
    ensures
        wf_val_seq(s) <==> (forall|i: int| 0 <= i < s.len() ==> wf_val(#[trigger] s[i])),
    decreases s,
{
    if s.len() > 0 {
        lemma_wf_val_seq_index(s.drop_first());
        if wf_val_seq(s) {
            assert forall|i: int| 0 <= i < s.len() implies wf_val(#[trigger] s[i]) by {
                if i > 0 {
                    assert(s[i] == s.drop_first()[i - 1]);
                }
            }
        }
        if forall|i: int| 0 <= i < s.len() ==> wf_val(#[trigger] s[i]) {
            assert forall|i: int|
                0 <= i < s.drop_first().len() implies wf_val(
                #[trigger] s.drop_first()[i],
            ) by {
                assert(s.drop_first()[i] == s[i + 1]);
            }
        }
    }
}

/// `wf_obj_entry_vals` holds exactly when every entry's value is
/// canonical.
pub proof fn lemma_wf_obj_entry_vals_index(s: Seq<(Seq<char>, ValModel)>)
    ensures
        wf_obj_entry_vals(s) <==> (forall|i: int|
            0 <= i < s.len() ==> wf_val((#[trigger] s[i]).1)),
    decreases s,
{
    if s.len() > 0 {
        lemma_wf_obj_entry_vals_index(s.drop_first());
        if wf_obj_entry_vals(s) {
            assert forall|i: int| 0 <= i < s.len() implies wf_val((#[trigger] s[i]).1) by {
                if i > 0 {
                    assert(s[i] == s.drop_first()[i - 1]);
                    assert(wf_val(s.drop_first()[i - 1].1));
                }
            }
        }
        if forall|i: int| 0 <= i < s.len() ==> wf_val((#[trigger] s[i]).1) {
            assert forall|i: int|
                0 <= i < s.drop_first().len() implies wf_val(
                #[trigger] s.drop_first()[i].1,
            ) by {
                assert(s.drop_first()[i] == s[i + 1]);
            }
        }
    }
}

/// `wf_map_entry_vals` holds exactly when every key and value is
/// canonical.
pub proof fn lemma_wf_map_entry_vals_index(s: Seq<(ValModel, ValModel)>)
    ensures
        wf_map_entry_vals(s) <==> (forall|i: int|
            0 <= i < s.len() ==> wf_val((#[trigger] s[i]).0) && wf_val(s[i].1)),
    decreases s,
{
    if s.len() > 0 {
        lemma_wf_map_entry_vals_index(s.drop_first());
        if wf_map_entry_vals(s) {
            assert forall|i: int| 0 <= i < s.len() implies wf_val((#[trigger] s[i]).0) && wf_val(
                s[i].1,
            ) by {
                if i > 0 {
                    assert(s[i] == s.drop_first()[i - 1]);
                    assert(wf_val(s.drop_first()[i - 1].0) && wf_val(s.drop_first()[i - 1].1));
                }
            }
        }
        if forall|i: int| 0 <= i < s.len() ==> wf_val((#[trigger] s[i]).0) && wf_val(s[i].1) {
            assert forall|i: int|
                0 <= i < s.drop_first().len() implies wf_val(#[trigger] s.drop_first()[i].0)
                && wf_val(s.drop_first()[i].1) by {
                assert(s.drop_first()[i] == s[i + 1]);
            }
        }
    }
}

/// Inserting a canonical value into a sequence of canonical values
/// leaves every element canonical.
proof fn lemma_set_insert_wf(s: Seq<ValModel>, v: ValModel)
    requires
        forall|i: int| 0 <= i < s.len() ==> wf_val(#[trigger] s[i]),
        wf_val(v),
    ensures
        forall|i: int|
            0 <= i < set_insert(s, v).len() ==> wf_val(#[trigger] set_insert(s, v)[i]),
    decreases s.len(),
{
    let r = set_insert(s, v);
    if s.len() == 0 {
        assert forall|i: int| 0 <= i < r.len() implies wf_val(#[trigger] r[i]) by {
            assert(r[i] == v);
        }
    } else if val_cmp(s.last(), v) == -1 {
        assert forall|i: int| 0 <= i < r.len() implies wf_val(#[trigger] r[i]) by {
            if i < s.len() {
                assert(r[i] == s[i]);
            } else {
                assert(r[i] == v);
            }
        }
    } else if val_cmp(s.last(), v) == 0 {
    } else {
        let t = s.drop_last();
        assert forall|i: int| 0 <= i < t.len() implies wf_val(#[trigger] t[i]) by {
            assert(t[i] == s[i]);
        }
        lemma_set_insert_wf(t, v);
        let u = set_insert(t, v);
        assert forall|i: int| 0 <= i < r.len() implies wf_val(#[trigger] r[i]) by {
            if i < u.len() {
                assert(r[i] == u[i]);
            } else {
                assert(r[i] == s.last());
                assert(s.last() == s[s.len() - 1]);
            }
        }
    }
}

/// Inserting an entry with a canonical value leaves every entry's
/// value canonical.
proof fn lemma_obj_insert_wf(s: Seq<(Seq<char>, ValModel)>, k: Seq<char>, v: ValModel)
    requires
        forall|i: int| 0 <= i < s.len() ==> wf_val((#[trigger] s[i]).1),
        wf_val(v),
    ensures
        forall|i: int|
            0 <= i < obj_insert(s, k, v).len() ==> wf_val(#[trigger] obj_insert(s, k, v)[i].1),
    decreases s.len(),
{
    let r = obj_insert(s, k, v);
    if s.len() == 0 {
        assert forall|i: int| 0 <= i < r.len() implies wf_val((#[trigger] r[i]).1) by {
            assert(r[i] == (k, v));
        }
    } else if chars_cmp(s.last().0, k) == -1 {
        assert forall|i: int| 0 <= i < r.len() implies wf_val((#[trigger] r[i]).1) by {
            if i < s.len() {
                assert(r[i] == s[i]);
            } else {
                assert(r[i] == (k, v));
            }
        }
    } else if chars_cmp(s.last().0, k) == 0 {
        assert forall|i: int| 0 <= i < r.len() implies wf_val((#[trigger] r[i]).1) by {
            if i < s.len() - 1 {
                assert(r[i] == s[i]);
            } else {
                assert(r[i] == (k, v));
            }
        }
    } else {
        let t = s.drop_last();
        assert forall|i: int| 0 <= i < t.len() implies wf_val((#[trigger] t[i]).1) by {
            assert(t[i] == s[i]);
        }
        lemma_obj_insert_wf(t, k, v);
        let u = obj_insert(t, k, v);
        assert forall|i: int| 0 <= i < r.len() implies wf_val((#[trigger] r[i]).1) by {
            if i < u.len() {
                assert(r[i] == u[i]);
            } else {
                assert(r[i] == s.last());
                assert(s.last() == s[s.len() - 1]);
            }
        }
    }
}

/// Inserting an entry with canonical key and value leaves every
/// entry's key and value canonical.
proof fn lemma_map_insert_wf(s: Seq<(ValModel, ValModel)>, k: ValModel, v: ValModel)
    requires
        forall|i: int| 0 <= i < s.len() ==> wf_val((#[trigger] s[i]).0) && wf_val(s[i].1),
        wf_val(k),
        wf_val(v),
    ensures
        forall|i: int|
            0 <= i < map_insert(s, k, v).len() ==> wf_val(#[trigger] map_insert(s, k, v)[i].0)
                && wf_val(map_insert(s, k, v)[i].1),
    decreases s.len(),
{
    let r = map_insert(s, k, v);
    if s.len() == 0 {
        assert forall|i: int| 0 <= i < r.len() implies wf_val((#[trigger] r[i]).0) && wf_val(
            r[i].1,
        ) by {
            assert(r[i] == (k, v));
        }
    } else if val_cmp(s.last().0, k) == -1 {
        assert forall|i: int| 0 <= i < r.len() implies wf_val((#[trigger] r[i]).0) && wf_val(
            r[i].1,
        ) by {
            if i < s.len() {
                assert(r[i] == s[i]);
            } else {
                assert(r[i] == (k, v));
            }
        }
    } else if val_cmp(s.last().0, k) == 0 {
        assert forall|i: int| 0 <= i < r.len() implies wf_val((#[trigger] r[i]).0) && wf_val(
            r[i].1,
        ) by {
            if i < s.len() - 1 {
                assert(r[i] == s[i]);
            } else {
                assert(r[i] == (k, v));
            }
        }
    } else {
        let t = s.drop_last();
        assert forall|i: int| 0 <= i < t.len() implies wf_val((#[trigger] t[i]).0) && wf_val(
            t[i].1,
        ) by {
            assert(t[i] == s[i]);
        }
        lemma_map_insert_wf(t, k, v);
        let u = map_insert(t, k, v);
        assert forall|i: int| 0 <= i < r.len() implies wf_val((#[trigger] r[i]).0) && wf_val(
            r[i].1,
        ) by {
            if i < u.len() {
                assert(r[i] == u[i]);
            } else {
                assert(r[i] == s.last());
                assert(s.last() == s[s.len() - 1]);
            }
        }
    }
}

/// Canonicalizing canonical elements yields a canonical set value:
/// strictly sorted elements, each itself canonical.
pub proof fn lemma_canon_set_wf(elems: Seq<ValModel>)
    requires
        wf_val_seq(elems),
    ensures
        wf_val(ValModel::SetVal(canon_set(elems))),
    decreases elems.len(),
{
    lemma_canon_set_sorted(elems);
    lemma_wf_val_seq_index(elems);
    lemma_wf_val_seq_index(canon_set(elems));
    lemma_canon_set_wf_index(elems);
}

/// Every element of a canonicalized sequence is canonical.
proof fn lemma_canon_set_wf_index(elems: Seq<ValModel>)
    requires
        forall|i: int| 0 <= i < elems.len() ==> wf_val(#[trigger] elems[i]),
    ensures
        forall|i: int|
            0 <= i < canon_set(elems).len() ==> wf_val(#[trigger] canon_set(elems)[i]),
    decreases elems.len(),
{
    if elems.len() > 0 {
        let t = elems.drop_last();
        assert forall|i: int| 0 <= i < t.len() implies wf_val(#[trigger] t[i]) by {
            assert(t[i] == elems[i]);
        }
        lemma_canon_set_wf_index(t);
        assert(elems.last() == elems[elems.len() - 1]);
        lemma_set_insert_wf(canon_set(t), elems.last());
    }
}

/// Canonicalizing entries with canonical values yields a canonical
/// object value.
pub proof fn lemma_canon_obj_wf(entries: Seq<(Seq<char>, ValModel)>)
    requires
        wf_obj_entry_vals(entries),
    ensures
        wf_val(ValModel::Object(canon_obj(entries))),
    decreases entries.len(),
{
    lemma_canon_obj_sorted(entries);
    lemma_wf_obj_entry_vals_index(entries);
    lemma_wf_obj_entry_vals_index(canon_obj(entries));
    lemma_canon_obj_wf_index(entries);
}

/// Every entry value of a canonicalized object is canonical.
proof fn lemma_canon_obj_wf_index(entries: Seq<(Seq<char>, ValModel)>)
    requires
        forall|i: int| 0 <= i < entries.len() ==> wf_val((#[trigger] entries[i]).1),
    ensures
        forall|i: int|
            0 <= i < canon_obj(entries).len() ==> wf_val(#[trigger] canon_obj(entries)[i].1),
    decreases entries.len(),
{
    if entries.len() > 0 {
        let t = entries.drop_last();
        assert forall|i: int| 0 <= i < t.len() implies wf_val((#[trigger] t[i]).1) by {
            assert(t[i] == entries[i]);
        }
        lemma_canon_obj_wf_index(t);
        assert(entries.last() == entries[entries.len() - 1]);
        lemma_obj_insert_wf(canon_obj(t), entries.last().0, entries.last().1);
    }
}

/// Canonicalizing entries with canonical keys and values yields a
/// canonical map value.
pub proof fn lemma_canon_map_wf(entries: Seq<(ValModel, ValModel)>)
    requires
        wf_map_entry_vals(entries),
    ensures
        wf_val(ValModel::MapVal(canon_map(entries))),
    decreases entries.len(),
{
    lemma_canon_map_sorted(entries);
    lemma_wf_map_entry_vals_index(entries);
    lemma_wf_map_entry_vals_index(canon_map(entries));
    lemma_canon_map_wf_index(entries);
}

/// Every key and value of a canonicalized map is canonical.
proof fn lemma_canon_map_wf_index(entries: Seq<(ValModel, ValModel)>)
    requires
        forall|i: int|
            0 <= i < entries.len() ==> wf_val((#[trigger] entries[i]).0) && wf_val(entries[i].1),
    ensures
        forall|i: int|
            0 <= i < canon_map(entries).len() ==> wf_val(#[trigger] canon_map(entries)[i].0)
                && wf_val(canon_map(entries)[i].1),
    decreases entries.len(),
{
    if entries.len() > 0 {
        let t = entries.drop_last();
        assert forall|i: int| 0 <= i < t.len() implies wf_val((#[trigger] t[i]).0) && wf_val(
            t[i].1,
        ) by {
            assert(t[i] == entries[i]);
        }
        lemma_canon_map_wf_index(t);
        assert(entries.last() == entries[entries.len() - 1]);
        lemma_map_insert_wf(canon_map(t), entries.last().0, entries.last().1);
    }
}

/// Splitting off a suffix that orders above the new value: the
/// insertion happens entirely in the prefix.
proof fn lemma_set_insert_split(s: Seq<ValModel>, v: ValModel, j: int)
    requires
        0 <= j <= s.len(),
        forall|i: int| j <= i < s.len() ==> val_cmp(#[trigger] s[i], v) == 1,
    ensures
        set_insert(s, v) == set_insert(s.take(j), v) + s.skip(j),
    decreases s.len() - j,
{
    if j == s.len() {
        assert(s.take(j) =~= s);
        assert(set_insert(s, v) =~= set_insert(s.take(j), v) + s.skip(j));
    } else {
        let n = s.len() - 1;
        assert(val_cmp(s[n], v) == 1);
        let t = s.drop_last();
        assert forall|i: int| j <= i < t.len() implies val_cmp(#[trigger] t[i], v) == 1 by {
            assert(t[i] == s[i]);
        }
        lemma_set_insert_split(t, v, j);
        assert(t.take(j) =~= s.take(j));
        assert(set_insert(s, v) == set_insert(t, v).push(s.last()));
        assert((set_insert(s.take(j), v) + t.skip(j)).push(s.last()) =~= set_insert(
            s.take(j),
            v,
        ) + s.skip(j));
    }
}

/// As [`lemma_set_insert_split`], for object entries.
proof fn lemma_obj_insert_split(s: Seq<(Seq<char>, ValModel)>, k: Seq<char>, v: ValModel, j: int)
    requires
        0 <= j <= s.len(),
        forall|i: int| j <= i < s.len() ==> chars_cmp(#[trigger] s[i].0, k) == 1,
    ensures
        obj_insert(s, k, v) == obj_insert(s.take(j), k, v) + s.skip(j),
    decreases s.len() - j,
{
    if j == s.len() {
        assert(s.take(j) =~= s);
        assert(obj_insert(s, k, v) =~= obj_insert(s.take(j), k, v) + s.skip(j));
    } else {
        let n = s.len() - 1;
        assert(chars_cmp(s[n].0, k) == 1);
        let t = s.drop_last();
        assert forall|i: int| j <= i < t.len() implies chars_cmp(#[trigger] t[i].0, k) == 1 by {
            assert(t[i] == s[i]);
        }
        lemma_obj_insert_split(t, k, v, j);
        assert(t.take(j) =~= s.take(j));
        assert(obj_insert(s, k, v) == obj_insert(t, k, v).push(s.last()));
        assert((obj_insert(s.take(j), k, v) + t.skip(j)).push(s.last()) =~= obj_insert(
            s.take(j),
            k,
            v,
        ) + s.skip(j));
    }
}

/// As [`lemma_set_insert_split`], for map entries.
proof fn lemma_map_insert_split(s: Seq<(ValModel, ValModel)>, k: ValModel, v: ValModel, j: int)
    requires
        0 <= j <= s.len(),
        forall|i: int| j <= i < s.len() ==> val_cmp(#[trigger] s[i].0, k) == 1,
    ensures
        map_insert(s, k, v) == map_insert(s.take(j), k, v) + s.skip(j),
    decreases s.len() - j,
{
    if j == s.len() {
        assert(s.take(j) =~= s);
        assert(map_insert(s, k, v) =~= map_insert(s.take(j), k, v) + s.skip(j));
    } else {
        let n = s.len() - 1;
        assert(val_cmp(s[n].0, k) == 1);
        let t = s.drop_last();
        assert forall|i: int| j <= i < t.len() implies val_cmp(#[trigger] t[i].0, k) == 1 by {
            assert(t[i] == s[i]);
        }
        lemma_map_insert_split(t, k, v, j);
        assert(t.take(j) =~= s.take(j));
        assert(map_insert(s, k, v) == map_insert(t, k, v).push(s.last()));
        assert((map_insert(s.take(j), k, v) + t.skip(j)).push(s.last()) =~= map_insert(
            s.take(j),
            k,
            v,
        ) + s.skip(j));
    }
}

/// Insert a value into a canonical element vector, keeping it canonical.
pub fn set_insert_vec(arr: &mut Vec<Value>, v: Value)
    ensures
        seq_model(final(arr)@) == set_insert(seq_model(old(arr)@), v@),
{
    let ghost s0 = seq_model(old(arr)@);
    proof {
        lemma_seq_model(old(arr)@);
    }
    let mut j: usize = arr.len();
    while j > 0
        invariant
            arr@ == old(arr)@,
            j <= arr@.len(),
            s0 == seq_model(arr@),
            s0.len() == arr@.len(),
            forall|t: int| 0 <= t < arr@.len() ==> s0[t] == #[trigger] arr@[t]@,
            forall|i: int| j <= i < s0.len() ==> val_cmp(#[trigger] s0[i], v@) == 1,
        decreases j,
    {
        let c = value_cmp(&arr[j - 1], &v);
        match c {
            Cmp::Lt => {
                proof {
                    lemma_set_insert_split(s0, v@, j as int);
                    assert(s0.take(j as int).last() == s0[j as int - 1]);
                    assert(set_insert(s0.take(j as int), v@) == s0.take(j as int).push(v@));
                    lemma_seq_model_insert(arr@, j as int, v);
                }
                arr.insert(j, v);
                proof {
                    s0.insert_ensures(j as int, v@);
                    assert(seq_model(arr@) == s0.insert(j as int, v@));
                    assert(s0.insert(j as int, v@) =~= set_insert(s0, v@));
                }
                return;
            },
            Cmp::Eq => {
                proof {
                    lemma_set_insert_split(s0, v@, j as int);
                    assert(s0.take(j as int).last() == s0[j as int - 1]);
                    assert(set_insert(s0.take(j as int), v@) == s0.take(j as int));
                    assert(set_insert(s0, v@) =~= s0);
                }
                return;
            },
            Cmp::Gt => {
                proof {
                    assert(s0[j as int - 1] == arr@[j as int - 1]@);
                }
                j = j - 1;
            },
        }
    }
    proof {
        lemma_set_insert_split(s0, v@, 0);
        assert(s0.take(0) =~= Seq::<ValModel>::empty());
        assert(s0.skip(0) =~= s0);
    }
    proof {
        lemma_seq_model_insert(arr@, 0, v);
    }
    arr.insert(0, v);
    proof {
        s0.insert_ensures(0, v@);
        assert(seq_model(arr@) == s0.insert(0, v@));
        assert(s0.insert(0, v@) =~= set_insert(s0, v@));
    }
}

/// Insert an entry into a canonical object vector, keeping it
/// canonical; a later entry for an existing key replaces the earlier one.
pub fn obj_insert_vec(arr: &mut Vec<(String, Value)>, k: String, v: Value)
    ensures
        obj_model(final(arr)@) == obj_insert(obj_model(old(arr)@), k@, v@),
{
    let ghost s0 = obj_model(old(arr)@);
    proof {
        lemma_obj_model(old(arr)@);
    }
    let mut j: usize = arr.len();
    while j > 0
        invariant
            arr@ == old(arr)@,
            j <= arr@.len(),
            s0 == obj_model(arr@),
            s0.len() == arr@.len(),
            forall|t: int| 0 <= t < arr@.len() ==> s0[t] == (#[trigger] arr@[t].0@, arr@[t].1@),
            forall|i: int| j <= i < s0.len() ==> chars_cmp(#[trigger] s0[i].0, k@) == 1,
        decreases j,
    {
        let c = str_cmp(arr[j - 1].0.as_str(), k.as_str());
        match c {
            Cmp::Lt => {
                proof {
                    lemma_obj_insert_split(s0, k@, v@, j as int);
                    assert(s0.take(j as int).last() == s0[j as int - 1]);
                    assert(obj_insert(s0.take(j as int), k@, v@) == s0.take(j as int).push(
                        (k@, v@),
                    ));
                    lemma_obj_model_insert(arr@, j as int, (k, v));
                }
                arr.insert(j, (k, v));
                proof {
                    s0.insert_ensures(j as int, (k@, v@));
                    assert(obj_model(arr@) == s0.insert(j as int, (k@, v@)));
                    assert(s0.insert(j as int, (k@, v@)) =~= obj_insert(s0, k@, v@));
                }
                return;
            },
            Cmp::Eq => {
                proof {
                    lemma_obj_insert_split(s0, k@, v@, j as int);
                    assert(s0.take(j as int).last() == s0[j as int - 1]);
                    assert(obj_insert(s0.take(j as int), k@, v@) == s0.take(
                        j as int,
                    ).drop_last().push((k@, v@)));
                    lemma_obj_model_update(arr@, j as int - 1, (k, v));
                }
                arr.set(j - 1, (k, v));
                proof {
                    assert(obj_model(arr@) == s0.update(j as int - 1, (k@, v@)));
                    assert(s0.update(j as int - 1, (k@, v@)) =~= obj_insert(s0, k@, v@));
                }
                return;
            },
            Cmp::Gt => {
                proof {
                    assert(s0[j as int - 1] == (arr@[j as int - 1].0@, arr@[j as int - 1].1@));
                }
                j = j - 1;
            },
        }
    }
    proof {
        lemma_obj_insert_split(s0, k@, v@, 0);
        assert(s0.take(0) =~= Seq::<(Seq<char>, ValModel)>::empty());
        assert(s0.skip(0) =~= s0);
        lemma_obj_model_insert(arr@, 0, (k, v));
    }
    arr.insert(0, (k, v));
    proof {
        s0.insert_ensures(0, (k@, v@));
        assert(obj_model(arr@) == s0.insert(0, (k@, v@)));
        assert(s0.insert(0, (k@, v@)) =~= obj_insert(s0, k@, v@));
    }
}

/// Insert an entry into a canonical map vector, keeping it canonical;
/// a later entry for an existing key replaces the earlier one.
pub fn map_insert_vec(arr: &mut Vec<(Value, Value)>, k: Value, v: Value)
    ensures
        pair_model(final(arr)@) == map_insert(pair_model(old(arr)@), k@, v@),
{
    let ghost s0 = pair_model(old(arr)@);
    proof {
        lemma_pair_model(old(arr)@);
    }
    let mut j: usize = arr.len();
    while j > 0
        invariant
            arr@ == old(arr)@,
            j <= arr@.len(),
            s0 == pair_model(arr@),
            s0.len() == arr@.len(),
            forall|t: int| 0 <= t < arr@.len() ==> s0[t] == (#[trigger] arr@[t].0@, arr@[t].1@),
            forall|i: int| j <= i < s0.len() ==> val_cmp(#[trigger] s0[i].0, k@) == 1,
        decreases j,
    {
        let c = value_cmp(&arr[j - 1].0, &k);
        match c {
            Cmp::Lt => {
                proof {
                    lemma_map_insert_split(s0, k@, v@, j as int);
                    assert(s0.take(j as int).last() == s0[j as int - 1]);
                    assert(map_insert(s0.take(j as int), k@, v@) == s0.take(j as int).push(
                        (k@, v@),
                    ));
                    lemma_pair_model_insert(arr@, j as int, (k, v));
                }
                arr.insert(j, (k, v));
                proof {
                    s0.insert_ensures(j as int, (k@, v@));
                    assert(pair_model(arr@) == s0.insert(j as int, (k@, v@)));
                    assert(s0.insert(j as int, (k@, v@)) =~= map_insert(s0, k@, v@));
                }
                return;
            },
            Cmp::Eq => {
                proof {
                    lemma_map_insert_split(s0, k@, v@, j as int);
                    assert(s0.take(j as int).last() == s0[j as int - 1]);
                    assert(map_insert(s0.take(j as int), k@, v@) == s0.take(
                        j as int,
                    ).drop_last().push((k@, v@)));
                    lemma_pair_model_update(arr@, j as int - 1, (k, v));
                }
                arr.set(j - 1, (k, v));
                proof {
                    assert(pair_model(arr@) == s0.update(j as int - 1, (k@, v@)));
                    assert(s0.update(j as int - 1, (k@, v@)) =~= map_insert(s0, k@, v@));
                }
                return;
            },
            Cmp::Gt => {
                proof {
                    assert(s0[j as int - 1] == (arr@[j as int - 1].0@, arr@[j as int - 1].1@));
                }
                j = j - 1;
            },
        }
    }
    proof {
        lemma_map_insert_split(s0, k@, v@, 0);
        assert(s0.take(0) =~= Seq::<(ValModel, ValModel)>::empty());
        assert(s0.skip(0) =~= s0);
        lemma_pair_model_insert(arr@, 0, (k, v));
    }
    arr.insert(0, (k, v));
    proof {
        s0.insert_ensures(0, (k@, v@));
        assert(pair_model(arr@) == s0.insert(0, (k@, v@)));
        assert(s0.insert(0, (k@, v@)) =~= map_insert(s0, k@, v@));
    }
}

} // verus!
