//! Marshalling between the value model and the host value space.
//!
//! Toward the host the conversion is total: every value has a host
//! image, and a 64-bit integer travels as the explicit wrapper so that
//! it is never confused with a float. From the host the conversion is
//! partial: a foreign value is rejected with [`UnrepresentableValue`],
//! never silently dropped or replaced. The coercion policy is fixed: a
//! boolean converts to a boolean, never to a number; a plain host
//! integer widens to a float; only the explicit wrapper yields a 64-bit
//! integer; a mapping becomes an object exactly when every key converts
//! to a string, and a map otherwise.

use vstd::prelude::*;
use crate::canon::{
    canon_map, canon_obj, canon_set, lemma_canon_map_of_sorted, lemma_canon_map_wf,
    lemma_canon_obj_of_sorted, lemma_canon_obj_wf, lemma_canon_set_of_sorted, lemma_canon_set_wf,
    lemma_wf_map_entry_vals_index, lemma_wf_obj_entry_vals_index, map_insert, obj_insert,
    set_insert, wf_map_entry_vals, wf_obj_entry_vals, wf_val, wf_val_seq,
};
use crate::host::{
    host_dict_model, host_seq_model, lemma_host_dict_model, lemma_host_seq_model,
    lemma_host_dict_model_push, lemma_host_seq_model_push, HostModel, HostValue,
};
use crate::numeric::{f64_bits_of_int, int_to_f64_bits};
use crate::value::{
    lemma_obj_model, lemma_pair_model, lemma_pair_model_push, lemma_seq_model,
    lemma_seq_model_push, obj_model, pair_model, seq_model, ValModel, Value,
};
use crate::canon::{map_insert_vec, obj_insert_vec, set_insert_vec};

verus! {

broadcast use {vstd::seq::group_seq_axioms, vstd::std_specs::vec::group_vec_axioms};

/// Why a host value was rejected: its host type converts to no value.
/// The offending value is described, never partially converted.
#[derive(Debug, PartialEq, Eq)]
pub struct UnrepresentableValue {
    /// Name of the host type that has no conversion.
    pub host_type: String,
    /// Printable description of the offending value.
    pub description: String,
}

/// Spec-level mirror of [`UnrepresentableValue`].
pub struct UnrepresentableModel {
    /// Name of the host type that has no conversion.
    pub host_type: Seq<char>,
    /// Printable description of the offending value.
    pub description: Seq<char>,
}

impl View for UnrepresentableValue {
    type V = UnrepresentableModel;

    open spec fn view(&self) -> UnrepresentableModel {
        UnrepresentableModel { host_type: self.host_type@, description: self.description@ }
    }
}

/// Host image of a value: one case per variant, recursing into the
/// children; total, since a value is already well formed.
pub open spec fn val_to_host(v: ValModel) -> HostModel
    decreases v,
{
    match v {
        ValModel::Null => HostModel::Absent,
        ValModel::Int64(i) => HostModel::Int64Box(i),
        ValModel::Float64(bits) => HostModel::Float(bits),
        ValModel::Boolean(b) => HostModel::Bool(b),
        ValModel::Text(s) => HostModel::Text(s),
        ValModel::Bytes(bs) => HostModel::Bytes(bs),
        ValModel::Array(items) => HostModel::List(vals_to_hosts(items)),
        ValModel::Object(entries) => HostModel::Dict(obj_entries_to_hosts(entries)),
        ValModel::SetVal(items) => HostModel::SetLike(vals_to_hosts(items)),
        ValModel::MapVal(entries) => HostModel::Dict(map_entries_to_hosts(entries)),
    }
}

/// Host images of a value sequence, elementwise, order preserved.
pub open spec fn vals_to_hosts(s: Seq<ValModel>) -> Seq<HostModel>
    decreases s,
{
    if s.len() == 0 {
        Seq::empty()
    } else {
        vals_to_hosts(s.drop_last()).push(val_to_host(s.last()))
    }
}

/// Host images of object entries: each key becomes a host string.
pub open spec fn obj_entries_to_hosts(s: Seq<(Seq<char>, ValModel)>) -> Seq<(HostModel, HostModel)>
    decreases s,
{
    if s.len() == 0 {
        Seq::empty()
    } else {
        obj_entries_to_hosts(s.drop_last()).push(
            (HostModel::Text(s.last().0), val_to_host(s.last().1)),
        )
    }
}

/// Host images of map entries, key and value converted alike.
pub open spec fn map_entries_to_hosts(s: Seq<(ValModel, ValModel)>) -> Seq<(HostModel, HostModel)>
    decreases s,
{
    if s.len() == 0 {
        Seq::empty()
    } else {
        map_entries_to_hosts(s.drop_last()).push(
            (val_to_host(s.last().0), val_to_host(s.last().1)),
        )
    }
}

/// `vals_to_hosts` maps elementwise.
pub proof fn lemma_vals_to_hosts(s: Seq<ValModel>)
    ensures
        vals_to_hosts(s).len() == s.len(),
        forall|i: int| 0 <= i < s.len() ==> vals_to_hosts(s)[i] == val_to_host(#[trigger] s[i]),
    decreases s,
{
    if s.len() > 0 {
        lemma_vals_to_hosts(s.drop_last());
        assert forall|i: int| 0 <= i < s.len() implies vals_to_hosts(s)[i] == val_to_host(
            #[trigger] s[i],
        ) by {
            if i < s.len() - 1 {
                assert(vals_to_hosts(s)[i] == vals_to_hosts(s.drop_last())[i]);
                assert(s.drop_last()[i] == s[i]);
            }
        }
    }
}

/// `obj_entries_to_hosts` maps elementwise.
pub proof fn lemma_obj_entries_to_hosts(s: Seq<(Seq<char>, ValModel)>)
    ensures
        obj_entries_to_hosts(s).len() == s.len(),
        forall|i: int| 0 <= i < s.len() ==> obj_entries_to_hosts(s)[i] == (
            HostModel::Text(#[trigger] s[i].0),
            val_to_host(s[i].1),
        ),
    decreases s,
{
    if s.len() > 0 {
        lemma_obj_entries_to_hosts(s.drop_last());
        assert forall|i: int| 0 <= i < s.len() implies obj_entries_to_hosts(s)[i] == (
            HostModel::Text(#[trigger] s[i].0),
            val_to_host(s[i].1),
        ) by {
            if i < s.len() - 1 {
                assert(obj_entries_to_hosts(s)[i] == obj_entries_to_hosts(s.drop_last())[i]);
                assert(s.drop_last()[i] == s[i]);
            }
        }
    }
}

/// `map_entries_to_hosts` maps elementwise.
pub proof fn lemma_map_entries_to_hosts(s: Seq<(ValModel, ValModel)>)
    ensures
        map_entries_to_hosts(s).len() == s.len(),
        forall|i: int| 0 <= i < s.len() ==> map_entries_to_hosts(s)[i] == (
            val_to_host(#[trigger] s[i].0),
            val_to_host(s[i].1),
        ),
    decreases s,
{
    if s.len() > 0 {
        lemma_map_entries_to_hosts(s.drop_last());
        assert forall|i: int| 0 <= i < s.len() implies map_entries_to_hosts(s)[i] == (
            val_to_host(#[trigger] s[i].0),
            val_to_host(s[i].1),
        ) by {
            if i < s.len() - 1 {
                assert(map_entries_to_hosts(s)[i] == map_entries_to_hosts(s.drop_last())[i]);
                assert(s.drop_last()[i] == s[i]);
            }
        }
    }
}

/// Copy of a byte vector.
fn copy_bytes(b: &Vec<u8>) -> (r: Vec<u8>)
    ensures
        r@ == b@,
{
    let mut r: Vec<u8> = Vec::new();
    let mut i: usize = 0;
    while i < b.len()
        invariant
            i <= b@.len(),
            r@ == b@.take(i as int),
        decreases b@.len() - i,
    {
        r.push(b[i]);
        proof {
            assert(b@.take(i as int + 1) =~= b@.take(i as int).push(b@[i as int]));
        }
        i = i + 1;
    }
    proof {
        assert(b@.take(b@.len() as int) =~= b@);
    }
    r
}

/// The host image of a value. Total: every value converts, and the
/// image is exactly [`val_to_host`] of the value's model.
#[verifier::loop_isolation(false)]
pub fn value_to_host(v: &Value) -> (h: HostValue)
    ensures
        h@ == val_to_host(v@),
    decreases *v,
{
    match v {
        Value::Null => HostValue::Absent,
        Value::Int64(i) => HostValue::Int64Box(*i),
        Value::Float64(bits) => HostValue::Float(*bits),
        Value::Boolean(b) => HostValue::Bool(*b),
        Value::Text(s) => HostValue::Text(s.clone()),
        Value::Bytes(bs) => HostValue::Bytes(copy_bytes(bs)),
        Value::Array(items) => {
            let ghost m = seq_model(items@);
            proof {
                lemma_seq_model(items@);
                lemma_vals_to_hosts(m);
            }
            let mut acc: Vec<HostValue> = Vec::new();
            let mut i: usize = 0;
            while i < items.len()
                invariant
                    i <= items@.len(),
                    m == seq_model(items@),
                    m.len() == items@.len(),
                    forall|j: int| 0 <= j < items@.len() ==> m[j] == #[trigger] items@[j]@,
                    vals_to_hosts(m).len() == m.len(),
                    forall|j: int| 0 <= j < m.len() ==> vals_to_hosts(m)[j] == val_to_host(
                        #[trigger] m[j],
                    ),
                    host_seq_model(acc@) == vals_to_hosts(m).take(i as int),
                decreases items@.len() - i,
            {
                let h = value_to_host(&items[i]);
                proof {
                    lemma_host_seq_model_push(acc@, h);
                    assert(vals_to_hosts(m).take(i as int + 1) =~= vals_to_hosts(m).take(
                        i as int,
                    ).push(vals_to_hosts(m)[i as int]));
                }
                acc.push(h);
                i = i + 1;
            }
            proof {
                assert(vals_to_hosts(m).take(m.len() as int) =~= vals_to_hosts(m));
            }
            HostValue::List(acc)
        },
        Value::SetVal(items) => {
            let ghost m = seq_model(items@);
            proof {
                lemma_seq_model(items@);
                lemma_vals_to_hosts(m);
            }
            let mut acc: Vec<HostValue> = Vec::new();
            let mut i: usize = 0;
            while i < items.len()
                invariant
                    i <= items@.len(),
                    m == seq_model(items@),
                    m.len() == items@.len(),
                    forall|j: int| 0 <= j < items@.len() ==> m[j] == #[trigger] items@[j]@,
                    vals_to_hosts(m).len() == m.len(),
                    forall|j: int| 0 <= j < m.len() ==> vals_to_hosts(m)[j] == val_to_host(
                        #[trigger] m[j],
                    ),
                    host_seq_model(acc@) == vals_to_hosts(m).take(i as int),
                decreases items@.len() - i,
            {
                let h = value_to_host(&items[i]);
                proof {
                    lemma_host_seq_model_push(acc@, h);
                    assert(vals_to_hosts(m).take(i as int + 1) =~= vals_to_hosts(m).take(
                        i as int,
                    ).push(vals_to_hosts(m)[i as int]));
                }
                acc.push(h);
                i = i + 1;
            }
            proof {
                assert(vals_to_hosts(m).take(m.len() as int) =~= vals_to_hosts(m));
            }
            HostValue::SetLike(acc)
        },
        Value::Object(entries) => {
            let ghost m = obj_model(entries@);
            proof {
                lemma_obj_model(entries@);
                lemma_obj_entries_to_hosts(m);
            }
            let mut acc: Vec<(HostValue, HostValue)> = Vec::new();
            let mut i: usize = 0;
            while i < entries.len()
                invariant
                    i <= entries@.len(),
                    m == obj_model(entries@),
                    m.len() == entries@.len(),
                    forall|j: int| 0 <= j < entries@.len() ==> m[j] == (
                        #[trigger] entries@[j].0@,
                        entries@[j].1@,
                    ),
                    obj_entries_to_hosts(m).len() == m.len(),
                    forall|j: int| 0 <= j < m.len() ==> obj_entries_to_hosts(m)[j] == (
                        HostModel::Text(#[trigger] m[j].0),
                        val_to_host(m[j].1),
                    ),
                    host_dict_model(acc@) == obj_entries_to_hosts(m).take(i as int),
                decreases entries@.len() - i,
            {
                let hk = HostValue::Text(entries[i].0.clone());
                let hv = value_to_host(&entries[i].1);
                proof {
                    lemma_host_dict_model_push(acc@, (hk, hv));
                    assert(m[i as int] == (entries@[i as int].0@, entries@[i as int].1@));
                    assert(obj_entries_to_hosts(m)[i as int] == (
                        HostModel::Text(m[i as int].0),
                        val_to_host(m[i as int].1),
                    ));
                    assert(hk@ == HostModel::Text(m[i as int].0));
                    assert(hv@ == val_to_host(m[i as int].1));
                    assert(obj_entries_to_hosts(m).take(i as int + 1) =~= obj_entries_to_hosts(
                        m,
                    ).take(i as int).push(obj_entries_to_hosts(m)[i as int]));
                }
                acc.push((hk, hv));
                i = i + 1;
            }
            proof {
                assert(obj_entries_to_hosts(m).take(m.len() as int) =~= obj_entries_to_hosts(m));
            }
            HostValue::Dict(acc)
        },
        Value::MapVal(entries) => {
            let ghost m = pair_model(entries@);
            proof {
                lemma_pair_model(entries@);
                lemma_map_entries_to_hosts(m);
            }
            let mut acc: Vec<(HostValue, HostValue)> = Vec::new();
            let mut i: usize = 0;
            while i < entries.len()
                invariant
                    i <= entries@.len(),
                    m == pair_model(entries@),
                    m.len() == entries@.len(),
                    forall|j: int| 0 <= j < entries@.len() ==> m[j] == (
                        #[trigger] entries@[j].0@,
                        entries@[j].1@,
                    ),
                    map_entries_to_hosts(m).len() == m.len(),
                    forall|j: int| 0 <= j < m.len() ==> map_entries_to_hosts(m)[j] == (
                        val_to_host(#[trigger] m[j].0),
                        val_to_host(m[j].1),
                    ),
                    host_dict_model(acc@) == map_entries_to_hosts(m).take(i as int),
                decreases entries@.len() - i,
            {
                let hk = value_to_host(&entries[i].0);
                let hv = value_to_host(&entries[i].1);
                proof {
                    lemma_host_dict_model_push(acc@, (hk, hv));
                    assert(m[i as int] == (entries@[i as int].0@, entries@[i as int].1@));
                    assert(map_entries_to_hosts(m)[i as int] == (
                        val_to_host(m[i as int].0),
                        val_to_host(m[i as int].1),
                    ));
                    assert(hk@ == val_to_host(m[i as int].0));
                    assert(hv@ == val_to_host(m[i as int].1));
                    assert(map_entries_to_hosts(m).take(i as int + 1) =~= map_entries_to_hosts(
                        m,
                    ).take(i as int).push(map_entries_to_hosts(m)[i as int]));
                }
                acc.push((hk, hv));
                i = i + 1;
            }
            proof {
                assert(map_entries_to_hosts(m).take(m.len() as int) =~= map_entries_to_hosts(m));
            }
            HostValue::Dict(acc)
        },
    }
}

/// Value of a host value: one case per kind, in the fixed coercion
/// order; fails exactly on a foreign value, wherever it sits.
pub open spec fn host_to_val(h: HostModel) -> Result<ValModel, UnrepresentableModel>
    decreases h,
{
    match h {
        HostModel::Absent => Ok(ValModel::Null),
        HostModel::Bool(b) => Ok(ValModel::Boolean(b)),
        HostModel::Int(i) => Ok(ValModel::Float64(f64_bits_of_int(i as int))),
        HostModel::Float(bits) => Ok(ValModel::Float64(bits)),
        HostModel::Int64Box(i) => Ok(ValModel::Int64(i)),
        HostModel::Text(s) => Ok(ValModel::Text(s)),
        HostModel::Bytes(bs) => Ok(ValModel::Bytes(bs)),
        HostModel::List(items) => match hosts_to_vals(items) {
            Ok(vs) => Ok(ValModel::Array(vs)),
            Err(e) => Err(e),
        },
        HostModel::SetLike(items) => match hosts_to_vals(items) {
            Ok(vs) => Ok(ValModel::SetVal(canon_set(vs))),
            Err(e) => Err(e),
        },
        HostModel::Dict(entries) => match dict_to_val_pairs(entries) {
            Ok(ps) => if all_keys_text(ps) {
                Ok(ValModel::Object(canon_obj(text_key_entries(ps))))
            } else {
                Ok(ValModel::MapVal(canon_map(ps)))
            },
            Err(e) => Err(e),
        },
        HostModel::Foreign { host_type, description } => Err(
            UnrepresentableModel { host_type, description },
        ),
    }
}

/// Values of a host sequence, elementwise; the first failure wins.
pub open spec fn hosts_to_vals(s: Seq<HostModel>) -> Result<Seq<ValModel>, UnrepresentableModel>
    decreases s,
{
    if s.len() == 0 {
        Ok(Seq::empty())
    } else {
        match host_to_val(s[0]) {
            Ok(v) => match hosts_to_vals(s.drop_first()) {
                Ok(vs) => Ok(seq![v] + vs),
                Err(e) => Err(e),
            },
            Err(e) => Err(e),
        }
    }
}

/// Converted entries of a host mapping, the value of each entry
/// converted before its key; the first failure wins.
pub open spec fn dict_to_val_pairs(s: Seq<(HostModel, HostModel)>) -> Result<
    Seq<(ValModel, ValModel)>,
    UnrepresentableModel,
>
    decreases s,
{
    if s.len() == 0 {
        Ok(Seq::empty())
    } else {
        match host_to_val(s[0].1) {
            Ok(v) => match host_to_val(s[0].0) {
                Ok(k) => match dict_to_val_pairs(s.drop_first()) {
                    Ok(ps) => Ok(seq![(k, v)] + ps),
                    Err(e) => Err(e),
                },
                Err(e) => Err(e),
            },
            Err(e) => Err(e),
        }
    }
}

/// Every key converted to a string value.
pub open spec fn all_keys_text(ps: Seq<(ValModel, ValModel)>) -> bool {
    forall|i: int| 0 <= i < ps.len() ==> (#[trigger] ps[i].0) is Text
}

/// The entries with their keys read as strings.
pub open spec fn text_key_entries(ps: Seq<(ValModel, ValModel)>) -> Seq<(Seq<char>, ValModel)>
    decreases ps,
{
    if ps.len() == 0 {
        Seq::empty()
    } else {
        text_key_entries(ps.drop_last()) + (match ps.last().0 {
            ValModel::Text(t) => seq![(t, ps.last().1)],
            _ => Seq::empty(),
        })
    }
}

/// The values of the first `i` host elements, each known to convert.
pub open spec fn ok_prefix_vals(s: Seq<HostModel>, i: int) -> Seq<ValModel> {
    Seq::new(i as nat, |j: int| host_to_val(s[j])->Ok_0)
}

/// The converted entries of the first `i` host entries, each known to
/// convert.
pub open spec fn ok_prefix_pairs(s: Seq<(HostModel, HostModel)>, i: int) -> Seq<
    (ValModel, ValModel),
> {
    Seq::new(i as nat, |j: int| (host_to_val(s[j].0)->Ok_0, host_to_val(s[j].1)->Ok_0))
}

/// When a prefix converts, the whole conversion is decided by the rest.
proof fn lemma_hosts_to_vals_split(s: Seq<HostModel>, i: int)
    requires
        0 <= i <= s.len(),
        forall|j: int| 0 <= j < i ==> (host_to_val(#[trigger] s[j]) is Ok),
    ensures
        match hosts_to_vals(s.skip(i)) {
            Ok(vs) => hosts_to_vals(s) == Ok::<_, UnrepresentableModel>(
                ok_prefix_vals(s, i) + vs,
            ),
            Err(e) => hosts_to_vals(s) == Err::<Seq<ValModel>, _>(e),
        },
    decreases i,
{
    if i == 0 {
        assert(s.skip(0) =~= s);
        match hosts_to_vals(s) {
            Ok(vs) => {
                assert(ok_prefix_vals(s, 0) + vs =~= vs);
            },
            Err(e) => {},
        }
    } else {
        let t = s.drop_first();
        assert forall|j: int| 0 <= j < i - 1 implies (host_to_val(#[trigger] t[j]) is Ok) by {
            assert(t[j] == s[j + 1]);
        }
        lemma_hosts_to_vals_split(t, i - 1);
        assert(t.skip(i - 1) =~= s.skip(i));
        let v0 = host_to_val(s[0])->Ok_0;
        match hosts_to_vals(s.skip(i)) {
            Ok(vs) => {
                assert(hosts_to_vals(t) == Ok::<_, UnrepresentableModel>(
                    ok_prefix_vals(t, i - 1) + vs,
                ));
                assert(ok_prefix_vals(s, i) =~= seq![v0] + ok_prefix_vals(t, i - 1)) by {
                    assert forall|j: int| 0 <= j < i implies ok_prefix_vals(s, i)[j] == (seq![v0]
                        + ok_prefix_vals(t, i - 1))[j] by {
                        if j > 0 {
                            assert(t[j - 1] == s[j]);
                        }
                    }
                }
                assert(seq![v0] + (ok_prefix_vals(t, i - 1) + vs) =~= ok_prefix_vals(s, i) + vs);
            },
            Err(e) => {},
        }
    }
}

/// When a prefix of entries converts, the whole conversion is decided
/// by the rest.
proof fn lemma_dict_to_val_pairs_split(s: Seq<(HostModel, HostModel)>, i: int)
    requires
        0 <= i <= s.len(),
        forall|j: int| 0 <= j < i ==> (host_to_val(#[trigger] s[j].1) is Ok),
        forall|j: int| 0 <= j < i ==> (host_to_val(#[trigger] s[j].0) is Ok),
    ensures
        match dict_to_val_pairs(s.skip(i)) {
            Ok(ps) => dict_to_val_pairs(s) == Ok::<_, UnrepresentableModel>(
                ok_prefix_pairs(s, i) + ps,
            ),
            Err(e) => dict_to_val_pairs(s) == Err::<Seq<(ValModel, ValModel)>, _>(e),
        },
    decreases i,
{
    if i == 0 {
        assert(s.skip(0) =~= s);
        match dict_to_val_pairs(s) {
            Ok(ps) => {
                assert(ok_prefix_pairs(s, 0) + ps =~= ps);
            },
            Err(e) => {},
        }
    } else {
        let t = s.drop_first();
        assert forall|j: int| 0 <= j < i - 1 implies (host_to_val(#[trigger] t[j].1) is Ok)
            && (host_to_val(#[trigger] t[j].0) is Ok) by {
            assert(t[j] == s[j + 1]);
        }
        lemma_dict_to_val_pairs_split(t, i - 1);
        assert(t.skip(i - 1) =~= s.skip(i));
        let e0 = (host_to_val(s[0].0)->Ok_0, host_to_val(s[0].1)->Ok_0);
        match dict_to_val_pairs(s.skip(i)) {
            Ok(ps) => {
                assert(dict_to_val_pairs(t) == Ok::<_, UnrepresentableModel>(
                    ok_prefix_pairs(t, i - 1) + ps,
                ));
                assert(ok_prefix_pairs(s, i) =~= seq![e0] + ok_prefix_pairs(t, i - 1)) by {
                    assert forall|j: int| 0 <= j < i implies ok_prefix_pairs(s, i)[j] == (seq![e0]
                        + ok_prefix_pairs(t, i - 1))[j] by {
                        if j > 0 {
                            assert(t[j - 1] == s[j]);
                        }
                    }
                }
                assert(seq![e0] + (ok_prefix_pairs(t, i - 1) + ps) =~= ok_prefix_pairs(s, i) + ps);
            },
            Err(e) => {},
        }
    }
}

/// Whether a value is a string value.
fn is_text_value(v: &Value) -> (b: bool)
    ensures
        b == (v@ is Text),
{
    match v {
        Value::Text(_) => true,
        Value::Null => false,
        Value::Int64(_) => false,
        Value::Float64(_) => false,
        Value::Boolean(_) => false,
        Value::Bytes(_) => false,
        Value::Array(_) => false,
        Value::Object(_) => false,
        Value::SetVal(_) => false,
        Value::MapVal(_) => false,
    }
}

/// The value of a host value, under the fixed coercion policy; a
/// foreign value anywhere in the input is rejected and nothing partial
/// is returned. The result is exactly [`host_to_val`] of the input's
/// model.
#[verifier::loop_isolation(false)]
#[verifier::rlimit(60)]
pub fn host_to_value(h: &HostValue) -> (r: Result<Value, UnrepresentableValue>)
    ensures
        (r is Ok) == (host_to_val(h@) is Ok),
        r is Ok ==> host_to_val(h@) == Ok::<ValModel, UnrepresentableModel>((r->Ok_0)@),
        r is Err ==> host_to_val(h@) == Err::<ValModel, UnrepresentableModel>((r->Err_0)@),
    decreases *h,
{
    match h {
        HostValue::Absent => Ok(Value::Null),
        HostValue::Bool(b) => Ok(Value::Boolean(*b)),
        HostValue::Int(i) => Ok(Value::Float64(int_to_f64_bits(*i))),
        HostValue::Float(bits) => Ok(Value::Float64(*bits)),
        HostValue::Int64Box(i) => Ok(Value::Int64(*i)),
        HostValue::Text(s) => Ok(Value::Text(s.clone())),
        HostValue::Bytes(bs) => Ok(Value::Bytes(copy_bytes(bs))),
        HostValue::Foreign { host_type, description } => Err(
            UnrepresentableValue { host_type: host_type.clone(), description: description.clone() },
        ),
        HostValue::List(items) => {
            let ghost m = host_seq_model(items@);
            proof {
                lemma_host_seq_model(items@);
            }
            let mut acc: Vec<Value> = Vec::new();
            let mut i: usize = 0;
            while i < items.len()
                invariant
                    i <= items@.len(),
                    m.len() == items@.len(),
                    forall|j: int| 0 <= j < items@.len() ==> m[j] == #[trigger] items@[j]@,
                    forall|j: int| 0 <= j < i ==> (host_to_val(#[trigger] m[j]) is Ok),
                    seq_model(acc@) == ok_prefix_vals(m, i as int),
                decreases items@.len() - i,
            {
                match host_to_value(&items[i]) {
                    Ok(v) => {
                        proof {
                            lemma_seq_model_push(acc@, v);
                            assert(ok_prefix_vals(m, i as int + 1) =~= ok_prefix_vals(
                                m,
                                i as int,
                            ).push(host_to_val(m[i as int])->Ok_0));
                        }
                        acc.push(v);
                    },
                    Err(e) => {
                        proof {
                            lemma_hosts_to_vals_split(m, i as int);
                            assert(m.skip(i as int)[0] == m[i as int]);
                        }
                        return Err(e);
                    },
                }
                i = i + 1;
            }
            proof {
                lemma_hosts_to_vals_split(m, m.len() as int);
                assert(m.skip(m.len() as int) =~= Seq::<HostModel>::empty());
                assert(ok_prefix_vals(m, m.len() as int) + Seq::<ValModel>::empty()
                    =~= ok_prefix_vals(m, m.len() as int));
            }
            Ok(Value::Array(acc))
        },
        HostValue::SetLike(items) => {
            let ghost m = host_seq_model(items@);
            proof {
                lemma_host_seq_model(items@);
            }
            let mut acc: Vec<Value> = Vec::new();
            let mut i: usize = 0;
            proof {
                assert(ok_prefix_vals(m, 0) =~= Seq::<ValModel>::empty());
                assert(canon_set(ok_prefix_vals(m, 0)) =~= Seq::<ValModel>::empty());
            }
            while i < items.len()
                invariant
                    i <= items@.len(),
                    m.len() == items@.len(),
                    forall|j: int| 0 <= j < items@.len() ==> m[j] == #[trigger] items@[j]@,
                    forall|j: int| 0 <= j < i ==> (host_to_val(#[trigger] m[j]) is Ok),
                    seq_model(acc@) == canon_set(ok_prefix_vals(m, i as int)),
                decreases items@.len() - i,
            {
                match host_to_value(&items[i]) {
                    Ok(v) => {
                        proof {
                            assert(ok_prefix_vals(m, i as int + 1).drop_last() =~= ok_prefix_vals(
                                m,
                                i as int,
                            ));
                            assert(ok_prefix_vals(m, i as int + 1).last() == host_to_val(
                                m[i as int],
                            )->Ok_0);
                        }
                        set_insert_vec(&mut acc, v);
                    },
                    Err(e) => {
                        proof {
                            lemma_hosts_to_vals_split(m, i as int);
                            assert(m.skip(i as int)[0] == m[i as int]);
                        }
                        return Err(e);
                    },
                }
                i = i + 1;
            }
            proof {
                lemma_hosts_to_vals_split(m, m.len() as int);
                assert(m.skip(m.len() as int) =~= Seq::<HostModel>::empty());
                assert(ok_prefix_vals(m, m.len() as int) + Seq::<ValModel>::empty()
                    =~= ok_prefix_vals(m, m.len() as int));
            }
            Ok(Value::SetVal(acc))
        },
        HostValue::Dict(entries) => {
            let ghost m = host_dict_model(entries@);
            proof {
                lemma_host_dict_model(entries@);
            }
            let mut tmp: Vec<(Value, Value)> = Vec::new();
            let mut i: usize = 0;
            while i < entries.len()
                invariant
                    i <= entries@.len(),
                    m.len() == entries@.len(),
                    forall|j: int| 0 <= j < entries@.len() ==> m[j] == (
                        #[trigger] entries@[j].0@,
                        entries@[j].1@,
                    ),
                    forall|j: int| 0 <= j < i ==> (host_to_val(#[trigger] m[j].1) is Ok),
                    forall|j: int| 0 <= j < i ==> (host_to_val(#[trigger] m[j].0) is Ok),
                    pair_model(tmp@) == ok_prefix_pairs(m, i as int),
                decreases entries@.len() - i,
            {
                match host_to_value(&entries[i].1) {
                    Ok(v) => {
                        match host_to_value(&entries[i].0) {
                            Ok(kv) => {
                                proof {
                                    lemma_pair_model_push(tmp@, (kv, v));
                                    assert(ok_prefix_pairs(m, i as int + 1) =~= ok_prefix_pairs(
                                        m,
                                        i as int,
                                    ).push(
                                        (
                                            host_to_val(m[i as int].0)->Ok_0,
                                            host_to_val(m[i as int].1)->Ok_0,
                                        ),
                                    ));
                                }
                                tmp.push((kv, v));
                            },
                            Err(e) => {
                                proof {
                                    lemma_dict_to_val_pairs_split(m, i as int);
                                    assert(m.skip(i as int)[0] == m[i as int]);
                                }
                                return Err(e);
                            },
                        }
                    },
                    Err(e) => {
                        proof {
                            lemma_dict_to_val_pairs_split(m, i as int);
                            assert(m.skip(i as int)[0] == m[i as int]);
                        }
                        return Err(e);
                    },
                }
                i = i + 1;
            }
            let ghost pp = ok_prefix_pairs(m, m.len() as int);
            proof {
                lemma_dict_to_val_pairs_split(m, m.len() as int);
                assert(m.skip(m.len() as int) =~= Seq::<(HostModel, HostModel)>::empty());
                assert(pp + Seq::<(ValModel, ValModel)>::empty() =~= pp);
                assert(dict_to_val_pairs(m) == Ok::<_, UnrepresentableModel>(pp));
                lemma_pair_model(tmp@);
            }
            // decide between object and map: every key a string value?
            let mut all_text = true;
            let mut j: usize = 0;
            while j < tmp.len()
                invariant
                    j <= tmp@.len(),
                    pair_model(tmp@) == pp,
                    pp.len() == tmp@.len(),
                    forall|t: int| 0 <= t < tmp@.len() ==> pp[t] == (
                        #[trigger] tmp@[t].0@,
                        tmp@[t].1@,
                    ),
                    all_text <==> (forall|t: int| 0 <= t < j ==> (#[trigger] pp[t].0) is Text),
                decreases tmp@.len() - j,
            {
                let kt = is_text_value(&tmp[j].0);
                let new_all = all_text && kt;
                proof {
                    assert(pp[j as int] == (tmp@[j as int].0@, tmp@[j as int].1@));
                    if new_all {
                        assert forall|t: int| 0 <= t < j + 1 implies (#[trigger] pp[t].0)
                            is Text by {
                            if t == j {
                                assert(pp[j as int].0 is Text);
                            }
                        }
                    } else if !all_text {
                        let t0 = choose|t: int| 0 <= t < j && !((#[trigger] pp[t].0) is Text);
                        assert(!(pp[t0].0 is Text));
                    } else {
                        assert(!(pp[j as int].0 is Text));
                    }
                }
                all_text = new_all;
                j = j + 1;
            }
            let ghost tmp0 = tmp@;
            proof {
                assert(all_text == all_keys_text(pp));
            }
            if all_text {
                let mut obj: Vec<(String, Value)> = Vec::new();
                proof {
                    assert(pp.take(0) =~= Seq::<(ValModel, ValModel)>::empty());
                    assert(text_key_entries(pp.take(0)) =~= Seq::<(Seq<char>, ValModel)>::empty());
                    assert(canon_obj(text_key_entries(pp.take(0)))
                        =~= Seq::<(Seq<char>, ValModel)>::empty());
                    assert(tmp@ =~= tmp0.skip(0));
                }
                while tmp.len() > 0
                    invariant
                        tmp@.len() <= tmp0.len(),
                        pair_model(tmp0) == pp,
                        pp.len() == tmp0.len(),
                        forall|t: int| 0 <= t < tmp0.len() ==> pp[t] == (
                            #[trigger] tmp0[t].0@,
                            tmp0[t].1@,
                        ),
                        all_keys_text(pp),
                        tmp@ == tmp0.skip(tmp0.len() - tmp@.len()),
                        obj_model(obj@) == canon_obj(
                            text_key_entries(pp.take(tmp0.len() - tmp@.len())),
                        ),
                    decreases tmp@.len(),
                {
                    let ghost k = tmp0.len() - tmp@.len();
                    let e = tmp.remove(0);
                    proof {
                        assert(e == tmp0.skip(k)[0]);
                        assert(tmp0.skip(k)[0] == tmp0[k]);
                        assert(tmp@ =~= tmp0.skip(k + 1));
                        assert(pp[k] == (tmp0[k].0@, tmp0[k].1@));
                        assert(pp[k].0 is Text);
                    }
                    match e.0 {
                        Value::Text(ks) => {
                            proof {
                                assert(pp.take(k + 1).drop_last() =~= pp.take(k));
                                assert(pp.take(k + 1).last() == pp[k]);
                                assert(pp[k].0 == ValModel::Text(ks@));
                                assert(pp[k].1 == e.1@);
                                assert(text_key_entries(pp.take(k + 1)) == text_key_entries(
                                    pp.take(k + 1).drop_last(),
                                ) + seq![(ks@, pp.take(k + 1).last().1)]);
                                assert(text_key_entries(pp.take(k + 1)) =~= text_key_entries(
                                    pp.take(k),
                                ).push((ks@, e.1@)));
                                let tk1 = text_key_entries(pp.take(k + 1));
                                assert(tk1.drop_last() =~= text_key_entries(pp.take(k)));
                                assert(tk1.last() == (ks@, e.1@));
                                assert(canon_obj(tk1) == obj_insert(
                                    canon_obj(tk1.drop_last()),
                                    ks@,
                                    e.1@,
                                ));
                                assert(canon_obj(text_key_entries(pp.take(k + 1))) == obj_insert(
                                    canon_obj(text_key_entries(pp.take(k))),
                                    ks@,
                                    e.1@,
                                ));
                            }
                            obj_insert_vec(&mut obj, ks, e.1);
                        },
                        _ => {
                            proof {
                                assert(false);
                            }
                        },
                    }
                }
                proof {
                    assert(pp.take(tmp0.len() as int) =~= pp);
                }
                Ok(Value::Object(obj))
            } else {
                let mut mp: Vec<(Value, Value)> = Vec::new();
                proof {
                    assert(pp.take(0) =~= Seq::<(ValModel, ValModel)>::empty());
                    assert(canon_map(pp.take(0)) =~= Seq::<(ValModel, ValModel)>::empty());
                    assert(tmp@ =~= tmp0.skip(0));
                }
                while tmp.len() > 0
                    invariant
                        tmp@.len() <= tmp0.len(),
                        pair_model(tmp0) == pp,
                        pp.len() == tmp0.len(),
                        forall|t: int| 0 <= t < tmp0.len() ==> pp[t] == (
                            #[trigger] tmp0[t].0@,
                            tmp0[t].1@,
                        ),
                        tmp@ == tmp0.skip(tmp0.len() - tmp@.len()),
                        pair_model(mp@) == canon_map(pp.take(tmp0.len() - tmp@.len())),
                    decreases tmp@.len(),
                {
                    let ghost k = tmp0.len() - tmp@.len();
                    let e = tmp.remove(0);
                    proof {
                        assert(e == tmp0.skip(k)[0]);
                        assert(tmp0.skip(k)[0] == tmp0[k]);
                        assert(tmp@ =~= tmp0.skip(k + 1));
                        assert(pp[k] == (tmp0[k].0@, tmp0[k].1@));
                        assert(pp.take(k + 1).drop_last() =~= pp.take(k));
                        assert(pp.take(k + 1).last() == pp[k]);
                        assert(canon_map(pp.take(k + 1)) == map_insert(
                            canon_map(pp.take(k)),
                            pp[k].0,
                            pp[k].1,
                        ));
                    }
                    map_insert_vec(&mut mp, e.0, e.1);
                }
                proof {
                    assert(pp.take(tmp0.len() as int) =~= pp);
                }
                Ok(Value::MapVal(mp))
            }
        },
    }
}

/// The host image of a value reads back unambiguously: no map in the
/// value has string keys throughout (such a mapping would come back as
/// an object), recursively.
pub open spec fn map_set_unambiguous(v: ValModel) -> bool
    decreases v,
{
    match v {
        ValModel::Array(items) => unamb_seq(items),
        ValModel::Object(entries) => unamb_obj_entry_vals(entries),
        ValModel::SetVal(items) => unamb_seq(items),
        ValModel::MapVal(entries) => !all_keys_text(entries) && unamb_map_entry_vals(entries),
        _ => true,
    }
}

/// Every element reads back unambiguously.
pub open spec fn unamb_seq(s: Seq<ValModel>) -> bool
    decreases s,
{
    s.len() == 0 || (map_set_unambiguous(s[0]) && unamb_seq(s.drop_first()))
}

/// Every value under an object entry reads back unambiguously.
pub open spec fn unamb_obj_entry_vals(s: Seq<(Seq<char>, ValModel)>) -> bool
    decreases s,
{
    s.len() == 0 || (map_set_unambiguous(s[0].1) && unamb_obj_entry_vals(s.drop_first()))
}

/// Every key and value of a map entry reads back unambiguously.
pub open spec fn unamb_map_entry_vals(s: Seq<(ValModel, ValModel)>) -> bool
    decreases s,
{
    s.len() == 0 || (map_set_unambiguous(s[0].0) && map_set_unambiguous(s[0].1)
        && unamb_map_entry_vals(s.drop_first()))
}

/// Object entries read as map entries with string-value keys.
pub open spec fn obj_pairs(entries: Seq<(Seq<char>, ValModel)>) -> Seq<(ValModel, ValModel)> {
    Seq::new(entries.len(), |i: int| (ValModel::Text(entries[i].0), entries[i].1))
}

/// Reading the keys back out of [`obj_pairs`] recovers the entries.
proof fn lemma_text_key_entries_of_obj_pairs(entries: Seq<(Seq<char>, ValModel)>)
    ensures
        text_key_entries(obj_pairs(entries)) == entries,
    decreases entries.len(),
{
    let op = obj_pairs(entries);
    if entries.len() == 0 {
        assert(text_key_entries(op) =~= entries);
    } else {
        lemma_text_key_entries_of_obj_pairs(entries.drop_last());
        assert(op.last() == (ValModel::Text(entries.last().0), entries.last().1));
        assert(op.drop_last() =~= obj_pairs(entries.drop_last()));
        assert(text_key_entries(op) == text_key_entries(op.drop_last()) + seq![
            (entries.last().0, entries.last().1),
        ]);
        assert(entries.drop_last() + seq![(entries.last().0, entries.last().1)] =~= entries);
    }
}

/// Round trip for a sequence of values.
proof fn lemma_seq_round_trip(s: Seq<ValModel>)
    requires
        wf_val_seq(s),
        unamb_seq(s),
    ensures
        hosts_to_vals(vals_to_hosts(s)) == Ok::<Seq<ValModel>, UnrepresentableModel>(s),
    decreases s,
{
    lemma_vals_to_hosts(s);
    if s.len() > 0 {
        lemma_round_trip(s[0]);
        lemma_seq_round_trip(s.drop_first());
        lemma_vals_to_hosts(s.drop_first());
        let hs = vals_to_hosts(s);
        assert(hs[0] == val_to_host(s[0]));
        assert(hs.drop_first() =~= vals_to_hosts(s.drop_first())) by {
            assert forall|j: int| 0 <= j < hs.len() - 1 implies hs.drop_first()[j]
                == vals_to_hosts(s.drop_first())[j] by {
                assert(hs.drop_first()[j] == hs[j + 1]);
                assert(hs[j + 1] == val_to_host(s[j + 1]));
                assert(s.drop_first()[j] == s[j + 1]);
            }
        }
        assert(host_to_val(hs[0]) == Ok::<ValModel, UnrepresentableModel>(s[0]));
        assert(hosts_to_vals(hs.drop_first()) == Ok::<Seq<ValModel>, UnrepresentableModel>(
            s.drop_first(),
        ));
        assert(hosts_to_vals(hs) == Ok::<Seq<ValModel>, UnrepresentableModel>(
            seq![s[0]] + s.drop_first(),
        ));
        assert(seq![s[0]] + s.drop_first() =~= s);
    } else {
        assert(vals_to_hosts(s) =~= Seq::<HostModel>::empty());
        assert(hosts_to_vals(vals_to_hosts(s)) == Ok::<Seq<ValModel>, UnrepresentableModel>(
            Seq::empty(),
        ));
        assert(Seq::<ValModel>::empty() =~= s);
    }
}

/// Round trip for object entries, read back as map entries.
proof fn lemma_obj_entries_round_trip(entries: Seq<(Seq<char>, ValModel)>)
    requires
        wf_obj_entry_vals(entries),
        unamb_obj_entry_vals(entries),
    ensures
        dict_to_val_pairs(obj_entries_to_hosts(entries)) == Ok::<
            Seq<(ValModel, ValModel)>,
            UnrepresentableModel,
        >(obj_pairs(entries)),
    decreases entries,
{
    lemma_obj_entries_to_hosts(entries);
    if entries.len() > 0 {
        lemma_round_trip(entries[0].1);
        lemma_obj_entries_round_trip(entries.drop_first());
        lemma_obj_entries_to_hosts(entries.drop_first());
        let hs = obj_entries_to_hosts(entries);
        assert(hs[0] == (HostModel::Text(entries[0].0), val_to_host(entries[0].1)));
        assert(hs.drop_first() =~= obj_entries_to_hosts(entries.drop_first())) by {
            assert forall|j: int| 0 <= j < hs.len() - 1 implies hs.drop_first()[j]
                == obj_entries_to_hosts(entries.drop_first())[j] by {
                assert(hs.drop_first()[j] == hs[j + 1]);
                assert(hs[j + 1] == (
                    HostModel::Text(entries[j + 1].0),
                    val_to_host(entries[j + 1].1),
                ));
                assert(entries.drop_first()[j] == entries[j + 1]);
            }
        }
        assert(host_to_val(hs[0].1) == Ok::<ValModel, UnrepresentableModel>(entries[0].1));
        assert(host_to_val(hs[0].0) == Ok::<ValModel, UnrepresentableModel>(
            ValModel::Text(entries[0].0),
        ));
        assert(dict_to_val_pairs(hs.drop_first()) == Ok::<
            Seq<(ValModel, ValModel)>,
            UnrepresentableModel,
        >(obj_pairs(entries.drop_first())));
        assert(dict_to_val_pairs(hs) == Ok::<Seq<(ValModel, ValModel)>, UnrepresentableModel>(
            seq![(ValModel::Text(entries[0].0), entries[0].1)] + obj_pairs(entries.drop_first()),
        ));
        assert(obj_pairs(entries) =~= seq![
            (ValModel::Text(entries[0].0), entries[0].1),
        ] + obj_pairs(entries.drop_first())) by {
            assert forall|j: int| 0 <= j < entries.len() implies obj_pairs(entries)[j] == (seq![
                (ValModel::Text(entries[0].0), entries[0].1),
            ] + obj_pairs(entries.drop_first()))[j] by {
                if j > 0 {
                    assert(entries.drop_first()[j - 1] == entries[j]);
                }
            }
        }
    } else {
        assert(obj_entries_to_hosts(entries) =~= Seq::<(HostModel, HostModel)>::empty());
        assert(dict_to_val_pairs(obj_entries_to_hosts(entries)) == Ok::<
            Seq<(ValModel, ValModel)>,
            UnrepresentableModel,
        >(Seq::empty()));
        assert(obj_pairs(entries) =~= Seq::<(ValModel, ValModel)>::empty());
        assert(Seq::<(ValModel, ValModel)>::empty() =~= obj_pairs(entries));
    }
}

/// Round trip for map entries.
proof fn lemma_map_entries_round_trip(entries: Seq<(ValModel, ValModel)>)
    requires
        wf_map_entry_vals(entries),
        unamb_map_entry_vals(entries),
    ensures
        dict_to_val_pairs(map_entries_to_hosts(entries)) == Ok::<
            Seq<(ValModel, ValModel)>,
            UnrepresentableModel,
        >(entries),
    decreases entries,
{
    lemma_map_entries_to_hosts(entries);
    if entries.len() > 0 {
        lemma_round_trip(entries[0].0);
        lemma_round_trip(entries[0].1);
        lemma_map_entries_round_trip(entries.drop_first());
        lemma_map_entries_to_hosts(entries.drop_first());
        let hs = map_entries_to_hosts(entries);
        assert(hs[0] == (val_to_host(entries[0].0), val_to_host(entries[0].1)));
        assert(hs.drop_first() =~= map_entries_to_hosts(entries.drop_first())) by {
            assert forall|j: int| 0 <= j < hs.len() - 1 implies hs.drop_first()[j]
                == map_entries_to_hosts(entries.drop_first())[j] by {
                assert(hs.drop_first()[j] == hs[j + 1]);
                assert(hs[j + 1] == (
                    val_to_host(entries[j + 1].0),
                    val_to_host(entries[j + 1].1),
                ));
                assert(entries.drop_first()[j] == entries[j + 1]);
            }
        }
        assert(seq![entries[0]] + entries.drop_first() =~= entries);
    } else {
        assert(map_entries_to_hosts(entries) =~= Seq::<(HostModel, HostModel)>::empty());
        assert(dict_to_val_pairs(map_entries_to_hosts(entries)) == Ok::<
            Seq<(ValModel, ValModel)>,
            UnrepresentableModel,
        >(Seq::empty()));
        assert(Seq::<(ValModel, ValModel)>::empty() =~= entries);
    }
}

/// Round trip: a canonical value whose host image reads back without
/// map or set ambiguity converts from its host image back to exactly
/// itself; nothing is lost or widened on the way out and back.
pub proof fn lemma_round_trip(v: ValModel)
    requires
        wf_val(v),
        map_set_unambiguous(v),
    ensures
        host_to_val(val_to_host(v)) == Ok::<ValModel, UnrepresentableModel>(v),
    decreases v,
{
    match v {
        ValModel::Array(items) => {
            lemma_seq_round_trip(items);
        },
        ValModel::SetVal(items) => {
            lemma_seq_round_trip(items);
            lemma_canon_set_of_sorted(items);
        },
        ValModel::Object(entries) => {
            lemma_obj_entries_round_trip(entries);
            assert forall|i: int| 0 <= i < obj_pairs(entries).len() implies (#[trigger] obj_pairs(
                entries,
            )[i].0) is Text by {}
            assert(all_keys_text(obj_pairs(entries)));
            lemma_text_key_entries_of_obj_pairs(entries);
            lemma_canon_obj_of_sorted(entries);
        },
        ValModel::MapVal(entries) => {
            lemma_map_entries_round_trip(entries);
            lemma_canon_map_of_sorted(entries);
        },
        _ => {},
    }
}

/// Convert a host value in and straight back out: what the host gets
/// back is the host image of what the conversion accepted.
pub fn host_round_trip(h: &HostValue) -> (r: Result<HostValue, UnrepresentableValue>)
    ensures
        (r is Ok) == (host_to_val(h@) is Ok),
        r is Ok ==> (r->Ok_0)@ == val_to_host(host_to_val(h@)->Ok_0),
        r is Err ==> host_to_val(h@) == Err::<ValModel, UnrepresentableModel>((r->Err_0)@),
{
    match host_to_value(h) {
        Ok(v) => Ok(value_to_host(&v)),
        Err(e) => Err(e),
    }
}

/// Whether a foreign value sits anywhere inside a host value.
pub open spec fn contains_foreign(h: HostModel) -> bool
    decreases h,
{
    match h {
        HostModel::Foreign { .. } => true,
        HostModel::List(items) => seq_contains_foreign(items),
        HostModel::SetLike(items) => seq_contains_foreign(items),
        HostModel::Dict(entries) => dict_contains_foreign(entries),
        _ => false,
    }
}

/// Whether any element holds a foreign value.
pub open spec fn seq_contains_foreign(s: Seq<HostModel>) -> bool
    decreases s,
{
    s.len() > 0 && (contains_foreign(s[0]) || seq_contains_foreign(s.drop_first()))
}

/// Whether any key or value of an entry holds a foreign value.
pub open spec fn dict_contains_foreign(s: Seq<(HostModel, HostModel)>) -> bool
    decreases s,
{
    s.len() > 0 && (contains_foreign(s[0].0) || contains_foreign(s[0].1)
        || dict_contains_foreign(s.drop_first()))
}

/// Conversion from the host succeeds exactly when no foreign value
/// sits anywhere in the input; a rejected input never yields a partial
/// value, and an accepted input never hides a dropped field.
pub proof fn lemma_convertible_iff_no_foreign(h: HostModel)
    ensures
        (host_to_val(h) is Ok) <==> !contains_foreign(h),
    decreases h,
{
    match h {
        HostModel::List(items) => {
            lemma_seq_convertible_iff_no_foreign(items);
        },
        HostModel::SetLike(items) => {
            lemma_seq_convertible_iff_no_foreign(items);
        },
        HostModel::Dict(entries) => {
            lemma_dict_convertible_iff_no_foreign(entries);
        },
        _ => {},
    }
}

/// As [`lemma_convertible_iff_no_foreign`], elementwise.
proof fn lemma_seq_convertible_iff_no_foreign(s: Seq<HostModel>)
    ensures
        (hosts_to_vals(s) is Ok) <==> !seq_contains_foreign(s),
    decreases s,
{
    if s.len() > 0 {
        lemma_convertible_iff_no_foreign(s[0]);
        lemma_seq_convertible_iff_no_foreign(s.drop_first());
    }
}

/// As [`lemma_convertible_iff_no_foreign`], over entries.
proof fn lemma_dict_convertible_iff_no_foreign(s: Seq<(HostModel, HostModel)>)
    ensures
        (dict_to_val_pairs(s) is Ok) <==> !dict_contains_foreign(s),
    decreases s,
{
    if s.len() > 0 {
        lemma_convertible_iff_no_foreign(s[0].0);
        lemma_convertible_iff_no_foreign(s[0].1);
        lemma_dict_convertible_iff_no_foreign(s.drop_first());
    }
}

/// Entries with string-value keys, read as object entries, keep their
/// values canonical.
proof fn lemma_text_key_entries_wf_index(ps: Seq<(ValModel, ValModel)>)
    requires
        forall|i: int| 0 <= i < ps.len() ==> wf_val((#[trigger] ps[i]).1),
    ensures
        forall|i: int|
            0 <= i < text_key_entries(ps).len() ==> wf_val(
                (#[trigger] text_key_entries(ps)[i]).1,
            ),
    decreases ps.len(),
{
    if ps.len() > 0 {
        let t = ps.drop_last();
        assert forall|i: int| 0 <= i < t.len() implies wf_val((#[trigger] t[i]).1) by {
            assert(t[i] == ps[i]);
        }
        lemma_text_key_entries_wf_index(t);
        let r = text_key_entries(ps);
        let u = text_key_entries(t);
        assert forall|i: int| 0 <= i < r.len() implies wf_val((#[trigger] r[i]).1) by {
            if i < u.len() {
                assert(r[i] == u[i]);
            } else {
                assert(ps.last() == ps[ps.len() - 1]);
                assert(r[i].1 == ps.last().1);
            }
        }
    }
}

/// What the conversion accepts is canonical: every set, map and object
/// anywhere in a converted value is in canonical form.
pub proof fn lemma_conversion_canonical(h: HostModel)
    ensures
        host_to_val(h) is Ok ==> wf_val(host_to_val(h)->Ok_0),
    decreases h,
{
    match h {
        HostModel::List(items) => {
            lemma_seq_conversion_canonical(items);
        },
        HostModel::SetLike(items) => {
            lemma_seq_conversion_canonical(items);
            if hosts_to_vals(items) is Ok {
                lemma_canon_set_wf(hosts_to_vals(items)->Ok_0);
            }
        },
        HostModel::Dict(entries) => {
            lemma_dict_conversion_canonical(entries);
            if dict_to_val_pairs(entries) is Ok {
                let ps = dict_to_val_pairs(entries)->Ok_0;
                if all_keys_text(ps) {
                    lemma_wf_map_entry_vals_index(ps);
                    lemma_text_key_entries_wf_index(ps);
                    lemma_wf_obj_entry_vals_index(text_key_entries(ps));
                    lemma_canon_obj_wf(text_key_entries(ps));
                } else {
                    lemma_canon_map_wf(ps);
                }
            }
        },
        _ => {},
    }
}

/// As [`lemma_conversion_canonical`], elementwise.
proof fn lemma_seq_conversion_canonical(s: Seq<HostModel>)
    ensures
        hosts_to_vals(s) is Ok ==> wf_val_seq(hosts_to_vals(s)->Ok_0),
    decreases s,
{
    if s.len() > 0 {
        lemma_conversion_canonical(s[0]);
        lemma_seq_conversion_canonical(s.drop_first());
        if hosts_to_vals(s) is Ok {
            let r = hosts_to_vals(s)->Ok_0;
            let rest = hosts_to_vals(s.drop_first())->Ok_0;
            assert(r == seq![host_to_val(s[0])->Ok_0] + rest);
            assert(r.drop_first() =~= rest);
            assert(r[0] == host_to_val(s[0])->Ok_0);
        }
    }
}

/// As [`lemma_conversion_canonical`], over entries.
proof fn lemma_dict_conversion_canonical(s: Seq<(HostModel, HostModel)>)
    ensures
        dict_to_val_pairs(s) is Ok ==> wf_map_entry_vals(dict_to_val_pairs(s)->Ok_0),
    decreases s,
{
    if s.len() > 0 {
        lemma_conversion_canonical(s[0].0);
        lemma_conversion_canonical(s[0].1);
        lemma_dict_conversion_canonical(s.drop_first());
        if dict_to_val_pairs(s) is Ok {
            let r = dict_to_val_pairs(s)->Ok_0;
            let rest = dict_to_val_pairs(s.drop_first())->Ok_0;
            assert(r == seq![(host_to_val(s[0].0)->Ok_0, host_to_val(s[0].1)->Ok_0)] + rest);
            assert(r.drop_first() =~= rest);
            assert(r[0] == (host_to_val(s[0].0)->Ok_0, host_to_val(s[0].1)->Ok_0));
        }
    }
}

/// A host boolean converts to a boolean value — never to an integer
/// and never to a float, although the host may treat booleans as
/// integers.
pub proof fn lemma_boolean_stays_boolean(b: bool)
    ensures
        host_to_val(HostModel::Bool(b)) == Ok::<ValModel, UnrepresentableModel>(
            ValModel::Boolean(b),
        ),
{
}

/// The explicit 64-bit wrapper converts to the full-range integer
/// value, exactly; wrapping is the only route to `Int64`.
pub proof fn lemma_wrapper_keeps_int64(i: i64)
    ensures
        host_to_val(HostModel::Int64Box(i)) == Ok::<ValModel, UnrepresentableModel>(
            ValModel::Int64(i),
        ),
{
}

/// A plain, unwrapped host integer widens to a float — never to
/// `Int64`. The asymmetry with [`lemma_wrapper_keeps_int64`] is the
/// chosen compatibility behaviour, not an accident.
pub proof fn lemma_plain_integer_widens(i: i64)
    ensures
        host_to_val(HostModel::Int(i)) == Ok::<ValModel, UnrepresentableModel>(
            ValModel::Float64(f64_bits_of_int(i as int)),
        ),
{
}

/// Spec-level model of named call arguments.
pub open spec fn args_model(s: Seq<(String, HostValue)>) -> Seq<(Seq<char>, HostModel)>
    decreases s,
{
    if s.len() == 0 {
        Seq::empty()
    } else {
        seq![(s[0].0@, s[0].1@)] + args_model(s.drop_first())
    }
}

/// `args_model` maps elementwise.
pub proof fn lemma_args_model(s: Seq<(String, HostValue)>)
    ensures
        args_model(s).len() == s.len(),
        forall|i: int| 0 <= i < s.len() ==> args_model(s)[i] == (#[trigger] s[i].0@, s[i].1@),
    decreases s,
{
    if s.len() == 0 {
        assert(args_model(s) =~= Seq::<(Seq<char>, HostModel)>::empty());
    } else {
        lemma_args_model(s.drop_first());
        assert forall|i: int| 0 <= i < s.len() implies args_model(s)[i] == (
            #[trigger] s[i].0@,
            s[i].1@,
        ) by {
            if i > 0 {
                assert(args_model(s)[i] == args_model(s.drop_first())[i - 1]);
                assert(s.drop_first()[i - 1] == s[i]);
            }
        }
    }
}

/// Converted argument entries, names kept, values converted in order;
/// the first failure wins.
pub open spec fn spec_convert_args(s: Seq<(Seq<char>, HostModel)>) -> Result<
    Seq<(Seq<char>, ValModel)>,
    UnrepresentableModel,
>
    decreases s,
{
    if s.len() == 0 {
        Ok(Seq::empty())
    } else {
        match host_to_val(s[0].1) {
            Ok(v) => match spec_convert_args(s.drop_first()) {
                Ok(es) => Ok(seq![(s[0].0, v)] + es),
                Err(e) => Err(e),
            },
            Err(e) => Err(e),
        }
    }
}

/// The converted entries of the first `i` arguments, each known to
/// convert.
pub open spec fn ok_prefix_args(s: Seq<(Seq<char>, HostModel)>, i: int) -> Seq<
    (Seq<char>, ValModel),
> {
    Seq::new(i as nat, |j: int| (s[j].0, host_to_val(s[j].1)->Ok_0))
}

/// When a prefix of arguments converts, the whole conversion is
/// decided by the rest.
proof fn lemma_convert_args_split(s: Seq<(Seq<char>, HostModel)>, i: int)
    requires
        0 <= i <= s.len(),
        forall|j: int| 0 <= j < i ==> (host_to_val(#[trigger] s[j].1) is Ok),
    ensures
        match spec_convert_args(s.skip(i)) {
            Ok(es) => spec_convert_args(s) == Ok::<_, UnrepresentableModel>(
                ok_prefix_args(s, i) + es,
            ),
            Err(e) => spec_convert_args(s) == Err::<Seq<(Seq<char>, ValModel)>, _>(e),
        },
    decreases i,
{
    if i == 0 {
        assert(s.skip(0) =~= s);
        match spec_convert_args(s) {
            Ok(es) => {
                assert(ok_prefix_args(s, 0) + es =~= es);
            },
            Err(e) => {},
        }
    } else {
        let t = s.drop_first();
        assert forall|j: int| 0 <= j < i - 1 implies (host_to_val(#[trigger] t[j].1) is Ok) by {
            assert(t[j] == s[j + 1]);
        }
        lemma_convert_args_split(t, i - 1);
        assert(t.skip(i - 1) =~= s.skip(i));
        let e0 = (s[0].0, host_to_val(s[0].1)->Ok_0);
        match spec_convert_args(s.skip(i)) {
            Ok(es) => {
                assert(spec_convert_args(t) == Ok::<_, UnrepresentableModel>(
                    ok_prefix_args(t, i - 1) + es,
                ));
                assert(ok_prefix_args(s, i) =~= seq![e0] + ok_prefix_args(t, i - 1)) by {
                    assert forall|j: int| 0 <= j < i implies ok_prefix_args(s, i)[j] == (seq![e0]
                        + ok_prefix_args(t, i - 1))[j] by {
                        if j > 0 {
                            assert(t[j - 1] == s[j]);
                        }
                    }
                }
                assert(seq![e0] + (ok_prefix_args(t, i - 1) + es) =~= ok_prefix_args(s, i) + es);
            },
            Err(e) => {},
        }
    }
}

/// Convert the named arguments of one call: each value is converted,
/// each name kept, and the result is a canonical object entry vector —
/// names sorted, a repeated name resolved in favour of the later
/// entry. The first unconvertible value fails the whole call.
#[verifier::loop_isolation(false)]
pub fn convert_args(pairs: &Vec<(String, HostValue)>) -> (r: Result<
    Vec<(String, Value)>,
    UnrepresentableValue,
>)
    ensures
        (r is Ok) == (spec_convert_args(args_model(pairs@)) is Ok),
        r is Ok ==> obj_model((r->Ok_0)@) == canon_obj(
            spec_convert_args(args_model(pairs@))->Ok_0,
        ),
        r is Err ==> spec_convert_args(args_model(pairs@)) == Err::<
            Seq<(Seq<char>, ValModel)>,
            UnrepresentableModel,
        >((r->Err_0)@),
{
    let ghost m = args_model(pairs@);
    proof {
        lemma_args_model(pairs@);
    }
    let mut acc: Vec<(String, Value)> = Vec::new();
    let mut i: usize = 0;
    proof {
        assert(ok_prefix_args(m, 0) =~= Seq::<(Seq<char>, ValModel)>::empty());
        assert(canon_obj(ok_prefix_args(m, 0)) =~= Seq::<(Seq<char>, ValModel)>::empty());
        assert(obj_model(acc@) =~= canon_obj(ok_prefix_args(m, 0)));
    }
    while i < pairs.len()
        invariant
            i <= pairs@.len(),
            m.len() == pairs@.len(),
            forall|j: int| 0 <= j < pairs@.len() ==> m[j] == (#[trigger] pairs@[j].0@, pairs@[j].1@),
            forall|j: int| 0 <= j < i ==> (host_to_val(#[trigger] m[j].1) is Ok),
            obj_model(acc@) == canon_obj(ok_prefix_args(m, i as int)),
        decreases pairs@.len() - i,
    {
        proof {
            assert(m[i as int] == (pairs@[i as int].0@, pairs@[i as int].1@));
        }
        match host_to_value(&pairs[i].1) {
            Ok(v) => {
                let name = pairs[i].0.clone();
                proof {
                    assert(ok_prefix_args(m, i as int + 1).drop_last() =~= ok_prefix_args(
                        m,
                        i as int,
                    ));
                    assert(ok_prefix_args(m, i as int + 1).last() == (
                        m[i as int].0,
                        host_to_val(m[i as int].1)->Ok_0,
                    ));
                    let pk1 = ok_prefix_args(m, i as int + 1);
                    assert(canon_obj(pk1) == obj_insert(
                        canon_obj(pk1.drop_last()),
                        pk1.last().0,
                        pk1.last().1,
                    ));
                    assert(name@ == m[i as int].0);
                }
                obj_insert_vec(&mut acc, name, v);
            },
            Err(e) => {
                proof {
                    lemma_convert_args_split(m, i as int);
                    assert(m.skip(i as int)[0] == m[i as int]);
                }
                return Err(e);
            },
        }
        i = i + 1;
    }
    proof {
        lemma_convert_args_split(m, m.len() as int);
        assert(m.skip(m.len() as int) =~= Seq::<(Seq<char>, HostModel)>::empty());
        assert(spec_convert_args(m.skip(m.len() as int)) == Ok::<
            Seq<(Seq<char>, ValModel)>,
            UnrepresentableModel,
        >(Seq::empty()));
        assert(ok_prefix_args(m, m.len() as int) + Seq::<(Seq<char>, ValModel)>::empty()
            =~= ok_prefix_args(m, m.len() as int));
        assert(spec_convert_args(m) == Ok::<Seq<(Seq<char>, ValModel)>, UnrepresentableModel>(
            ok_prefix_args(m, m.len() as int),
        ));
    }
    Ok(acc)
}

} // verus!
