//! The closed value model exchanged with the remote function layer.
//!
//! A value is one of ten variants; composite variants own their children.
//! Floating-point payloads are carried as their IEEE 754 bit patterns, so
//! that the model stays within exact integer arithmetic and round trips
//! are bitwise lossless.

use vstd::prelude::*;

verus! {

broadcast use {vstd::seq::group_seq_axioms, vstd::std_specs::vec::group_vec_axioms};

/// Mathematical model of a value: the spec-level mirror of [`Value`],
/// with sequences in place of vectors and strings.
pub enum ValModel {
    /// The absent value.
    Null,
    /// A full-range 64-bit signed integer, distinct from `Float64`.
    Int64(i64),
    /// A double-precision float, carried as its IEEE 754 bit pattern.
    Float64(u64),
    /// A boolean.
    Boolean(bool),
    /// A text string, as its sequence of characters.
    Text(Seq<char>),
    /// A byte string.
    Bytes(Seq<u8>),
    /// An ordered sequence of values.
    Array(Seq<ValModel>),
    /// A mapping from string keys to values; canonical form keeps the
    /// entries in strictly increasing key order, so keys are unique.
    Object(Seq<(Seq<char>, ValModel)>),
    /// A set of values; canonical form keeps the elements strictly
    /// increasing under the total value order, so they are distinct.
    SetVal(Seq<ValModel>),
    /// A mapping from values to values; canonical form keeps the entries
    /// in strictly increasing key order under the total value order.
    MapVal(Seq<(ValModel, ValModel)>),
}

/// A value of the closed model, as exchanged with the transport.
///
/// Once constructed a value is never mutated; composite values own their
/// children. `Float64` carries the IEEE 754 bit pattern of the double it
/// stands for.
#[derive(Debug, PartialEq, Eq)]
pub enum Value {
    /// The absent value.
    Null,
    /// A full-range 64-bit signed integer, distinct from `Float64`.
    Int64(i64),
    /// A double-precision float, carried as its IEEE 754 bit pattern.
    Float64(u64),
    /// A boolean.
    Boolean(bool),
    /// A text string.
    Text(String),
    /// A byte string.
    Bytes(Vec<u8>),
    /// An ordered sequence of values.
    Array(Vec<Value>),
    /// A mapping from string keys to values, kept in canonical key order.
    Object(Vec<(String, Value)>),
    /// A set of values, kept canonical under the total value order.
    SetVal(Vec<Value>),
    /// A mapping from values to values, kept in canonical key order.
    MapVal(Vec<(Value, Value)>),
}

impl View for Value {
    type V = ValModel;

    open spec fn view(&self) -> ValModel
        decreases self,
    {
        match self {
            Value::Null => ValModel::Null,
            Value::Int64(i) => ValModel::Int64(*i),
            Value::Float64(bits) => ValModel::Float64(*bits),
            Value::Boolean(b) => ValModel::Boolean(*b),
            Value::Text(s) => ValModel::Text(s@),
            Value::Bytes(bs) => ValModel::Bytes(bs@),
            Value::Array(items) => ValModel::Array(seq_model(items@)),
            Value::Object(entries) => ValModel::Object(obj_model(entries@)),
            Value::SetVal(items) => ValModel::SetVal(seq_model(items@)),
            Value::MapVal(entries) => ValModel::MapVal(pair_model(entries@)),
        }
    }
}

/// The models of a sequence of values, elementwise.
pub open spec fn seq_model(s: Seq<Value>) -> Seq<ValModel>
    decreases s,
{
    if s.len() == 0 {
        Seq::empty()
    } else {
        seq![s[0]@] + seq_model(s.drop_first())
    }
}

/// The models of a sequence of string-keyed entries, elementwise.
pub open spec fn obj_model(s: Seq<(String, Value)>) -> Seq<(Seq<char>, ValModel)>
    decreases s,
{
    if s.len() == 0 {
        Seq::empty()
    } else {
        seq![(s[0].0@, s[0].1@)] + obj_model(s.drop_first())
    }
}

/// The models of a sequence of value-keyed entries, elementwise.
pub open spec fn pair_model(s: Seq<(Value, Value)>) -> Seq<(ValModel, ValModel)>
    decreases s,
{
    if s.len() == 0 {
        Seq::empty()
    } else {
        seq![(s[0].0@, s[0].1@)] + pair_model(s.drop_first())
    }
}

/// `seq_model` maps a sequence elementwise: same length, model at each index.
pub proof fn lemma_seq_model(s: Seq<Value>)
    ensures
        seq_model(s).len() == s.len(),
        forall|i: int| 0 <= i < s.len() ==> seq_model(s)[i] == #[trigger] s[i]@,
    decreases s,
{
    if s.len() == 0 {
        assert(seq_model(s) =~= Seq::<ValModel>::empty());
    } else {
        lemma_seq_model(s.drop_first());
        assert(seq_model(s) =~= seq![s[0]@] + seq_model(s.drop_first()));
        assert forall|i: int| 0 <= i < s.len() implies seq_model(s)[i] == #[trigger] s[i]@ by {
            if i > 0 {
                assert(seq_model(s)[i] == seq_model(s.drop_first())[i - 1]);
                assert(s.drop_first()[i - 1] == s[i]);
            }
        }
    }
}

/// `obj_model` maps a sequence of string-keyed entries elementwise.
pub proof fn lemma_obj_model(s: Seq<(String, Value)>)
    ensures
        obj_model(s).len() == s.len(),
        forall|i: int| 0 <= i < s.len() ==> obj_model(s)[i] == (#[trigger] s[i].0@, s[i].1@),
    decreases s,
{
    if s.len() == 0 {
        assert(obj_model(s) =~= Seq::<(Seq<char>, ValModel)>::empty());
    } else {
        lemma_obj_model(s.drop_first());
        assert(obj_model(s) =~= seq![(s[0].0@, s[0].1@)] + obj_model(s.drop_first()));
        assert forall|i: int| 0 <= i < s.len() implies obj_model(s)[i] == (#[trigger] s[i].0@, s[i].1@) by {
            if i > 0 {
                assert(obj_model(s)[i] == obj_model(s.drop_first())[i - 1]);
                assert(s.drop_first()[i - 1] == s[i]);
            }
        }
    }
}

/// `pair_model` maps a sequence of value-keyed entries elementwise.
pub proof fn lemma_pair_model(s: Seq<(Value, Value)>)
    ensures
        pair_model(s).len() == s.len(),
        forall|i: int| 0 <= i < s.len() ==> pair_model(s)[i] == (#[trigger] s[i].0@, s[i].1@),
    decreases s,
{
    if s.len() == 0 {
        assert(pair_model(s) =~= Seq::<(ValModel, ValModel)>::empty());
    } else {
        lemma_pair_model(s.drop_first());
        assert(pair_model(s) =~= seq![(s[0].0@, s[0].1@)] + pair_model(s.drop_first()));
        assert forall|i: int| 0 <= i < s.len() implies pair_model(s)[i] == (#[trigger] s[i].0@, s[i].1@) by {
            if i > 0 {
                assert(pair_model(s)[i] == pair_model(s.drop_first())[i - 1]);
                assert(s.drop_first()[i - 1] == s[i]);
            }
        }
    }
}

/// `seq_model` commutes with `push`.
pub proof fn lemma_seq_model_push(s: Seq<Value>, v: Value)
    ensures
        seq_model(s.push(v)) == seq_model(s).push(v@),
{
    let r = s.push(v);
    lemma_seq_model(s);
    lemma_seq_model(r);
    assert forall|i: int| 0 <= i < seq_model(r).len() implies seq_model(r)[i] == seq_model(
        s,
    ).push(v@)[i] by {
        assert(seq_model(r)[i] == r[i]@);
        if i < s.len() {
            assert(r[i] == s[i]);
            assert(seq_model(s)[i] == s[i]@);
        } else {
            assert(r[i] == v);
        }
    }
    assert(seq_model(r) =~= seq_model(s).push(v@));
}

/// `seq_model` commutes with insertion.
pub proof fn lemma_seq_model_insert(s: Seq<Value>, j: int, v: Value)
    requires
        0 <= j <= s.len(),
    ensures
        seq_model(s.insert(j, v)) == seq_model(s).insert(j, v@),
{
    let r = s.insert(j, v);
    s.insert_ensures(j, v);
    lemma_seq_model(s);
    lemma_seq_model(r);
    assert forall|t: int| 0 <= t < seq_model(r).len() implies seq_model(r)[t] == seq_model(
        s,
    ).insert(j, v@)[t] by {
        seq_model(s).insert_ensures(j, v@);
        if t < j {
            assert(r[t] == s[t]);
            assert(seq_model(r)[t] == r[t]@);
            assert(seq_model(s)[t] == s[t]@);
        } else if t == j {
            assert(r[t] == v);
            assert(seq_model(r)[t] == r[t]@);
        } else {
            assert(r[(t - 1) + 1] == s[t - 1]);
            assert(seq_model(r)[t] == r[t]@);
            assert(seq_model(s)[t - 1] == s[t - 1]@);
            assert(seq_model(s).insert(j, v@)[(t - 1) + 1] == seq_model(s)[t - 1]);
        }
    }
    assert(seq_model(r) =~= seq_model(s).insert(j, v@));
}

/// `obj_model` commutes with insertion.
pub proof fn lemma_obj_model_insert(s: Seq<(String, Value)>, j: int, e: (String, Value))
    requires
        0 <= j <= s.len(),
    ensures
        obj_model(s.insert(j, e)) == obj_model(s).insert(j, (e.0@, e.1@)),
{
    let r = s.insert(j, e);
    s.insert_ensures(j, e);
    lemma_obj_model(s);
    lemma_obj_model(r);
    assert forall|t: int| 0 <= t < obj_model(r).len() implies obj_model(r)[t] == obj_model(
        s,
    ).insert(j, (e.0@, e.1@))[t] by {
        obj_model(s).insert_ensures(j, (e.0@, e.1@));
        if t < j {
            assert(r[t] == s[t]);
            assert(obj_model(r)[t] == (r[t].0@, r[t].1@));
            assert(obj_model(s)[t] == (s[t].0@, s[t].1@));
        } else if t == j {
            assert(r[t] == e);
            assert(obj_model(r)[t] == (r[t].0@, r[t].1@));
        } else {
            assert(r[(t - 1) + 1] == s[t - 1]);
            assert(obj_model(r)[t] == (r[t].0@, r[t].1@));
            assert(obj_model(s)[t - 1] == (s[t - 1].0@, s[t - 1].1@));
            assert(obj_model(s).insert(j, (e.0@, e.1@))[(t - 1) + 1] == obj_model(s)[t - 1]);
        }
    }
    assert(obj_model(r) =~= obj_model(s).insert(j, (e.0@, e.1@)));
}

/// `pair_model` commutes with `push`.
pub proof fn lemma_pair_model_push(s: Seq<(Value, Value)>, e: (Value, Value))
    ensures
        pair_model(s.push(e)) == pair_model(s).push((e.0@, e.1@)),
{
    let r = s.push(e);
    lemma_pair_model(s);
    lemma_pair_model(r);
    assert forall|i: int| 0 <= i < pair_model(r).len() implies pair_model(r)[i] == pair_model(
        s,
    ).push((e.0@, e.1@))[i] by {
        assert(pair_model(r)[i] == (r[i].0@, r[i].1@));
        if i < s.len() {
            assert(r[i] == s[i]);
            assert(pair_model(s)[i] == (s[i].0@, s[i].1@));
        } else {
            assert(r[i] == e);
        }
    }
    assert(pair_model(r) =~= pair_model(s).push((e.0@, e.1@)));
}

/// `pair_model` commutes with insertion.
pub proof fn lemma_pair_model_insert(s: Seq<(Value, Value)>, j: int, e: (Value, Value))
    requires
        0 <= j <= s.len(),
    ensures
        pair_model(s.insert(j, e)) == pair_model(s).insert(j, (e.0@, e.1@)),
{
    let r = s.insert(j, e);
    s.insert_ensures(j, e);
    lemma_pair_model(s);
    lemma_pair_model(r);
    assert forall|t: int| 0 <= t < pair_model(r).len() implies pair_model(r)[t] == pair_model(
        s,
    ).insert(j, (e.0@, e.1@))[t] by {
        pair_model(s).insert_ensures(j, (e.0@, e.1@));
        if t < j {
            assert(r[t] == s[t]);
            assert(pair_model(r)[t] == (r[t].0@, r[t].1@));
            assert(pair_model(s)[t] == (s[t].0@, s[t].1@));
        } else if t == j {
            assert(r[t] == e);
            assert(pair_model(r)[t] == (r[t].0@, r[t].1@));
        } else {
            assert(r[(t - 1) + 1] == s[t - 1]);
            assert(pair_model(r)[t] == (r[t].0@, r[t].1@));
            assert(pair_model(s)[t - 1] == (s[t - 1].0@, s[t - 1].1@));
            assert(pair_model(s).insert(j, (e.0@, e.1@))[(t - 1) + 1] == pair_model(s)[t - 1]);
        }
    }
    assert(pair_model(r) =~= pair_model(s).insert(j, (e.0@, e.1@)));
}

/// `pair_model` commutes with updating one entry.
pub proof fn lemma_pair_model_update(s: Seq<(Value, Value)>, j: int, e: (Value, Value))
    requires
        0 <= j < s.len(),
    ensures
        pair_model(s.update(j, e)) == pair_model(s).update(j, (e.0@, e.1@)),
{
    let r = s.update(j, e);
    lemma_pair_model(s);
    lemma_pair_model(r);
    assert forall|t: int| 0 <= t < pair_model(r).len() implies pair_model(r)[t] == pair_model(
        s,
    ).update(j, (e.0@, e.1@))[t] by {
        assert(pair_model(r)[t] == (r[t].0@, r[t].1@));
        if t != j {
            assert(r[t] == s[t]);
            assert(pair_model(s)[t] == (s[t].0@, s[t].1@));
        }
    }
    assert(pair_model(r) =~= pair_model(s).update(j, (e.0@, e.1@)));
}

/// `obj_model` commutes with updating one entry.
pub proof fn lemma_obj_model_update(s: Seq<(String, Value)>, j: int, e: (String, Value))
    requires
        0 <= j < s.len(),
    ensures
        obj_model(s.update(j, e)) == obj_model(s).update(j, (e.0@, e.1@)),
{
    let r = s.update(j, e);
    lemma_obj_model(s);
    lemma_obj_model(r);
    assert forall|t: int| 0 <= t < obj_model(r).len() implies obj_model(r)[t] == obj_model(
        s,
    ).update(j, (e.0@, e.1@))[t] by {
        assert(obj_model(r)[t] == (r[t].0@, r[t].1@));
        if t != j {
            assert(r[t] == s[t]);
            assert(obj_model(s)[t] == (s[t].0@, s[t].1@));
        }
    }
    assert(obj_model(r) =~= obj_model(s).update(j, (e.0@, e.1@)));
}

} // verus!
