//! The dynamic host value space, as the marshaller sees it.
//!
//! The embedding host hands over dynamic values: booleans, plain
//! integers, floats, strings, byte strings, sequences, set-like
//! collections, mappings, an explicit 64-bit integer wrapper, the
//! host's absence value, and foreign values of types the marshaller
//! does not know. A host float is carried by its IEEE 754 bit pattern.
//! A foreign value carries only its host type name and a printable
//! description, which is all the marshaller reports about it.

use vstd::prelude::*;

verus! {

broadcast use {vstd::seq::group_seq_axioms, vstd::std_specs::vec::group_vec_axioms};

/// Mathematical model of a host value: the spec-level mirror of
/// [`HostValue`], with sequences in place of vectors and strings.
pub enum HostModel {
    /// The host's absence value.
    Absent,
    /// A host boolean; tested before the integer kinds, a boolean is
    /// never read as a number.
    Bool(bool),
    /// A plain host integer, not wrapped: widened to a float.
    Int(i64),
    /// A host float, by its IEEE 754 bit pattern.
    Float(u64),
    /// The explicit 64-bit integer wrapper.
    Int64Box(i64),
    /// A host string.
    Text(Seq<char>),
    /// A host byte string.
    Bytes(Seq<u8>),
    /// A host sequence.
    List(Seq<HostModel>),
    /// A host set-like collection, in iteration order.
    SetLike(Seq<HostModel>),
    /// A host mapping, in iteration order.
    Dict(Seq<(HostModel, HostModel)>),
    /// A value of a host type the marshaller does not convert.
    Foreign {
        /// Name of the host type.
        host_type: Seq<char>,
        /// Printable description of the value.
        description: Seq<char>,
    },
}

/// A dynamic host value, as handed over by the embedding host.
#[derive(Debug, PartialEq, Eq)]
pub enum HostValue {
    /// The host's absence value.
    Absent,
    /// A host boolean.
    Bool(bool),
    /// A plain host integer, not wrapped.
    Int(i64),
    /// A host float, by its IEEE 754 bit pattern.
    Float(u64),
    /// The explicit 64-bit integer wrapper.
    Int64Box(i64),
    /// A host string.
    Text(String),
    /// A host byte string.
    Bytes(Vec<u8>),
    /// A host sequence.
    List(Vec<HostValue>),
    /// A host set-like collection, in iteration order.
    SetLike(Vec<HostValue>),
    /// A host mapping, in iteration order.
    Dict(Vec<(HostValue, HostValue)>),
    /// A value of a host type the marshaller does not convert.
    Foreign {
        /// Name of the host type.
        host_type: String,
        /// Printable description of the value.
        description: String,
    },
}

impl View for HostValue {
    type V = HostModel;

    open spec fn view(&self) -> HostModel
        decreases self,
    {
        match self {
            HostValue::Absent => HostModel::Absent,
            HostValue::Bool(b) => HostModel::Bool(*b),
            HostValue::Int(i) => HostModel::Int(*i),
            HostValue::Float(bits) => HostModel::Float(*bits),
            HostValue::Int64Box(i) => HostModel::Int64Box(*i),
            HostValue::Text(s) => HostModel::Text(s@),
            HostValue::Bytes(bs) => HostModel::Bytes(bs@),
            HostValue::List(items) => HostModel::List(host_seq_model(items@)),
            HostValue::SetLike(items) => HostModel::SetLike(host_seq_model(items@)),
            HostValue::Dict(entries) => HostModel::Dict(host_dict_model(entries@)),
            HostValue::Foreign { host_type, description } => HostModel::Foreign {
                host_type: host_type@,
                description: description@,
            },
        }
    }
}

/// The models of a sequence of host values, elementwise.
pub open spec fn host_seq_model(s: Seq<HostValue>) -> Seq<HostModel>
    decreases s,
{
    if s.len() == 0 {
        Seq::empty()
    } else {
        seq![s[0]@] + host_seq_model(s.drop_first())
    }
}

/// The models of a sequence of host entries, elementwise.
pub open spec fn host_dict_model(s: Seq<(HostValue, HostValue)>) -> Seq<(HostModel, HostModel)>
    decreases s,
{
    if s.len() == 0 {
        Seq::empty()
    } else {
        seq![(s[0].0@, s[0].1@)] + host_dict_model(s.drop_first())
    }
}

/// `host_seq_model` maps a sequence elementwise.
pub proof fn lemma_host_seq_model(s: Seq<HostValue>)
    ensures
        host_seq_model(s).len() == s.len(),
        forall|i: int| 0 <= i < s.len() ==> host_seq_model(s)[i] == #[trigger] s[i]@,
    decreases s,
{
    if s.len() == 0 {
        assert(host_seq_model(s) =~= Seq::<HostModel>::empty());
    } else {
        lemma_host_seq_model(s.drop_first());
        assert(host_seq_model(s) =~= seq![s[0]@] + host_seq_model(s.drop_first()));
        assert forall|i: int| 0 <= i < s.len() implies host_seq_model(s)[i] == #[trigger] s[i]@
            by {
            if i > 0 {
                assert(host_seq_model(s)[i] == host_seq_model(s.drop_first())[i - 1]);
                assert(s.drop_first()[i - 1] == s[i]);
            }
        }
    }
}

/// `host_dict_model` maps a sequence of entries elementwise.
pub proof fn lemma_host_dict_model(s: Seq<(HostValue, HostValue)>)
    ensures
        host_dict_model(s).len() == s.len(),
        forall|i: int| 0 <= i < s.len() ==> host_dict_model(s)[i] == (
            #[trigger] s[i].0@,
            s[i].1@,
        ),
    decreases s,
{
    if s.len() == 0 {
        assert(host_dict_model(s) =~= Seq::<(HostModel, HostModel)>::empty());
    } else {
        lemma_host_dict_model(s.drop_first());
        assert(host_dict_model(s) =~= seq![(s[0].0@, s[0].1@)] + host_dict_model(s.drop_first()));
        assert forall|i: int| 0 <= i < s.len() implies host_dict_model(s)[i] == (
            #[trigger] s[i].0@,
            s[i].1@,
        ) by {
            if i > 0 {
                assert(host_dict_model(s)[i] == host_dict_model(s.drop_first())[i - 1]);
                assert(s.drop_first()[i - 1] == s[i]);
            }
        }
    }
}

/// `host_seq_model` commutes with `push`.
pub proof fn lemma_host_seq_model_push(s: Seq<HostValue>, v: HostValue)
    ensures
        host_seq_model(s.push(v)) == host_seq_model(s).push(v@),
{
    let r = s.push(v);
    lemma_host_seq_model(s);
    lemma_host_seq_model(r);
    assert forall|i: int| 0 <= i < host_seq_model(r).len() implies host_seq_model(r)[i]
        == host_seq_model(s).push(v@)[i] by {
        assert(host_seq_model(r)[i] == r[i]@);
        if i < s.len() {
            assert(r[i] == s[i]);
            assert(host_seq_model(s)[i] == s[i]@);
        } else {
            assert(r[i] == v);
        }
    }
    assert(host_seq_model(r) =~= host_seq_model(s).push(v@));
}

/// `host_dict_model` commutes with `push`.
pub proof fn lemma_host_dict_model_push(s: Seq<(HostValue, HostValue)>, e: (HostValue, HostValue))
    ensures
        host_dict_model(s.push(e)) == host_dict_model(s).push((e.0@, e.1@)),
{
    let r = s.push(e);
    lemma_host_dict_model(s);
    lemma_host_dict_model(r);
    assert forall|i: int| 0 <= i < host_dict_model(r).len() implies host_dict_model(r)[i]
        == host_dict_model(s).push((e.0@, e.1@))[i] by {
        assert(host_dict_model(r)[i] == (r[i].0@, r[i].1@));
        if i < s.len() {
            assert(r[i] == s[i]);
            assert(host_dict_model(s)[i] == (s[i].0@, s[i].1@));
        } else {
            assert(r[i] == e);
        }
    }
    assert(host_dict_model(r) =~= host_dict_model(s).push((e.0@, e.1@)));
}

} // verus!
