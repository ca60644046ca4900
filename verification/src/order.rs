//! The total order over values.
//!
//! Sets and maps are kept canonical under one total order: values are
//! ranked by variant first, then by their payload. Strings and byte
//! strings compare lexicographically; arrays, objects, sets and maps
//! compare lexicographically element by element; floats compare by the
//! IEEE 754 `totalOrder` predicate on their bit patterns (negative
//! quiet NaN first, positive quiet NaN last). The order is definitional
//! for this crate and stable across processes.

use vstd::prelude::*;
use crate::value::{
    lemma_obj_model, lemma_pair_model, lemma_seq_model, obj_model, pair_model, seq_model,
    ValModel, Value,
};

verus! {

broadcast use {vstd::seq::group_seq_axioms, vstd::std_specs::vec::group_vec_axioms};

/// Result of a three-way comparison.
#[derive(Debug, Clone, Copy, PartialEq, Eq, Structural)]
pub enum Cmp {
    /// The left operand orders strictly before the right one.
    Lt,
    /// The operands are equal.
    Eq,
    /// The left operand orders strictly after the right one.
    Gt,
}

/// The sign of a comparison outcome: -1, 0 or 1.
pub open spec fn cmp_sign(c: Cmp) -> int {
    match c {
        Cmp::Lt => -1,
        Cmp::Eq => 0,
        Cmp::Gt => 1,
    }
}

/// Three-way comparison of two mathematical integers.
pub open spec fn int_cmp(a: int, b: int) -> int {
    if a < b {
        -1
    } else if a == b {
        0
    } else {
        1
    }
}

/// Rank of a variant in the total order; a value of a lower-ranked
/// variant orders before every value of a higher-ranked one.
pub open spec fn tag_rank(v: ValModel) -> int {
    match v {
        ValModel::Null => 0,
        ValModel::Int64(_) => 1,
        ValModel::Float64(_) => 2,
        ValModel::Boolean(_) => 3,
        ValModel::Text(_) => 4,
        ValModel::Bytes(_) => 5,
        ValModel::Array(_) => 6,
        ValModel::Object(_) => 7,
        ValModel::SetVal(_) => 8,
        ValModel::MapVal(_) => 9,
    }
}

/// Monotone key for the IEEE 754 `totalOrder` relation on doubles:
/// unsigned comparison of the keys orders the underlying floats
/// sign-magnitude-wise, negatives descending, positives ascending.
pub open spec fn float_order_key(bits: u64) -> u64 {
    if bits >= 0x8000_0000_0000_0000 {
        !bits
    } else {
        bits | 0x8000_0000_0000_0000
    }
}

/// Lexicographic comparison of two character sequences, by scalar value;
/// a strict prefix orders before its extensions.
pub open spec fn chars_cmp(a: Seq<char>, b: Seq<char>) -> int
    decreases a.len(),
{
    if a.len() == 0 && b.len() == 0 {
        0
    } else if a.len() == 0 {
        -1
    } else if b.len() == 0 {
        1
    } else if a[0] as u32 != b[0] as u32 {
        int_cmp(a[0] as u32 as int, b[0] as u32 as int)
    } else {
        chars_cmp(a.drop_first(), b.drop_first())
    }
}

/// Lexicographic comparison of two byte sequences.
pub open spec fn bytes_cmp(a: Seq<u8>, b: Seq<u8>) -> int
    decreases a.len(),
{
    if a.len() == 0 && b.len() == 0 {
        0
    } else if a.len() == 0 {
        -1
    } else if b.len() == 0 {
        1
    } else if a[0] != b[0] {
        int_cmp(a[0] as int, b[0] as int)
    } else {
        bytes_cmp(a.drop_first(), b.drop_first())
    }
}

/// Three-way comparison of two values under the total order.
pub open spec fn val_cmp(a: ValModel, b: ValModel) -> int
    decreases a,
{
    if tag_rank(a) != tag_rank(b) {
        int_cmp(tag_rank(a), tag_rank(b))
    } else {
        match (a, b) {
            (ValModel::Int64(x), ValModel::Int64(y)) => int_cmp(x as int, y as int),
            (ValModel::Float64(x), ValModel::Float64(y)) => int_cmp(
                float_order_key(x) as int,
                float_order_key(y) as int,
            ),
            (ValModel::Boolean(x), ValModel::Boolean(y)) => if x == y {
                0
            } else if !x {
                -1
            } else {
                1
            },
            (ValModel::Text(x), ValModel::Text(y)) => chars_cmp(x, y),
            (ValModel::Bytes(x), ValModel::Bytes(y)) => bytes_cmp(x, y),
            (ValModel::Array(x), ValModel::Array(y)) => val_seq_cmp(x, y),
            (ValModel::Object(x), ValModel::Object(y)) => obj_entries_cmp(x, y),
            (ValModel::SetVal(x), ValModel::SetVal(y)) => val_seq_cmp(x, y),
            (ValModel::MapVal(x), ValModel::MapVal(y)) => map_entries_cmp(x, y),
            _ => 0,
        }
    }
}

/// Lexicographic comparison of two value sequences.
pub open spec fn val_seq_cmp(a: Seq<ValModel>, b: Seq<ValModel>) -> int
    decreases a,
{
    if a.len() == 0 && b.len() == 0 {
        0
    } else if a.len() == 0 {
        -1
    } else if b.len() == 0 {
        1
    } else if val_cmp(a[0], b[0]) != 0 {
        val_cmp(a[0], b[0])
    } else {
        val_seq_cmp(a.drop_first(), b.drop_first())
    }
}

/// Lexicographic comparison of two string-keyed entry sequences:
/// by key first, then by the value under the key.
pub open spec fn obj_entries_cmp(
    a: Seq<(Seq<char>, ValModel)>,
    b: Seq<(Seq<char>, ValModel)>,
) -> int
    decreases a,
{
    if a.len() == 0 && b.len() == 0 {
        0
    } else if a.len() == 0 {
        -1
    } else if b.len() == 0 {
        1
    } else if chars_cmp(a[0].0, b[0].0) != 0 {
        chars_cmp(a[0].0, b[0].0)
    } else if val_cmp(a[0].1, b[0].1) != 0 {
        val_cmp(a[0].1, b[0].1)
    } else {
        obj_entries_cmp(a.drop_first(), b.drop_first())
    }
}

/// Lexicographic comparison of two value-keyed entry sequences:
/// by key first, then by the value under the key.
pub open spec fn map_entries_cmp(
    a: Seq<(ValModel, ValModel)>,
    b: Seq<(ValModel, ValModel)>,
) -> int
    decreases a,
{
    if a.len() == 0 && b.len() == 0 {
        0
    } else if a.len() == 0 {
        -1
    } else if b.len() == 0 {
        1
    } else if val_cmp(a[0].0, b[0].0) != 0 {
        val_cmp(a[0].0, b[0].0)
    } else if val_cmp(a[0].1, b[0].1) != 0 {
        val_cmp(a[0].1, b[0].1)
    } else {
        map_entries_cmp(a.drop_first(), b.drop_first())
    }
}

/// The byte order is antisymmetric and zero exactly on equal sequences.
pub proof fn lemma_bytes_cmp_laws(a: Seq<u8>, b: Seq<u8>)
    ensures
        bytes_cmp(a, b) == 0 <==> a == b,
        bytes_cmp(a, b) == -bytes_cmp(b, a),
    decreases a.len(),
{
    if a.len() == 0 && b.len() == 0 {
        assert(a =~= b);
    } else if a.len() > 0 && b.len() > 0 {
        lemma_bytes_cmp_laws(a.drop_first(), b.drop_first());
        if bytes_cmp(a, b) == 0 {
            assert forall|i: int| 0 <= i < a.len() implies a[i] == b[i] by {
                if i > 0 {
                    assert(a[i] == a.drop_first()[i - 1]);
                    assert(b[i] == b.drop_first()[i - 1]);
                }
            }
            assert(a =~= b);
        }
        if a == b {
            assert(a.drop_first() == b.drop_first());
        }
    }
}

/// The character order is antisymmetric and zero exactly on equal sequences.
pub proof fn lemma_chars_cmp_laws(a: Seq<char>, b: Seq<char>)
    ensures
        chars_cmp(a, b) == 0 <==> a == b,
        chars_cmp(a, b) == -chars_cmp(b, a),
    decreases a.len(),
{
    if a.len() == 0 && b.len() == 0 {
        assert(a =~= b);
    } else if a.len() > 0 && b.len() > 0 {
        lemma_chars_cmp_laws(a.drop_first(), b.drop_first());
        if a[0] as u32 == b[0] as u32 {
            vstd::utf8::char_u32_cast(a[0], a[0] as u32);
            vstd::utf8::char_u32_cast(b[0], b[0] as u32);
            assert(a[0] == b[0]);
        }
        if chars_cmp(a, b) == 0 {
            assert forall|i: int| 0 <= i < a.len() implies a[i] == b[i] by {
                if i > 0 {
                    assert(a[i] == a.drop_first()[i - 1]);
                    assert(b[i] == b.drop_first()[i - 1]);
                }
            }
            assert(a =~= b);
        }
        if a == b {
            assert(a.drop_first() == b.drop_first());
        }
    }
}

/// The float key is injective: distinct bit patterns keep distinct keys.
proof fn lemma_float_order_key_injective(x: u64, y: u64)
    ensures
        float_order_key(x) == float_order_key(y) ==> x == y,
{
    assert(x >= 0x8000_0000_0000_0000 && y >= 0x8000_0000_0000_0000 && !x == !y ==> x == y)
        by (bit_vector);
    assert(x < 0x8000_0000_0000_0000 && y < 0x8000_0000_0000_0000
        && (x | 0x8000_0000_0000_0000) == (y | 0x8000_0000_0000_0000) ==> x == y) by (bit_vector);
    assert(x < 0x8000_0000_0000_0000 && y >= 0x8000_0000_0000_0000
        ==> (x | 0x8000_0000_0000_0000) != !y) by (bit_vector);
    assert(y < 0x8000_0000_0000_0000 && x >= 0x8000_0000_0000_0000
        ==> (y | 0x8000_0000_0000_0000) != !x) by (bit_vector);
}

/// The value order is antisymmetric and zero exactly on equal values.
pub proof fn lemma_val_cmp_laws(a: ValModel, b: ValModel)
    ensures
        val_cmp(a, b) == 0 <==> a == b,
        val_cmp(a, b) == -val_cmp(b, a),
    decreases a,
{
    if tag_rank(a) == tag_rank(b) {
        match (a, b) {
            (ValModel::Null, ValModel::Null) => {},
            (ValModel::Int64(_), ValModel::Int64(_)) => {},
            (ValModel::Float64(x), ValModel::Float64(y)) => {
                lemma_float_order_key_injective(x, y);
            },
            (ValModel::Boolean(_), ValModel::Boolean(_)) => {},
            (ValModel::Text(x), ValModel::Text(y)) => {
                lemma_chars_cmp_laws(x, y);
            },
            (ValModel::Bytes(x), ValModel::Bytes(y)) => {
                lemma_bytes_cmp_laws(x, y);
            },
            (ValModel::Array(x), ValModel::Array(y)) => {
                lemma_val_seq_cmp_laws(x, y);
            },
            (ValModel::Object(x), ValModel::Object(y)) => {
                lemma_obj_entries_cmp_laws(x, y);
            },
            (ValModel::SetVal(x), ValModel::SetVal(y)) => {
                lemma_val_seq_cmp_laws(x, y);
            },
            (ValModel::MapVal(x), ValModel::MapVal(y)) => {
                lemma_map_entries_cmp_laws(x, y);
            },
            _ => {
                assert(false);
            },
        }
    }
}

/// The sequence order is antisymmetric and zero exactly on equal sequences.
pub proof fn lemma_val_seq_cmp_laws(a: Seq<ValModel>, b: Seq<ValModel>)
    ensures
        val_seq_cmp(a, b) == 0 <==> a == b,
        val_seq_cmp(a, b) == -val_seq_cmp(b, a),
    decreases a,
{
    if a.len() == 0 && b.len() == 0 {
        assert(a =~= b);
    } else if a.len() > 0 && b.len() > 0 {
        lemma_val_cmp_laws(a[0], b[0]);
        lemma_val_seq_cmp_laws(a.drop_first(), b.drop_first());
        if val_seq_cmp(a, b) == 0 {
            assert forall|i: int| 0 <= i < a.len() implies a[i] == b[i] by {
                if i > 0 {
                    assert(a[i] == a.drop_first()[i - 1]);
                    assert(b[i] == b.drop_first()[i - 1]);
                }
            }
            assert(a =~= b);
        }
        if a == b {
            assert(a.drop_first() == b.drop_first());
        }
    }
}

/// The entry order on string-keyed entries is antisymmetric and zero
/// exactly on equal entry sequences.
pub proof fn lemma_obj_entries_cmp_laws(
    a: Seq<(Seq<char>, ValModel)>,
    b: Seq<(Seq<char>, ValModel)>,
)
    ensures
        obj_entries_cmp(a, b) == 0 <==> a == b,
        obj_entries_cmp(a, b) == -obj_entries_cmp(b, a),
    decreases a,
{
    if a.len() == 0 && b.len() == 0 {
        assert(a =~= b);
    } else if a.len() > 0 && b.len() > 0 {
        lemma_chars_cmp_laws(a[0].0, b[0].0);
        lemma_val_cmp_laws(a[0].1, b[0].1);
        lemma_obj_entries_cmp_laws(a.drop_first(), b.drop_first());
        if obj_entries_cmp(a, b) == 0 {
            assert forall|i: int| 0 <= i < a.len() implies a[i] == b[i] by {
                if i > 0 {
                    assert(a[i] == a.drop_first()[i - 1]);
                    assert(b[i] == b.drop_first()[i - 1]);
                }
            }
            assert(a =~= b);
        }
        if a == b {
            assert(a.drop_first() == b.drop_first());
        }
    }
}

/// The entry order on value-keyed entries is antisymmetric and zero
/// exactly on equal entry sequences.
pub proof fn lemma_map_entries_cmp_laws(
    a: Seq<(ValModel, ValModel)>,
    b: Seq<(ValModel, ValModel)>,
)
    ensures
        map_entries_cmp(a, b) == 0 <==> a == b,
        map_entries_cmp(a, b) == -map_entries_cmp(b, a),
    decreases a,
{
    if a.len() == 0 && b.len() == 0 {
        assert(a =~= b);
    } else if a.len() > 0 && b.len() > 0 {
        lemma_val_cmp_laws(a[0].0, b[0].0);
        lemma_val_cmp_laws(a[0].1, b[0].1);
        lemma_map_entries_cmp_laws(a.drop_first(), b.drop_first());
        if map_entries_cmp(a, b) == 0 {
            assert forall|i: int| 0 <= i < a.len() implies a[i] == b[i] by {
                if i > 0 {
                    assert(a[i] == a.drop_first()[i - 1]);
                    assert(b[i] == b.drop_first()[i - 1]);
                }
            }
            assert(a =~= b);
        }
        if a == b {
            assert(a.drop_first() == b.drop_first());
        }
    }
}

/// A byte comparison is always -1, 0 or 1.
pub proof fn lemma_bytes_cmp_range(a: Seq<u8>, b: Seq<u8>)
    ensures
        -1 <= bytes_cmp(a, b) <= 1,
    decreases a.len(),
{
    if a.len() > 0 && b.len() > 0 {
        lemma_bytes_cmp_range(a.drop_first(), b.drop_first());
    }
}

/// A character comparison is always -1, 0 or 1.
pub proof fn lemma_chars_cmp_range(a: Seq<char>, b: Seq<char>)
    ensures
        -1 <= chars_cmp(a, b) <= 1,
    decreases a.len(),
{
    if a.len() > 0 && b.len() > 0 {
        lemma_chars_cmp_range(a.drop_first(), b.drop_first());
    }
}

/// A value comparison is always -1, 0 or 1.
pub proof fn lemma_val_cmp_range(a: ValModel, b: ValModel)
    ensures
        -1 <= val_cmp(a, b) <= 1,
    decreases a,
{
    if tag_rank(a) == tag_rank(b) {
        match (a, b) {
            (ValModel::Text(x), ValModel::Text(y)) => lemma_chars_cmp_range(x, y),
            (ValModel::Bytes(x), ValModel::Bytes(y)) => lemma_bytes_cmp_range(x, y),
            (ValModel::Array(x), ValModel::Array(y)) => lemma_val_seq_cmp_range(x, y),
            (ValModel::Object(x), ValModel::Object(y)) => lemma_obj_entries_cmp_range(x, y),
            (ValModel::SetVal(x), ValModel::SetVal(y)) => lemma_val_seq_cmp_range(x, y),
            (ValModel::MapVal(x), ValModel::MapVal(y)) => lemma_map_entries_cmp_range(x, y),
            _ => {},
        }
    }
}

/// A sequence comparison is always -1, 0 or 1.
pub proof fn lemma_val_seq_cmp_range(a: Seq<ValModel>, b: Seq<ValModel>)
    ensures
        -1 <= val_seq_cmp(a, b) <= 1,
    decreases a,
{
    if a.len() > 0 && b.len() > 0 {
        lemma_val_cmp_range(a[0], b[0]);
        lemma_val_seq_cmp_range(a.drop_first(), b.drop_first());
    }
}

/// An entry comparison is always -1, 0 or 1.
pub proof fn lemma_obj_entries_cmp_range(
    a: Seq<(Seq<char>, ValModel)>,
    b: Seq<(Seq<char>, ValModel)>,
)
    ensures
        -1 <= obj_entries_cmp(a, b) <= 1,
    decreases a,
{
    if a.len() > 0 && b.len() > 0 {
        lemma_chars_cmp_range(a[0].0, b[0].0);
        lemma_val_cmp_range(a[0].1, b[0].1);
        lemma_obj_entries_cmp_range(a.drop_first(), b.drop_first());
    }
}

/// An entry comparison is always -1, 0 or 1.
pub proof fn lemma_map_entries_cmp_range(
    a: Seq<(ValModel, ValModel)>,
    b: Seq<(ValModel, ValModel)>,
)
    ensures
        -1 <= map_entries_cmp(a, b) <= 1,
    decreases a,
{
    if a.len() > 0 && b.len() > 0 {
        lemma_val_cmp_range(a[0].0, b[0].0);
        lemma_val_cmp_range(a[0].1, b[0].1);
        lemma_map_entries_cmp_range(a.drop_first(), b.drop_first());
    }
}

/// The byte order is transitive.
pub proof fn lemma_bytes_cmp_trans(a: Seq<u8>, b: Seq<u8>, c: Seq<u8>)
    requires
        bytes_cmp(a, b) <= 0,
        bytes_cmp(b, c) <= 0,
    ensures
        bytes_cmp(a, c) <= 0,
    decreases a.len(),
{
    if a.len() == 0 {
    } else if c.len() == 0 {
        assert(b.len() == 0);
        assert(false);
    } else if b.len() == 0 {
        assert(false);
    } else {
        let ha = a[0] as u32;
        let hb = b[0] as u32;
        let hc = c[0] as u32;
        assert(a[0] as int <= b[0] as int);
        assert(b[0] as int <= c[0] as int);
        if a[0] == c[0] {
            assert(a[0] == b[0] && b[0] == c[0]);
            lemma_bytes_cmp_trans(a.drop_first(), b.drop_first(), c.drop_first());
        }
    }
}

/// The character order is transitive.
pub proof fn lemma_chars_cmp_trans(a: Seq<char>, b: Seq<char>, c: Seq<char>)
    requires
        chars_cmp(a, b) <= 0,
        chars_cmp(b, c) <= 0,
    ensures
        chars_cmp(a, c) <= 0,
    decreases a.len(),
{
    if a.len() == 0 {
    } else if c.len() == 0 {
        assert(b.len() == 0);
        assert(false);
    } else if b.len() == 0 {
        assert(false);
    } else {
        let ha = a[0] as u32;
        let hb = b[0] as u32;
        let hc = c[0] as u32;
        assert(ha <= hb);
        assert(hb <= hc);
        if ha == hc {
            assert(ha == hb && hb == hc);
            lemma_chars_cmp_trans(a.drop_first(), b.drop_first(), c.drop_first());
        }
    }
}

/// The value order is transitive; with antisymmetry and the zero law
/// it is a total order over values.
pub proof fn lemma_val_cmp_trans(a: ValModel, b: ValModel, c: ValModel)
    requires
        val_cmp(a, b) <= 0,
        val_cmp(b, c) <= 0,
    ensures
        val_cmp(a, c) <= 0,
    decreases a,
{
    lemma_val_cmp_range(a, b);
    lemma_val_cmp_range(b, c);
    assert(tag_rank(a) <= tag_rank(b));
    assert(tag_rank(b) <= tag_rank(c));
    if tag_rank(a) == tag_rank(c) {
        match (a, b, c) {
            (ValModel::Null, ValModel::Null, ValModel::Null) => {},
            (ValModel::Int64(_), ValModel::Int64(_), ValModel::Int64(_)) => {},
            (ValModel::Float64(_), ValModel::Float64(_), ValModel::Float64(_)) => {},
            (ValModel::Boolean(_), ValModel::Boolean(_), ValModel::Boolean(_)) => {},
            (ValModel::Text(x), ValModel::Text(y), ValModel::Text(z)) => {
                lemma_chars_cmp_trans(x, y, z);
            },
            (ValModel::Bytes(x), ValModel::Bytes(y), ValModel::Bytes(z)) => {
                lemma_bytes_cmp_trans(x, y, z);
            },
            (ValModel::Array(x), ValModel::Array(y), ValModel::Array(z)) => {
                lemma_val_seq_cmp_trans(x, y, z);
            },
            (ValModel::Object(x), ValModel::Object(y), ValModel::Object(z)) => {
                lemma_obj_entries_cmp_trans(x, y, z);
            },
            (ValModel::SetVal(x), ValModel::SetVal(y), ValModel::SetVal(z)) => {
                lemma_val_seq_cmp_trans(x, y, z);
            },
            (ValModel::MapVal(x), ValModel::MapVal(y), ValModel::MapVal(z)) => {
                lemma_map_entries_cmp_trans(x, y, z);
            },
            _ => {
                assert(false);
            },
        }
    }
}

/// The sequence order is transitive.
pub proof fn lemma_val_seq_cmp_trans(a: Seq<ValModel>, b: Seq<ValModel>, c: Seq<ValModel>)
    requires
        val_seq_cmp(a, b) <= 0,
        val_seq_cmp(b, c) <= 0,
    ensures
        val_seq_cmp(a, c) <= 0,
    decreases a,
{
    if a.len() == 0 {
    } else if c.len() == 0 {
        assert(b.len() == 0);
        assert(false);
    } else if b.len() == 0 {
        assert(false);
    } else {
        let hab = val_cmp(a[0], b[0]);
        let hbc = val_cmp(b[0], c[0]);
        lemma_val_cmp_range(a[0], b[0]);
        lemma_val_cmp_range(b[0], c[0]);
        assert(hab <= 0);
        assert(hbc <= 0);
        lemma_val_cmp_trans(a[0], b[0], c[0]);
        let hac = val_cmp(a[0], c[0]);
        if hac == 0 {
            lemma_val_cmp_laws(a[0], c[0]);
            assert(a[0] == c[0]);
            if hab < 0 {
                lemma_val_cmp_laws(a[0], b[0]);
                lemma_val_cmp_laws(b[0], c[0]);
                assert(false);
            }
            if hbc < 0 {
                lemma_val_cmp_laws(a[0], b[0]);
                lemma_val_cmp_laws(b[0], c[0]);
                assert(false);
            }
            lemma_val_seq_cmp_trans(a.drop_first(), b.drop_first(), c.drop_first());
        }
    }
}

/// The entry order on string-keyed entries is transitive.
pub proof fn lemma_obj_entries_cmp_trans(
    a: Seq<(Seq<char>, ValModel)>,
    b: Seq<(Seq<char>, ValModel)>,
    c: Seq<(Seq<char>, ValModel)>,
)
    requires
        obj_entries_cmp(a, b) <= 0,
        obj_entries_cmp(b, c) <= 0,
    ensures
        obj_entries_cmp(a, c) <= 0,
    decreases a,
{
    if a.len() == 0 {
    } else if c.len() == 0 {
        assert(b.len() == 0);
        assert(false);
    } else if b.len() == 0 {
        assert(false);
    } else {
        let kab = chars_cmp(a[0].0, b[0].0);
        let kbc = chars_cmp(b[0].0, c[0].0);
        lemma_chars_cmp_range(a[0].0, b[0].0);
        lemma_chars_cmp_range(b[0].0, c[0].0);
        assert(kab <= 0);
        assert(kbc <= 0);
        lemma_chars_cmp_trans(a[0].0, b[0].0, c[0].0);
        let kac = chars_cmp(a[0].0, c[0].0);
        if kac == 0 {
            lemma_chars_cmp_laws(a[0].0, c[0].0);
            assert(a[0].0 == c[0].0);
            if kab < 0 || kbc < 0 {
                lemma_chars_cmp_laws(a[0].0, b[0].0);
                lemma_chars_cmp_laws(b[0].0, c[0].0);
                assert(false);
            }
            let vab = val_cmp(a[0].1, b[0].1);
            let vbc = val_cmp(b[0].1, c[0].1);
            lemma_val_cmp_range(a[0].1, b[0].1);
            lemma_val_cmp_range(b[0].1, c[0].1);
            assert(vab <= 0);
            assert(vbc <= 0);
            lemma_val_cmp_trans(a[0].1, b[0].1, c[0].1);
            let vac = val_cmp(a[0].1, c[0].1);
            if vac == 0 {
                lemma_val_cmp_laws(a[0].1, c[0].1);
                assert(a[0].1 == c[0].1);
                if vab < 0 || vbc < 0 {
                    lemma_val_cmp_laws(a[0].1, b[0].1);
                    lemma_val_cmp_laws(b[0].1, c[0].1);
                    assert(false);
                }
                lemma_obj_entries_cmp_trans(a.drop_first(), b.drop_first(), c.drop_first());
            }
        }
    }
}

/// The entry order on value-keyed entries is transitive.
pub proof fn lemma_map_entries_cmp_trans(
    a: Seq<(ValModel, ValModel)>,
    b: Seq<(ValModel, ValModel)>,
    c: Seq<(ValModel, ValModel)>,
)
    requires
        map_entries_cmp(a, b) <= 0,
        map_entries_cmp(b, c) <= 0,
    ensures
        map_entries_cmp(a, c) <= 0,
    decreases a,
{
    if a.len() == 0 {
    } else if c.len() == 0 {
        assert(b.len() == 0);
        assert(false);
    } else if b.len() == 0 {
        assert(false);
    } else {
        let kab = val_cmp(a[0].0, b[0].0);
        let kbc = val_cmp(b[0].0, c[0].0);
        lemma_val_cmp_range(a[0].0, b[0].0);
        lemma_val_cmp_range(b[0].0, c[0].0);
        assert(kab <= 0);
        assert(kbc <= 0);
        lemma_val_cmp_trans(a[0].0, b[0].0, c[0].0);
        let kac = val_cmp(a[0].0, c[0].0);
        if kac == 0 {
            lemma_val_cmp_laws(a[0].0, c[0].0);
            assert(a[0].0 == c[0].0);
            if kab < 0 || kbc < 0 {
                lemma_val_cmp_laws(a[0].0, b[0].0);
                lemma_val_cmp_laws(b[0].0, c[0].0);
                assert(false);
            }
            let vab = val_cmp(a[0].1, b[0].1);
            let vbc = val_cmp(b[0].1, c[0].1);
            lemma_val_cmp_range(a[0].1, b[0].1);
            lemma_val_cmp_range(b[0].1, c[0].1);
            assert(vab <= 0);
            assert(vbc <= 0);
            lemma_val_cmp_trans(a[0].1, b[0].1, c[0].1);
            let vac = val_cmp(a[0].1, c[0].1);
            if vac == 0 {
                lemma_val_cmp_laws(a[0].1, c[0].1);
                assert(a[0].1 == c[0].1);
                if vab < 0 || vbc < 0 {
                    lemma_val_cmp_laws(a[0].1, b[0].1);
                    lemma_val_cmp_laws(b[0].1, c[0].1);
                    assert(false);
                }
                lemma_map_entries_cmp_trans(a.drop_first(), b.drop_first(), c.drop_first());
            }
        }
    }
}

/// Dropping an equal prefix does not change a lexicographic comparison.
proof fn lemma_bytes_cmp_skip(a: Seq<u8>, b: Seq<u8>, i: int)
    requires
        0 <= i <= a.len(),
        i <= b.len(),
        forall|j: int| 0 <= j < i ==> a[j] == b[j],
    ensures
        bytes_cmp(a, b) == bytes_cmp(a.skip(i), b.skip(i)),
    decreases i,
{
    if i > 0 {
        assert forall|j: int| 0 <= j < i - 1 implies a.drop_first()[j] == b.drop_first()[j] by {
            assert(a.drop_first()[j] == a[j + 1]);
            assert(b.drop_first()[j] == b[j + 1]);
        }
        lemma_bytes_cmp_skip(a.drop_first(), b.drop_first(), i - 1);
        assert(a.drop_first().skip(i - 1) =~= a.skip(i));
        assert(b.drop_first().skip(i - 1) =~= b.skip(i));
    } else {
        assert(a.skip(0) =~= a);
        assert(b.skip(0) =~= b);
    }
}

/// Dropping an equal prefix does not change a lexicographic comparison.
proof fn lemma_chars_cmp_skip(a: Seq<char>, b: Seq<char>, i: int)
    requires
        0 <= i <= a.len(),
        i <= b.len(),
        forall|j: int| 0 <= j < i ==> a[j] == b[j],
    ensures
        chars_cmp(a, b) == chars_cmp(a.skip(i), b.skip(i)),
    decreases i,
{
    if i > 0 {
        assert forall|j: int| 0 <= j < i - 1 implies a.drop_first()[j] == b.drop_first()[j] by {
            assert(a.drop_first()[j] == a[j + 1]);
            assert(b.drop_first()[j] == b[j + 1]);
        }
        lemma_chars_cmp_skip(a.drop_first(), b.drop_first(), i - 1);
        assert(a.drop_first().skip(i - 1) =~= a.skip(i));
        assert(b.drop_first().skip(i - 1) =~= b.skip(i));
    } else {
        assert(a.skip(0) =~= a);
        assert(b.skip(0) =~= b);
    }
}

/// Dropping an equal prefix does not change a lexicographic comparison.
proof fn lemma_val_seq_cmp_skip(a: Seq<ValModel>, b: Seq<ValModel>, i: int)
    requires
        0 <= i <= a.len(),
        i <= b.len(),
        forall|j: int| 0 <= j < i ==> a[j] == b[j],
    ensures
        val_seq_cmp(a, b) == val_seq_cmp(a.skip(i), b.skip(i)),
    decreases i,
{
    if i > 0 {
        lemma_val_cmp_laws(a[0], b[0]);
        assert forall|j: int| 0 <= j < i - 1 implies a.drop_first()[j] == b.drop_first()[j] by {
            assert(a.drop_first()[j] == a[j + 1]);
            assert(b.drop_first()[j] == b[j + 1]);
        }
        lemma_val_seq_cmp_skip(a.drop_first(), b.drop_first(), i - 1);
        assert(a.drop_first().skip(i - 1) =~= a.skip(i));
        assert(b.drop_first().skip(i - 1) =~= b.skip(i));
    } else {
        assert(a.skip(0) =~= a);
        assert(b.skip(0) =~= b);
    }
}

/// Dropping an equal prefix does not change a lexicographic comparison.
proof fn lemma_obj_entries_cmp_skip(
    a: Seq<(Seq<char>, ValModel)>,
    b: Seq<(Seq<char>, ValModel)>,
    i: int,
)
    requires
        0 <= i <= a.len(),
        i <= b.len(),
        forall|j: int| 0 <= j < i ==> a[j] == b[j],
    ensures
        obj_entries_cmp(a, b) == obj_entries_cmp(a.skip(i), b.skip(i)),
    decreases i,
{
    if i > 0 {
        lemma_chars_cmp_laws(a[0].0, b[0].0);
        lemma_val_cmp_laws(a[0].1, b[0].1);
        assert forall|j: int| 0 <= j < i - 1 implies a.drop_first()[j] == b.drop_first()[j] by {
            assert(a.drop_first()[j] == a[j + 1]);
            assert(b.drop_first()[j] == b[j + 1]);
        }
        lemma_obj_entries_cmp_skip(a.drop_first(), b.drop_first(), i - 1);
        assert(a.drop_first().skip(i - 1) =~= a.skip(i));
        assert(b.drop_first().skip(i - 1) =~= b.skip(i));
    } else {
        assert(a.skip(0) =~= a);
        assert(b.skip(0) =~= b);
    }
}

/// Dropping an equal prefix does not change a lexicographic comparison.
proof fn lemma_map_entries_cmp_skip(
    a: Seq<(ValModel, ValModel)>,
    b: Seq<(ValModel, ValModel)>,
    i: int,
)
    requires
        0 <= i <= a.len(),
        i <= b.len(),
        forall|j: int| 0 <= j < i ==> a[j] == b[j],
    ensures
        map_entries_cmp(a, b) == map_entries_cmp(a.skip(i), b.skip(i)),
    decreases i,
{
    if i > 0 {
        lemma_val_cmp_laws(a[0].0, b[0].0);
        lemma_val_cmp_laws(a[0].1, b[0].1);
        assert forall|j: int| 0 <= j < i - 1 implies a.drop_first()[j] == b.drop_first()[j] by {
            assert(a.drop_first()[j] == a[j + 1]);
            assert(b.drop_first()[j] == b[j + 1]);
        }
        lemma_map_entries_cmp_skip(a.drop_first(), b.drop_first(), i - 1);
        assert(a.drop_first().skip(i - 1) =~= a.skip(i));
        assert(b.drop_first().skip(i - 1) =~= b.skip(i));
    } else {
        assert(a.skip(0) =~= a);
        assert(b.skip(0) =~= b);
    }
}

/// Rank of an executable value's variant, as in [`tag_rank`].
fn tag_rank_of(v: &Value) -> (r: u8)
    ensures
        r as int == tag_rank(v@),
{
    match v {
        Value::Null => 0,
        Value::Int64(_) => 1,
        Value::Float64(_) => 2,
        Value::Boolean(_) => 3,
        Value::Text(_) => 4,
        Value::Bytes(_) => 5,
        Value::Array(_) => 6,
        Value::Object(_) => 7,
        Value::SetVal(_) => 8,
        Value::MapVal(_) => 9,
    }
}

/// Three-way comparison of two signed machine integers.
fn i64_cmp(x: i64, y: i64) -> (c: Cmp)
    ensures
        cmp_sign(c) == int_cmp(x as int, y as int),
{
    if x < y {
        Cmp::Lt
    } else if x == y {
        Cmp::Eq
    } else {
        Cmp::Gt
    }
}

/// Three-way comparison of two unsigned machine integers.
fn u64_cmp(x: u64, y: u64) -> (c: Cmp)
    ensures
        cmp_sign(c) == int_cmp(x as int, y as int),
{
    if x < y {
        Cmp::Lt
    } else if x == y {
        Cmp::Eq
    } else {
        Cmp::Gt
    }
}

/// The monotone key of [`float_order_key`], computed on a machine word.
pub fn float_key(bits: u64) -> (k: u64)
    ensures
        k == float_order_key(bits),
{
    if bits >= 0x8000_0000_0000_0000 {
        !bits
    } else {
        bits | 0x8000_0000_0000_0000
    }
}

/// Three-way comparison of two strings under the character order.
pub fn str_cmp(a: &str, b: &str) -> (c: Cmp)
    ensures
        cmp_sign(c) == chars_cmp(a@, b@),
{
    let la = a.unicode_len();
    let lb = b.unicode_len();
    let mut i: usize = 0;
    while i < la && i < lb
        invariant
            i <= la,
            i <= lb,
            la == a@.len(),
            lb == b@.len(),
            forall|j: int| 0 <= j < i ==> a@[j] == b@[j],
        decreases la - i,
    {
        let ca = a.get_char(i);
        let cb = b.get_char(i);
        let ua = ca as u32;
        let ub = cb as u32;
        if ua != ub {
            proof {
                lemma_chars_cmp_skip(a@, b@, i as int);
                assert(a@.skip(i as int)[0] == a@[i as int]);
                assert(b@.skip(i as int)[0] == b@[i as int]);
            }
            return if ua < ub {
                Cmp::Lt
            } else {
                Cmp::Gt
            };
        }
        proof {
            vstd::utf8::char_u32_cast(ca, ua);
            vstd::utf8::char_u32_cast(cb, ub);
        }
        i = i + 1;
    }
    proof {
        lemma_chars_cmp_skip(a@, b@, i as int);
    }
    if la == lb {
        Cmp::Eq
    } else if la < lb {
        Cmp::Lt
    } else {
        Cmp::Gt
    }
}

/// Three-way comparison of two byte strings.
fn bytes_vec_cmp(x: &Vec<u8>, y: &Vec<u8>) -> (c: Cmp)
    ensures
        cmp_sign(c) == bytes_cmp(x@, y@),
{
    let lx = x.len();
    let ly = y.len();
    let mut i: usize = 0;
    while i < lx && i < ly
        invariant
            i <= lx,
            i <= ly,
            lx == x@.len(),
            ly == y@.len(),
            forall|j: int| 0 <= j < i ==> x@[j] == y@[j],
        decreases lx - i,
    {
        let bx = x[i];
        let by = y[i];
        if bx != by {
            proof {
                lemma_bytes_cmp_skip(x@, y@, i as int);
                assert(x@.skip(i as int)[0] == x@[i as int]);
                assert(y@.skip(i as int)[0] == y@[i as int]);
            }
            return if bx < by {
                Cmp::Lt
            } else {
                Cmp::Gt
            };
        }
        i = i + 1;
    }
    proof {
        lemma_bytes_cmp_skip(x@, y@, i as int);
    }
    if lx == ly {
        Cmp::Eq
    } else if lx < ly {
        Cmp::Lt
    } else {
        Cmp::Gt
    }
}

/// Three-way comparison of two values under the total order.
pub fn value_cmp(a: &Value, b: &Value) -> (c: Cmp)
    ensures
        cmp_sign(c) == val_cmp(a@, b@),
    decreases *a,
{
    match (a, b) {
        (Value::Null, Value::Null) => Cmp::Eq,
        (Value::Int64(x), Value::Int64(y)) => i64_cmp(*x, *y),
        (Value::Float64(x), Value::Float64(y)) => u64_cmp(float_key(*x), float_key(*y)),
        (Value::Boolean(x), Value::Boolean(y)) => {
            if *x == *y {
                Cmp::Eq
            } else if !*x {
                Cmp::Lt
            } else {
                Cmp::Gt
            }
        },
        (Value::Text(x), Value::Text(y)) => str_cmp(x.as_str(), y.as_str()),
        (Value::Bytes(x), Value::Bytes(y)) => bytes_vec_cmp(x, y),
        (Value::Array(x), Value::Array(y)) => value_vec_cmp(x, y),
        (Value::Object(x), Value::Object(y)) => obj_vec_cmp(x, y),
        (Value::SetVal(x), Value::SetVal(y)) => value_vec_cmp(x, y),
        (Value::MapVal(x), Value::MapVal(y)) => pair_vec_cmp(x, y),
        _ => {
            let ra = tag_rank_of(a);
            let rb = tag_rank_of(b);
            proof {
                assert(tag_rank(a@) != tag_rank(b@));
            }
            if ra < rb {
                Cmp::Lt
            } else {
                Cmp::Gt
            }
        },
    }
}

/// Three-way comparison of two value vectors, element by element.
fn value_vec_cmp(x: &Vec<Value>, y: &Vec<Value>) -> (c: Cmp)
    ensures
        cmp_sign(c) == val_seq_cmp(seq_model(x@), seq_model(y@)),
    decreases x@,
{
    let lx = x.len();
    let ly = y.len();
    proof {
        lemma_seq_model(x@);
        lemma_seq_model(y@);
    }
    let mut i: usize = 0;
    while i < lx && i < ly
        invariant
            i <= lx,
            i <= ly,
            lx == x@.len(),
            ly == y@.len(),
            seq_model(x@).len() == lx,
            seq_model(y@).len() == ly,
            forall|j: int| 0 <= j < lx ==> seq_model(x@)[j] == #[trigger] x@[j]@,
            forall|j: int| 0 <= j < ly ==> seq_model(y@)[j] == #[trigger] y@[j]@,
            forall|j: int| 0 <= j < i ==> seq_model(x@)[j] == seq_model(y@)[j],
        decreases lx - i,
    {
        let c = value_cmp(&x[i], &y[i]);
        match c {
            Cmp::Eq => {
                proof {
                    lemma_val_cmp_laws(x@[i as int]@, y@[i as int]@);
                }
                i = i + 1;
            },
            _ => {
                proof {
                    lemma_val_seq_cmp_skip(seq_model(x@), seq_model(y@), i as int);
                    assert(seq_model(x@).skip(i as int)[0] == seq_model(x@)[i as int]);
                    assert(seq_model(y@).skip(i as int)[0] == seq_model(y@)[i as int]);
                }
                return c;
            },
        }
    }
    proof {
        lemma_val_seq_cmp_skip(seq_model(x@), seq_model(y@), i as int);
    }
    if lx == ly {
        Cmp::Eq
    } else if lx < ly {
        Cmp::Lt
    } else {
        Cmp::Gt
    }
}

/// Three-way comparison of two string-keyed entry vectors.
fn obj_vec_cmp(x: &Vec<(String, Value)>, y: &Vec<(String, Value)>) -> (c: Cmp)
    ensures
        cmp_sign(c) == obj_entries_cmp(obj_model(x@), obj_model(y@)),
    decreases x@,
{
    let lx = x.len();
    let ly = y.len();
    proof {
        lemma_obj_model(x@);
        lemma_obj_model(y@);
    }
    let mut i: usize = 0;
    while i < lx && i < ly
        invariant
            i <= lx,
            i <= ly,
            lx == x@.len(),
            ly == y@.len(),
            obj_model(x@).len() == lx,
            obj_model(y@).len() == ly,
            forall|j: int| 0 <= j < lx ==> obj_model(x@)[j] == (#[trigger] x@[j].0@, x@[j].1@),
            forall|j: int| 0 <= j < ly ==> obj_model(y@)[j] == (#[trigger] y@[j].0@, y@[j].1@),
            forall|j: int| 0 <= j < i ==> obj_model(x@)[j] == obj_model(y@)[j],
        decreases lx - i,
    {
        let ck = str_cmp(x[i].0.as_str(), y[i].0.as_str());
        let c = match ck {
            Cmp::Eq => value_cmp(&x[i].1, &y[i].1),
            _ => ck,
        };
        match c {
            Cmp::Eq => {
                proof {
                    lemma_chars_cmp_laws(x@[i as int].0@, y@[i as int].0@);
                    lemma_val_cmp_laws(x@[i as int].1@, y@[i as int].1@);
                }
                i = i + 1;
            },
            _ => {
                proof {
                    lemma_obj_entries_cmp_skip(obj_model(x@), obj_model(y@), i as int);
                    assert(obj_model(x@).skip(i as int)[0] == obj_model(x@)[i as int]);
                    assert(obj_model(y@).skip(i as int)[0] == obj_model(y@)[i as int]);
                }
                return c;
            },
        }
    }
    proof {
        lemma_obj_entries_cmp_skip(obj_model(x@), obj_model(y@), i as int);
    }
    if lx == ly {
        Cmp::Eq
    } else if lx < ly {
        Cmp::Lt
    } else {
        Cmp::Gt
    }
}

/// Three-way comparison of two value-keyed entry vectors.
fn pair_vec_cmp(x: &Vec<(Value, Value)>, y: &Vec<(Value, Value)>) -> (c: Cmp)
    ensures
        cmp_sign(c) == map_entries_cmp(pair_model(x@), pair_model(y@)),
    decreases x@,
{
    let lx = x.len();
    let ly = y.len();
    proof {
        lemma_pair_model(x@);
        lemma_pair_model(y@);
    }
    let mut i: usize = 0;
    while i < lx && i < ly
        invariant
            i <= lx,
            i <= ly,
            lx == x@.len(),
            ly == y@.len(),
            pair_model(x@).len() == lx,
            pair_model(y@).len() == ly,
            forall|j: int| 0 <= j < lx ==> pair_model(x@)[j] == (#[trigger] x@[j].0@, x@[j].1@),
            forall|j: int| 0 <= j < ly ==> pair_model(y@)[j] == (#[trigger] y@[j].0@, y@[j].1@),
            forall|j: int| 0 <= j < i ==> pair_model(x@)[j] == pair_model(y@)[j],
        decreases lx - i,
    {
        let ck = value_cmp(&x[i].0, &y[i].0);
        let c = match ck {
            Cmp::Eq => value_cmp(&x[i].1, &y[i].1),
            _ => ck,
        };
        match c {
            Cmp::Eq => {
                proof {
                    lemma_val_cmp_laws(x@[i as int].0@, y@[i as int].0@);
                    lemma_val_cmp_laws(x@[i as int].1@, y@[i as int].1@);
                }
                i = i + 1;
            },
            _ => {
                proof {
                    lemma_map_entries_cmp_skip(pair_model(x@), pair_model(y@), i as int);
                    assert(pair_model(x@).skip(i as int)[0] == pair_model(x@)[i as int]);
                    assert(pair_model(y@).skip(i as int)[0] == pair_model(y@)[i as int]);
                }
                return c;
            },
        }
    }
    proof {
        lemma_map_entries_cmp_skip(pair_model(x@), pair_model(y@), i as int);
    }
    if lx == ly {
        Cmp::Eq
    } else if lx < ly {
        Cmp::Lt
    } else {
        Cmp::Gt
    }
}

} // verus!
