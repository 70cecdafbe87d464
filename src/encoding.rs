//! The byte stream that a sequence of layers is written as, and what the
//! decoder makes of it and of any prefix of it.
use vstd::prelude::*;
use crate::error::MlpError;
use crate::format::{decode, i32_le, layer_count, parse_layer, parse_layers, u32_le, words, LayerModel};
use crate::model::{build, validate};

verus! {

/// The four little-endian bytes of `x`.
pub open spec fn le_bytes(x: u32) -> Seq<u8> {
    seq![
        (x % 256) as u8,
        ((x / 256) % 256) as u8,
        ((x / 65536) % 256) as u8,
        (x / 16777216) as u8,
    ]
}

/// The words one after another, four little-endian bytes each.
pub open spec fn word_bytes(ws: Seq<u32>) -> Seq<u8> {
    Seq::new(4 * ws.len(), |j: int| le_bytes(ws[j / 4])[j % 4])
}

/// A count or dimension, as a four-byte field.
pub open spec fn dim_bytes(n: nat) -> Seq<u8> {
    le_bytes(n as u32)
}

/// Row count, column count, weights, bias length, biases.
pub open spec fn encode_layer(l: LayerModel) -> Seq<u8> {
    dim_bytes(l.rows) + (dim_bytes(l.cols) + (word_bytes(l.weights) + (dim_bytes(l.bias.len())
        + word_bytes(l.bias))))
}

pub open spec fn encode_layers(ls: Seq<LayerModel>) -> Seq<u8>
    decreases ls.len(),
{
    if ls.len() == 0 {
        Seq::empty()
    } else {
        encode_layer(ls[0]) + encode_layers(ls.drop_first())
    }
}

/// The whole stream: the layer count, then each layer.
pub open spec fn encode(ls: Seq<LayerModel>) -> Seq<u8> {
    dim_bytes(ls.len()) + encode_layers(ls)
}

/// A layer that the layout can hold: dimensions that fit a signed 32-bit field
/// and `rows * cols` weights.
pub open spec fn encodable_layer(l: LayerModel) -> bool {
    &&& l.rows <= i32::MAX
    &&& l.cols <= i32::MAX
    &&& l.bias.len() <= i32::MAX
    &&& l.weights.len() == l.rows * l.cols
}

pub open spec fn encodable(ls: Seq<LayerModel>) -> bool {
    &&& ls.len() <= i32::MAX
    &&& forall|i: int| 0 <= i < ls.len() ==> encodable_layer(#[trigger] ls[i])
}

/// `b` holds, from `pos` on and as far as it goes, the bytes of `e`.
pub open spec fn agrees(b: Seq<u8>, pos: int, e: Seq<u8>) -> bool {
    &&& 0 <= pos <= b.len()
    &&& forall|j: int| 0 <= j < e.len() && pos + j < b.len() ==> b[pos + j] == #[trigger] e[j]
}

proof fn lemma_agrees_split(b: Seq<u8>, pos: int, e1: Seq<u8>, e2: Seq<u8>)
    requires
        agrees(b, pos, e1 + e2),
    ensures
        agrees(b, pos, e1),
        pos + e1.len() <= b.len() ==> agrees(b, pos + e1.len(), e2),
{
    assert forall|j: int| 0 <= j < e1.len() && pos + j < b.len() implies b[pos + j] == e1[j] by {
        assert((e1 + e2)[j] == e1[j]);
    }
    if pos + e1.len() <= b.len() {
        assert forall|j: int| 0 <= j < e2.len() && pos + e1.len() + j < b.len() implies b[pos
            + e1.len() + j] == e2[j] by {
            assert((e1 + e2)[e1.len() + j] == e2[j]);
        }
    }
}

proof fn lemma_read_word(b: Seq<u8>, pos: int, x: u32)
    requires
        agrees(b, pos, le_bytes(x)),
        pos + 4 <= b.len(),
    ensures
        u32_le(b, pos) == x,
{
    let e = le_bytes(x);
    assert(b[pos] == e[0]);
    assert(b[pos + 1] == e[1]);
    assert(b[pos + 2] == e[2]);
    assert(b[pos + 3] == e[3]);
}

proof fn lemma_read_dim(b: Seq<u8>, pos: int, n: nat)
    requires
        agrees(b, pos, dim_bytes(n)),
        pos + 4 <= b.len(),
        n <= i32::MAX,
    ensures
        i32_le(b, pos) == n,
{
    lemma_read_word(b, pos, n as u32);
}

proof fn lemma_read_words(b: Seq<u8>, pos: int, ws: Seq<u32>)
    requires
        agrees(b, pos, word_bytes(ws)),
        pos + 4 * ws.len() <= b.len(),
    ensures
        words(b, pos, ws.len()) == ws,
{
    let e = word_bytes(ws);
    assert forall|k: int| 0 <= k < ws.len() implies u32_le(b, pos + 4 * k) == ws[k] by {
        assert forall|t: int| 0 <= t < 4 && pos + 4 * k + t < b.len() implies b[pos + 4 * k + t]
            == #[trigger] le_bytes(ws[k])[t] by {
            assert((4 * k + t) / 4 == k);
            assert((4 * k + t) % 4 == t);
            assert(b[pos + (4 * k + t)] == e[4 * k + t]);
        }
        lemma_read_word(b, pos + 4 * k, ws[k]);
    }
    assert(words(b, pos, ws.len()) =~= ws);
}

proof fn lemma_parse_layer_encoded(b: Seq<u8>, pos: int, l: LayerModel)
    requires
        encodable_layer(l),
        agrees(b, pos, encode_layer(l)),
    ensures
        pos + encode_layer(l).len() <= b.len() ==> parse_layer(b, pos) == Ok::<
            (LayerModel, int),
            MlpError,
        >((l, pos + encode_layer(l).len())),
        pos + encode_layer(l).len() > b.len() ==> parse_layer(b, pos) == Err::<
            (LayerModel, int),
            MlpError,
        >(MlpError::TruncatedInput),
{
    let a = dim_bytes(l.rows);
    let bb = dim_bytes(l.cols);
    let c = word_bytes(l.weights);
    let d = dim_bytes(l.bias.len());
    let e = word_bytes(l.bias);
    let n = l.rows * l.cols;
    assert(encode_layer(l).len() == 8 + 4 * n + 4 + 4 * l.bias.len());
    if pos + 8 > b.len() {
        return;
    }
    lemma_agrees_split(b, pos, a, bb + (c + (d + e)));
    lemma_read_dim(b, pos, l.rows);
    lemma_agrees_split(b, pos + 4, bb, c + (d + e));
    lemma_read_dim(b, pos + 4, l.cols);
    let wstart = pos + 8;
    let wend = wstart + 4 * n;
    if wend + 4 > b.len() {
        return;
    }
    lemma_agrees_split(b, wstart, c, d + e);
    lemma_read_words(b, wstart, l.weights);
    lemma_agrees_split(b, wend, d, e);
    lemma_read_dim(b, wend, l.bias.len());
    let bend = wend + 4 + 4 * l.bias.len();
    if bend > b.len() {
        return;
    }
    lemma_read_words(b, wend + 4, l.bias);
}

proof fn lemma_parse_layers_encoded(b: Seq<u8>, pos: int, ls: Seq<LayerModel>)
    requires
        forall|i: int| 0 <= i < ls.len() ==> encodable_layer(#[trigger] ls[i]),
        agrees(b, pos, encode_layers(ls)),
    ensures
        pos + encode_layers(ls).len() <= b.len() ==> parse_layers(b, pos, ls.len()) == Ok::<
            Seq<LayerModel>,
            MlpError,
        >(ls),
        pos + encode_layers(ls).len() > b.len() ==> parse_layers(b, pos, ls.len()) == Err::<
            Seq<LayerModel>,
            MlpError,
        >(MlpError::TruncatedInput),
    decreases ls.len(),
{
    if ls.len() == 0 {
        assert(ls =~= Seq::<LayerModel>::empty());
        return;
    }
    let first = encode_layer(ls[0]);
    let rest = ls.drop_first();
    lemma_agrees_split(b, pos, first, encode_layers(rest));
    assert(encodable_layer(ls[0]));
    lemma_parse_layer_encoded(b, pos, ls[0]);
    if pos + first.len() > b.len() {
        return;
    }
    assert forall|i: int| 0 <= i < rest.len() implies encodable_layer(#[trigger] rest[i]) by {
        assert(rest[i] == ls[i + 1]);
    }
    lemma_parse_layers_encoded(b, pos + first.len(), rest);
    assert(seq![ls[0]] + rest =~= ls);
}

/// Decoding the stream of any layers that the layout can hold gives those
/// layers back, dimensions and every weight and bias bit for bit, whatever
/// bytes follow the last layer; layers whose shapes chain build that model.
pub proof fn lemma_round_trip(ls: Seq<LayerModel>, trailing: Seq<u8>)
    requires
        encodable(ls),
    ensures
        decode(encode(ls) + trailing) == Ok::<Seq<LayerModel>, MlpError>(ls),
        validate(ls) is Ok ==> build(encode(ls) + trailing) == Ok::<Seq<LayerModel>, MlpError>(ls),
{
    let b = encode(ls) + trailing;
    let body = encode_layers(ls);
    assert forall|j: int| 0 <= j < encode(ls).len() && 0 + j < b.len() implies b[0 + j]
        == #[trigger] encode(ls)[j] by {}
    lemma_agrees_split(b, 0, dim_bytes(ls.len()), body);
    lemma_read_dim(b, 0, ls.len());
    assert(layer_count(i32_le(b, 0)) == ls.len());
    lemma_parse_layers_encoded(b, 4, ls);
}

/// Every proper prefix of such a stream, cut at any byte, fails as truncated,
/// and no model is built from it.
pub proof fn lemma_truncation_fails(ls: Seq<LayerModel>, k: nat)
    requires
        encodable(ls),
        k < encode(ls).len(),
    ensures
        decode(encode(ls).take(k as int)) == Err::<Seq<LayerModel>, MlpError>(
            MlpError::TruncatedInput,
        ),
        build(encode(ls).take(k as int)) == Err::<Seq<LayerModel>, MlpError>(
            MlpError::TruncatedInput,
        ),
{
    let b = encode(ls).take(k as int);
    let body = encode_layers(ls);
    if k < 4 {
        return;
    }
    assert forall|j: int| 0 <= j < encode(ls).len() && 0 + j < b.len() implies b[0 + j]
        == #[trigger] encode(ls)[j] by {}
    lemma_agrees_split(b, 0, dim_bytes(ls.len()), body);
    lemma_read_dim(b, 0, ls.len());
    assert(layer_count(i32_le(b, 0)) == ls.len());
    lemma_parse_layers_encoded(b, 4, ls);
}

} // verus!
