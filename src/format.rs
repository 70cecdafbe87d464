//! The binary model layout and its decoder.
//!
//! All integers are four-byte little-endian; the count and the dimensions are
//! signed. The stream holds a layer count, then for each layer its row count,
//! column count, `rows * cols` weights in row-major order, a bias length and
//! the bias values. Every weight and bias is kept as the bit pattern of its
//! IEEE-754 single-precision value, so decoding is exact.
use vstd::prelude::*;
use crate::error::MlpError;

verus! {

/// What a decoded layer holds.
pub struct LayerModel {
    pub rows: nat,
    pub cols: nat,
    /// Element `(i, j)` stands at `i * cols + j`.
    pub weights: Seq<u32>,
    pub bias: Seq<u32>,
}

/// The unsigned value of the four little-endian bytes at `pos`.
pub open spec fn u32_le(b: Seq<u8>, pos: int) -> u32 {
    (b[pos] as int + 256 * b[pos + 1] as int + 65536 * b[pos + 2] as int + 16777216 * b[pos
        + 3] as int) as u32
}

/// The two's-complement value of the four little-endian bytes at `pos`.
pub open spec fn i32_le(b: Seq<u8>, pos: int) -> int {
    let u = u32_le(b, pos) as int;
    if u >= 0x8000_0000 {
        u - 0x1_0000_0000
    } else {
        u
    }
}

/// The `n` four-byte words that start at `pos`.
pub open spec fn words(b: Seq<u8>, pos: int, n: nat) -> Seq<u32> {
    Seq::new(n, |k: int| u32_le(b, pos + 4 * k))
}

/// Reads one layer at `pos`: the layer and the position after it.
pub open spec fn parse_layer(b: Seq<u8>, pos: int) -> Result<(LayerModel, int), MlpError> {
    if pos + 8 > b.len() {
        Err(MlpError::TruncatedInput)
    } else {
        let rows = i32_le(b, pos);
        let cols = i32_le(b, pos + 4);
        if rows < 0 || cols < 0 {
            Err(MlpError::NegativeDimension)
        } else {
            let wstart = pos + 8;
            let wend = wstart + 4 * (rows * cols);
            if wend + 4 > b.len() {
                Err(MlpError::TruncatedInput)
            } else {
                let blen = i32_le(b, wend);
                if blen < 0 {
                    Err(MlpError::NegativeDimension)
                } else {
                    let bend = wend + 4 + 4 * blen;
                    if bend > b.len() {
                        Err(MlpError::TruncatedInput)
                    } else {
                        Ok(
                            (
                                LayerModel {
                                    rows: rows as nat,
                                    cols: cols as nat,
                                    weights: words(b, wstart, (rows * cols) as nat),
                                    bias: words(b, wend + 4, blen as nat),
                                },
                                bend,
                            ),
                        )
                    }
                }
            }
        }
    }
}

/// Puts `pre` in front of a successful result.
pub open spec fn prepend(pre: Seq<LayerModel>, r: Result<Seq<LayerModel>, MlpError>) -> Result<
    Seq<LayerModel>,
    MlpError,
> {
    match r {
        Ok(s) => Ok(pre + s),
        Err(e) => Err(e),
    }
}

/// Reads `n` layers in sequence from `pos`, stopping at the first failure.
pub open spec fn parse_layers(b: Seq<u8>, pos: int, n: nat) -> Result<Seq<LayerModel>, MlpError>
    decreases n,
{
    if n == 0 {
        Ok(Seq::empty())
    } else {
        match parse_layer(b, pos) {
            Err(e) => Err(e),
            Ok((l, next)) => prepend(seq![l], parse_layers(b, next, (n - 1) as nat)),
        }
    }
}

/// The number of layers that a declared count asks for: a negative count asks for none.
pub open spec fn layer_count(c: int) -> nat {
    if c < 0 {
        0
    } else {
        c as nat
    }
}

/// The layers that a whole byte stream declares; bytes after the last layer are not read.
pub open spec fn decode(b: Seq<u8>) -> Result<Seq<LayerModel>, MlpError> {
    if b.len() < 4 {
        Err(MlpError::TruncatedInput)
    } else {
        parse_layers(b, 4, layer_count(i32_le(b, 0)))
    }
}

/// One dense layer: a `rows` x `cols` weight matrix, row-major, and a bias vector,
/// each value the bit pattern of a single-precision float.
pub struct Layer {
    rows: usize,
    cols: usize,
    weights: Vec<u32>,
    bias: Vec<u32>,
}

impl View for Layer {
    type V = LayerModel;

    closed spec fn view(&self) -> LayerModel {
        LayerModel {
            rows: self.rows as nat,
            cols: self.cols as nat,
            weights: self.weights@,
            bias: self.bias@,
        }
    }
}

impl Layer {
    pub fn rows(&self) -> (r: usize)
        ensures
            r == self@.rows,
    {
        self.rows
    }

    pub fn cols(&self) -> (r: usize)
        ensures
            r == self@.cols,
    {
        self.cols
    }

    /// The weights in row-major order.
    pub fn weights(&self) -> (r: &Vec<u32>)
        ensures
            r@ == self@.weights,
    {
        &self.weights
    }

    pub fn bias(&self) -> (r: &Vec<u32>)
        ensures
            r@ == self@.bias,
    {
        &self.bias
    }
}

/// The views of a sequence of layers.
pub open spec fn layers_view(v: Seq<Layer>) -> Seq<LayerModel> {
    v.map_values(|l: Layer| l@)
}

fn read_u32_le(data: &[u8], pos: usize) -> (r: u32)
    requires
        pos + 4 <= data@.len(),
    ensures
        r == u32_le(data@, pos as int),
{
    data[pos] as u32 + (data[pos + 1] as u32) * 256 + (data[pos + 2] as u32) * 65536 + (data[pos
        + 3] as u32) * 16777216
}

fn read_i32_le(data: &[u8], pos: usize) -> (r: i32)
    requires
        pos + 4 <= data@.len(),
    ensures
        r as int == i32_le(data@, pos as int),
{
    let u = read_u32_le(data, pos);
    if u >= 0x8000_0000 {
        (u as i64 - 0x1_0000_0000i64) as i32
    } else {
        u as i32
    }
}

fn read_words(data: &[u8], pos: usize, n: usize) -> (r: Vec<u32>)
    requires
        pos + 4 * n <= data@.len(),
    ensures
        r@ == words(data@, pos as int, n as nat),
{
    let len = data.len();
    let mut v: Vec<u32> = Vec::with_capacity(n);
    let mut k: usize = 0;
    while k < n
        invariant
            len == data@.len(),
            pos + 4 * n <= data@.len(),
            k <= n,
            v@ =~= words(data@, pos as int, k as nat),
        decreases n - k,
    {
        v.push(read_u32_le(data, pos + 4 * k));
        k += 1;
    }
    v
}

fn read_layer(data: &[u8], pos: usize) -> (r: Result<(Layer, usize), MlpError>)
    requires
        pos <= data@.len(),
    ensures
        match parse_layer(data@, pos as int) {
            Ok((l, next)) => r.is_ok() && r.unwrap().0@ == l && r.unwrap().1 == next,
            Err(e) => r == Err::<(Layer, usize), MlpError>(e),
        },
{
    if data.len() - pos < 8 {
        return Err(MlpError::TruncatedInput);
    }
    let rows = read_i32_le(data, pos);
    let cols = read_i32_le(data, pos + 4);
    if rows < 0 || cols < 0 {
        return Err(MlpError::NegativeDimension);
    }
    assert((rows as int) * (cols as int) <= 0x7fff_ffff * 0x7fff_ffff) by (nonlinear_arith)
        requires
            0 <= rows <= 0x7fff_ffff,
            0 <= cols <= 0x7fff_ffff,
    ;
    let n_weights: u64 = rows as u64 * cols as u64;
    let avail: u64 = (data.len() - pos - 8) as u64;
    if 4 * n_weights + 4 > avail {
        return Err(MlpError::TruncatedInput);
    }
    let nw = n_weights as usize;
    let wstart = pos + 8;
    let weights = read_words(data, wstart, nw);
    let wend = wstart + 4 * nw;
    let blen = read_i32_le(data, wend);
    if blen < 0 {
        return Err(MlpError::NegativeDimension);
    }
    let rest: u64 = (data.len() - wend - 4) as u64;
    if 4 * (blen as u64) > rest {
        return Err(MlpError::TruncatedInput);
    }
    let nb = blen as usize;
    let bias = read_words(data, wend + 4, nb);
    let layer = Layer { rows: rows as usize, cols: cols as usize, weights, bias };
    Ok((layer, wend + 4 + 4 * nb))
}

proof fn lemma_prepend_push(pre: Seq<LayerModel>, l: LayerModel, r: Result<Seq<LayerModel>, MlpError>)
    ensures
        prepend(pre, prepend(seq![l], r)) == prepend(pre.push(l), r),
{
    if let Ok(s) = r {
        assert(pre + (seq![l] + s) =~= pre.push(l) + s);
    }
}

/// Decodes the layers of a model from its bytes. Fails on the first field that
/// the stream cannot hold whole, or on a negative dimension.
pub fn parse_weights_and_biases(data: &[u8]) -> (r: Result<Vec<Layer>, MlpError>)
    ensures
        match decode(data@) {
            Ok(ls) => r.is_ok() && layers_view(r.unwrap()@) == ls,
            Err(e) => r == Err::<Vec<Layer>, MlpError>(e),
        },
{
    if data.len() < 4 {
        return Err(MlpError::TruncatedInput);
    }
    let declared = read_i32_le(data, 0);
    let count: u32 = if declared < 0 {
        0
    } else {
        declared as u32
    };
    let mut layers: Vec<Layer> = Vec::new();
    let mut pos: usize = 4;
    let mut i: u32 = 0;
    assert(Seq::<LayerModel>::empty() + parse_layers(data@, 4, count as nat).unwrap()
        =~= parse_layers(data@, 4, count as nat).unwrap());
    while i < count
        invariant
            4 <= pos <= data@.len(),
            i <= count,
            count == layer_count(i32_le(data@, 0)),
            decode(data@) == prepend(
                layers_view(layers@),
                parse_layers(data@, pos as int, (count - i) as nat),
            ),
        decreases count - i,
    {
        let ghost m = (count - i) as nat;
        let ghost before = layers_view(layers@);
        match read_layer(data, pos) {
            Err(e) => {
                return Err(e);
            },
            Ok((layer, next)) => {
                proof {
                    lemma_prepend_push(before, layer@, parse_layers(data@, next as int, (m - 1) as nat));
                }
                layers.push(layer);
                assert(layers_view(layers@) =~= before.push(layer@));
                pos = next;
            },
        }
        i += 1;
    }
    assert(layers_view(layers@) + Seq::<LayerModel>::empty() =~= layers_view(layers@));
    Ok(layers)
}

} // verus!
