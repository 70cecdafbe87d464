use mlp::error::MlpError;
use mlp::format::parse_weights_and_biases;
use mlp::model::MLP;

fn push_i32(out: &mut Vec<u8>, v: i32) {
    out.extend_from_slice(&v.to_le_bytes());
}

fn push_f32(out: &mut Vec<u8>, v: f32) {
    out.extend_from_slice(&v.to_le_bytes());
}

/// Writes layers given as (rows, cols, weights, bias).
fn encode(layers: &[(i32, i32, Vec<f32>, Vec<f32>)]) -> Vec<u8> {
    let mut out = Vec::new();
    push_i32(&mut out, layers.len() as i32);
    for (rows, cols, w, b) in layers {
        push_i32(&mut out, *rows);
        push_i32(&mut out, *cols);
        for x in w {
            push_f32(&mut out, *x);
        }
        push_i32(&mut out, b.len() as i32);
        for x in b {
            push_f32(&mut out, *x);
        }
    }
    out
}

fn two_layer_model() -> Vec<u8> {
    encode(&[
        (2, 3, vec![1.0, -2.0, 3.5, 0.25, -0.0, 7.0], vec![0.5, -1.5, 2.0]),
        (3, 2, vec![1.0, 2.0, 3.0, 4.0, 5.0, 6.0], vec![-1.0, 1.0]),
    ])
}

fn bits(v: &[f32]) -> Vec<u32> {
    v.iter().map(|x| x.to_bits()).collect()
}

#[test]
fn round_trip_keeps_shapes_and_values() {
    let model = MLP::new(&two_layer_model()).unwrap();
    let layers = model.layers();
    assert_eq!(layers.len(), 2);
    assert_eq!(layers[0].rows(), 2);
    assert_eq!(layers[0].cols(), 3);
    assert_eq!(layers[0].weights(), &bits(&[1.0, -2.0, 3.5, 0.25, -0.0, 7.0]));
    assert_eq!(layers[0].bias(), &bits(&[0.5, -1.5, 2.0]));
    assert_eq!(layers[1].rows(), 3);
    assert_eq!(layers[1].cols(), 2);
    assert_eq!(layers[1].weights(), &bits(&[1.0, 2.0, 3.0, 4.0, 5.0, 6.0]));
    assert_eq!(layers[1].bias(), &bits(&[-1.0, 1.0]));
    assert_eq!(model.layer_count(), 2);
    assert_eq!(model.input_dim(), 2);
    assert_eq!(model.output_dim(), 2);
}

#[test]
fn weights_are_row_major() {
    let model = MLP::new(&two_layer_model()).unwrap();
    let w = model.layers()[0].weights();
    let cols = model.layers()[0].cols();
    // element (1, 2) at 1 * cols + 2
    assert_eq!(f32::from_bits(w[cols + 2]), 7.0);
}

#[test]
fn nan_payload_is_kept_bit_for_bit() {
    let mut data = Vec::new();
    push_i32(&mut data, 1);
    push_i32(&mut data, 1);
    push_i32(&mut data, 1);
    data.extend_from_slice(&0x7fc0_1234u32.to_le_bytes());
    push_i32(&mut data, 1);
    data.extend_from_slice(&0xffff_ffffu32.to_le_bytes());
    let layers = parse_weights_and_biases(&data).unwrap();
    assert_eq!(layers[0].weights(), &vec![0x7fc0_1234u32]);
    assert_eq!(layers[0].bias(), &vec![0xffff_ffffu32]);
}

#[test]
fn trailing_bytes_are_not_read() {
    let mut data = two_layer_model();
    data.extend_from_slice(&[0xde, 0xad, 0xbe]);
    let model = MLP::new(&data).unwrap();
    assert_eq!(model.layer_count(), 2);
    assert_eq!(model.layers()[1].bias(), &bits(&[-1.0, 1.0]));
}

#[test]
fn every_proper_prefix_is_truncated() {
    let data = two_layer_model();
    for k in 0..data.len() {
        assert_eq!(MLP::new(&data[..k]).err(), Some(MlpError::TruncatedInput), "cut at {}", k);
        assert_eq!(parse_weights_and_biases(&data[..k]).err(), Some(MlpError::TruncatedInput));
    }
    assert!(MLP::new(&data).is_ok());
}

#[test]
fn empty_stream_is_truncated() {
    assert_eq!(MLP::new(&[]).err(), Some(MlpError::TruncatedInput));
}

#[test]
fn count_larger_than_stream_is_truncated() {
    let mut data = two_layer_model();
    data[0] = 3;
    assert_eq!(MLP::new(&data).err(), Some(MlpError::TruncatedInput));
}

#[test]
fn huge_dimensions_are_truncated_not_allocated() {
    let mut data = Vec::new();
    push_i32(&mut data, 1);
    push_i32(&mut data, i32::MAX);
    push_i32(&mut data, i32::MAX);
    assert_eq!(MLP::new(&data).err(), Some(MlpError::TruncatedInput));
}

#[test]
fn negative_dimension_is_refused() {
    let mut data = Vec::new();
    push_i32(&mut data, 1);
    push_i32(&mut data, -1);
    push_i32(&mut data, 2);
    assert_eq!(MLP::new(&data).err(), Some(MlpError::NegativeDimension));

    let mut data = Vec::new();
    push_i32(&mut data, 1);
    push_i32(&mut data, 1);
    push_i32(&mut data, 1);
    push_f32(&mut data, 1.0);
    push_i32(&mut data, -3);
    assert_eq!(MLP::new(&data).err(), Some(MlpError::NegativeDimension));
}

#[test]
fn zero_or_negative_count_is_an_empty_model() {
    let mut data = Vec::new();
    push_i32(&mut data, 0);
    assert_eq!(parse_weights_and_biases(&data).unwrap().len(), 0);
    assert_eq!(MLP::new(&data).err(), Some(MlpError::EmptyModel));
    let mut data = Vec::new();
    push_i32(&mut data, -5);
    assert_eq!(parse_weights_and_biases(&data).unwrap().len(), 0);
    assert_eq!(MLP::new(&data).err(), Some(MlpError::EmptyModel));
}

#[test]
fn last_layer_without_outputs_is_an_empty_model() {
    let data = encode(&[(2, 0, vec![], vec![])]);
    assert_eq!(MLP::new(&data).err(), Some(MlpError::EmptyModel));
}

#[test]
fn bias_length_must_match_columns() {
    let data = encode(&[(1, 2, vec![1.0, 2.0], vec![0.0, 0.0, 0.0])]);
    assert_eq!(parse_weights_and_biases(&data).unwrap().len(), 1);
    assert_eq!(MLP::new(&data).err(), Some(MlpError::ShapeMismatch));
}

#[test]
fn layers_must_chain() {
    let data = encode(&[
        (2, 3, vec![0.0; 6], vec![0.0; 3]),
        (4, 1, vec![0.0; 4], vec![0.0]),
    ]);
    assert_eq!(MLP::new(&data).err(), Some(MlpError::ShapeMismatch));
}

#[test]
fn input_length_is_checked_against_first_layer() {
    let model = MLP::new(&two_layer_model()).unwrap();
    assert_eq!(model.check_input(2), Ok(()));
    assert_eq!(model.check_input(3), Err(MlpError::InputLengthMismatch));
    assert_eq!(model.check_input(0), Err(MlpError::InputLengthMismatch));
}

#[test]
fn every_layer_but_the_last_is_hidden() {
    let model = MLP::new(&two_layer_model()).unwrap();
    assert!(model.is_hidden(0));
    assert!(!model.is_hidden(1));
    assert!(!model.is_hidden(2));
    assert!(!model.is_hidden(usize::MAX));
}

#[test]
fn digit_model_logits_are_its_bias() {
    let mut bias = vec![0.0f32; 10];
    bias[0] = 1.0;
    let data = encode(&[(784, 10, vec![0.0; 7840], bias.clone())]);
    let model = MLP::new(&data).unwrap();
    assert_eq!(model.input_dim(), 784);
    assert_eq!(model.output_dim(), 10);
    assert!(!model.is_hidden(0));
    assert_eq!(model.check_input(784), Ok(()));
    let layer = &model.layers()[0];
    assert!(layer.weights().iter().all(|w| f32::from_bits(*w) == 0.0));
    assert_eq!(layer.bias(), &bits(&bias));
}
