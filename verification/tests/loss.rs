use burn::backend::ndarray::NdArray;
use burn::backend::ndarray::NdArrayDevice;
use burn::nn::loss::MseLoss;
use burn::nn::loss::Reduction;
use burn::nn::Linear;
use burn::nn::LinearConfig;
use burn::nn::Relu;
use burn::nn::Sigmoid;
use burn::tensor::Tensor;

use ecg_autoencoder::model::AutoEncoder;
use ecg_autoencoder::model::AutoEncoderConfig;

type B = NdArray<f32>;

/// The six framework layers with the dimensions the library verified,
/// randomly initialized by the framework's default scheme.
fn layers(dims: &AutoEncoder, device: &NdArrayDevice) -> Vec<Linear<B>> {
    [
        dims.encoder.linear1,
        dims.encoder.linear2,
        dims.encoder.linear3,
        dims.decoder.linear1,
        dims.decoder.linear2,
        dims.decoder.linear3,
    ]
    .iter()
    .map(|l| LinearConfig::new(l.d_in, l.d_out).init::<B>(device))
    .collect()
}

/// The forward pass: a rectifying activation after every layer and a sigmoid
/// at the end.
fn forward(layers: &[Linear<B>], input: Tensor<B, 2>) -> Tensor<B, 2> {
    let relu = Relu::new();
    let mut x = input;
    for layer in layers {
        x = relu.forward(layer.forward(x));
    }
    Sigmoid::new().forward(x)
}

#[test]
fn untrained_model_loss_is_finite_and_non_negative() {
    let device = NdArrayDevice::default();
    let dims = AutoEncoderConfig::ecg_default().init();
    let model = layers(&dims, &device);
    let input: Tensor<B, 2> = Tensor::full([2, 140], 0.5, &device);
    let target = input.clone();
    let output = forward(&model, input);
    let loss: f32 = MseLoss::new().forward(output, target, Reduction::Mean).into_scalar();
    assert!(loss.is_finite());
    assert!(loss >= 0.0);
}

#[test]
fn forward_pass_is_deterministic_for_fixed_parameters() {
    let device = NdArrayDevice::default();
    let dims = AutoEncoderConfig::ecg_default().init();
    let model = layers(&dims, &device);
    let input: Tensor<B, 2> = Tensor::full([3, 140], 0.25, &device);
    let once = forward(&model, input.clone()).into_data();
    let twice = forward(&model, input).into_data();
    assert_eq!(once, twice);
}
