use ecg_autoencoder::model::AutoEncoderConfig;
use ecg_autoencoder::model::DecoderConfig;
use ecg_autoencoder::model::EncoderConfig;
use ecg_autoencoder::model::ShapeError;
use ecg_autoencoder::training::AdamSettings;
use ecg_autoencoder::training::TrainingConfig;
use ecg_autoencoder::RECORD_LEN;

#[test]
fn ecg_model_dimensions_chain_from_140_to_2_and_back() {
    let m = AutoEncoderConfig::ecg_default().init();
    assert_eq!(m.encoder.linear1.d_in, 140);
    assert_eq!(m.encoder.linear1.d_out, 7);
    assert_eq!(m.encoder.linear2.d_in, 7);
    assert_eq!(m.encoder.linear2.d_out, 3);
    assert_eq!(m.encoder.linear3.d_in, 3);
    assert_eq!(m.encoder.linear3.d_out, 2);
    assert_eq!(m.decoder.linear1.d_in, 2);
    assert_eq!(m.decoder.linear1.d_out, 3);
    assert_eq!(m.decoder.linear2.d_in, 3);
    assert_eq!(m.decoder.linear2.d_out, 7);
    assert_eq!(m.decoder.linear3.d_in, 7);
    assert_eq!(m.decoder.linear3.d_out, 140);
}

#[test]
fn forward_keeps_the_input_shape_for_every_batch_size() {
    let m = AutoEncoderConfig::ecg_default().init();
    for n in [1usize, 2, 3, 10, 64, 1000] {
        assert_eq!(m.forward(n, RECORD_LEN).unwrap(), (n, RECORD_LEN));
    }
}

#[test]
fn forward_rejects_a_mismatched_input_width() {
    let m = AutoEncoderConfig::ecg_default().init();
    assert_eq!(m.forward(3, 139).unwrap_err(), ShapeError::Mismatch);
}

#[test]
fn forward_rejects_a_broken_layer_chain() {
    let c = AutoEncoderConfig::new(
        EncoderConfig::new(140, 7, 3, 2),
        DecoderConfig::new(5, 3, 7, 140),
    );
    let m = c.init();
    assert_eq!(m.forward(3, 140).unwrap_err(), ShapeError::Mismatch);
}

#[test]
fn config_defaults_match_the_reference_hyperparameters() {
    let c = TrainingConfig::new(AdamSettings::new());
    assert_eq!(c.num_epochs, 20);
    assert_eq!(c.batch_size, 2);
    assert_eq!(c.num_workers, 4);
    assert_eq!(c.seed, 42);
    assert_eq!(f64::from_bits(c.learning_rate_bits), 1.0e-4);
    assert_eq!(f32::from_bits(c.optimizer.beta_1_bits), 0.9);
    assert_eq!(f32::from_bits(c.optimizer.beta_2_bits), 0.999);
    assert_eq!(f32::from_bits(c.optimizer.epsilon_bits), 1e-5);
}

#[test]
fn config_serializes_to_the_exact_json_text() {
    let c = TrainingConfig::new(AdamSettings::new());
    let mut expected = String::new();
    expected.push_str("{\"optimizer\":{\"beta_1_bits\":1063675494,");
    expected.push_str("\"beta_2_bits\":1065336439,");
    expected.push_str("\"epsilon_bits\":925353388},");
    expected.push_str("\"num_epochs\":20,");
    expected.push_str("\"batch_size\":2,");
    expected.push_str("\"num_workers\":4,");
    expected.push_str("\"seed\":42,");
    expected.push_str("\"learning_rate_bits\":4547007122018943789}");
    assert_eq!(c.to_json(), expected.into_bytes());
}

#[test]
fn config_round_trips_through_json() {
    let c = TrainingConfig::new(AdamSettings::new());
    assert_eq!(TrainingConfig::from_json(&c.to_json()), Some(c));
}

#[test]
fn unusual_configs_round_trip_too() {
    let c = TrainingConfig {
        optimizer: AdamSettings { beta_1_bits: 0, beta_2_bits: u32::MAX, epsilon_bits: 1 },
        num_epochs: 0,
        batch_size: usize::MAX,
        num_workers: 1,
        seed: u64::MAX,
        learning_rate_bits: 0,
    };
    assert_eq!(TrainingConfig::from_json(&c.to_json()), Some(c));
}

#[test]
fn garbage_does_not_deserialize() {
    assert_eq!(TrainingConfig::from_json(&b"".to_vec()), None);
    assert_eq!(TrainingConfig::from_json(&b"{}".to_vec()), None);
    assert_eq!(TrainingConfig::from_json(&b"not json".to_vec()), None);
}

#[test]
fn trailing_bytes_do_not_deserialize() {
    let c = TrainingConfig::new(AdamSettings::new());
    let mut v = c.to_json();
    v.push(b' ');
    assert_eq!(TrainingConfig::from_json(&v), None);
}

#[test]
fn a_leading_zero_is_not_the_serialized_form() {
    let c = TrainingConfig::new(AdamSettings::new());
    let text = String::from_utf8(c.to_json()).unwrap();
    let padded = text.replace("\"seed\":42", "\"seed\":042");
    assert_eq!(TrainingConfig::from_json(&padded.into_bytes()), None);
}
