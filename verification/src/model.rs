//! The fixed autoencoder architecture: three encoding and three decoding
//! fully-connected layers around a two-dimensional bottleneck.
//!
//! The library models each layer by its dimensions and verifies how shapes
//! propagate; the parameter tensors, their initialization and the floating-
//! point arithmetic of the forward pass belong to the tensor framework at the
//! boundary outside this crate. Between the layers stands a rectifying
//! activation and after the last one a sigmoid, both shape-preserving.

use vstd::prelude::*;

verus! {

use crate::RECORD_LEN;

/// The dimensions of one fully-connected layer.
#[derive(Debug, Clone, Copy, PartialEq, Eq, Structural)]
pub struct LinearShape {
    pub d_in: usize,
    pub d_out: usize,
}

/// The three encoding layers.
#[derive(Debug, Clone, Copy, PartialEq, Eq, Structural)]
pub struct Encoder {
    pub linear1: LinearShape,
    pub linear2: LinearShape,
    pub linear3: LinearShape,
}

/// Dimensions the encoder is built from.
#[derive(Debug, Clone, Copy, PartialEq, Eq, Structural)]
pub struct EncoderConfig {
    pub input_size: usize,
    pub linear1_output_dim: usize,
    pub linear2_output_dim: usize,
    pub linear3_output_dim: usize,
}

impl EncoderConfig {
    pub fn new(
        input_size: usize,
        linear1_output_dim: usize,
        linear2_output_dim: usize,
        linear3_output_dim: usize,
    ) -> (c: EncoderConfig)
        ensures
            c == (EncoderConfig {
                input_size,
                linear1_output_dim,
                linear2_output_dim,
                linear3_output_dim,
            }),
    {
        EncoderConfig { input_size, linear1_output_dim, linear2_output_dim, linear3_output_dim }
    }
}

/// The three decoding layers.
#[derive(Debug, Clone, Copy, PartialEq, Eq, Structural)]
pub struct Decoder {
    pub linear1: LinearShape,
    pub linear2: LinearShape,
    pub linear3: LinearShape,
}

/// Dimensions the decoder is built from.
#[derive(Debug, Clone, Copy, PartialEq, Eq, Structural)]
pub struct DecoderConfig {
    pub input_size: usize,
    pub linear1_output_dim: usize,
    pub linear2_output_dim: usize,
    pub linear3_output_dim: usize,
}

impl DecoderConfig {
    pub fn new(
        input_size: usize,
        linear1_output_dim: usize,
        linear2_output_dim: usize,
        linear3_output_dim: usize,
    ) -> (c: DecoderConfig)
        ensures
            c == (DecoderConfig {
                input_size,
                linear1_output_dim,
                linear2_output_dim,
                linear3_output_dim,
            }),
    {
        DecoderConfig { input_size, linear1_output_dim, linear2_output_dim, linear3_output_dim }
    }
}

/// The autoencoder: encoder and decoder layer stacks.
#[derive(Debug, Clone, Copy, PartialEq, Eq, Structural)]
pub struct AutoEncoder {
    pub encoder: Encoder,
    pub decoder: Decoder,
}

/// The configuration an autoencoder is initialized from.
#[derive(Debug, Clone, Copy, PartialEq, Eq, Structural)]
pub struct AutoEncoderConfig {
    pub encoder_config: EncoderConfig,
    pub decoder_config: DecoderConfig,
}

/// The input shape does not fit the first layer, or two adjacent layers do
/// not fit each other.
#[derive(Debug, Clone, Copy, PartialEq, Eq, Structural)]
pub enum ShapeError {
    Mismatch,
}

/// The six layers of the model, in the order the forward pass applies them.
pub open spec fn layers_of(m: AutoEncoder) -> Seq<LinearShape> {
    seq![
        m.encoder.linear1,
        m.encoder.linear2,
        m.encoder.linear3,
        m.decoder.linear1,
        m.decoder.linear2,
        m.decoder.linear3,
    ]
}

/// Shape left after feeding a [rows, cols] input through the layers starting
/// at layer `i`: each layer takes [rows, d_in] to [rows, d_out]; the
/// activations between and after the layers keep shapes.
pub open spec fn forward_shape_from(
    layers: Seq<LinearShape>,
    i: int,
    rows: usize,
    cols: usize,
) -> Option<(usize, usize)>
    decreases layers.len() - i when 0 <= i <= layers.len()
{
    if i >= layers.len() {
        Some((rows, cols))
    } else if cols == layers[i].d_in {
        forward_shape_from(layers, i + 1, rows, layers[i].d_out)
    } else {
        None
    }
}

/// Shape of the reconstruction the model yields for a [rows, cols] input.
pub open spec fn forward_shape(m: AutoEncoder, rows: usize, cols: usize) -> Option<
    (usize, usize),
> {
    forward_shape_from(layers_of(m), 0, rows, cols)
}

/// The model built for the ECG windows: the encoder narrows `RECORD_LEN`
/// features through 7 and 3 to a 2-dimensional code, and the decoder widens
/// them back through 3 and 7 to `RECORD_LEN`.
pub open spec fn is_ecg_architecture(m: AutoEncoder) -> bool {
    &&& m.encoder.linear1 == (LinearShape { d_in: RECORD_LEN, d_out: 7 })
    &&& m.encoder.linear2 == (LinearShape { d_in: 7, d_out: 3 })
    &&& m.encoder.linear3 == (LinearShape { d_in: 3, d_out: 2 })
    &&& m.decoder.linear1 == (LinearShape { d_in: 2, d_out: 3 })
    &&& m.decoder.linear2 == (LinearShape { d_in: 3, d_out: 7 })
    &&& m.decoder.linear3 == (LinearShape { d_in: 7, d_out: RECORD_LEN })
}

impl AutoEncoderConfig {
    pub fn new(encoder_config: EncoderConfig, decoder_config: DecoderConfig) -> (c: AutoEncoderConfig)
        ensures
            c == (AutoEncoderConfig { encoder_config, decoder_config }),
    {
        AutoEncoderConfig { encoder_config, decoder_config }
    }

    /// The configuration of the ECG model, its first input dimension derived
    /// from the record length.
    pub fn ecg_default() -> (c: AutoEncoderConfig)
        ensures
            is_ecg_architecture(c.init_spec()),
    {
        AutoEncoderConfig {
            encoder_config: EncoderConfig::new(RECORD_LEN, 7, 3, 2),
            decoder_config: DecoderConfig::new(2, 3, 7, RECORD_LEN),
        }
    }

    /// The model this configuration initializes: each stack chains its
    /// configured dimensions.
    pub open spec fn init_spec(&self) -> AutoEncoder {
        AutoEncoder {
            encoder: Encoder {
                linear1: LinearShape {
                    d_in: self.encoder_config.input_size,
                    d_out: self.encoder_config.linear1_output_dim,
                },
                linear2: LinearShape {
                    d_in: self.encoder_config.linear1_output_dim,
                    d_out: self.encoder_config.linear2_output_dim,
                },
                linear3: LinearShape {
                    d_in: self.encoder_config.linear2_output_dim,
                    d_out: self.encoder_config.linear3_output_dim,
                },
            },
            decoder: Decoder {
                linear1: LinearShape {
                    d_in: self.decoder_config.input_size,
                    d_out: self.decoder_config.linear1_output_dim,
                },
                linear2: LinearShape {
                    d_in: self.decoder_config.linear1_output_dim,
                    d_out: self.decoder_config.linear2_output_dim,
                },
                linear3: LinearShape {
                    d_in: self.decoder_config.linear2_output_dim,
                    d_out: self.decoder_config.linear3_output_dim,
                },
            },
        }
    }

    /// Initialize the model this configuration describes. The framework draws
    /// the parameter tensors at the boundary outside this crate; their shapes
    /// are the ones stated here.
    pub fn init(&self) -> (m: AutoEncoder)
        ensures
            m == self.init_spec(),
    {
        AutoEncoder {
            encoder: Encoder {
                linear1: LinearShape {
                    d_in: self.encoder_config.input_size,
                    d_out: self.encoder_config.linear1_output_dim,
                },
                linear2: LinearShape {
                    d_in: self.encoder_config.linear1_output_dim,
                    d_out: self.encoder_config.linear2_output_dim,
                },
                linear3: LinearShape {
                    d_in: self.encoder_config.linear2_output_dim,
                    d_out: self.encoder_config.linear3_output_dim,
                },
            },
            decoder: Decoder {
                linear1: LinearShape {
                    d_in: self.decoder_config.input_size,
                    d_out: self.decoder_config.linear1_output_dim,
                },
                linear2: LinearShape {
                    d_in: self.decoder_config.linear1_output_dim,
                    d_out: self.decoder_config.linear2_output_dim,
                },
                linear3: LinearShape {
                    d_in: self.decoder_config.linear2_output_dim,
                    d_out: self.decoder_config.linear3_output_dim,
                },
            },
        }
    }
}

impl AutoEncoder {
    /// Feed a [rows, cols] input shape through the model: the reconstruction's
    /// shape when every layer fits the one before it, an error otherwise. The
    /// result is a function of the model and the input shape alone.
    pub fn forward(&self, rows: usize, cols: usize) -> (r: Result<(usize, usize), ShapeError>)
        ensures
            match r {
                Ok(shape) => forward_shape(*self, rows, cols) == Some(shape),
                Err(e) => forward_shape(*self, rows, cols) is None && e == ShapeError::Mismatch,
            },
    {
        proof {
            reveal_with_fuel(forward_shape_from, 8);
        }
        let ghost layers = layers_of(*self);
        let mut c = cols;
        if c != self.encoder.linear1.d_in {
            return Err(ShapeError::Mismatch);
        }
        c = self.encoder.linear1.d_out;
        if c != self.encoder.linear2.d_in {
            return Err(ShapeError::Mismatch);
        }
        c = self.encoder.linear2.d_out;
        if c != self.encoder.linear3.d_in {
            return Err(ShapeError::Mismatch);
        }
        c = self.encoder.linear3.d_out;
        if c != self.decoder.linear1.d_in {
            return Err(ShapeError::Mismatch);
        }
        c = self.decoder.linear1.d_out;
        if c != self.decoder.linear2.d_in {
            return Err(ShapeError::Mismatch);
        }
        c = self.decoder.linear2.d_out;
        if c != self.decoder.linear3.d_in {
            return Err(ShapeError::Mismatch);
        }
        c = self.decoder.linear3.d_out;
        Ok((rows, c))
    }
}

/// Law: the ECG model maps every [n, RECORD_LEN] input shape to a
/// reconstruction of exactly the same shape.
pub proof fn lemma_model_shape_invariant(m: AutoEncoder, n: usize)
    requires
        is_ecg_architecture(m),
    ensures
        forward_shape(m, n, RECORD_LEN) == Some((n, RECORD_LEN)),
{
    reveal_with_fuel(forward_shape_from, 8);
}

} // verus!
