//! A hybrid language model, read from a quantized model file: layers with full attention among layers
//! with linear attention, the gated delta net.
//!
//! A model is planned from the metadata of its file ([`plan`], [`props`], [`names`]), made from its
//! tensors ([`load`], [`model`]), and run step by step ([`pass`]). What the layers compute is stated
//! over what tensors hold ([`view`]); what is taken to be true of the tensor library stands in
//! [`candle`] and [`metadata`].
pub mod attention;
pub mod candle;
pub mod conv;
pub mod coords;
pub mod error;
pub mod gating;
pub mod heads;
pub mod linear;
pub mod linear_attention;
pub mod load;
pub mod metadata;
pub mod mlp;
pub mod model;
pub mod names;
pub mod norm;
pub mod ops;
pub mod pass;
pub mod plan;
pub mod positions;
pub mod props;
pub mod recurrence;
pub mod shape;
pub mod view;
