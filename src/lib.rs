//! Structural identity for machine-learning weight files: header parsers for
//! GGUF, safetensors and ONNX, a canonical value model, an order-independent
//! structural hash and a structural diff.

pub mod canonical;
pub mod diff;
pub mod gguf;
pub mod hash;
pub mod json;
pub mod keyed;
pub mod onnx;
pub mod safetensors;
pub mod text;
pub mod types;
