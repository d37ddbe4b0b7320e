//! Local inference core: model registry bookkeeping, context-window sizing,
//! sampler planning, and the streaming text machinery (tool-call parsing,
//! tool emulation, and markdown hold-back buffering) for running quantized
//! chat models on the local machine.

pub mod context_size;
pub mod emulator;
pub mod emulator_prompt;
pub mod errors;
pub mod tetrate;
pub mod text;
pub mod stream_laws;
pub mod tool_parsing;
pub mod xml_tool_calls;
pub mod generation;
pub mod hf_models;
pub mod markdown;
pub mod messages;
pub mod openai;
pub mod registry;
pub mod sampler;
pub mod settings;
