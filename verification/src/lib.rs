//! Verified core of a Metal array runtime and its OpenAI-compatible serving layer.

pub mod error;
pub mod text;
pub mod folds;
pub mod dtype;
pub mod layout;
pub mod views;
pub mod codegen;
pub mod words;
pub mod collapse;
pub mod tape;
pub mod blob;
pub mod array;
pub mod ops;
pub mod elementwise;
pub mod launch;
pub mod reduce;
pub mod search;
pub mod matmul;
pub mod nax;
pub mod quant;
pub mod join;
pub mod rope;
pub mod attention;
pub mod dense_attention;
pub mod named;
pub mod builtin;
pub mod readback;
pub mod index;
pub mod elements;
pub mod facade;
pub mod arrange;
pub mod fused;
pub mod conv;
pub mod pack;
pub mod kernel;
pub mod calls;
pub mod kernels;
pub mod steps;
pub mod recurrence;
pub mod routing;
pub mod moe_decode;
pub mod prefill_indirect;
pub mod qsa;
pub mod select;
pub mod stacking;
pub mod delta;
pub mod ple;
pub mod chars;
pub mod reasoning;
pub mod value;
pub mod json;
pub mod codec;
pub mod scan;
pub mod ids;
pub mod tools;
pub mod chat;
pub mod conform;
pub mod normalize;
pub mod conversation;
pub mod calling;
pub mod handover;
pub mod device;
pub mod roles;
pub mod delta_rule;
pub mod masking;
pub mod attending;
pub mod payload;
pub mod replies;
pub mod requests;
pub mod store;
pub mod stream;
pub mod streams;
pub mod http;
pub mod serve;
pub mod template;
pub mod generate;
pub mod pool;
pub mod hazard;
pub mod commands;
pub mod runtime;
pub mod backend;
