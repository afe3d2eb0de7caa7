//! Scalar reference kernels for tensor ops, with proved contracts.
pub mod accept_laws;
pub mod act_mul;
pub mod activation;
pub mod arith;
pub mod attention;
pub mod attention_laws;
pub mod batch;
pub mod block_laws;
pub mod buffer;
pub mod call_laws;
pub mod carrier;
pub mod carrier_laws;
pub mod causal_conv1d;
pub mod check;
pub mod collectives;
pub mod conv_laws;
pub mod copy;
pub mod double;
pub mod double_io;
pub mod draw_laws;
pub mod dtype;
pub mod dtype_laws;
pub mod embed_gather;
pub mod erf;
pub mod erf_laws;
pub mod error;
pub mod exec;
pub mod exec_draw;
pub mod exec_error;
pub mod exec_laws;
pub mod exec_prepare;
pub mod exec_state;
pub mod fixture_laws;
pub mod fixtures;
pub mod gates;
pub mod gather_rows;
pub mod gemm;
pub mod gemm_laws;
pub mod graph;
pub mod harness;
pub mod index;
pub mod ir;
pub mod kernels;
pub mod kv_cache;
pub mod kv_latent;
pub mod kv_laws;
pub mod kv_rows;
pub mod kv_write;
pub mod layer_accept_laws;
pub mod linear_attn_scan;
pub mod logit_softcap;
pub mod matmul;
pub mod moe_ffn;
pub mod moe_laws;
pub mod pointwise_laws;
pub mod prepare_laws;
pub mod product_laws;
pub mod reference;
pub mod reference_laws;
pub mod reference_moe;
pub mod reference_scan;
pub mod reference_state;
pub mod refusal;
pub mod route_laws;
pub mod rounding_laws;
pub mod row_laws;
pub mod scan_laws;
pub mod scheme_rows;
pub mod segments;
pub mod sequence_laws;
pub mod state_accept_laws;
pub mod step_laws;
pub mod storage_laws;
pub mod sums;
pub mod tap_laws;
pub mod tolerance;
pub mod transfer_laws;
pub mod visibility;
pub mod visibility_laws;
pub mod weight;
pub mod weight_laws;
pub mod wide_erf_laws;
