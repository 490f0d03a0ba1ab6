//! Arithmetization of Ethereum consensus and execution rules.

pub mod attestation_rewards_air;
pub mod attester_slashing_air;
pub mod beacon;
pub mod beacon_block_header_air;
pub mod block_header_air;
pub mod bls12;
pub mod bls48;
pub mod bytes;
pub mod constraints;
pub mod cross_air_logup;
pub mod deposit_tree_air;
pub mod epoch_processing_air;
pub mod epoch_transition;
pub mod eth1_data_voting_air;
pub mod evm_address;
pub mod evm_create2_input_air;
pub mod evm_create_rlp_air;
pub mod execution_payload;
pub mod execution_payload_air;
pub mod execution_payload_pair_air;
pub mod expr;
pub mod extra_data_air;
pub mod ffg_checkpoint_chain;
pub mod field;
pub mod final_exp_air;
pub mod final_exp_descriptors;
pub mod keccak_extract;
pub mod label;
pub mod limbs;
pub mod lookup;
pub mod miller_fp_descriptors;
pub mod miller_step_air;
pub mod modular;
pub mod nonnative_fp;
pub mod nonnative_fp_air;
pub mod nonnative_tower;
pub mod pairing;
pub mod poly_arith;
pub mod proposer_slashing_air;
pub mod sha256;
pub mod sha256_extract;
pub mod soundness;
pub mod ssz;
pub mod trace;
pub mod validator_balances_air;
pub mod validator_set;
