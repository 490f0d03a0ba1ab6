# zkp

Arithmetization of Ethereum consensus and execution rules: witnesses, traces,
constraint systems and the links between traces, with contracts proved by
Verus.

- `field`, `bls48`, `bls12`, `limbs`, `modular`: scalars of BLS48-581 and
  BLS12-381.
- `expr`, `constraints`, `poly_arith`, `trace`, `lookup`, `cross_air_logup`:
  what the tables are made of. A constraint is written once, as an expression,
  and read on a row, at a point, and as a polynomial.
- `sha256`, `ssz`, `execution_payload`, `execution_payload_air`,
  `extra_data_air`, `execution_payload_pair_air`: the root of an execution
  payload header and the table of its pair hashes.
- `epoch_transition`, `ffg_checkpoint_chain`, `validator_set`: justification
  and finality.
- `epoch_processing_air`, `eth1_data_voting_air`, `evm_create2_input_air`,
  `evm_create_rlp_air`: one table each.
- `final_exp_air`, `final_exp_descriptors`, `nonnative_fp`, `nonnative_tower`,
  `pairing`: the final exponentiation of the BLS12-381 pairing and its base
  field multiplications.

- `soundness`: what a row holds when its constraints vanish; each table states
  it of its own rows.

The remaining modules name the columns of neighbouring tables that the links
point at. Laws that relate several functions are the proof functions whose
names start with `law_`. `app/` converts scalars to the types of the curve
crates.
