# proof-helper

Stores the branches of a chain's tries by block, so that state proofs can be served at past
blocks.

A branch belongs to the state trie or to the storage trie of an account, and stands at a path.
It is stored with the block at which it took its value; a deletion is stored too. A reader of a
block sees, for each path, the value of the latest block up to that one. What is filled in from
the node's database at the start is stored at block 0 and so is seen by the readers of every
block.

## Layout

- `src/` is the library. It is verified with Verus, but for what is listed under
  [Trusted functions](#trusted-functions).
  - `primitives`, `branch`, `order`, `text`, `rlp`, `chunks`: plain values, their order and their
    encodings
  - `storage`: entries, errors, and what a store offers
  - `key`, `cursor`, `sqlite`: the keys and rows of the SQLite store, and how a cursor walks them
  - `write`: the transaction in which rows are stored, all of them or none
  - `table`: the branch table as a whole, and what reading and writing it promise each other
  - `dynamodb`, `prune`: the requests and answers of the DynamoDB store
  - `live`, `backfill`, `helper`: what is stored of a block, how a store is first filled, and
    which blocks are processed when
  - `steps`: steps that are done one after another, until one fails
  - `proofs`, `provider`, `rpc`: cursors as proofs are computed over them, and the proof request
  - `config`: configuration from the environment
- `tests/` runs the library, the SQLite parts against a real database.
- `app/` is the program around it: the databases, the service and the node.

## Trusted functions

Six private functions call into other crates or the standard library. Verus believes what their
contracts say of those calls and does not look inside.

| Function | Calls |
| --- | --- |
| `branch::branch_to_compact` | `Compact::to_compact` of a branch, of `reth-codecs` |
| `branch::branch_from_compact` | `Compact::from_compact` of a branch, of `reth-codecs` |
| `rlp::encode_hash` | the RLP encoding of a hash, of `alloy-primitives` |
| `rlp::encode_path` | the RLP encoding of a path, of `nybbles` |
| `proofs::keccak256` | `keccak256` of `alloy-primitives` |
| `config::lowercase` | `str::to_lowercase` |

What a database, the DynamoDB service or a node answers is not verified either. Where something is
asked of them more than once in a row, the library hands out one step at a time and takes the
answer, or the failure, before the next: a cursor's search, storing rows, a batch or a block, the
first filling and its parts, the scans, pruning, and the run beside a node. What it does then is verified for every
answer, but for rows that cannot be read, counts that overflow, and a first block, which has no
parent: on those the program stops. `app/` performs the steps and is not verified.

## Configuration

All settings come from environment variables:

```bash
# Storage
export PROOF_HELPER_STORAGE_BACKEND=dynamodb
export PROOF_HELPER_DYNAMODB_TABLE_NAME=my-table
export PROOF_HELPER_DYNAMODB_REGION=us-west-2
export PROOF_HELPER_DYNAMODB_ENDPOINT_URL=http://localhost:8000

# Logging
export PROOF_HELPER_LOG_LEVEL=debug
export PROOF_HELPER_PROGRESS_INTERVAL=50

# Processing
export PROOF_HELPER_MAX_BLOCK_DIFF=500
export PROOF_HELPER_BATCH_SIZE=25
```

| Variable | Meaning | Default |
| --- | --- | --- |
| `PROOF_HELPER_STORAGE_BACKEND` | `dynamodb` or `sqlite`, in capitals or not | `sqlite` |
| `PROOF_HELPER_DYNAMODB_TABLE_NAME` | name of the DynamoDB table | `proof-helper-preimages` |
| `PROOF_HELPER_DYNAMODB_REGION` | AWS region | `us-east-1` |
| `PROOF_HELPER_DYNAMODB_ENDPOINT_URL` | endpoint, for DynamoDB Local | none |
| `PROOF_HELPER_SQLITE_DB_PATH` | path of the database file, needed for `sqlite` | none |
| `PROOF_HELPER_LOG_LEVEL` | `trace`, `debug`, `info`, `warn` or `error` | `info` |
| `PROOF_HELPER_PROGRESS_INTERVAL` | number of items | 100 |
| `PROOF_HELPER_MAX_BLOCK_DIFF` | number of blocks, greater than 0 | 2000 |
| `PROOF_HELPER_BATCH_SIZE` | number of items | 25 |

The DynamoDB table holds preimages by hash: they can be stored, looked up, counted, listed and
pruned by block. A node is followed with the SQLite backend, which has cursors over the tries. It
keeps the branches of tries and no leaves.

For DynamoDB Local:

```bash
docker run -p 8000:8000 amazon/dynamodb-local
export PROOF_HELPER_DYNAMODB_ENDPOINT_URL=http://localhost:8000
```
