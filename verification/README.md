# abyss

The ABYSS devnet protocol as a verified library: the AC coin and its
55,000,000 AC supply cap, addresses, the ledger state, transactions,
blocks with Merkle transaction roots, the chain (proposer and validator
paths), the mempool, genesis, chain snapshots, the BFT consensus
bookkeeping (validator sets, quorum certificates, rounds, view changes,
slashing evidence), development identities and the Ed25519 adapter, wallet
accounts with their agent policy, the social layer's data model, the
tokenomics plan, and the node's command line.

Layout:

- `src/` — the library. Every function carries a contract that Verus
  checks, except eight small trusted wrappers whose contracts are taken on
  trust: `text::push_char` (`String::push`), `storage::str_from_utf8`
  (`std::str::from_utf8`), `storage::u8_from_hex` (`u8::from_str_radix`),
  and in `crypto_adapter`: `random_seed` (`OsRng::fill_bytes`),
  `secret_of`, `public_key_of`, `sign_message` and `verify_message`
  (`ed25519-dalek`). `src/consensus/` holds the consensus modules;
  `safety.rs` there proves the quorum-intersection argument.
- `tests/` — tests of the library on concrete values.
- `app/` — the `abyss-node` program: arguments, clock, printing, and the
  JSON files of the chain and the accounts.

Notes:

- Ordered maps and sets (ledger balances and nonces, validator powers,
  pending transactions, timeout votes, certified voters) are kept as
  vectors sorted by key, with the order and uniqueness stated as type
  invariants. Their keys are address strings and identifiers, whose map
  behaviour the standard-library specifications available to Verus do not
  cover.
- `presale buyback` quotes the investor secondary window: listed tokens
  are paid at the window's fixed price of $3.00 per AC.
