# create_bundle_monitor

Watches a stream of Solana transactions for pump.fun create transactions and
the transactions that follow them at consecutive positions of the same slot,
assembles them into bundles (a create transaction and at most four followers)
and stores the bundles; a set of tools then reports on the stored bundles.

Layout:

- `src/` is the verified library (Verus):
  - `types.rs`: keys, signatures, transactions, bundles, and the facts the
    instruction decoders report about each instruction;
  - `monitor/`: the bundle monitor (ordered buffer of transactions, pending
    bundles, assembly, timeouts, the processing round) and the migration
    monitor, with the laws of assembly;
  - `ixs.rs`, `filters.rs`, `analysis.rs`: instruction queries, the bundle
    patterns the tools look for, statistics and compute-unit patterns;
  - `format.rs`: compute-unit rendering, exact to the printed digit;
  - `args.rs`: unsigned decimal reading and the filter tool's arguments;
  - `address.rs`: base-58 addresses (read and written through solana's
    `Pubkey`), JSON lists of mints, and the lookup tool's arguments;
  - `keys.rs`, `seqs.rs`: database keys and sequence helpers.
- `app/` is the program around it: the stream subscribers, the processing
  task, the LMDB stores (heed), the serde form of the records, and the tools
  (`stats`, `analyze_cu`, `list_mints`, `get_bundle`, `filter_by_cu`,
  `filter_cu_140k`, `find_150k_cu_per_buy`, `find_drop`, `find_gng5`,
  `find_multi_buy`, `find_new_gng5`, `export_json`, `migrate`,
  `check_migrated`), chosen by the first argument.
- `tests/`: tests of the library.
