# mycitadel

The MyCitadel wallet library, with its behaviour stated as Verus contracts
and proved.

- `src/` is the verified library:
  - `map`, `ids`, `utxo`, `addrmap`: sorted maps, hashes and outpoints,
    unspent outputs and the map of used addresses;
  - `cache`, `unspent`, `sync`: the per-contract cache of outputs and
    addresses, how a blockchain scan fills it, and which outputs hold which
    assets;
  - `model`, `storage`, `rpc`: contracts, their storage, and how the node
    answers the requests its storage and cache can serve;
  - `transfer`: coin selection and the plan of a payment; the node records
    a built payment (its change address and history entry) in `rpc`;
  - `finalize`: finalizing signed PSBTs through `miniscript`;
  - `signer`, `encoding`: BIP39/BIP32 key handling and tagged-hash
    identifiers, through the `bip39` and `bitcoin` crates;
  - `parse`, `text`, `bip21`, `confirm`, `listing`, `cli`, `capi`, `data`:
    text forms, payment URIs, command-line requests, listings and the
    C interface's results;
  - `laws`, `roundtrip`: properties that span several operations.
- `tests/` runs the library on concrete values.
- `app/` is a command-line front end: argument parsing, printing, the
  serde copies of library types, and publishing finalized transactions
  through an Electrum server.
