# ark-escrow

2-of-3 Bitcoin escrow contracts on [Arkade](https://arkade.co) (Ark protocol), written
in Verus: what each function does is stated in its contract and proved.

Any two of three parties (seller, buyer, arbiter) can spend an escrow together with the
Arkade server. After a CSV delay, any two can also leave without the server.

## The library (`src/`)

- `contract`: the options of an escrow, its six leaves, its taproot tree and address.
- `lib`: `plan_release`, which divides an escrow into the buyer's payout and the fees.
- `spend`: building, signing and merging the offchain transactions of a release or refund.
- `client`: the steps of an offchain spend (load, submit, save, finalize, remove), so
  that a spend that was interrupted is finalized rather than submitted again.
- `refresh` and `delegate`: preparing and signing the PSBTs by which recoverable VTXOs
  are settled.
- `settle`: the steps of a settlement in a batch of the server.
- `lookup`: which VTXOs of an escrow can be spent, which are recoverable, and which
  contract holds each when the server's key has changed.
- `ffi`: the same functions on plain texts and numbers, for other languages.

The other modules hold what these stand on: keys, scripts, the taproot tree, PSBTs,
addresses, transaction ids and the trees of a batch.

What `bitcoin` and `ark-core` compute is called behind small functions that are marked
`#[verifier::external_body]`. Their contracts are not proved; the comment above each says
what is claimed. Results that only those crates define have a name without a definition
(`uninterp`), and contracts speak of them by that name.

Functions do not panic on any input that their `requires` admits. Where that depends on
values from elsewhere, there is a test to call first: `OffchainSpend::accepts`,
`Settlement::accepts`, `fees_fit`, `sum_fits`, `can_forfeit`, `is_signable_delegate`, and
the functions whose names begin with `try_`.

## The rest

- `tests/`: tests of the library, with the real crates linked.
- `app/`: what talks to the outside. `EscrowClient` runs spends and settlements against a
  server, `FileSpendStore` keeps spends on disk, and `ruby` is a Ruby extension.
