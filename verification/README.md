# finchippay-escrow

Escrow and dispute resolution for a token contract, verified with Verus.

Every entry point of the contract is a function in `src/` from the contract's
entries (`Store`) and the context of the call (`Context`) to an answer and the
actions that the host has to perform, in order: authorisations, transfers,
changes of the locked balance, writes, extensions of an entry's life, events. An
aborted call says why it stopped and what it had asked for until then. A rule
(`..._rule`) states exactly what each entry point does.

| Module | What it holds |
| --- | --- |
| `types`, `store`, `abort`, `action` | records, entries, reasons to abort, actions |
| `guard`, `tally` | entry checks and searches; sums per address in the host's map |
| `create`, `claim`, `milestone`, `dispute`, `query` | the single calls |
| `batch_create`, `batch_settle` | the batch calls |
| `soundness`, `history`, `laws` | the invariant of the entries and what every call keeps |
| `flows`, `funds`, `batch_flows` | what moves, what is locked and what the escrows hold |
| `conduct` | authorisations, order of effects, switches |
| `sequences`, `chunks`, `batch_outcome` | what one call means for the next |

`app/` puts the entry points on the host's own types: it loads entries, calls the
library and performs the actions. The rest of the contract (its switches, its
bounds, its transfers, its book of locked balances) comes in through the
`Surroundings` trait.
