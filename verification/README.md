# cuprate_core

The rules by which a node keeps its stores, its event stream and its sources consistent, verified
with Verus.

- `src/blockchain`: the layout of the blockchain store, the check that its tables match its tapes,
  the rebuild of the tables, the reading of pruned transactions, and synthetic blocks.
- `src/txpool`: the opening of the transaction pool store and the check of its format version.
- `src/events.rs`: the node-event channel.
- `src/todo_guard`: which request handlers are dispatched to although they are unfinished.
- `src/toolchain_pin.rs`: whether every file of a workspace chooses the same Rust version.
- `app`: the databases, files and waiting around these rules.

Where a rule needs a database, it is a state machine: it names the next action, and is told what
came back. Every step is proved for every answer. The laws on the check and on the opening speak of
stores that report no error, and of one error that ends them; those on the rebuild speak of runs in
which nothing fails, and of one step that does.
