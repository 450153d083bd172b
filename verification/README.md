# marmot_app

The account side of a group messaging client: what a device keeps of the
accounts it knows, and how it takes in what relays deliver. The logic is written
in Verus, and every function of `src/` is proved to do what its contract says.

## Layout

- `src/client/` takes in transport deliveries: the drain loop and its receipts,
  the replay of missed epochs with its queue, pacing and journal, the passes over
  the transport, the transport cursor, and the effects of group events on what an
  account shows.
- `src/directory/` keeps the user directory: its cache, the selection of profiles,
  relay lists and key packages among relay events, the resolution of the members
  of a new group, the batches of the directory subscription, and the search over
  the follow graph.
- `src/collections.rs`, `src/order.rs` hold the ordered maps and sets that both
  use; `src/text.rs` holds the calls into other crates (hex, public keys, hashes,
  base64) with what is believed of each; `src/ids.rs` and `src/error.rs` hold the
  identifiers and the errors.
- `app/` is the ordinary Rust around it: relays, storage, clocks and tasks.
- `tests/` runs the library from outside.

Loops that wait for a relay or for time are written as step machines in `src/`:
a step takes what happened and says what to do next, and `app/` does it.

Functions whose names start with `law_` state what holds across several
operations: what a read gives back of a write, what an operation never loses,
what stays bounded.
