# cawala_node

A node of a tree-shaped payment network: it keeps its place in the tree, decides
on control requests, routes messages, keeps a hash-chained ledger and settles
payments between leaves.

`src/` is the library. It decides and computes on plain values, and every
decision has a contract that Verus proves:

- `record`, `addr`, `control_store`, `admin_store`, `admin_cli`, `keys`: what a
  node stores and when a stored document is sound;
- `control`, `control_msg`, `routed`: who may change the tree, and what each
  request comes to;
- `msg`, `routing`, `endpoint`, `ping`: which envelopes are taken and where they
  go next;
- `frames`, `ledger_store`, `ledger_commitments`, `ledger_service`, `orders`: the
  log on disk, the commitment chain, and what an order does to a ledger;
- `settle`, `origin`: settlements hop by hop, and at the leaf they start from;
- `partition`, `union_find`, `netting_harness`, `claim_bundle`: reconciling the
  ledgers of several nodes, and claims on an old parent;
- `cli`, `render`, `lines`, `text`, `textmap`, `wire`: what the command line
  takes and prints, and the plain values that the rest works on.

Properties that span several functions are public proof functions whose names
start with `law_`.

What only the protocol crates can say of a value (a signature holds, a body is
well formed, a registry takes a row) enters the library as an argument. `app/`
is the program: files, network, clock, keys and those crates.
