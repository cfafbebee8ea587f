# exex_examples

The decisions and data formats of a set of execution extensions for an Ethereum
node, written in Verus with their contracts proved:

- a price oracle: its command-line options, the RLP encoding of tickers and of the
  messages of its peer-to-peer subprotocol, the state of a connection with a peer
  (pings, tickers, attestations), the signing of tickers, and the reconnection of
  its Binance feed;
- indexers of chain events: ETH bridged through the OP Stack L1 standard bridges,
  Daimo name registrations and transfers, and beacon chain deposits, each with
  the statements a committed or reverted chain gives;
- a rollup's block rules: chain id, header fields, blob selection, the check of
  block data against its hash, and gas accounting;
- an OP Stack derivation driver: its validation mode, the L2 cursor and what a
  revert goes back to, payload validation, a blob store, gossip topics and the
  gossip service's settings;
- backfill jobs and WASM-powered extensions started and stopped by RPC.

`src/` is the verified library. What needs the node, the network, the disk or a
database stays with the host: `app/` shows the command-line front end, the JSON
and ABI decoding, and the RPC client that sends WASM modules. `tests/` runs the
library on concrete values.
