# zhtw_mcp

The deterministic core of a linter for Traditional Chinese as it is written in
Taiwan, written in Verus: the library's own functions have contracts, and Verus
proves them.

- `text`: strings as sequences of characters, and the operations that the rest
  is written in.
- `json`, `jsonrpc`, `revisions`: JSON values, JSON-RPC 2.0 messages on a line
  transport, and the protocol revisions that the server serves.
- `issue`, `matching`, `prompt`, `bulk`, `cache`, `judgment`, `sampling`,
  `refine`: which issues are put to a client's language model, what is asked
  under which budget, and what an answer does to an issue.
- `discover`, `help_blocks`, `hooks`: file discovery, the help texts in the
  documentation, and what a build says about its git hooks.

Laws that span several functions are the public proof functions whose names
begin with `law_`.

What the proofs rest on besides Verus is marked `external_body` or
`assume_specification`: calls into `serde_json`, `rmcp` and
`unicode-normalization`, and a few into the standard library. Their contracts
are believed, not proved, and each says what is believed of it. Those that read
the clock or draw randomness promise nothing. The client behind `PeerSampler` is
whoever implements it: all that is asked of an implementation is that its record
of requests and replies is what was sent and came back.

`app/` holds what needs the file system, git, or the traits of other crates.
