# ballotchain

A small voting ledger. Each vote is a ballot, sealed into a chain by proof of work: the ballot's
fields are serialised (integers little-endian), hashed with SHA-256, and the nonce is increased
until bytes 16 to 31 of the hash, read as a little-endian number, fall below the difficulty.

- `src/` is the verified library (Verus):
  - `bytes`: little-endian encodings and the difficulty reading of a hash, with round-trip lemmas;
  - `hash`: the SHA-256 digest (the `sha2` crate, behind one trusted wrapper);
  - `text`: decimal renderings (verified) and hexadecimal renderings (the `hex` crate, behind a
    trusted wrapper);
  - `ballot`: ballots, their bytes and hash, mining, and the difficulty check;
  - `ballotchain`: the chain, the rules for appending a ballot, chain validity and vote counts;
  - `candidate`, `candidates`: the candidates and their vote counts;
  - `command`: reading a console line into a command;
  - `node`: what each command, each received ballot and the window's Vote button do to the
    chain and the candidates, and the lemmas that keep candidate counts in step with the chain.
- `app/` is the program around it: the console, the clock, the libp2p gossipsub network, JSON
  messages (serde), and the egui window.
- `tests/` runs the library on concrete values.
