# monban — 門番

A gate that enforces, by machine, the contract made with an agent: no claim of
completion passes without the evidence its contract names.

Three articles are kept. The first two are proved in `src/`; the third is the
ledger's, which belongs to banto (`banto-kernel`) and is used from `app/`:

1. No claim passes without evidence (a declaration needs artifacts; a verification
   passes only when every evidence requirement of the seki passes).
2. The declarer never verifies itself (monban never declares, every verification is
   written by monban, and a claim declared in monban's name is never admitted).
3. Claims, evidence and verdicts go to banto's append-only ledger. What `src/` proves
   of it is what monban decides: a contract swapped after a declaration, or an
   artifact copy lost or altered in the store, fails the verification.

## Layout

- `src/` — the verified library.
  - `contract.rs` — the contract file (`monban.toml`): its model and loading rules.
  - `claim.rs` — declaring and verifying claims, the judgement, and the reports.
  - `gate.rs` — a toolchain run's record and transcript.
  - `otel.rs` — the OTel vault examination (spans, attribute matching, quotations).
  - `mcp.rs` — the MCP entrance: what each JSON-RPC line is answered.
  - `workspace.rs` — the settings read from `banto.toml`, evidence records.
  - `tomldoc.rs`, `jsondoc.rs` — TOML and JSON documents as plain values (parsing is
    done by the `toml` and `serde_json` crates).
  - `text.rs` — the character-level text model.
- `app/` — the command line: finding the workspace, files, processes, the object
  store, the ledger (`banto-kernel`), and the stdio loop of the MCP entrance.
- `tests/` — the library's tests.
