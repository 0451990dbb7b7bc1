# impactvault

Risk-curated yield infrastructure for social impact: deposits are split across
yield sources of graded risk, a sentinel watches the adapters' health and
recommends derisking, and the yield goes to Digital Public Goods.

The library under `src/` is written in Verus and proved against its contracts:

- `domain/engine.rs` — the risk engine: source weights, portfolio bookkeeping,
  risk evaluation, the allocation planner, derisking and rebalance drift.
- `domain/score.rs` — health scores, held as binary64 bit patterns and compared
  by an order that agrees with `<` on the numbers.
- `domain/adapters/` — the yield adapters and the ABI encoding of their calls.
- `domain/sentinel.rs` — the sentinel's status and the record of each check.
- `domain/dpga.rs` — choosing disbursement recipients among Digital Public Goods.
- `gateway/router.rs` — routing tool names to the modules that handle them.
- `config.rs` — configuration defaults and `~` expansion.
- `text.rs` — hexadecimal and decimal digits.

`app/` holds what runs around it: serde forms of the types, the floating-point
arithmetic (mean health, shares of a total), the asynchronous adapter trait, the
monitoring loop, reading the configuration file and the registry, and the HTTP API.

What is not here:

- The MCP server (`ImpactVaultServer` with `new` and `list_tool_definitions`, and
  its lineage, enforcer and pattern tools) needs the lineage store, the enforcer
  and the pattern service, which this source tree does not contain, and the
  `rmcp` and `rusqlite` crates. The tools that need none of them are plain
  functions in `app/tools.rs`, beside the tools' input types (which derive
  `Deserialize` only, without a JSON schema).
- `Config::load` is a method of the `ConfigLoad` trait in `app/config.rs`, since
  the loader reads a file and parses TOML.
- `Sentinel::status_handle` hands out the library's `SentinelStatus`;
  `status_snapshot` gives its serialisable copy.
- Scores are bit patterns in the library, so `RiskAssessment` there carries no
  mean health and holds `Breach` values; `app/engine.rs` adds the mean and the
  texts. `evaluate_risk` and `check_rebalance` take the shares, in percent, that
  `app/` computes in floating point, and `expand_tilde` takes the home directory.
