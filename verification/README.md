# polynostr

A Nostr bot for Polymarket prediction markets: it answers search, price,
market, trending and closing-soon queries sent by direct message or public
mention, and keeps per-user price alerts that notify their owners when a
market crosses a threshold or moves by a percentage.

The library in `src/` is verified with Verus:

- `alerts/`: the alert rules and their parser, the evaluator (crossings,
  percentage moves, cooldown, hysteresis), the in-memory store, the
  per-owner notification window, the manager that handles each market tick,
  the storage codes, and the laws that span these parts (`alerts/laws.rs`).
- `polymarket.rs`: exact decimals, markets and events as the bot reads them,
  wallet address preparation, and the selection and ordering of trending
  and closing events.
- `format.rs`: every reply and notification text.
- `commands.rs`, `portfolio.rs`, `bot.rs`: reading a message into the action
  it asks for.
- `config.rs`: the settings read from environment values.
- `text.rs`, `number.rs`, `exponent.rs`, `time.rs`: text, number (including
  the exponent and `inf`/`nan` syntax) and time primitives.

`app/` is the program around it: the Nostr client, the Gamma API client, the
SQLite store and the price poller.

Prices, thresholds and percentages are fixed-point integers in billionths
(`PRICE_SCALE`), so 52¢ is `520_000_000` and a 7.5 % move is
`7_500_000_000`.
