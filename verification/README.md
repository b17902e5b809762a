# gatebook

A client that follows the order books of a currency exchange.

- `src/` is the library, verified with Verus. `gate` holds the books of one
  connection and decides what each message, snapshot and pause does to them;
  `order`, `ladder` and `history` are the data; `json`, `decimal`, `text`,
  `symbol` and `update` read what comes in; `snapshot`, `asset` and `http` say what
  goes out and what an answer means. `laws` and `tracking` state what holds of it
  all, up to the statement that a book which is kept up shows the exchange's book.
- `tests/` runs the library.
- `app/` is the program around it: websockets, HTTP, the clock and the rate limit.

Sums of money are exact decimals (`amount`). JSON is parsed by `serde_json` and
decimals by `rust_decimal`; what the proofs take from them is written above each
wrapper.
