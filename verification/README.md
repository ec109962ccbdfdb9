# cuketut

A small currency-trading model: instruments, quotes, positions, trades and
conditional (OCO) orders, kept in a `State` value that each operation takes and
returns. The library is written in Verus and every operation carries a contract.

- `src/trading.rs`: the types, the state model (`StateView`) and the operations
  (`set_market`, `buy`, `sell`, `buy_with_orders`, `submit_oco_orders`, ...).
- `src/instrument_map.rs`: the map from instrument names used for positions and
  quotes, a list of entries whose names are distinct, viewed as a `Map`.
  It stands where a `HashMap<Instrument, _>` could be expected: vstd specifies
  `HashMap` only for keys that it knows to obey its key model (integers and a few
  others), which holds neither for `String` nor for a struct of this crate, so
  such a map would prove nothing about instruments. `entries()` lists it.
- `src/laws.rs`: properties proved for all inputs (read after write of quotes and
  positions, buying at the ask and selling at the bid, OCO groups linking every
  order to every other, filtering after removal finding nothing, ...).
- `tests/trading.rs`: the scenarios, run against the compiled library.
