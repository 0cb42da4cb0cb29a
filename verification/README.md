# lofty

A command line for the Lofty marketplace: market data, order books, liquidity
rewards, limit orders, swaps, and safe moves of a resting two-sided quote.

Everything the program decides lives in a library verified with Verus. The program
around it fetches payloads, hands them to the library, and prints or sends what
comes back.

- `src/` is the library. Each rule is written once over the `Amount` trait, and its
  contract says exactly what it returns. `Micros` is an exact amount in millionths;
  the laws that speak of arithmetic are proved for it.
- `src/commands/` has one module per command group. The `laws` modules state what
  holds across functions: a recenter never touches a side it was given no price
  for, spending within the free capital uncovers no bid, a paid period is never a
  gap.
- `app/` is the program: arguments, HTTP, the keychain, the settings file, output,
  and amounts in double precision.
- `tests/` runs the library on concrete payloads, in double precision and in
  millionths.
