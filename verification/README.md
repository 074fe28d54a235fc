# liq-bot

A liquidation scanner for Solana lending protocols (MarginFi, Kamino, Drift;
Solend is registered and waits for its account layouts). It reads bank,
position and oracle accounts, finds the positions whose health factor has
fallen below one, ranks them by what a liquidator would earn, and shows risk
buckets, large positions and diverging oracle prices on a dashboard.

`src/` is the library, verified with Verus: every decision of the scanner,
from account bytes to the rows on the screen. `app/` is the program around it:
the RPC calls, the terminal, and the floating-point arithmetic on dollar
values. `tests/` runs the library.

Dollar values are IEEE 754 doubles. The library holds them by their bits
(`double::Double`) and only compares them; raw on-chain numbers stay exact
integers (`types::Quantity`, `oracle::OraclePrice`) until the program computes
with them.

What is taken on trust stands next to the call it is about: SHA-256 digests
(`anchor`), base58 addresses (`base58`), and the JSON list and the keypair of a
keypair file (`liquidator`).
