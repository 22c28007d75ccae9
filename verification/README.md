# flock_index

The program behind a Flock index: one account per index, a fixed table of up to sixteen SPL
components held in vaults the index owns, a 9-decimal index token backed by them, in-kind issuance
and redemption, fees charged in index tokens, and rebalancing through a permissionless Dutch
auction.

The library in `src/` is verified with Verus. It holds every decision the program makes; `app/`
is the on-chain glue that reads accounts, moves tokens through cross-program calls, and writes the
record back.

| Module | What it holds |
|---|---|
| `math` | fixed-point arithmetic, rounding in the fund's favour, and its laws |
| `layout` | little-endian reads and writes over account bytes |
| `state` | the index record, its byte layout, and the derived addresses |
| `guards` | the account checks every handler goes through |
| `processor` | each handler as checks and computations, with its outcome as a spec, and the laws that span handlers |
| `instruction` | the instruction set and each one's account list |
| `builders` | instructions with their accounts in the order the handlers expect |
| `error` | one numbered error per refusal |

A handler that moves tokens runs in steps. A first step checks everything it can and settles the
streaming fee; the glue mints that fee, and a second step re-derives every component's units from
the vaults and works out what each component delivers or pays out; the glue moves those tokens, and
a last step re-derives the units once more from what the vaults now hold. Every step reads the
accounts afresh, so the decisions are always made against the state the token program left.

A standalone fee accrual, and a fee change on a sealed index, mint the streaming fee owed and
scale every component's units to the grown supply, which keeps the record backed without reading
the vaults; an accrual that is passed the vaults re-derives the units from them as well.

The invariant the design rests on, `vault_balance[i] * 1e9 >= units[i] * supply` for every
component, is an `ensures` of every step that re-derives units from the vaults.
