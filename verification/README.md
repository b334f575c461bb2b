# moneymarket

The accounting rules of the Anchor money market, written in Verus and proved
against their contracts.

- `src/bignumber`: 256-bit integers and 18-digit fixed-point decimals, their
  arithmetic, order and decimal text, over `bigint::U256`.
- `src/tokens.rs`: collateral lists kept sorted by token address; adding and
  subtracting collateral.
- `src/querier.rs`, `src/oracle.rs`: the stability tax, price age limits,
  price feeding and reading.
- `src/market`: interest accrual, the aterra exchange rate, deposits,
  redemptions, borrowing, repayment and the market's epoch operations.
- `src/overseer`: the collateral whitelist, borrow limits, locking,
  unlocking and liquidating collateral, and the steered deposit rate.
- `src/vterra`, `src/ve_aterra`: bonding aterra for a locked share,
  unbonding receipts, claiming and rebonding, and the premium rate.
- `src/msg`: the cw20 hook messages the contracts accept.

`tests/` runs the library on concrete values. `app/` holds what stays outside
the proofs: the JSON forms of the numbers and hook messages, and the chain's
tax query feeding the verified tax rule.
