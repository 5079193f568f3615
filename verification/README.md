# mcp_pricing

A pricing engine: product catalog, CEL-conditioned pricing rules, customer
segments, promotions, quotes and an append-only audit trail, with the
decisions of the price waterfall (list, segment, promotions, rules,
floor/ceiling, tax) and the tax table.

- `src/` is the library, verified with Verus. Prices and percentages are
  `f64` values, carried by the library as `Amount` (their bit pattern); the
  library decides which promotions and rules apply and which guards hold
  (`waterfall::plan_waterfall`), and never computes with amounts.
- `app/` is the MCP server around it: JSON forms of the records, the
  floating-point execution of the waterfall plan, exchange-rate lookups over
  HTTP and the tool handlers.
- `tests/` exercises the library with concrete values.

Behaviour worth knowing:

- Conditions are evaluated by `cel_interpreter` only when they lie in the
  fragment described in `src/scan.rs`: literals (escapes, hexadecimal),
  field access, comparisons, `in`, `!`, `&&`, `||`, `?:`, comments, the
  functions `contains`, `size`, `has`, `max`, `min`, `startsWith`,
  `endsWith`, `string`, `double`, `int`, `uint`, `matches`, and bounded
  nesting. Others are refused when a rule, segment or promotion is created:
  outside the fragment the interpreter can panic (unchecked integer
  arithmetic and negation, string indexing, literal conversions, empty byte
  searches) or answer in hash order (`map`, `filter`, `all`, `exists`).
- A rule limited to channels or segments applies only to requests whose
  channel and customer segment it lists.
- A coupon is honoured only while it is active, under its use limit and
  within its validity window.
- The customer's segment is resolved before pricing
  (`waterfall::resolve_segment`): the segment of lowest priority number
  whose condition holds. Its name is `customer.segment` in conditions, its
  identifier is what segment-limited rules are matched against, and its
  discount is step 2 of the waterfall.
