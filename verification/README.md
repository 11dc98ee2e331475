# stocksense

A small stock-keeping program: an inventory of products (id, name, provider,
stock, unit price) and bills drawn against it.

- `src/` is the library, written in Verus: its functions carry contracts that
  Verus proves (the `Hash` of an item, which only feeds its id to the
  hasher, states nothing). `inventory` holds items and their rules, `billing` the
  bills and how a confirmed bill is taken out of stock, `files` the names of
  exported files, `text` the rules on typed answers, `menu` numbered menus.
  Prices are kept as the bit pattern of their `f32`.
- `app/` is the terminal program around it: menus, input, colours, files,
  serialization (postcard, CSV) and everything that computes with `f32` prices.
- `tests/` runs the library on concrete values.
