# parse_css_font

Parse the CSS `font` shorthand into its parts (style, variant, weight,
stretch, size, line-height and the family list), or recognise a system-font
keyword. Every function of the library is proved against a specification.

- `src/text.rs`: Unicode white space, trimming, character-wise equality.
- `src/split.rs`: top-level splitting that nests on `( … )` and honours quoted
  strings with `\` escapes; every part is trimmed.
- `src/font.rs`: the result types, the keyword tables and the token tests.
- `src/parse.rs`: the specification of a whole parse and its implementation.
- `src/laws.rs`: properties proved of every input (system keywords parse back
  to their font, adjacent prefix tokens may be swapped, defaults, required size
  and family).
- `src/order.rs`: tokens before the size that fill each property at most once
  may come in any order, both as a token list and in the text of a value.
- `app/lib.rs`: the outer layer, which reads a unitless line-height as an
  `f64` and gives the types `Display` and `Error`.
