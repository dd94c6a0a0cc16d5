# ron

A verified reader for RON, the Rusty Object Notation.

- `src/parse` reads tokens: white space and comments, attributes, identifiers, numbers, characters
  and strings.
- `src/de` is the deserializer. A value that holds others is read in two steps, one up to its content
  and one after it; in between, whoever asked reads the content with the same deserializer.
- `src/de/laws.rs` states and proves what holds of the deserializer as a whole.
- `src/error.rs`, `src/extensions.rs` and `src/options.rs` hold what the others share, and
  `src/text.rs` what they need of characters and bytes.
- `app` connects the deserializer to serde: it hands what was read to visitors and turns the text of
  floating point numbers into numbers.

Every function of `src` has a contract over mathematical models of the input and of the deserializer.
What is taken on trust is what `base64::decode`, `std::str::from_utf8`, `String::from_utf8_lossy` and
`char::from_u32` return; the doc comments of their four wrappers say what is assumed.
