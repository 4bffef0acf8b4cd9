# sub_merger

Merges proxy subscriptions into one list of share links, or into one Mihomo configuration.

A subscription is a list of links, the same in base64, or a YAML configuration. The service fetches
the subscriptions that a request names, merges their links without repetitions, keeps the merged
list for an hour, and answers with a selection of the links in an order that a seed fixes or chance
gives.

- `src/` is the library, verified with Verus. `link_reader`, `link_writer`, `yaml_reader` and
  `subscription` read and write; `config` writes the configuration; `request`, `service`, `cache`
  and `safety` decide what a request gets and what may be fetched for it. `text`, `cut`, `decimal`,
  `codec`, `order`, `seen` and `address` hold what these are built on. `foreign` holds the functions of other
  crates that the library calls, each with the contract that is relied on.
- The functions named `law_..` state what holds across functions: that a link read back gives the
  node that was written, that every proxy of a configuration has what its protocol asks for, that a
  subscription in base64 gives the links of the text, and others.
- `tests/` runs the library on concrete values.
- `app/` is the HTTP service around the library.
