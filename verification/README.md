# alux

Verified core of a design-by-meaning toolkit, written in Verus.

- `src/sdk`, `src/traversable`: collecting and traversing options, results and sequences of them,
  each stated over the sequence of results it reads.
- `src/shape`: the data-shape algebra, the encodings derived from its primitives, shape
  declarations, what a layout's attributes state, how names are spelled and read back, and a
  readable-description interpretation.
- `src/text.rs`: joining words with a separator and reading them back, with the laws relating the
  two.
- `src/http`: a direct HTTP interpretation: requests and answers as values, stated paths, routing a
  request to the first endpoint that reads it (or answering 404/405 for itself), the answer each
  output kind renders, argument reading, and the per-path table framework routers read.
- `src/conformance`: reading a served answer off the bytes that arrived, averaging measurements of a
  close, the shared surface and its reference domain, and the exchanges the surface must satisfy.
- `src/bench.rs`: what a benchmark run says while cases are measured together.

`app/` holds what awaits or touches sockets: the call traits, answering a request by awaiting the
selected endpoint, running the exchanges, the serde forms of the surface's arguments, and reading an
answer from a TCP connection.
