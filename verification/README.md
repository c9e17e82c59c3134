# tachidesk

A client model for a Tachidesk manga server, verified with Verus.

- `src/decimal.rs`: decimal rendering of unsigned integers, with its
  injectivity lemmas.
- `src/api.rs`: the server's data types and the `Client`, which builds the
  address of every request; laws that each address identifies its request.
- `src/model.rs`: the messages of the reader window and the `Model` that
  keeps what the server sent.
- `src/view.rs`: the window's decisions (`View::refresh`): sidebar pages for
  English sources, thumbnail requests at fresh grid positions.
- `app/`: the GTK program around the library: HTTP requests with reqwest,
  JSON decoding with serde, widgets and the main loop.
