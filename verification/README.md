# easyjump

Vimium-style hint jumping for the Herdr terminal multiplexer, as a verified
library with a thin command-line program around it.

- `src/model.rs`: the session snapshot, the label model built from it
  (destinations in sidebar or list order, single- or two-letter labels,
  auto-numbered tabs keyed by their number), and the requests that publish,
  withdraw and jump.
- `src/render.rs`: the HUD, the list popup, the pane mini-map and the
  ANSI/width helpers they use.
- `src/popup.rs`: what each key does in the popup, and the popup's size.
- `src/term.rs`, `src/rpc.rs`: keys and frame text; the socket path.
- `src/laws.rs`: properties of the library as a whole (typing a label reaches
  its target, cleanup withdraws what was published, hints come off tab labels).
- `src/text.rs`, `src/records.rs`, `src/order.rs`: shared helpers, including
  the calls into `unicode-width`.
- `app/`: the program: terminal raw mode and input, the Unix socket and JSON,
  state files, and the floating-point scaling of the mini-map.
