# obscura

The verified core of Obscura's DevTools (CDP) network and identity layer,
written in Verus.

- `src/identity.rs`: the `x-obscura-context` upgrade header and the checks
  that turn its JSON document into a per-connection browser identity.
- `src/scripted_response.rs`: the recorder that buffers response bodies and
  logs network events for fetch/XHR made by page scripts.
- `src/network_request.rs`: the request object of network events, with
  `postData` and base64 `postDataEntries`.
- `src/fetch.rs`: the `Fetch` interception state machine.
- `src/emulation.rs`: the `Emulation` domain's decisions.
- `src/module_loader.rs`: ES module base-URL choice and response handling.
- `src/encoding.rs`, `src/text.rs`: base64, UTF-8 and string building blocks.

`app/` holds the unverified edge: JSON conversion of command parameters and
replies, environment settings, the clock, and the `deno_core` module loader.
