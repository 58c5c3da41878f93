# glia_sdk

Client core of the Glia ReAct agent SDK, verified with Verus.

- `src/` is the verified library: the JSON model of frame payloads
  (`json`), the Phoenix Channels v2 frame and its 5-element wire form
  (`protocol::frame`), agent event classification and the request payload
  (`events`), connection options and the handshake URL (`options`), the
  session state machine that decides what to send and what each received
  frame means (`client`), what the transport does with each kind of
  WebSocket message (`transport`), and decimal text for frame references
  (`text`).
- `app/` is the asynchronous client around it: the WebSocket transport, the
  heartbeat task, the JSON text codec through `serde_json`, the serde and
  error-trait forms of the library's types.
- `tests/` holds the tests of the library.
