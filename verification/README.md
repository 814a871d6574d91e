# sshx session core

The logic of an sshx server session and of its terminal-hosting client, with
contracts proved by Verus.

- `src/shell.rs`: the output buffer of one shell (overlapping segments,
  bounded tail, what a subscriber is due).
- `src/session.rs`: shells, the ordered shell list, users, and the requests
  relayed to the terminal client.
- `src/web.rs`: authentication and the handling of each browser message.
- `src/upload.rs`: cutting an uploaded file into chunks.
- `src/pending.rs`: the registry of relayed requests and their answers.
- `src/controller.rs`: the client's handling of server messages, back-off,
  and file replies.
- `src/ids.rs`, `src/protocol.rs`, `src/text.rs`: identifiers, messages,
  decimal text.
- `app/`: channels, locks, WebSocket/HTTP transport, CBOR, file system.
