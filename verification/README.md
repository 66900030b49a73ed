# pombo_correio

The verified core of Pombo Correio, a local-network file sender: devices find
each other with mDNS, a sender offers files or a text, the receiver's user
accepts or declines (and may trust the sender for later transfers), and the
files are streamed over HTTP into the receiver's inbox without overwriting
anything.

- `src/` is the library, verified with Verus: receiving decisions
  (`state`, `server`), naming of received files (`storage`), the sending
  steps (`transfer`), settings, discovery bookkeeping, and small text and
  table helpers.
- `app/` is the Tauri application around it: windows and tray, the HTTP
  server and client, mDNS, files on disk, and the Android inbox plugin.
- `tests/` runs the library on concrete values.

Paths are read in the platform's style: `/` separates components on Linux
and Android; on Windows `\` does too, and drive, `\\server\share`, device
(`\\.\`) and verbatim (`\\?\`) prefixes are recognised, the last with
`\` as the only separator after them. The application passes the style it
runs under.
