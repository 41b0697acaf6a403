# lddns

A lightweight dynamic DNS for a local network. Clients register their host
name and address with a server by heartbeats; the server answers DNS queries
for registered hosts and forwards all other names upstream.

## Layout

- `src/` is the library, verified with Verus: text handling (`text`,
  `decimal`), IP address grammar (`ip`), the client's configuration file
  (`config`), reading interface listings (`netinfo`), finding the server
  (`discovery`, `startup`), the message framing and exchanges (`protocol`),
  the server's registry (`registry`), the DNS service (`dns`) and the
  domain report (`listing`).
- `app/` holds the client and server programs: arguments, sockets,
  processes, files, the terminal, and the bincode form of the messages.
- `tests/` exercises the library on concrete inputs.
