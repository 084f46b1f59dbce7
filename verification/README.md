# sshgate

SSHGate publishes web services of remote machines on local `*.localhost`
domains, through SSH sessions, and opens terminals over the same sessions.

- `src/` is the verified library: the configuration model, the runtime state
  of servers and services and every operation on it, domain normalisation and
  validation, the HTTP request head parsing of the local proxy, the
  `~/.ssh/config` reader, host key pinning, authentication planning and the
  terminal event handling. `src/laws.rs` holds the properties that span
  several operations.
- `app/` is the desktop program around it: the window and tray, the
  configuration file, the system credential store, the SSH connections, the
  proxy's sockets and the terminal tasks.
