# Nearhand

A remote desktop that one small server holds together: agents register with it,
viewers are introduced to them, and whatever cannot connect directly goes through
its relay. Both ends pin each other's keys, so the server forwards packets it
cannot read.

The rules of all this are a library whose behaviour is stated in `requires` and
`ensures` and proved by Verus.

- `src/server`: accounts, devices, grants, the audit log, releases, the registry
  of agents, the REST API's routes and handlers, the configuration, and the tools
  an administrator runs. `service.rs` and `meeting.rs` put the tables together:
  what a request changes, and what goes in the log for it.
- `src/transport`: keys and fingerprints, signed grants and releases, the relay's
  packets, finding a way to a device, and a worse network to try it all on.
- `src/viewer`: opening a session, keeping it going, coming back to it, and what
  the window makes of keys, pointers and frames.
- `src/input.rs`: keyboard and mouse on the host.
- `src/crypto.rs` and the few wrappers beside the code that needs them: what is
  taken from other crates. Each says what is claimed of the crate and not proved.
- `tests`: the library, run.
- `app`: the program around it, with sockets, files, the database and the clock.
