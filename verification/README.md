# clantool

The TeamSpeak part of a daemon that keeps statistics for a clan: who was online under which name, how
long in which channel, and who is to be told when a guest waits.

- `src/` is the library, verified with Verus. It rests on four small wrappers whose contracts are
  trusted: three calls into `ts3_query::raw` in `query`, and the debug text of a string in `ts::poke`.
  - `config`: the configuration and its default.
  - `query`: records and escapes of the query interface.
  - `text`: numbers and lists as the query interface writes them.
  - `ts::client`: clients and channels read out of records.
  - `ts::poke`: when to poke whom, and with which commands.
  - `ts::stats`: names and times between two flushes.
  - `ts::identities`: the search for unknown identities.
  - `ts::daemon`: which tasks are due how often, and what follows each of them.
  - `ts::laws`: what holds over several steps.
- `app/` holds the files, timers, threads, the database pool and the connections.
- `tests/` runs the library.
