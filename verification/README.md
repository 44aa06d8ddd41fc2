# servers

A small HTTP server, five times over. It answers every request on
`localhost:3000` with "Hello world!":

- `simple`: blocking I/O, one connection at a time;
- `non_blocking`: all connections on one thread, tried in turn;
- `multiplexed`: all connections on one thread, driven when epoll reports them;
- `functional`: a task for each connection, put together from chained closures;
- `asynchronous`: a task for each connection, written out as a state machine.

The last two share a runtime: a scheduler with a run queue, a reactor that turns
epoll events into wake-ups, and futures.

`src/` is the library, verified with Verus. It decides what each server does
next and takes what came of it; it never touches a socket. `app/` performs the
I/O. `tests/` runs the library.
