# riauth

The rules of a self-hosted identity provider, written in Verus: what a client may ask for, which
tokens stand, who may sign in where, and what is kept of it.

- `src/` is the library. Every operation works on a `Tx`, the part of the store that the caller
  loaded, and states in its contract the store after it and the answer it gives. Each module states
  what always holds of it as public proof functions.
- `src/outside.rs`, and a few functions next to their callers, call other crates. Their contracts are
  believed; each says in its comment what it claims of the call.
- `app/` is the server around the library: sockets, files, clocks and random numbers.
- `tests/` runs the library on concrete values, with the outside crates linked.

Rules that stand outside the library (identifier syntax, assurance levels, claim policies) reach it as
answers: a `Rules` value for one request, an `Option<Error>` for one verdict.
