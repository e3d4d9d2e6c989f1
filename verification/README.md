# mini_greeter

A minimal text-mode greeter for [greetd](https://sr.ht/~kennylevinsen/greetd/),
with its decisions verified in [Verus](https://github.com/verus-lang/verus).

It asks for a user name, picks a session (the login shell where none is
installed, the only one where there is one, otherwise by number from a menu),
passes the questions of PAM on to the user and starts the session. Where that
fails it says so, waits, and begins again.

## Layout

- `src/` is the verified library. It decides and computes, and does no input or
  output. `greeter`, `login` and `prompt` are state machines: each takes in what
  came of the last action and gives the next. The functions named `law_...` state
  and prove what holds of the actions, over whole runs where it spans them: that
  the start of a session is requested only after greetd granted the login, that
  the answer to a secret question is ordered to be scrubbed, or that echo is
  ordered on again however asking for a password ends.
- `app/` is the program around it, which carries the actions out: the terminal,
  the file system, the passwd database and the socket of greetd. Overwriting a
  secret and switching echo happen here, and are not verified.
- `tests/` runs the library on concrete values.

## What is trusted

The contracts of `shell_words::split`, `str::to_lowercase`, `String::push` and
`String::pop` are taken as given; each is stated where it is declared. The
program in `app/` is ordinary Rust and is not verified.
