# e4pty

A minimal PTY (pseudo-terminal) library: spawn a process attached to a
pseudo-terminal, read its output, write input to it, resize the window and
collect the exit status, with the same semantics on Unix (`openpty`) and on
Windows (ConPTY).

What a session decides and computes stands in `src/` and is verified with
Verus; `app/` performs the system calls and drives the async runtime.

| Module | Contents |
|---|---|
| `script`, `command`, `words` | what to run: command lines, verbatim argv, self-cleaning script files |
| `spawn`, `environment` | window, working directory and environment of a session |
| `pty` | the bundle of handles, exit codes, the drain-first teardown |
| `backend::setup`, `backend::unix` | opening a session on Unix, EOF normalization |
| `backend::windows` | opening a session on Windows, command line quoting, environment block, I/O and waiter threads, kill |

Public proof functions named `law_…` state what holds of the library as a
whole. Everything in `src/` is proved; no contract is believed.
