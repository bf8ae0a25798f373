# ssh-go

An SSH server manager with fuzzy matching: save your servers once, then connect
with a short query. The library in `src/` is verified with Verus; the program
`sgo` in `app/` reads and writes files, talks to the user and runs `ssh`.

| module | what it holds |
| --- | --- |
| `text` | strings as sequences of characters, decimal numbers, splitting and joining |
| `place` | the machine: home directory, kind of system, paths |
| `config` | saved servers, how they are shown and where they are kept |
| `matcher` | which servers a query selects |
| `commands` | which server is meant, and what becomes of the saved servers |
| `form` | the questions that describe a server |
| `quote` | words for a shell, and how a POSIX shell reads them back |
| `ssh` | the command lines of `ssh` |
| `tunnel` | port forwards |
| `pty` | sessions in which the stored password is typed |

A query selects the servers that match in the strongest of four ways: the alias
is the query, the host ends with it, the alias contains it, the host contains it.
Only where the alias is to contain the query does case not matter.

The servers are kept in `~/.ssh-go/servers.json`, or in the directory that
`SGO_CONFIG_DIR` names. `SGO_NO_TTY` asks for sessions without a remote terminal.
