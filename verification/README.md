# glide

Share one keyboard, mouse and clipboard between two machines on the same network.
The machine whose keyboard and mouse are shared is the server; the machine it
drives is the client. Push the cursor off the server's screen edge and it appears
on the client, and the keyboard follows it. Copy text or an image on either
machine and it is on the other's clipboard a second later.

The logic is a library verified with Verus; the program around it is ordinary
Rust.

## The library (`src/`)

| module      | what it holds |
|-------------|---------------|
| `proto`     | messages, their bytes, and which channel each belongs on |
| `event`     | input as it travels |
| `input`     | the rule for who owns the keyboard and mouse |
| `session`   | what to do when input, a message or a link shows up |
| `link`      | which peers can be talked to, framing, serving and dialing |
| `trust`     | fingerprints, this machine's identity, pinned certificates |
| `timing`    | round trips and their percentiles |
| `clipboard` | clips, their limits, and telling a new copy from an old one |
| `screens`   | the screens a machine has |
| `arrange`   | where both machines' screens are drawn, and where a drop lands |
| `status`    | what is shown, as lines, JSON and a file |
| `config`    | roles, peers and sides |
| `text`, `wire`, `double` | text and numbers as characters, bytes and bits |

Every function states what it returns or changes. What holds across functions is
stated in the proof functions whose names begin with `law_`: that every message
survives the wire, that a server is never driven by its peer, that an edge never
traps the cursor, that what one machine captures the other types, and so on.

Calls into other crates and into parts of the standard library stand behind small
functions whose doc comments say what is taken on trust.

## The program (`app/`)

The command line, the files, QUIC and TLS, the input backends, the system
clipboard and the macOS menu bar. It tells the library what happened and does what
the library answers.
