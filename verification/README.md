# tiny_web

A small web engine whose logic is written in Verus and proved against its
contracts: the FastCGI, SCGI and HTTP request formats, query and form and
multipart parsing, the hierarchical cache, request routing and access checks,
the reading and grouping of query results, the PostgreSQL connection text,
HTML templates and their rendering, translations, the configuration file,
the installer's dialog, mail composition and the control channel of a running
server.

## Layout

- `src/` — the verified library. Each module states what its functions return
  over spec functions and views; laws that relate several functions are public
  proof functions named `law_*`.
- `tests/` — tests of the library on concrete values.
- `app/` — the program around the library: command line, files, sockets, the
  log file, and the sending of composed mail to a folder or to sendmail (SMTP
  sending is not built here). It hands the library plain values and acts on
  what it returns.

The library calls a few outside crates (`toml`, `percent-encoding`, `sha3`,
`rand`, `chrono`, `lettre`) through small trusted wrappers. Their contracts
say what each call returns where that depends on the arguments alone. Where
it also depends on the clock or on chance, they say what holds of every
outcome. The lettre wrappers say what was handed to lettre: each header, the
subject, the message id and the tree of parts. They also say when lettre
builds the message.
