# solverforge_mail

The decision logic of a mail client (IMAP, SMTP, ManageSieve, a local
calendar CLI), written in Verus: every function in `src/` carries a contract,
and Verus proves it.

- `src/` is the library. Each module states its behaviour over spec functions
  on plain values (`Seq<char>`, integers, options) and proves the executable
  code against them. Calls into mail-parser, lettre, imap, imap-codec,
  imap-types, base64 and anyhow stand behind small trusted wrappers whose contracts say what the
  crate's source shows of them; everything around those calls is verified.
- The `law_*` proof functions state properties that span several functions
  (a quoted Sieve string reads back as its value, a rendered template parses
  back into its headers and body, command tags never repeat, a merge keeps one
  copy of each message, what a folder delta does to the cache, an IMAP line
  that does not decode is skipped and reading goes on after it, and what is
  read does not depend on how the bytes arrived, given a decoder whose answer
  stands when more bytes follow). `list_threaded` states in its contract that
  a listing without THREAD is the plain listing.
- `tests/` runs the library on concrete values.
- `app/` is the I/O around it: the IMAP socket, login and session pool,
  listing, reading, flagging, moving and deleting messages, running the Planner123 and `secret-tool`
  programs, the ManageSieve socket, IDLE waiting, building and sending a
  message with lettre, and reading settings from the environment.
