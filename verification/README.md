# monitorhop

The logic of a software KVM: mouse, keyboard and clipboard shared between
computers. It is written in Verus, so what each function does is stated in its
contract and proved.

- `src/` is the library.
  - `proto`, `clipboard`, `assembler`, `datagram`: the wire protocol. Clipboard
    text travels in small datagrams and is put together by any order of arrival.
  - `client`, `addr`, `locks`, `network`: the client table, its candidate
    addresses, and the locks that apply on one network only. `ip_text` writes
    addresses as text, and `ip_distinct` shows that no two of them
    have the same text.
  - `connect`, `dialer`, `retry`, `latency`: the connecting side.
  - `listen`: the listening side.
  - `clipboard_files`, `archive`, `emulation`: files on the clipboard, the
    archives they travel in, and the clipboard of this machine.
  - `client_object`, `client_row`, `release_shortcut`, `scancode`, `frontend`,
    `single_instance`, `glyph_font`: what the preferences window decides.
  - `daemon`, `launch`, `desktop_install`, `firewall`, `power`: how the program
    starts, and how it gets on with its host.
- `tests/` runs the library on concrete values.
- `app/` is the program around it: sockets, files and child processes.

Laws that relate several functions are public proof functions whose names begin
with `law_`. What is taken on trust of other crates (`sha2`, `slab`, `tar`,
`url`) and of the standard library stands next to its use, with a comment that
says what is claimed.
