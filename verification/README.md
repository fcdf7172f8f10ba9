# span

Shares the clipboard between the devices of one user on a local network. Devices
find each other by broadcasts, the user decides which of them to trust, and text
goes only to trusted devices, sealed for each of them.

`src/` is the library: what is decided or computed, proved with Verus against
the contracts of its functions. Those contracts rest on what a few items
say of code outside the library, which Verus believes: the calls into the
cryptographic crates and the source of randomness in `crypto`, two functions of
the standard library in `text`, and one each in `clipboard` and `autostart`. What
holds of several functions together stands in public proof functions, next to
the functions or in the modules whose names end in `_laws`.

- `device`, `text`, `hex`, `error`: devices, and work on text.
- `registry`, `trust_store`: the rules by which the list of known devices
  changes, and the file that holds it.
- `crypto`, `transport`: keys, sealed packets and the lines that carry them.
- `network`, `discovery`, `presence`: broadcast addresses, announcements, and
  what the store makes of them.
- `reception`, `delivery`, `daemon`: what becomes of a packet, who is sent what,
  and what a change of the clipboard means.
- `clipboard`, `autostart`: UTF-16 text and the steps of reading and writing a
  clipboard, and the steps of registering the daemon with the system.
- `commands`, `window`: the command line, and the window on Windows.

`app/` is ordinary Rust around the library: files, locks, sockets, processes and
the windows of the system. It hands the library plain values and carries out what
the library decides.
