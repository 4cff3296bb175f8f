# pico_io_finder

Discovery of Pico I/O devices on the local network, with its decisions
proved by Verus.

- `src/` is the verified library:
  - `text`: white space trimming, ASCII case folding, prefix tests, string
    equality and order, decimal rendering;
  - `model`: the `/api/status` identity, verified devices and their numeric
    URLs, which IPv4 addresses may be probed;
  - `identity`: which DNS-SD services may be Pico I/O devices;
  - `probe`: probing one service address by address, with retries, and the
    size limit on status responses;
  - `discovery`: the candidates kept while browsing, and the found, removed
    and warning events they give rise to;
  - `device_list`: the list a user sees, ordered by serial number;
  - `cli`: the `--timeout-seconds` command line.
- `app/main.rs` is the command-line program: it browses DNS-SD, makes the
  HTTP requests, sleeps between retries and prints events, handing every
  outcome to the library.
- `tests/` exercises the library on concrete values.
