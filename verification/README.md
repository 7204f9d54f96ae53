# chdkptp

A verified client library for Canon cameras running CHDK firmware, speaking PTP
(ISO 15740) over USB.

- `src/` is the library, verified with Verus: the PTP wire codec (`ptp::codec`),
  container framing (`ptp::container`), the `GetDeviceInfo` dataset
  (`ptp::device_info`), the session's bookkeeping and the meaning of each reply
  (`ptp::session`), and the CHDK side: sub-commands, script messages, the requests
  and replies of each operation, the wait for a script, file-upload framing and
  live-view decoding (`chdk::*`). Contracts state each result against byte-level
  models; laws such as "decoding an encoded container gives it back" are proof
  functions.
- `app/` is the USB and async side on top of `nusb`: enumeration, the session
  over bulk endpoints, and the CHDK operations as async methods.
- `tests/` runs the library on concrete bytes.
