# totp_win_app

The verified core of a small Windows TOTP authenticator.

- `src/` is the library, checked by Verus:
  - `base32` decodes shared secrets (RFC 4648 alphabet), specified bit by bit;
  - `secrets` parses the `Name=BASE32SECRET` file format;
  - `totp` holds accounts and their six-digit, thirty-second codes, computed
    by `totp-lite` behind a trusted wrapper;
  - `ui` decides the window's layout, what a timer tick repaints, which
    button a command names and what a paint draws;
  - `clipboard` encodes text as NUL-terminated UTF-16;
  - `text` holds the character helpers (trimming, decimal numbers).
- `app/` is the Win32 program around it: reading `secrets.txt`, the window,
  the message loop and the clipboard calls.
- `tests/` exercises the library on concrete values.
