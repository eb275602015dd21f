# Grindlewald

A controller for Govee Bluetooth lights: packet encoding, the breathing color
wheel and its timing, saved settings and their validation, daily automations,
the privileged helper's safety checks, and the home-network test.

- `src/` is the verified library (Verus). Every function carries a contract;
  the laws of the library (a lap returns to its origin, one step changes one
  channel by one, every packet XORs to zero, shell quoting reads back, ending
  activity stops every effect, an edited command needs a new approval, ...)
  are proof functions next to the code they describe.
- `app/` is the program around it: Bluetooth through btleplug, the local
  socket and its command-line client, the settings file, processes, and the
  floating-point color model.
- `tests/` exercises the library on concrete values.

Trusted pieces are few and marked `#[verifier::external_body]` or
`assume_specification`: SHA-256 (`sha2`), UUID parsing (`uuid`), the `{:?}`
rendering of a string, and `String::push`.

Known limits: white packets for H6005 lights carry the requested Kelvin
value, or zero when a command (such as a preset) gives none. The packet that
switches H6005 lights into their instant music stream is not documented, so
party mode sends its rainbow as ordinary color packets and H6005 lights fade
between them. Experimental payloads are one to seventeen whitespace-separated
hexadecimal bytes sent after the fixed `33 05` prefix.
