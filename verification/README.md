# intel_wifi

A verified Intel WiFi driver: an iwlwifi equivalent for the AX201, AX200, AX210
and AC 9260 families.

- `src/` is the driver: PCI detection, firmware images and their upload, host
  commands, transmit and receive rings, 802.11 frames, scanning, WPA2-PSK with
  the 4-way handshake, AES-CCMP, and the controller that ties them together. It
  touches no hardware. Its functions carry contracts that Verus proves, over
  the mathematical values in each module; the controller's is in
  `src/driver/state.rs`, what holds of it in general in
  `src/driver/laws.rs`, and what whole operations come to in
  `src/driver/runs.rs`.
- `app/` makes the accesses that the driver asks for: I/O ports, device
  registers and DMA memory.
- `tests/` runs the library on concrete values.

Two functions of the standard library are trusted: `core::str::from_utf8`, and
`Vec::as_ptr`, of whose result nothing is assumed.
