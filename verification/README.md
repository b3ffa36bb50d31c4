# mocap_bridge

Firmware core for an ESP32 that streams motion-capture rigid body poses to a
PX4 flight controller as MAVLink `VISION_POSITION_ESTIMATE` messages.

`src/` is the verified library, checked by Verus:

- `natnet` — NatNet frame-of-data parser (versions 1.x to 4.x)
- `qtmrt`, `qtm_session` — Qualisys QTM real-time packets and the session
  that asks QTM for 6D frames
- `portal` — the settings, their flash image with CRC-32, the setup form
  (`portal::form`) and page (`portal::html`)
- `server` — the portal's HTTP request parsing, routing and responses
- `mavbridge` — the MAVLink sequence counter and HEARTBEAT frames
- `bridge` — per-tick transmit decisions: heartbeats, pose forwarding,
  tracking loss and the `reset_counter`
- `button` — the factory-reset hold decision
- `wire`, `text` — little-endian fields, UTF-8 text, numbers

Floating-point values stay in their IEEE-754 bit patterns inside the library.

`app/` is the ESP32-C6 firmware around it (esp-hal, Embassy, edge-net):
WiFi, sockets, flash, UART, the frame conversion and the VPE message, which
are floating point.

`tests/` runs the library on concrete packets, images, forms and ticks.
