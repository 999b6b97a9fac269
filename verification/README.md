# pdmx

Firmware logic of the PDMX show controller (RP2350, W5500 Ethernet), written
in Verus: every decision the board takes is a verified function with a
contract, and the properties the show relies on are proved as laws.

- `src/` — the verified library.
  - `jsonc`, `config`: comment stripping and the configuration rules.
  - `dmx`, `dmx_state`, `neo`, `render`: the DMX universes, Art-Net and the
    RS-485 line, the LED strips and the render loop.
  - `logic`, `sensors`: the show script and the panel that runs it
    (scheduled presses, cancellation on state change, FPP presence).
  - `pulse`, `ask433`, `remote`: the 433 MHz decoder, door sensors, fobs and
    the remote.
  - `dns`, `mdns`, `discovery`, `resolver`, `eth`: mDNS records, queries and
    responses, peer discovery, the resolver task's decisions, the board's
    link-local identity.
  - `fpp`, `tcp_cmds`, `http`: FPP commands, the Chataigne link, the status
    page.
  - `oled`, `sd`, `modules`, `types`: the display framebuffer, MP3
    buffering, module slots, and the board description.
  - `heap`, `text`: the `heapless` buffers used and small text helpers.
- `tests/` — tests of the library on concrete values.
- `app/` — the firmware around the library: tasks, sockets, peripherals and
  the configuration file.
