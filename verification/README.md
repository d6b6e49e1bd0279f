# embassy_gps

Driver core for the Quectel L76K GPS module, verified with Verus.

- `src/` is the verified library:
  - `types`: states, errors, sentence kinds and events;
  - `fsm`: the recovery-oriented state machine (reset, set up, run, recover) as a step function from state and action outcome to next state and result, with its transition table and recovery laws; `GpsMachine` also takes the writes of a command, which leave its state alone;
  - `line`: framing of NMEA sentence lines from UART bytes, byte by byte or a whole read at a time (128-byte lines, CR skipped, overflow drops the line, UTF-8 check);
  - `event`: which event a parsed sentence emits;
  - `pending`: the eight-slot FIFO of decoded events (on `heapless::Deque`);
  - `driver`: decisions of the receive and command-send loops, and the queueing of one read's events in line order;
  - `pcas`: PCAS03 sentence-rate and PCAS04 constellation commands framed as NMEA with checksum;
  - `clock`, `fix`: fix data, time of day and Unix timestamps (through `chrono`).
- `app/` holds the async I/O around it: UART reads and writes with timeouts, GPIO reset pulses, the `nmea` parser and the ESP32 pin wiring.
- `tests/` exercises the library against concrete values.
