# gc_controller

The verified core of a low-latency macOS driver for the **Nintendo Switch Online
GameCube controller** (`057E:2073`). It decodes the controller's reports, applies
the factory calibration stored in its flash, and turns them into the text protocol
of Dolphin's pipe backend.

## Layout

```
src/
  protocol/      Transport-independent: command frames, report 0x05, calibration
  transport/     Bringing a controller up, and what is particular to USB and BLE
  output/        pipe.rs - Dolphin's commands; dump.rs - the same for people
  driver.rs      What to do with each report, and when to stop
  latency.rs     Inter-arrival histogram; identifies the negotiated interval
  meter.rs       The achieved report rate
  rounding.rs    Floating-point arithmetic, stated over whole numbers
  reading.rs     Stick and trigger readings in single precision, bit for bit
  double.rs      Rates in double precision, bit for bit
  digits.rs, text.rs, clock.rs
tests/           The library on concrete values
app/             The program: command line, rusb, hidapi, btleplug, the FIFO
```

The library in `src/` is verified with [Verus](https://github.com/verus-lang/verus).
Functions state what they return over mathematical models, and proof functions named
`law_...` state what holds across them:

- a steady controller sends Dolphin nothing, silence hides no change that Dolphin
  could see, and an update that was dropped is made good by the next one;
- every update fits in one atomic write;
- the centre of a stick reads exactly 0 and the ends of its range exactly 1 and -1,
  a full pull of a trigger reads exactly 1 whatever the deadzone, and more travel
  never reads less;
- user calibration overrides the factory's exactly where it was written;
- bringing a controller up always comes to an end, and reads all calibration before
  the first command of the initialisation sequence.

What the proofs rest on without proof is marked `external_body` or
`assume_specification`: the clock, `String::from_utf8_lossy`, a sort, and the parsing
of UUIDs.

The program in `app/` is ordinary Rust. On macOS it has to be linked with an Objective-C
shim that asks CoreBluetooth for a faster connection interval, which is not part of this
repository: `app/ble_latency.rs` declares the six functions that it calls.
