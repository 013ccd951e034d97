# rustytune

Tuning support for Speeduino ECUs, written in Verus: the serial protocol,
the ECU-definition INI front end, the tune and datalog file formats and the
server's own rules carry contracts that Verus proves.

## Layout

- `src/proto/` — TunerStudio Protocol 3: the CRC envelope and its byte-level
  decoder, command templates (`p%2i%2o%2c`, `r\$tsCanId\x30%2o%2c`, ...), the
  secondary-serial decoder, the blocking request/response session, and the
  tune page operations (read in blocking-factor chunks, chunk write, CRC
  check, burn, and a page download checked against the ECU's CRC).
- `src/ini/` — the INI front end: the `#define`/`#if` preprocessor
  (`preprocess`), the value lexer (`lex`), `{ expression }` scanning and
  parsing (`expr`), data types and setting groups (`model`, `sections`),
  the section parsers — `[MegaTune]`, `[Constants]` with its header,
  `[PcVariables]`, `[ConstantsExtensions]`, `[OutputChannels]`
  (`sections`, `constants`), `[TableEditor]`, `[GaugeConfigurations]`
  (`tables`), `[CurveEditor]` (`curves`), `[Menu]`, `[UserDefined]`,
  `[FrontPage]`, `[Datalog]` (`ui`) — the whole definition (`definition`),
  and raw channel decoding (`telemetry`). Numbers of the definition are
  kept as their literal text; giving them floating-point values is left to
  the caller.
- `src/msq/` — `.msq` tune files: reading (quick-xml events folded into the
  file model by verified steps), writing, comparing a file with the tune on
  raw values and planning its application (`diff`), ISO-8859-1 decoding and
  XML escaping; `roundtrip` proves that the reading steps, fed the events
  of the pages `save` writes, file each saved constant back.
- `src/datalog.rs` — the `.msl` line layout, written and read back.
- `src/server/` — configuration defaults, serial-port discovery naming and
  ordering, the tuning lock, device pairing and request authorization, the
  indicator lamps, what the tune menus show (`menus`), and the comms
  worker's decisions (poll outcomes,
  engine-stop shutdown, log retention).
- `src/text.rs`, `src/bytes.rs`, `src/clock.rs` — shared character, byte and
  clock helpers.
- `app/` — the command-line program: serial I/O, files, threads, and the
  floating-point parts (expression evaluation, number values of the
  definition, value rendering).
- `tests/` — executable tests of the library.
