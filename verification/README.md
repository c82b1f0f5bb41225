# switchyard

A microgrid simulator whose rules are stated as contracts and proved with Verus.

A site is a graph of components (grid connection, meters, inverters, batteries,
EV chargers, CHPs) that tick, take commands within narrowed limits, and report
telemetry. Around the sites stand a dispatch store, a scenario runner with its
report, telemetry histories, and the answers that an HTTP interface gives.

## Layout

- `src/` is the verified library.
  - values: `scalar`, `double`, `time`, `text`, `order`, `fold`, `keys`
  - limits and control: `bounds`, `ramp`, `reactive`, `setpoints`, `timeouts`,
    `target`
  - devices: `battery`, `inverter`, `dc_bus`, `ev_charger`, `meter`, `ac`,
    `component`, `runtime`
  - sites: `registry`, `topology`, `graph`, `network`, `physics`, `sampling`,
    `history`, `site`, `world`, `microgrids`, `streams`, `subscriptions`,
    `events`, `csv`
  - time: `clock`, `sim_clock`, `frequency`, `decay`
  - scenarios: `scenario`, `scenarios`, `timeline`, `report`
  - dispatches: `dispatch`, `dispatch_views`, `payload`
  - interface: `queries`, `answers`, `lisp_format`, `ui_log`, `tui_log`
- `tests/` runs the library on concrete values.
- `app/` holds the HTTP server, the tasks and the floating-point arithmetic.

## Numbers

`Scalar` and `Wide` carry the bit patterns of 32- and 64-bit floats. The library
compares, clamps, negates and selects them itself. Arithmetic that rounds comes
in as a function argument, and contracts say which operands it is given. Written
time offsets are the exception: `double` rounds them to double precision on
whole numbers.

## Trusted code

Calls into other crates sit behind small functions marked `external_body`, each
with a comment that says what its contract claims: time zones and timestamps
(`clock`, `time`), component graphs and their formulas (`graph`), the layout
of Lisp source (`lisp_format`), and a few functions of the standard library (`text`,
`dispatch`).
