# hwall

A read-only Linux hardware inventory and telemetry tool. The decisions it
makes — how sysfs, firmware and helper-tool output are parsed, how devices and
sensors are identified, named, grouped, ordered and reconciled, how alerts move
between states, how the terminal monitor schedules, scrolls and searches, and
how the HTTP endpoint answers — live in a library whose functions carry
`requires`/`ensures` contracts proved with Verus.

## Layout

- `src/` — the verified library.
  - `collect/` — parsers and identification rules for the data sources:
    hwmon, CPU (`/proc/cpuinfo`, cpufreq policies, `/proc/stat`), memory
    (`/proc/meminfo`, EDAC, SPD telemetry pairing), DMI/SMBIOS, PCI, USB,
    block devices, network, Bluetooth, GPUs, energy and perf-event counters,
    effective clocks, and SMART/NVMe health; and the reconciliation of
    records from several collectors (network adapters taking their PCI
    identity, an NVMe controller absorbing its only namespace).
  - `model.rs` — device classes, sensor kinds, natural label order, and the
    rules for merging two records of one device.
  - `hardware.rs`, `rows.rs`, `presentation.rs`, `terminal.rs` — the
    hardware inventory view, the sensor table, and the plain-text hardware,
    sensor and mixed reports of the terminal views.
  - `builder.rs` — merging collector records by device id, and the order
    of devices and readings in a snapshot.
  - `overlay.rs` — overlaying a fast collection pass on the last full one.
  - `monitor.rs` — the background monitor's decisions (full or fast pass,
    when storage health is read, stripping identifying values), and which
    readings a pass did not produce are kept, as stale or unavailable.
  - `alerts.rs` — the alert state machine (duration, hysteresis, cooldown,
    notifications) over threshold hits.
  - `visibility.rs`, `settings.rs`, `logging.rs`, `plasma.rs` — user state,
    settings bounds, log file naming, and KDE Plasma window placement plans.
  - `cli/` — the command-line pieces: HTTP request handling, sampling cadence,
    the sensor table, the monitor header layout and the viewer's key handling.
  - `natural.rs`, `text.rs` — natural ordering of labels and text helpers.
- `tests/` — tests of the library on concrete values.
- `app/` — the `hwall-cli` program: argument parsing, file and process I/O,
  threads, the HTTP server, the terminal UI and JSON output. It asks the
  library what to do (parsing, naming, merging and ordering plans, the
  monitor's next step) and applies the answers to its records; floating-point
  readings and their formatting stay here. It does not yet run every
  collector the library can parse (DMI, Bluetooth, energy, effective clocks
  and memory-module telemetry are not read).

Floating-point formatting and comparisons stay in `app/`; the library works
on integers and on the results of those comparisons.
