# razer

A userspace driver for Razer keyboards and mice over Linux `hidraw`, written in
Verus. The library in `src/` holds the protocol, the device table, and what
`razerd` decides and prints; it performs no I/O, and its functions carry contracts
that Verus proves. The program in `app/` makes the system calls, hands their
results to the library, and does the floating-point arithmetic.

## Layout

| Path | What it holds |
|---|---|
| `src/proto` | The 90-byte report, its checksum, command constructors, response checks |
| `src/devices` | The table of supported devices and their capabilities |
| `src/hid` | Sessions with retries, enumeration, sysfs rules, in-memory stand-ins, laws of whole transactions |
| `src/daemon` | What `razerd` says and does: arguments, listing, interrogation, mode writes, metrics, HTTP |
| `src/text.rs`, `src/time.rs` | Text and spans of time |
| `app` | `razerd`: `main`, ioctls, the live sysfs walk, the clock, the metrics socket |
| `tests` | Tests on concrete values |

## How it is specified

- A report is specified by its wire form, a sequence of 90 bytes; encoding and
  decoding undo each other.
- The traits at the edge (`FeatureTransport`, `Clock`, `SysfsSource`) carry a
  predicate per method that says which outcomes an implementation admits. What a
  session does is stated over those predicates: which buffers go out, in which
  order, what is waited for, and what is returned for each answer. Over the
  in-memory implementations this determines everything.
- Every text that is printed is specified character by character.
- Public proof functions named `law_…` state what holds across functions: the
  transaction id of every buffer comes from the device table, a retry repeats the
  whole exchange, an interrogation only reads, the frame that is shown before a mode
  write is the one that is sent, serial numbers stay private unless asked for, and
  so on.

## What is trusted

Three functions of the standard library that carry an assumed contract:
`String::push`, `str::to_uppercase`, and the `Debug` form of `str`.

Seconds with a fraction reach the library as text.
