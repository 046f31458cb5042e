# pci

A library for inspecting PCI devices, verified with Verus, and `lspci-rs`, a
command-line tool built on it.

The library reads PCI configuration space into snapshots, walks the standard
and extended capability lists, decodes the registers of the capabilities it
knows, and renders device lists, inspections and bus trees as text and as a
JSON document model. Reading hardware is left to the caller: the library's
state machines (`reader::ConfigSpaceReader`, `scan::CapabilityScan`) name the
blocks of configuration space they need, and the caller hands back what the
reads gave.

## Layout

- `src/` — the verified library.
  - `config`, `segments`, `reader`: snapshots of configuration space, their
    segments, and the block reader that fills them.
  - `capability`, `scan`, `decoders/`, `names`, `header`: capability lists,
    the capability scan of an inspection, register decoders and names.
  - `device`, `details`, `error`, `field`: addresses, devices, the details
    the PCI library reports, and errors.
  - `text`, `labels`, `order`, `output`, `json`, `tree`, `color`: text
    formatting, ordering, the text and JSON views, and the bus tree.
  - `model`, `styled`, `browser`: the tree model, styled text and key
    handling of the interactive browser.
  - `cli`: the commands of the tool, as plain values.
- `app/` — the `lspci-rs` binary: argument parsing, the libpci bindings and
  session, JSON serialization, and the drawing of the terminal browser.
- `tests/` — tests of the library on concrete values.
