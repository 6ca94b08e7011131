# dg

A verified core for a multi-chip inference framework, written in Verus.

The library in `src/` states what each operation does in `requires`/`ensures`
contracts and Verus proves the code against them:

- `types`, `datatype`, `shape`, `tensor`: element types (with 4-bit packing),
  shapes and strides, tensor descriptors and reshaping.
- `buffer`, `memory`, `device`: shared byte buffers, allocators, a buffer
  cache that reuses released buffers, and the CPU device.
- `media`: media frames, the decode/encode/resize/OSD processing cores,
  nearest-neighbour resizing and box drawing, RGB24/I420 conversion,
  zero-copy transfer planning and codec backend selection.
- `rknn`, `openvino`: backend I/O decisions and padded row layouts
  (padding and de-padding, with a proved round trip).
- `graph`: graph configurations as JSON-valued specs; loading them
  (includes, templates, variables), validating them against a catalog of
  element kinds and their parameter checks, diffing and merging them,
  planning hot updates and routes, the error policy of a run, metrics, pipe
  occupancy, end-of-stream bookkeeping and the work-stealing queues of the
  thread pool.
- `elements`: the routing and delivery kinds (distributor, converger,
  filter, HTTP push): registrations, parameter checks and decisions.
- `ocr`: grouping the lit pixels of a score map into 4-connected regions
  with bounding boxes.
- `preprocess`: detector and classifier input layouts, channel-first and
  channel-last rearrangement (with a proved round trip) and letterbox
  placement.
- `capi`, `cli`, `text`: the value types and checks behind the C ABI, the
  command-line tool's rendering, and string helpers.

`tests/` exercises the library from outside. `app/` is the command-line
program: argument parsing, file reading, printing and threads, built on the
library.
