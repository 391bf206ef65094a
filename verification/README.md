# lidar_faselase

Driver logic for a serial lidar that reports each point as a four-byte frame.

- `src/` is the verified library:
  - `point.rs`: a point and the decoding of its frame (`TryFrom<u32>`), with the frame layout stated as spec functions;
  - `port_buffer.rs`: the receive buffer that the port fills and that yields the points of the frames it holds;
  - `sections.rs`: splits a revolution into sections of equal angle;
  - `zip.rs` and `lib.rs`: the three-byte packing of a point;
  - `frame_collector.rs`: collects packed sections and writes them as one frame.
- `app/` holds what needs the serial port, the clock or floating point: the two driver front ends, the placement of points in the plane, and a demo `main`.
- `tests/` runs the library on concrete values.
