# quantum_core

The verified core of a sensor-driven physics world for phones.

- `src/` is the library, verified with Verus:
  - `sensors`: sensor kinds and errors, readings (channel values carried as
    binary32 bit patterns), the `Sensor` trait, the `SensorHub` that routes
    readings to subscribers and remembers the last reading of each kind, and
    the tick noise and timestamps of the simulated sensors.
  - `environment_world`: bounded sample histories and the selection of the
    bodies environment events act on.
  - `true_world_model`: joint handles and the joint registry, and lookup of
    the contact between two bodies.
  - `android_bridge`: sensor kind codes of native callers, the reading a
    pushed sample becomes, and the table of engines addressed by index.
- `app/` is ordinary Rust around it: float sensor values and the simulated
  sensors, the rapier3d physics backend and world, the environment world that
  turns readings into physics events, and the C entry points.
- `tests/` exercises the library.
