# mesh_monitor

A monitor for a radio mesh network that talks to a radio manager over MQTT. It
decodes the mesh frames the manager forwards, keeps track of which nodes are online,
their parents and neighbours, their versions and the whitelist, runs network tests,
and sends mesh commands (register, leave, set PAN id, version queries) back.

The library under `src/` is verified with Verus:

- `frame_lib` — hexadecimal text, the CRC-16 of inner mesh frames, the inner (0x69)
  and outer (0x68) frame builders and the CRC check.
- `frame_deal` — the frame processors that turn status, leave and response frames
  into events, and the dispatcher that hands a frame to the processors of its type.
- `mqtts` — message tokens and mesh messages, the scan for mesh frames inside
  received data, and the routing of an incoming message to a request.
- `sl_mesh`, `react_mqtt` — the stores (online list, topology, neighbours, whitelist,
  versions, network test) and the handlers of each request, which return the
  messages to publish.
- `str_map` — a map keyed by text that keeps its entries in insertion order.
- `log` — the records of the frame log and its stored write position.

`app/` is the program around the library: the MQTT connection, the JSON forms of
the messages, the log file, and the network-test runner thread.
