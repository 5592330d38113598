# hypha

A status light for systemd services. A server on the host answers, over
HTTP, with the LOAD, ACTIVE and SUB states of the services it watches; an
ESP32 asks it every few seconds and shows the verdict on an LED:

| Light                         | Meaning                                              |
| ----------------------------- | ---------------------------------------------------- |
| off                           | every watched service is up                          |
| solid, followed by n blinks   | n of the watched services are down                   |
| solid                         | the answer could not be read, or no HTTP client      |
| toggled each second           | the request failed                                   |

## Layout

- `src/` — the library, verified with Verus:
  - `unit.rs` — the unit states and their systemd names;
  - `api.rs` — `ServiceStatuses`, a map from service name to states kept in
    ascending name order;
  - `systemd.rs` — checking the requested services against systemd's unit
    files, and reading systemd's unit list into `ServiceStatuses`;
  - `http.rs` — which services are down, which light pattern that calls for,
    the `content-length` header, the server's address;
  - `blink.rs` — the light patterns and the `Blinker` state machine that
    steps through them;
  - `text.rs` — string order, joining, path file names.
- `app/` — the programs: the server (D-Bus, HTTP, command line) on a host,
  and the firmware (Wi-Fi, HTTP client, timers, GPIO) when built for ESP-IDF.
- `tests/` — tests of the library.
