# mutual_watchdog

The decisions of a watchdog device that wakes from deep sleep, pings a home
lab's MQTT broker, and tells a Telegram chat once when the broker stops
answering and once when it answers again. The alert state survives deep sleep
in one 32-bit word.

- `src/` is the verified library (Verus): the alert state machine and its
  laws, the wake-cycle decision, the reading of the broker address and of the
  sleep interval, the bot API request, the MQTT credentials and the seeds of
  the network stack and of the TLS generator, and the steps of the Wi-Fi
  supervisor.
- `tests/` runs the library on concrete values.
- `app/` is the firmware around it (ESP32 / ESP32-C3): Wi-Fi, MQTT, TLS and
  deep sleep. It needs the chip's toolchain and the configuration variables
  (`WIFI_SSID`, `MQTT_SERVER`, `PING_INTERVAL_SECS`, ...) at build time.
