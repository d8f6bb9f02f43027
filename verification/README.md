# esp-s3-hal

Board support for the ESP32-S3-WROOM-1: WS2812 LED, GPIO, PWM, ADC, I2C,
audio activity detection, a flash model collection, a small transformer
model loader, BLE central and Wi-Fi access-point/station setup.

- `src/` is the verified library (Verus). It holds every rule the board
  code applies, as functions on plain values with contracts: which pins a
  user may drive, ADC channel mapping and millivolt scaling, PWM channel,
  timer and duty register values, the I2C bus state and transfer framing,
  LED colour scaling, voice-activity detection and the mock microphone,
  the MODL manifest and PLE1 model-blob formats, the BLE task's decisions
  and scan-result collection, CORS response shapes and access-point
  addressing.
- `app/` is the hardware side: peripheral access through `esp-hal`, the
  radio through `esp-radio`, `embassy` tasks, `picoserve` responses, the
  ROM flash reads and the floating-point inference pass. It calls the
  library for every decision.
- `tests/` exercises the library on concrete values.
