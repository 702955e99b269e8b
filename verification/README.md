# embedrs

Firmware for a family of STM32 boards built on Embassy. The rolling-ball
board tilts a plate with two servos to steer a ball: a DJI remote selects
manual, camera or stop mode, a camera reports the ball over a serial line,
and a serial touch screen selects the target position.

- `src/` is the verified library (Verus): the S.Bus frame and DJI remote
  readings (`rc`), the controller's mode and position decisions (`control`),
  the screen protocol (`screen`), the camera line format (`vision`), NMEA RMC
  sentences (`gps`), WS2812 bit patterns (`led`), the byte helpers they share
  (`bytes`), and the `embassy_sync` signals that carry values between tasks
  (`signal`).
- `app/` is the firmware around it for the STM32F401RC board: peripherals,
  tasks, and the floating-point PID and servo control.
- `tests/` runs the library on concrete inputs.
