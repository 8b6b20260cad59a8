# i2c_slave

A driver for the I2C controller of the ESP32-C6 in slave mode, verified with Verus.

The library under `src/` decides; it never touches the hardware. An operation of the driver adds
actions to a `Plan`, and the interrupt handler asks for one thing at a time and goes on with the
answer. The crate under `app/` carries plans out on the registers, calls the user's callback and
keeps what the driver and the handler share.

- `register`, `plan`, `platform`: the register map, the actions, and the chip as plain values
- `config`, `driver`, `instance`, `i2c`: configuration, setup, instances and the driver itself
- `event`, `fifo`, `counter`, `state`, `handler`: interrupts, FIFOs and the interrupt handler
- `conversation`, `traffic`, `transaction`: what holds of a whole invocation of the handler, of the
  bytes that it moves, and of a transaction over many invocations
