# nucleo_rtos

The logic of a small FreeRTOS application for the Nucleo-F446RE board, verified with Verus.

Four tasks exchange messages through a router: one drives the LED, one watches the user
button, one controls the system (the LED follows the button), and one runs a command
terminal on the serial port, whose output leaves through an interrupt-driven transmit buffer.

- `src/` is the library: messages (`msg`), routing and subscriptions (`router`), the transmit
  buffer (`serial_nb`, a `heapless::Deque`), and one module per task with the task's turn as
  a function from state and received message to new state and action.
- `tests/` runs the library on the host.
- `app/` is the firmware around it: peripherals, FreeRTOS tasks and queues, interrupts.
