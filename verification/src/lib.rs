//! Message routing and task logic for a FreeRTOS application on the Nucleo-F446RE board.
//!
//! Four tasks exchange messages through a router: one blinks the LED, one watches the button,
//! one controls the system, and one runs a terminal on the serial port. The board-specific
//! parts (peripherals, the scheduler, queues and interrupts) live in the application around
//! this library; here stand the decisions those parts act on.

pub mod msg;
pub mod router;
pub mod serial_nb;
pub mod task_blink;
pub mod task_button;
pub mod task_controller;
pub mod task_terminal;
