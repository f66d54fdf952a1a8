# sdmmc

The verified core of an SD card host driver for the STM32 SDMMC peripheral, in both of its
revisions.

The library decides and the application acts. A procedure (bringing a card into service, reading
or writing a block or a row of blocks) is a value of the library: `action` tells what is due at
the peripheral, `resume` takes what came of it, and `abandon` gives the script that sets the
peripheral to rest where the procedure is given up. Whatever the card and the peripheral answer,
the laws in `effect`, `sent`, `init_laws`, `write_laws`, `device_laws` and `store_laws` hold of
every run.

- `types`, `registers`, `cmd`, `words`, `clock`, `card`: the values that the driver deals in
- `script`, `inner`: scripts, and those by which the peripheral is driven
- `transfer`, `job`, `link`, `init`, `write`, `blocks`, `device`: the procedures and the device
- `pins`, `interrupt`: setting the pins, declaring an interrupt
- `effect`, `sent`, `init_scripts`, `init_laws`, `write_laws`, `device_laws`, `store_laws`: what
  holds of them
- `app/`: the driver on the hardware
