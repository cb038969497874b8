# Speedometer

A GPS speedometer for mobile Linux. What it decides and computes is verified by
[Verus](https://github.com/verus-lang/verus), but for the power by which a change
of speed fades, the cosines and sines of the dial's angles, and the digits of the
numbers on the screen, which the application takes from the machine.

* `src/` is the library: the fusion of position fixes and motion samples, the
  animation of the needle, the layout of the window as a list of drawing
  commands, and the state machines of the background threads. Numbers are
  IEEE 754 doubles held as bit patterns; `src/double/` implements their
  arithmetic and proves every result correctly rounded. `src/laws/` states and
  proves what holds of the library as a whole.
* `app/` is the application around it: GTK and libadwaita, the location portal,
  the sensor service on D-Bus, threads and timers.
* `tests/` runs the library, against the machine's own floating point where a
  formula is at stake.

The library rests on two outside functions whose behaviour is stated, not
proved: writing out a match rule with zbus (`src/accelerometer.rs`), and offering
a sample to a channel of async-channel (`src/imu.rs`).
