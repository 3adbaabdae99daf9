# lumend

Automatic screen brightness for Linux laptops without an ambient light
sensor.

`src/` is the verified library, checked with Verus: the parsers of what the
system reports (sysfs attributes, Hyprland events, zone tables, hyprsunset
output, MPRIS names, power supplies), the choice of backlight device and of
the output to capture, the feature layout and its salted hash groups, the
random generator the models draw from, retry delays, which stored samples to
keep, the record of the daemon's own writes and the brightness-key chord.

`app/` is the program around it: the daemon loop, the source threads and
their I/O, the control socket, the configuration, and the parts that compute
in floating point (sun position, ambient light, the models and the
controller).

`tests/` exercises the library on concrete values.
