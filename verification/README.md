# uperf

A userspace performance controller for Android. It follows touches, the application
in front, the screen and a mode file, and from them sets kernel nodes, frequency
limits, and the affinity and priority of threads, as a JSON configuration says.

`src/` decides what is done and is verified with Verus:

| Module | What it decides |
|--------|-----------------|
| `fsm` | the current hint, and how long it lasts |
| `input` | touches out of raw input events, and which devices to read |
| `watcher` | what a change of a watched file means |
| `sysfs` | which nodes are written with which values, and which writes can be left out |
| `cpu` | cluster layout, load samples, and frequency limits |
| `sched` | which threads get which processors and priorities |
| `gpu` | the frequency range of a Mali GPU |
| `controller` | modes and presets, and what each event leads to |
| `config` | the configuration |
| `strmap`, `text`, `double` | maps, texts, and the order of floating-point numbers |
| `outside` | what is relied on of other crates |

Each module ends with its laws: proof functions named `law_...` that state what holds
of the module as a whole.

`app/` is the program around it: it reads the configuration, waits for events, computes
with fractions, and carries out what the library asks for. `tests/` runs the library.
