# lianli-wireless

Drives Lian Li UNI FAN wireless fans through the Lian Li RF dongle, a
transmitter (`0416:8040`) and a receiver (`0416:8041`), so that the fans can be
controlled without L-Connect running.

The library under `src/` is written in Verus: the frames, the replies, the
tracking of groups, the loop with its failsafe, what the command line means and
what the C interface answers each carry a contract, and Verus proves them. It
makes no call to the operating system. It reaches the dongles through two
traits, `dongle::Port` and `engine::Link`, and takes times as nanoseconds.

| Module | Holds |
| --- | --- |
| `frame`, `discovery`, `heartbeat`, `speed` | the frames, replies and payloads |
| `dongle`, `exchanges` | the exchanges with the two devices, and what holds of them |
| `device`, `enumerate`, `process`, `clock`, `win` | what Windows' answers mean |
| `groups`, `laws` | the groups that are heard, and what holds of them |
| `engine`, `model`, `log`, `wanted`, `passes` | the loop, its model, and what holds of a pass |
| `history`, `sayings`, `room` | what holds of any run of requests and passes, what it says of targets, and why its counts do not overflow |
| `pace` | when the loop ticks, sleeps and stops |
| `session`, `probe`, `run` | the command-line diagnostic |
| `ffi` | the C interface's layouts, codes and answers |
| `scripted` | scripted stand-ins for tests |
| `address`, `bytes`, `lists`, `text`, `time` | what the others share |

A pass of the loop is specified by a trace: `model` reads the calls made on the
link and what came back, and says which calls come next and what the loop knows
afterwards. `passes` proves of every such trace that no fan is sent a duty
below the floor, that a lost dongle means full speed for every group in reach,
and more. `history` carries that to any run from the start on: no speed command
stops a fan, what is due goes out, and a released group is left alone.

`app/` is the program around the library: the Win32 calls, the thread the loop
runs on, the exported C functions and the `probe` command.
