# await_values

Values that can be watched for changes.

A `Value` holds something, and any number of `Observer`s can watch it. Set the
value and every observer that waits is told and gives out the new value; let the
value hang up and every observer's stream of values ends. This is for state,
not for events: observers always see the current value, skip what was there in
between if they poll slowly, and do not give out again what is equal to what
they gave out last.

## Layout

`src/` is the library. Every function in it is verified with Verus, except for
the small wrappers around calls into outside crates and std: those in `stack` and
`wakers`, and the first few in `exfiltrate_provider`. What they are taken to do
is said in their contracts.

| module | what it is |
| --- | --- |
| `value`, `observer` | the two sides of it, for a caller that has the value to itself, and the single steps for callers that share it |
| `look` | looking at a value that others use: leave the waker, read, and take note, one step at a time |
| `value_laws` | what holds of values and observers together |
| `flip_card` | the storage: two slots, one in front, with the steps of readers and writers |
| `flip_card_laws` | what holds however the steps of readers and writers are interleaved |
| `registrations` | who has to be woken, and the steps of those who look for them |
| `wakeup_laws` | no wakeup is lost, however the steps are interleaved |
| `poll_laws` | the two together: looks see what was current, and a poll is told of every value published after it looked |
| `aggregate` | which of several observers to ask, and what to give out |
| `active_observation` | waiting, once, for something to be over |
| `registry`, `registry_laws` | a bounded record of the values that there are |
| `exfiltrate_provider` | answers to `snapshot` requests about that record, and what is taken for granted of `exfiltrate` |
| `report_laws` | what the values hold is never reported |
| `decimal` | whole numbers in decimal notation |
| `stack`, `wakers` | the outside crates `treiber_stack` and `atomic-waker`, and what is taken for granted of them |

`app/` is ordinary Rust around it: it shares values between threads, wakes
tasks, keeps the process-wide registry, and implements `Stream`, `Drop`,
`Display` and the like.

`tests/` runs the library, with real threads where that matters.
