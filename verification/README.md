# improve_command

A verified library that turns the recordings of an assistant's last interactive sessions into a
prompt that asks how the assistant should improve.

* `src/` holds the library, verified with Verus. `recent` chooses the newest sessions without the one
  under way, `session` analyzes a recording, `digest` sums the analyses up, `prompt` renders the
  digest. `text`, `phrase`, `command`, `counts` and `order` hold what these are built of, and `laws`
  states what holds across functions.
* `app/` lists and reads the recorded sessions through a store and calls the library.
* `tests/` runs the library.

Trusted without proof are `String::push` and `String::from_utf8_lossy`, both in `src/text.rs`.
