# garbage_bot

A Matrix bot that reminds a household of tomorrow's waste collection. It asks the city's
collection service, and if there is an account the portal of Berlin Recycling, for the pickups to
come, sends a reminder to every room that it is in, and counts who reacts that the bins are out.

* `src/` is the library: everything that the bot reads, decides and writes, verified with Verus.
  Each module states what its functions do over mathematical views; the functions named `law_...`
  state what holds of several of them together.
* `app/` is the bot around it: the configuration file, the network, the Matrix client and the clock.
* `tests/` runs the library on concrete values.

Calls into other crates (dates, web addresses, JSON, user ids) stand behind small functions whose
doc comments say what is claimed of the call.
