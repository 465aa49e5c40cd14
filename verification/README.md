# sonicbot_matrix

A Matrix chat bot. It joins the rooms its owner invites it to, keeps track of
the rooms it is in, and answers commands written with a prefix (`!help`,
`!list`, `!choose tea or coffee`, `!randfact`).

The library under `src/` holds the bot's decisions, verified with Verus:

- `text`: words, splitting on a separator, joining, prefixes, trimming and
  the order of strings, on character sequences.
- `essentials` and `plugins`: the event handlers (`invited`, `joined`,
  `left`) and the commands (`help`, `list`, `choose`, `randfact`). `left`
  and the commands have exact answers (`choose` for each choice drawn).
  `invited` and `joined` ask the Ctrl-C handler about each room as it comes
  up, so their answer depends on what it says: `invited_room` and
  `joined_room` give the exact answer for one room and one Ctrl-C answer,
  and the handlers' contracts say what holds whatever the answers were.
  Room aliases are not recorded: the bot keeps room IDs only.
  `run_steps` runs the commands that the handlers named and splices their
  answers into the handlers' instructions.
- `instruction_generators`: runs the handlers on the room updates of a sync.
- `bot`: the bot's state, the requests it makes, the rooms it still has to
  join, whether it goes on to the next sync, and how it carries out
  instructions, with the laws that hold of every batch of instructions and
  of the chain of syncs.
- `names`: the sorted module names of a directory listing.
- `bindings`: the calls into other crates, with the contracts the library
  relies on.

The program under `app/` reads the configuration, talks to the homeserver,
turns its JSON into the library's values and performs what the library asks
for.
