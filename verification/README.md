# philo_tui

The interaction and presentation logic of a terminal front end for a coding
agent, verified with Verus.

- `src/api/`: what the composition root and the front end exchange, and the
  approval channel.
- `src/app/text.rs`, `prose/`, `cards.rs`, `cells.rs`, `scroll.rs`: text
  measured in terminal cells, markdown answers, tool cards, the transcript and
  the viewport over it.
- `src/app/input.rs`, `command.rs`, `overlay.rs`, `select.rs`: the editor, the
  slash commands, pickers and approval prompts, pointer selection.
- `src/app/run_state.rs`, `pacer.rs`, `activity.rs`, `live_tool.rs`,
  `status.rs`: what runs, how streamed text is paced, and the status corners.
- `src/app/session.rs`: the replay of a stored session.
- `src/app/state.rs` and `state/`: the state machine that all of this serves.
  `state/coherence.rs`, `append_only.rs` and `draft_safety.rs` prove what every
  operation of it keeps.
- `app/`: the clock, the futures and the renderer's hooks around the library.

Every value has a mathematical view, and each function says in its contract
what it makes of those views. Laws that span several functions stand as public
proof functions at the end of the file they are about.

Time is always the caller's: a function that needs it takes `now`, in
milliseconds of the caller's clock.
