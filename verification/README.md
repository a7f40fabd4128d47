# Kascreech

Kascreech is the server of a real-time multiplayer quiz: a host picks a quiz
from Kahoot, players join with a name, answer each question on their devices,
and see where they stand after every round.

The game engine is a Verus library whose behaviour is stated in contracts and
proved; the program around it does the networking, storage and JSON.

## Layout

- `src/` — the verified library.
  - `server.rs`: the WebSocket server's state (clients and hosted games) and
    how a client's message is routed; `hosting.rs`: asking a question and
    closing a round with its leaderboard; `types.rs`: clients, games, players.
  - `host.rs`, `game.rs`, `player.rs`, `join.rs`, `points.rs`: a hosting
    session driven by events (the host's commands, players joining and
    guessing), with placement-based awards.
  - `database.rs`, `api.rs`: the quiz catalogue — stored quizzes, importing
    from Kahoot, listing, searching and featuring.
  - `quiz.rs`, `server_types.rs`: timed quizzes and colour-coded rounds.
  - `request.rs`: reading a request's body as UTF-8 and its string fields
    as JSON (through humphrey_json).
  - `err.rs`: the refusals a client can get; `ranking.rs`: stable sorting by
    key; `assoc.rs`: lists of keyed entries seen as maps; `text.rs`: string
    helpers; `not_once_cell.rs`: a cell filled on first use.
- `tests/` — tests of the library on concrete games.
- `app/` — the program: the Humphrey HTTP and WebSocket servers, the
  catalogue API over a JasonDB database, fetching quizzes from Kahoot, the
  tokio connection loops of a hosting session, the time-based awards (in
  floating point) and the event log.
