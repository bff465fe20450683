# ryguessr

The server of a multiplayer geography guessing game: players share a room,
are shown a street-view panorama, guess where it is, and score by distance.

- `src/` is the game logic, verified with Verus: hex colors, the generator of
  distinct player colors, rooms (members, rounds, guesses, readiness), the
  events rooms broadcast and who receives them, the registry of rooms and
  clients with its lifecycle (creation, joining, event streams, cleanup),
  username generation, road-point decoding, region ordering and sampling.
  Each module states its contracts over spec functions and views; the laws
  that span several operations are public proof functions.
- `app/` is the HTTP server around it: configuration, road-point files,
  the street-view service, the routes and event streams, and the
  floating-point parts (perceptual color distance, distances on the globe,
  scores).
- `tests/` exercises the library on concrete values.

The server reads its word lists for generated usernames from
`assets/english-adjectives.txt` and `assets/english-nouns.txt`.
