# Tamerlane chess engine, verified

A search engine for Tamerlane (Timur) chess on the 11×10 board with citadels,
written in Verus: move generation, evaluation, the transposition tables and the
alpha-beta search carry contracts that Verus proves.

## Layout

- `src/types.rs` — colours, the 46 pieces and their promotions, board geometry,
  the packed move format.
- `src/board.rs` — the mailbox board, Zobrist keys, FEN reading and writing,
  make/unmake, the incremental hash.
- `src/attack.rs`, `src/movegen.rs` — attack detection and pseudo-legal and
  legal move generation, each specified square by square.
- `src/eval.rs` — the hand-crafted evaluation, term by term.
- `src/ordering.rs`, `src/tt.rs` — move ordering (killers, history,
  countermoves) and the single-thread and atomic transposition tables.
- `src/search.rs` — quiescence, alpha-beta with PVS and pruning, iterative
  deepening and the root blunder check.
- `src/uci.rs`, `src/server.rs`, `src/lib.rs` — the UCI protocol, the server's
  request handling and the text answers of the browser API.
- `src/fen_laws.rs` — FEN written and read back gives the same position on
  the 110 ordinary squares (FEN has no field for the citadels).
- `src/move_laws.rs` — the legal captures are among the legal moves.
- `app/` — the executable: the UCI loop on standard input, the WebSocket
  server, the WebAssembly bindings, and the floating-point tables and clock
  the library takes from its caller.
- `tests/` — scenarios run against the compiled library.

## Laws proved

Among others: unmaking a move restores the board; the incremental hash equals
the hash computed from scratch; every legal move stays on the playing squares
and leaves the mover's royal piece unattacked; every legal capture is a legal
move; FEN written by the engine reads
back as the same side to move and the same pieces on the 110 ordinary squares;
a table probe after a store finds the stored entry unless a deeper one for the
same position is kept; packed shared-table entries unpack to what was packed;
the two sides' evaluations of the same pieces sum to the tempo bonus; the
search returns the board unchanged and either a legal move or none, stops only
when a clock reading says the time is up, answers a checkmated side with no
move after one node and a side that can mate in one with a legal move; the
quiescence search finds a mating capture or evasion, and a one-ply search a
mate in one, whose entry it then stores as it is.
