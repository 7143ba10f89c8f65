# connect_four

Connect Four with search agents, written in Verus.

- `src/game`: the board (a type invariant keeps pieces settled, one movement
  per piece and turns alternating), the rules that find four in a row, the
  heuristic evaluation, Zobrist hashing and the match context, whose board is
  always the replay of its movement history.
- `src/agents`: minimax with alpha-beta pruning, proved to choose the same
  movement as plain depth-limited minimax; the variant with a transposition
  table; and the verified parts of Monte Carlo tree search (tree, expansion,
  random playouts, backpropagation).
- `src/experiment`: the recorded search trees and their text pictures.
- `app`: the experiments program: printing the search metrics, the Monte Carlo
  search loop (its UCT selection is floating point), and writing the trees
  as Graphviz files.
