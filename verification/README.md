# fuzzy_finder

The fuzzy finder of a terminal tab manager: the user types, the tabs that hold the
characters typed are listed, best first, and one of them is chosen.

- `src/` holds the decisions, written in Verus. Each part of the finder is a function
  from what the part holds and the message that reaches it to what it then holds and
  what it gives out, with a contract that says both. The proof functions named `law_...`
  state what holds of the finder as a whole.
- `app/` holds the tasks, the channels and the terminal.
- `tests/` runs the library on concrete values.

The score of a match and the places that it marks are computed by the `fuzzy-matcher` crate;
`src/matcher.rs` states what is taken from it. They depend on the query and the tab alone, unless
the query and the tab both hold a character next to itself, where earlier searches can raise the
score. There, and in texts of more than `CERTAIN_LEN` characters, the contracts bound the score
and leave open which of several alignments is marked.
