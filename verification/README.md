# bear-anki-sync

Flashcards that are written as callout blocks in [Bear](https://bear.app) notes, kept in
[Anki](https://apps.ankiweb.net/) through AnkiConnect.

`src/` is the library. It is verified with [Verus](https://github.com/verus-lang/verus): every
function states what it gives back, and the files that end in `_laws.rs` state what holds of the
whole, such as that after a run which succeeds exactly the cards of the notes it looked at are
tracked in these notes, that a second run changes nothing, or that a tracked card stays in its note
in Anki.

- `parser`, `outline`: the cards in a note, their decks and their order
- `render`, `card_note`: what Anki shows of a card, and the digest by which changes are seen
- `scope`, `sync`, `apply`: a run, step by step
- `anki`, `json`: the requests of AnkiConnect and its replies
- `state`, `config`, `paths`: what is kept between runs
- `commands`, `messages`, `menu`, `bundle`: what the two programs show
- `text`, `chars`, `text_map`, `lists`, `digest`: the vocabulary of the rest

`app/` is the program around the library: the command line in `main.rs`, the menu bar application
in `menu_bar.rs`. It reads Bear's database, talks to AnkiConnect over HTTP and writes files. A run
is a loop there: the library says what is to be done next, the program does it and hands the
answer back.
